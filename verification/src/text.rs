//! Operations on text, stated over the sequence of characters that a string shows.
use vstd::prelude::*;

verus! {

/// `String::push` appends one character.
pub assume_specification[ String::push ](s: &mut String, c: char)
    ensures
        final(s)@ == old(s)@.push(c),
;

/// The characters of a string, one by one.
pub fn chars_of(s: &str) -> (r: Vec<char>)
    ensures
        r@ == s@,
{
    let mut out: Vec<char> = Vec::new();
    for c in it: s.chars()
        invariant
            it.seq() == s@,
            out@ == s@.take(it.index()),
    {
        out.push(c);
        proof {
            assert(s@.take(it.index() + 1) =~= s@.take(it.index()).push(c));
        }
    }
    proof {
        assert(s@.take(s@.len() as int) =~= s@);
    }
    out
}

/// The string made of the characters `from .. to` of `chars`.
pub fn text_of(chars: &Vec<char>, from: usize, to: usize) -> (r: String)
    requires
        from <= to <= chars@.len(),
    ensures
        r@ == chars@.subrange(from as int, to as int),
{
    let mut out: String = String::new();
    let mut i: usize = from;
    while i < to
        invariant
            from <= i <= to <= chars@.len(),
            out@ == chars@.subrange(from as int, i as int),
        decreases to - i,
    {
        out.push(chars[i]);
        proof {
            assert(chars@.subrange(from as int, i + 1) =~= chars@.subrange(
                from as int,
                i as int,
            ).push(chars@[i as int]));
        }
        i = i + 1;
    }
    out
}

/// Whether two strings hold the same characters.
pub fn same_text(a: &str, b: &str) -> (r: bool)
    ensures
        r == (a@ == b@),
{
    let left: Vec<char> = chars_of(a);
    let right: Vec<char> = chars_of(b);
    if left.len() != right.len() {
        return false;
    }
    let mut i: usize = 0;
    while i < left.len()
        invariant
            left@ == a@,
            right@ == b@,
            left@.len() == right@.len(),
            i <= left@.len(),
            forall|k: int| 0 <= k < i ==> a@[k] == b@[k],
        decreases left.len() - i,
    {
        if left[i] != right[i] {
            return false;
        }
        i = i + 1;
    }
    assert(a@ =~= b@);
    true
}

/// The characters with the Unicode property `White_Space`.
pub open spec fn is_space(c: char) -> bool {
    ||| '\u{9}' <= c <= '\u{d}'
    ||| c == ' '
    ||| c == '\u{85}'
    ||| c == '\u{a0}'
    ||| c == '\u{1680}'
    ||| '\u{2000}' <= c <= '\u{200a}'
    ||| c == '\u{2028}'
    ||| c == '\u{2029}'
    ||| c == '\u{202f}'
    ||| c == '\u{205f}'
    ||| c == '\u{3000}'
}

fn space(c: char) -> (r: bool)
    ensures
        r == is_space(c),
{
    ('\u{9}' <= c && c <= '\u{d}') || c == ' ' || c == '\u{85}' || c == '\u{a0}' || c == '\u{1680}'
        || ('\u{2000}' <= c && c <= '\u{200a}') || c == '\u{2028}' || c == '\u{2029}' || c
        == '\u{202f}' || c == '\u{205f}' || c == '\u{3000}'
}

/// `s` without the white space it starts with.
pub open spec fn trim_start(s: Seq<char>) -> Seq<char>
    decreases s.len(),
{
    if s.len() > 0 && is_space(s[0]) {
        trim_start(s.drop_first())
    } else {
        s
    }
}

/// `s` without the white space it ends with.
pub open spec fn trim_end(s: Seq<char>) -> Seq<char>
    decreases s.len(),
{
    if s.len() > 0 && is_space(s.last()) {
        trim_end(s.drop_last())
    } else {
        s
    }
}

/// `s` without the white space around it.
pub open spec fn trimmed(s: Seq<char>) -> Seq<char> {
    trim_end(trim_start(s))
}

/// `s` without the run of `c` it ends with.
pub open spec fn strip_trailing(s: Seq<char>, c: char) -> Seq<char>
    decreases s.len(),
{
    if s.len() > 0 && s.last() == c {
        strip_trailing(s.drop_last(), c)
    } else {
        s
    }
}

/// Removes the white space around `s`.
pub fn trim(s: &str) -> (r: String)
    ensures
        r@ == trimmed(s@),
{
    let chars: Vec<char> = chars_of(s);
    let mut from: usize = 0;
    assert(chars@.skip(0) =~= s@);
    while from < chars.len() && space(chars[from])
        invariant
            chars@ == s@,
            from <= chars@.len(),
            trim_start(s@) == trim_start(chars@.skip(from as int)),
        decreases chars.len() - from,
    {
        proof {
            assert(chars@.skip(from as int).drop_first() =~= chars@.skip(from + 1));
        }
        from = from + 1;
    }
    let ghost middle = chars@.skip(from as int);
    let mut to: usize = chars.len();
    assert(middle.take(to - from) =~= middle);
    while from < to && space(chars[to - 1])
        invariant
            from <= to <= chars@.len(),
            middle == chars@.skip(from as int),
            trim_end(middle) == trim_end(middle.take(to - from)),
        decreases to,
    {
        proof {
            assert(middle.take(to - from).drop_last() =~= middle.take(to - from - 1));
        }
        to = to - 1;
    }
    assert(middle.take(to - from) =~= chars@.subrange(from as int, to as int));
    text_of(&chars, from, to)
}

/// Removes every `c` at the end of `s`.
pub fn trim_end_matches(s: &str, c: char) -> (r: String)
    ensures
        r@ == strip_trailing(s@, c),
{
    let chars: Vec<char> = chars_of(s);
    let mut to: usize = chars.len();
    assert(chars@.take(to as int) =~= s@);
    while 0 < to && chars[to - 1] == c
        invariant
            to <= chars@.len(),
            strip_trailing(s@, c) == strip_trailing(chars@.take(to as int), c),
        decreases to,
    {
        proof {
            assert(chars@.take(to as int).drop_last() =~= chars@.take(to - 1));
        }
        to = to - 1;
    }
    assert(chars@.take(to as int) =~= chars@.subrange(0, to as int));
    text_of(&chars, 0, to)
}

/// The lower-case form of an ASCII letter; any other character stays as it is.
pub open spec fn ascii_lower(c: char) -> char {
    if 'A' <= c <= 'Z' {
        ((c as u32) + 32) as char
    } else {
        c
    }
}

/// `s` with every ASCII letter in lower case.
pub open spec fn ascii_lowered(s: Seq<char>) -> Seq<char> {
    Seq::new(s.len(), |i: int| ascii_lower(s[i]))
}

/// Whether `s` holds ASCII characters only.
pub open spec fn all_ascii(s: Seq<char>) -> bool {
    forall|i: int| 0 <= i < s.len() ==> #[trigger] s[i] <= '\u{7f}'
}

/// A text in lower case.
pub uninterp spec fn lowercase_of(text: Seq<char>) -> Seq<char>;

/// `str::to_lowercase` gives a text in lower case by the rules of Unicode. Where the text is ASCII,
/// its ASCII letters change case and nothing else does.
#[verifier::external_body]
pub(crate) fn to_lowercase(text: &str) -> (r: String)
    ensures
        r@ == lowercase_of(text@),
        all_ascii(text@) ==> r@ == ascii_lowered(text@),
{
    text.to_lowercase()
}

/// Whether `a` and `b` differ at most in the case of ASCII letters.
pub open spec fn same_ignoring_case(a: Seq<char>, b: Seq<char>) -> bool {
    &&& a.len() == b.len()
    &&& forall|i: int| 0 <= i < a.len() ==> ascii_lower(#[trigger] a[i]) == ascii_lower(b[i])
}

fn lower_code(c: char) -> (r: u32)
    ensures
        r == ascii_lower(c) as u32,
{
    if 'A' <= c && c <= 'Z' {
        (c as u32) + 32
    } else {
        c as u32
    }
}

/// Whether `a` and `b` differ at most in the case of ASCII letters.
pub fn eq_ignore_ascii_case(a: &str, b: &str) -> (r: bool)
    ensures
        r == same_ignoring_case(a@, b@),
{
    let left: Vec<char> = chars_of(a);
    let right: Vec<char> = chars_of(b);
    if left.len() != right.len() {
        return false;
    }
    let mut i: usize = 0;
    while i < left.len()
        invariant
            left@ == a@,
            right@ == b@,
            left@.len() == right@.len(),
            i <= left@.len(),
            forall|k: int| 0 <= k < i ==> ascii_lower(#[trigger] a@[k]) == ascii_lower(b@[k]),
        decreases left.len() - i,
    {
        if lower_code(left[i]) != lower_code(right[i]) {
            assert(ascii_lower(a@[i as int]) != ascii_lower(b@[i as int]));
            return false;
        }
        i = i + 1;
    }
    true
}

/// Whether `s` begins with `prefix`.
pub fn starts_with(s: &str, prefix: &str) -> (r: bool)
    ensures
        r == prefix@.is_prefix_of(s@),
{
    let chars: Vec<char> = chars_of(s);
    let head: Vec<char> = chars_of(prefix);
    if head.len() > chars.len() {
        return false;
    }
    let mut i: usize = 0;
    while i < head.len()
        invariant
            chars@ == s@,
            head@ == prefix@,
            head@.len() <= chars@.len(),
            i <= head@.len(),
            forall|k: int| 0 <= k < i ==> s@[k] == prefix@[k],
        decreases head.len() - i,
    {
        if chars[i] != head[i] {
            assert(s@.subrange(0, prefix@.len() as int)[i as int] == s@[i as int]);
            return false;
        }
        i = i + 1;
    }
    assert(prefix@ =~= s@.subrange(0, prefix@.len() as int));
    true
}

/// Whether `s` ends with `suffix`.
pub fn ends_with(s: &str, suffix: &str) -> (r: bool)
    ensures
        r == suffix@.is_suffix_of(s@),
{
    let chars: Vec<char> = chars_of(s);
    let tail: Vec<char> = chars_of(suffix);
    if tail.len() > chars.len() {
        return false;
    }
    let total: usize = chars.len();
    let skip: usize = total - tail.len();
    let mut i: usize = 0;
    while i < tail.len()
        invariant
            total == chars@.len(),
            chars@ == s@,
            tail@ == suffix@,
            skip + tail@.len() == chars@.len(),
            i <= tail@.len(),
            forall|k: int| 0 <= k < i ==> s@[skip + k] == suffix@[k],
        decreases tail.len() - i,
    {
        if chars[skip + i] != tail[i] {
            assert(s@.subrange(s@.len() - suffix@.len(), s@.len() as int)[i as int] == s@[skip
                + i]);
            return false;
        }
        i = i + 1;
    }
    assert(suffix@ =~= s@.subrange(s@.len() - suffix@.len(), s@.len() as int));
    true
}

/// The part of `s` after its first `n` characters.
pub fn skip_chars(s: &str, n: usize) -> (r: String)
    requires
        n <= s@.len(),
    ensures
        r@ == s@.skip(n as int),
{
    let chars: Vec<char> = chars_of(s);
    assert(chars@.subrange(n as int, chars@.len() as int) =~= s@.skip(n as int));
    text_of(&chars, n, chars.len())
}

/// The position of the first `c` in `s`, or the length of `s` where there is none.
pub open spec fn first_index(s: Seq<char>, c: char) -> int
    decreases s.len(),
{
    if s.len() == 0 || s[0] == c {
        0
    } else {
        1 + first_index(s.drop_first(), c)
    }
}

/// The position of the last `c` in `s`, or -1 where there is none.
pub open spec fn last_index(s: Seq<char>, c: char) -> int
    decreases s.len(),
{
    if s.len() == 0 {
        -1
    } else if s.last() == c {
        s.len() - 1
    } else {
        last_index(s.drop_last(), c)
    }
}

/// What `first_index` is: the one position with a `c` at it and none before it.
pub proof fn lemma_first_index(s: Seq<char>, c: char)
    ensures
        0 <= first_index(s, c) <= s.len(),
        first_index(s, c) < s.len() ==> s[first_index(s, c)] == c,
        forall|i: int| 0 <= i < first_index(s, c) ==> s[i] != c,
        first_index(s, c) < s.len() <==> s.contains(c),
    decreases s.len(),
{
    if s.len() > 0 && s[0] != c {
        lemma_first_index(s.drop_first(), c);
        assert forall|i: int| 0 <= i < first_index(s, c) implies s[i] != c by {
            if i > 0 {
                assert(s[i] == s.drop_first()[i - 1]);
            }
        }
    }
}

/// What `last_index` is: the one position with a `c` at it and none behind it.
pub proof fn lemma_last_index(s: Seq<char>, c: char)
    ensures
        -1 <= last_index(s, c) < s.len(),
        last_index(s, c) >= 0 ==> s[last_index(s, c)] == c,
        forall|i: int| last_index(s, c) < i < s.len() ==> s[i] != c,
        last_index(s, c) >= 0 <==> s.contains(c),
    decreases s.len(),
{
    if s.len() > 0 && s.last() != c {
        lemma_last_index(s.drop_last(), c);
        assert forall|i: int| last_index(s, c) < i < s.len() implies s[i] != c by {
            if i < s.len() - 1 {
                assert(s[i] == s.drop_last()[i]);
            }
        }
    }
}

/// The position of the first `c` at or behind `from`, or the length where there is none.
fn find_from(chars: &Vec<char>, from: usize, c: char) -> (r: usize)
    requires
        from <= chars@.len(),
    ensures
        r == from + first_index(chars@.skip(from as int), c),
        from <= r <= chars@.len(),
{
    let mut i: usize = from;
    while i < chars.len() && chars[i] != c
        invariant
            from <= i <= chars@.len(),
            from + first_index(chars@.skip(from as int), c) == i + first_index(
                chars@.skip(i as int),
                c,
            ),
        decreases chars.len() - i,
    {
        proof {
            assert(chars@.skip(i as int).drop_first() =~= chars@.skip(i + 1));
        }
        i = i + 1;
    }
    i
}

/// The position of the first `c` in `s`, if there is one.
pub fn find(s: &str, c: char) -> (r: Option<usize>)
    ensures
        r == (if s@.contains(c) {
            Some(first_index(s@, c) as usize)
        } else {
            None
        }),
        r matches Some(i) ==> i == first_index(s@, c) && i < s@.len(),
{
    let chars: Vec<char> = chars_of(s);
    assert(chars@.skip(0) =~= s@);
    let i: usize = find_from(&chars, 0, c);
    proof {
        lemma_first_index(s@, c);
    }
    if i < chars.len() {
        Some(i)
    } else {
        None
    }
}

/// The two sides of the first `c` in `s`, if there is one.
pub open spec fn split_once_at(s: Seq<char>, c: char) -> Option<(Seq<char>, Seq<char>)> {
    if s.contains(c) {
        Some((s.take(first_index(s, c)), s.skip(first_index(s, c) + 1)))
    } else {
        None
    }
}

/// The two sides of the last `c` in `s`, if there is one.
pub open spec fn rsplit_once_at(s: Seq<char>, c: char) -> Option<(Seq<char>, Seq<char>)> {
    if s.contains(c) {
        Some((s.take(last_index(s, c)), s.skip(last_index(s, c) + 1)))
    } else {
        None
    }
}

/// The two sides of the first `c` in `s`, if there is one.
pub fn split_once(s: &str, c: char) -> (r: Option<(String, String)>)
    ensures
        r.deep_view() == split_once_at(s@, c),
{
    let chars: Vec<char> = chars_of(s);
    match find(s, c) {
        Some(i) => {
            assert(chars@.subrange(0, i as int) =~= s@.take(i as int));
            assert(chars@.subrange(i + 1, chars@.len() as int) =~= s@.skip(i + 1));
            Some((text_of(&chars, 0, i), text_of(&chars, i + 1, chars.len())))
        },
        None => None,
    }
}

/// The two sides of the last `c` in `s`, if there is one.
pub fn rsplit_once(s: &str, c: char) -> (r: Option<(String, String)>)
    ensures
        r.deep_view() == rsplit_once_at(s@, c),
{
    let chars: Vec<char> = chars_of(s);
    let mut i: usize = chars.len();
    assert(chars@.take(i as int) =~= s@);
    while 0 < i && chars[i - 1] != c
        invariant
            i <= chars@.len(),
            last_index(s@, c) == last_index(chars@.take(i as int), c),
        decreases i,
    {
        proof {
            assert(chars@.take(i as int).drop_last() =~= chars@.take(i - 1));
        }
        i = i - 1;
    }
    proof {
        lemma_last_index(s@, c);
    }
    if 0 < i {
        assert(chars@.subrange(0, i - 1) =~= s@.take(i - 1));
        assert(chars@.subrange(i as int, chars@.len() as int) =~= s@.skip(i as int));
        Some((text_of(&chars, 0, i - 1), text_of(&chars, i, chars.len())))
    } else {
        None
    }
}

/// The pieces of `s` between the `c` in it; one piece where it holds none.
pub open spec fn split_at(s: Seq<char>, c: char) -> Seq<Seq<char>>
    decreases s.len(),
{
    if 0 <= first_index(s, c) < s.len() {
        seq![s.take(first_index(s, c))] + split_at(s.skip(first_index(s, c) + 1), c)
    } else {
        seq![s]
    }
}

/// The pieces of `s` between the `c` in it; one piece where it holds none.
pub fn split(s: &str, c: char) -> (r: Vec<String>)
    ensures
        r.deep_view() == split_at(s@, c),
{
    let chars: Vec<char> = chars_of(s);
    let mut out: Vec<String> = Vec::new();
    let mut from: usize = 0;
    assert(chars@.skip(0) =~= s@);
    assert(out.deep_view() + split_at(s@, c) =~= split_at(s@, c));
    loop
        invariant
            from <= chars@.len(),
            out.deep_view() + split_at(chars@.skip(from as int), c) == split_at(s@, c),
        decreases chars.len() - from,
    {
        let to: usize = find_from(&chars, from, c);
        let piece: String = text_of(&chars, from, to);
        let ghost rest = chars@.skip(from as int);
        let ghost before = out.deep_view();
        proof {
            lemma_first_index(rest, c);
            assert(chars@.subrange(from as int, to as int) =~= rest.take(to - from));
        }
        out.push(piece);
        assert(out.deep_view() =~= before.push(piece@));
        if to == chars.len() {
            assert(rest.take(to - from) =~= rest);
            assert(before + seq![rest] =~= out.deep_view());
            return out;
        }
        proof {
            assert(rest.skip(to - from + 1) =~= chars@.skip(to + 1));
            assert(before + (seq![piece@] + split_at(chars@.skip(to + 1), c)) =~= out.deep_view()
                + split_at(chars@.skip(to + 1), c));
        }
        from = to + 1;
    }
}

/// The character of a decimal digit.
pub open spec fn digit(d: nat) -> char {
    (48 + d) as char
}

/// `n` in decimal, without leading zeros.
pub open spec fn decimal(n: nat) -> Seq<char>
    decreases n,
{
    if n < 10 {
        seq![digit(n)]
    } else {
        decimal(n / 10).push(digit(n % 10))
    }
}

/// Whether `c` is one of `0` to `9`.
pub open spec fn is_digit(c: char) -> bool {
    '0' <= c <= '9'
}

/// Whether `s` holds decimal digits only.
pub open spec fn all_digits(s: Seq<char>) -> bool {
    forall|i: int| 0 <= i < s.len() ==> is_digit(#[trigger] s[i])
}

/// The number that the digits `s` write in decimal.
pub open spec fn digits_value(s: Seq<char>) -> nat
    decreases s.len(),
{
    if s.len() == 0 {
        0
    } else {
        digits_value(s.drop_last()) * 10 + ((s.last() as int - 48) as nat)
    }
}

/// `n` in decimal, without leading zeros.
pub fn decimal_text(n: u64) -> (r: String)
    ensures
        r@ == decimal(n as nat),
    decreases n,
{
    if n < 10 {
        let mut out: String = String::new();
        out.push((48 + n as u8) as char);
        assert(out@ =~= decimal(n as nat));
        out
    } else {
        let mut out: String = decimal_text(n / 10);
        out.push((48 + (n % 10) as u8) as char);
        out
    }
}

/// Decimal text is made of digits, has at least one, and writes the number it came from.
pub proof fn lemma_decimal(n: nat)
    ensures
        decimal(n).len() > 0,
        all_digits(decimal(n)),
        digits_value(decimal(n)) == n,
    decreases n,
{
    if n < 10 {
        assert(decimal(n).drop_last() =~= Seq::<char>::empty());
        assert(digits_value(decimal(n).drop_last()) == 0);
    } else {
        lemma_decimal(n / 10);
        assert(decimal(n).drop_last() =~= decimal(n / 10));
    }
}

/// The number that the text writes in decimal digits, if it writes one and none above `max`.
pub open spec fn number_value(s: Seq<char>, max: nat) -> Option<nat> {
    if s.len() > 0 && all_digits(s) && digits_value(s) <= max {
        Some(digits_value(s))
    } else {
        None
    }
}

/// The number that the text writes, as a port: decimal digits, after at most one `+`.
pub open spec fn port_value(s: Seq<char>) -> Option<u16> {
    let digits = if s.len() > 0 && s[0] == '+' {
        s.skip(1)
    } else {
        s
    };
    match number_value(digits, 65535) {
        Some(port) => Some(port as u16),
        None => None,
    }
}

/// Numbers only grow when more digits follow.
proof fn lemma_digits_value_grows(s: Seq<char>, n: int)
    requires
        all_digits(s),
        0 <= n <= s.len(),
    ensures
        digits_value(s.take(n)) <= digits_value(s),
    decreases s.len() - n,
{
    if n < s.len() {
        lemma_digits_value_grows(s, n + 1);
        assert(s.take(n + 1).drop_last() =~= s.take(n));
        assert(is_digit(s[n]));
    } else {
        assert(s.take(n) =~= s);
    }
}

/// Reads a number of decimal digits that is at most `max`.
pub fn parse_number(s: &str, max: u32) -> (r: Option<u32>)
    ensures
        r == (match number_value(s@, max as nat) {
            Some(n) => Some(n as u32),
            None => None,
        }),
{
    let chars: Vec<char> = chars_of(s);
    let ghost digits = chars@;
    if chars.len() == 0 {
        return None;
    }
    let mut value: u64 = 0;
    let mut i: usize = 0;
    assert(digits.take(0) =~= Seq::<char>::empty());
    while i < chars.len()
        invariant
            i <= chars@.len(),
            digits == chars@,
            chars@ == s@,
            all_digits(digits.take(i as int)),
            value == digits_value(digits.take(i as int)),
            value <= max,
        decreases chars.len() - i,
    {
        let c: char = chars[i];
        if c < '0' || '9' < c {
            assert(!is_digit(digits[i as int]));
            return None;
        }
        let next: u64 = value * 10 + (c as u64 - 48);
        proof {
            assert(digits.take(i + 1).drop_last() =~= digits.take(i as int));
            assert forall|k: int| 0 <= k < i + 1 implies is_digit(
                #[trigger] digits.take(i + 1)[k],
            ) by {
                if k < i {
                    assert(is_digit(digits.take(i as int)[k]));
                }
            }
        }
        if next > max as u64 {
            proof {
                if all_digits(digits) {
                    lemma_digits_value_grows(digits, i + 1);
                }
            }
            return None;
        }
        value = next;
        i = i + 1;
    }
    assert(digits.take(i as int) =~= digits);
    Some(value as u32)
}

/// Reads a port number: decimal digits, after at most one `+`, up to 65535.
pub fn parse_port(s: &str) -> (r: Option<u16>)
    ensures
        r == port_value(s@),
{
    let chars: Vec<char> = chars_of(s);
    let number: Option<u32> = if chars.len() > 0 && chars[0] == '+' {
        parse_number(skip_chars(s, 1).as_str(), 65535)
    } else {
        parse_number(s, 65535)
    };
    match number {
        Some(port) => Some(port as u16),
        None => None,
    }
}

/// A port written in decimal is read back.
pub proof fn lemma_port_round_trip(port: u16)
    ensures
        port_value(decimal(port as nat)) == Some(port),
{
    lemma_decimal(port as nat);
    assert(is_digit(decimal(port as nat)[0]));
}

/// The character of a hexadecimal digit, in lower case.
pub open spec fn hex_digit(d: nat) -> char {
    if d < 10 {
        (48 + d) as char
    } else {
        (87 + d) as char
    }
}

/// A byte as two hexadecimal digits.
pub open spec fn hex_byte(b: u8) -> Seq<char> {
    seq![hex_digit((b / 16) as nat), hex_digit((b % 16) as nat)]
}

fn hex_char(d: u8) -> (r: char)
    requires
        d < 16,
    ensures
        r == hex_digit(d as nat),
{
    if d < 10 {
        (48 + d) as char
    } else {
        (87 + d) as char
    }
}

/// Appends a byte as two hexadecimal digits.
pub fn push_hex_byte(out: &mut String, b: u8)
    ensures
        final(out)@ == old(out)@ + hex_byte(b),
{
    out.push(hex_char(b / 16));
    out.push(hex_char(b % 16));
    assert(out@ =~= old(out)@ + hex_byte(b));
}

/// The order of strings: by the first character in which they differ, the shorter first where
/// one begins the other.
pub open spec fn precedes(a: Seq<char>, b: Seq<char>) -> bool
    decreases a.len(),
{
    if b.len() == 0 {
        false
    } else if a.len() == 0 {
        true
    } else if a[0] != b[0] {
        a[0] < b[0]
    } else {
        precedes(a.drop_first(), b.drop_first())
    }
}

/// The order of strings is strict and total.
pub proof fn lemma_precedes_total(a: Seq<char>, b: Seq<char>)
    ensures
        precedes(a, b) ==> a != b && !precedes(b, a),
        a == b || precedes(a, b) || precedes(b, a),
    decreases a.len(),
{
    if a.len() > 0 && b.len() > 0 && a[0] == b[0] {
        lemma_precedes_total(a.drop_first(), b.drop_first());
        if a.drop_first() == b.drop_first() {
            assert(a =~= seq![a[0]] + a.drop_first());
            assert(b =~= seq![b[0]] + b.drop_first());
        }
    } else if a.len() == 0 && b.len() == 0 {
        assert(a =~= b);
    }
}

/// The order of strings is transitive.
pub proof fn lemma_precedes_transitive(a: Seq<char>, b: Seq<char>, c: Seq<char>)
    requires
        precedes(a, b),
        precedes(b, c),
    ensures
        precedes(a, c),
    decreases a.len(),
{
    if a.len() > 0 && a[0] == b[0] && b[0] == c[0] {
        lemma_precedes_transitive(a.drop_first(), b.drop_first(), c.drop_first());
    }
}

/// Whether `a` comes before `b` in the order of strings.
pub fn text_precedes(a: &str, b: &str) -> (r: bool)
    ensures
        r == precedes(a@, b@),
{
    let left: Vec<char> = chars_of(a);
    let right: Vec<char> = chars_of(b);
    let mut i: usize = 0;
    assert(left@.skip(0) =~= a@);
    assert(right@.skip(0) =~= b@);
    while i < left.len() && i < right.len() && left[i] == right[i]
        invariant
            i <= left@.len(),
            i <= right@.len(),
            precedes(a@, b@) == precedes(left@.skip(i as int), right@.skip(i as int)),
        decreases left.len() - i,
    {
        proof {
            assert(left@.skip(i as int).drop_first() =~= left@.skip(i + 1));
            assert(right@.skip(i as int).drop_first() =~= right@.skip(i + 1));
        }
        i = i + 1;
    }
    if i >= right.len() {
        false
    } else if i >= left.len() {
        true
    } else {
        left[i] < right[i]
    }
}

/// Whether `s` is in strictly ascending order, and so holds nothing twice.
pub open spec fn ascending(s: Seq<Seq<char>>) -> bool {
    forall|i: int, j: int| 0 <= i < j < s.len() ==> precedes(#[trigger] s[i], #[trigger] s[j])
}

/// Whether `sorted` holds what `values` holds, once each and in ascending order.
pub open spec fn is_sorted_set(sorted: Seq<Seq<char>>, values: Seq<Seq<char>>) -> bool {
    &&& ascending(sorted)
    &&& forall|x: Seq<char>| #[trigger] sorted.contains(x) <==> values.contains(x)
}

/// Adds a string to a sorted list, unless the list holds it.
pub fn insert_sorted(list: &mut Vec<String>, value: String)
    requires
        ascending(old(list).deep_view()),
    ensures
        ascending(final(list).deep_view()),
        forall|x: Seq<char>| #[trigger]
            final(list).deep_view().contains(x) <==> old(list).deep_view().contains(x) || x
                == value@,
{
    let mut i: usize = 0;
    let ghost before = list.deep_view();
    while i < list.len() && text_precedes(list[i].as_str(), value.as_str())
        invariant
            i <= list@.len(),
            list.deep_view() == before,
            forall|k: int| 0 <= k < i ==> precedes(#[trigger] before[k], value@),
        decreases list.len() - i,
    {
        i = i + 1;
    }
    if i < list.len() && list[i] == value {
        assert(before[i as int] == value@);
        return ;
    }
    let ghost added = value@;
    list.insert(i, value);
    let ghost after = list.deep_view();
    proof {
        assert(after =~= before.insert(i as int, added));
        if i < before.len() {
            lemma_precedes_total(before[i as int], added);
        }
        assert forall|a: int, b: int| 0 <= a < b < after.len() implies precedes(
            #[trigger] after[a],
            #[trigger] after[b],
        ) by {
            if a < i && b == i {
                assert(precedes(before[a], added));
            } else if a == i && b > i {
                assert(after[b] == before[b - 1]);
                if b - 1 > i {
                    assert(precedes(before[i as int], before[b - 1]));
                    lemma_precedes_transitive(added, before[i as int], before[b - 1]);
                }
            } else {
                let a0 = if a < i { a } else { a - 1 };
                let b0 = if b < i { b } else { b - 1 };
                assert(after[a] == before[a0] && after[b] == before[b0]);
                assert(precedes(before[a0], before[b0]));
            }
        }
        assert forall|x: Seq<char>| #[trigger] after.contains(x) <==> before.contains(x) || x
            == added by {
            if before.contains(x) {
                let k = before.index_of(x);
                assert(after[if k < i { k } else { k + 1 }] == x);
            }
            if x == added {
                assert(after[i as int] == x);
            }
            if after.contains(x) {
                let k = after.index_of(x);
                if k != i {
                    assert(before[if k < i { k } else { k - 1 }] == x);
                }
            }
        }
    }
}

/// Sorts the strings and drops what occurs twice.
pub fn sort_and_dedup(values: &Vec<String>) -> (r: Vec<String>)
    ensures
        is_sorted_set(r.deep_view(), values.deep_view()),
{
    let mut out: Vec<String> = Vec::new();
    let mut i: usize = 0;
    while i < values.len()
        invariant
            i <= values@.len(),
            is_sorted_set(out.deep_view(), values.deep_view().take(i as int)),
        decreases values.len() - i,
    {
        let ghost done = values.deep_view().take(i as int);
        let value: String = values[i].clone();
        proof {
            let more = values.deep_view().take(i + 1);
            assert(more =~= done.push(value@));
            assert forall|x: Seq<char>| #[trigger] more.contains(x) <==> done.contains(x) || x
                == value@ by {
                if done.contains(x) {
                    assert(more[done.index_of(x)] == x);
                }
                if x == value@ {
                    assert(more[i as int] == x);
                }
            }
        }
        insert_sorted(&mut out, value);
        i = i + 1;
    }
    assert(values.deep_view().take(i as int) =~= values.deep_view());
    out
}

/// A sorted list without repetitions is determined by what it holds.
pub proof fn lemma_sorted_set_unique(a: Seq<Seq<char>>, b: Seq<Seq<char>>)
    requires
        ascending(a),
        ascending(b),
        forall|x: Seq<char>| #[trigger] a.contains(x) <==> b.contains(x),
    ensures
        a == b,
    decreases a.len(),
{
    if a.len() == 0 {
        if b.len() > 0 {
            assert(b.contains(b[0]));
            assert(a.contains(b[0]));
        }
        assert(a =~= b);
    } else {
        assert(a.contains(a.last()));
        assert(b.contains(a.last()));
        let i = b.index_of(a.last());
        assert(b.contains(b.last()));
        assert(a.contains(b.last()));
        let j = a.index_of(b.last());
        lemma_precedes_total(a.last(), b.last());
        if i < b.len() - 1 {
            assert(precedes(b[i], b[b.len() - 1]));
        }
        if j < a.len() - 1 {
            assert(precedes(a[j], a[a.len() - 1]));
        }
        assert(a.last() == b.last());
        let a1 = a.drop_last();
        let b1 = b.drop_last();
        assert forall|x: Seq<char>| #[trigger] a1.contains(x) <==> b1.contains(x) by {
            if a1.contains(x) {
                let k = a1.index_of(x);
                assert(a[k] == x);
                assert(precedes(a[k], a[a.len() - 1]));
                lemma_precedes_total(x, a.last());
                assert(a.contains(x));
                let m = b.index_of(x);
                assert(b1[m] == x);
            }
            if b1.contains(x) {
                let k = b1.index_of(x);
                assert(b[k] == x);
                assert(precedes(b[k], b[b.len() - 1]));
                lemma_precedes_total(x, b.last());
                assert(b.contains(x));
                assert(a.contains(x));
                let m = a.index_of(x);
                assert(a1[m] == x);
            }
        }
        lemma_sorted_set_unique(a1, b1);
        assert(a =~= a1.push(a.last()));
        assert(b =~= b1.push(b.last()));
    }
}

/// Two texts that agree, and whose first part holds no `c`, agree part by part.
pub proof fn lemma_delimited(a: Seq<char>, b: Seq<char>, x: Seq<char>, y: Seq<char>, c: char)
    requires
        a + seq![c] + x == b + seq![c] + y,
        !a.contains(c),
        !b.contains(c),
    ensures
        a == b,
        x == y,
{
    let s = a + seq![c] + x;
    let t = b + seq![c] + y;
    assert(s[a.len() as int] == c);
    assert(t[b.len() as int] == c);
    if a.len() < b.len() {
        assert(b[a.len() as int] == t[a.len() as int]);
    }
    if b.len() < a.len() {
        assert(a[b.len() as int] == s[b.len() as int]);
    }
    assert(s.take(a.len() as int) =~= a);
    assert(t.take(b.len() as int) =~= b);
    assert(s.skip(a.len() as int + 1) =~= x);
    assert(t.skip(b.len() as int + 1) =~= y);
}

/// Decimal text holds digits only.
pub proof fn lemma_decimal_lacks(n: nat, c: char)
    requires
        !is_digit(c),
    ensures
        !decimal(n).contains(c),
{
    lemma_decimal(n);
    if decimal(n).contains(c) {
        assert(is_digit(decimal(n)[decimal(n).index_of(c)]));
    }
}

/// What `s` holds, each item where it first occurs.
pub open spec fn first_occurrences(s: Seq<Seq<char>>) -> Seq<Seq<char>>
    decreases s.len(),
{
    if s.len() == 0 {
        Seq::empty()
    } else {
        let rest = first_occurrences(s.drop_last());
        if s.drop_last().contains(s.last()) {
            rest
        } else {
            rest.push(s.last())
        }
    }
}

/// Dropping repetitions leaves nothing twice and loses nothing.
pub proof fn law_first_occurrences(s: Seq<Seq<char>>)
    ensures
        first_occurrences(s).no_duplicates(),
        forall|x: Seq<char>| #[trigger] first_occurrences(s).contains(x) <==> s.contains(x),
        s.no_duplicates() ==> first_occurrences(s) == s,
    decreases s.len(),
{
    let out = first_occurrences(s);
    if s.len() > 0 {
        let front = s.drop_last();
        let rest = first_occurrences(front);
        law_first_occurrences(front);
        assert forall|x: Seq<char>| #[trigger] out.contains(x) <==> s.contains(x) by {
            assert(rest.contains(x) <==> front.contains(x));
            if s.contains(x) {
                let i = s.index_of(x);
                if i < s.len() - 1 {
                    assert(front[i] == x);
                    assert(rest.contains(x));
                    let k = rest.index_of(x);
                    assert(out[k] == x);
                } else if !front.contains(x) {
                    assert(out[out.len() - 1] == x);
                } else {
                    assert(out == rest);
                }
            }
            if out.contains(x) {
                let k = out.index_of(x);
                if k < rest.len() {
                    assert(rest[k] == x);
                    assert(front.contains(x));
                    assert(s[front.index_of(x)] == x);
                } else {
                    assert(s[s.len() - 1] == x);
                }
            }
        }
        if !front.contains(s.last()) {
            assert(!rest.contains(s.last()));
        }
        if s.no_duplicates() {
            if front.contains(s.last()) {
                let i = front.index_of(s.last());
                assert(s[i] == s[s.len() - 1]);
            }
            assert(front.no_duplicates());
            assert(s =~= front.push(s.last()));
        }
    } else {
        assert(s =~= out);
    }
}

/// Whether a list holds a text.
pub fn list_holds(list: &Vec<String>, value: &str) -> (r: bool)
    ensures
        r == list.deep_view().contains(value@),
{
    let mut i: usize = 0;
    while i < list.len()
        invariant
            i <= list@.len(),
            forall|k: int| 0 <= k < i ==> #[trigger] list.deep_view()[k] != value@,
        decreases list.len() - i,
    {
        if same_text(list[i].as_str(), value) {
            assert(list.deep_view()[i as int] == value@);
            return true;
        }
        assert(list.deep_view()[i as int] != value@);
        i = i + 1;
    }
    false
}

/// Adds one more item to a list without repetitions, unless it is there.
pub(crate) fn push_new(list: &mut Vec<String>, value: String, Ghost(seen): Ghost<Seq<Seq<char>>>)
    requires
        old(list).deep_view() == first_occurrences(seen),
    ensures
        final(list).deep_view() == first_occurrences(seen.push(value@)),
{
    let ghost before = list.deep_view();
    let ghost added = value@;
    proof {
        law_first_occurrences(seen);
        assert(seen.push(added).drop_last() =~= seen);
        assert(before.contains(added) <==> seen.contains(added));
    }
    if !list_holds(list, value.as_str()) {
        list.push(value);
        assert(list.deep_view() =~= before.push(added));
    }
}

/// Drops repetitions, keeping each item where it first occurs.
pub fn dedup_strings(values: &Vec<String>) -> (r: Vec<String>)
    ensures
        r.deep_view() == first_occurrences(values.deep_view()),
{
    let ghost all = values.deep_view();
    let mut out: Vec<String> = Vec::new();
    let mut i: usize = 0;
    assert(out.deep_view() =~= first_occurrences(all.take(0)));
    while i < values.len()
        invariant
            i <= values@.len(),
            all == values.deep_view(),
            out.deep_view() == first_occurrences(all.take(i as int)),
        decreases values.len() - i,
    {
        let value: String = values[i].clone();
        assert(all.take(i + 1) =~= all.take(i as int).push(value@));
        push_new(&mut out, value, Ghost(all.take(i as int)));
        i = i + 1;
    }
    assert(all.take(i as int) =~= all);
    out
}

/// What is trimmed off is white space at both ends, and all of it.
pub proof fn law_trimmed(s: Seq<char>)
    ensures
        ({
            let t = trimmed(s);
            &&& t.len() > 0 ==> !is_space(t[0]) && !is_space(t.last())
            &&& exists|from: int|
                {
                    &&& 0 <= from <= from + t.len() <= s.len()
                    &&& #[trigger] s.subrange(from, from + t.len()) == t
                    &&& forall|i: int|
                        0 <= i < from || from + t.len() <= i < s.len() ==> is_space(#[trigger] s[i])
                }
        }),
{
    lemma_trim_start(s);
    let head = trim_start(s);
    lemma_trim_end(head);
    let t = trim_end(head);
    let from = s.len() - head.len();
    assert(s.subrange(from, from + t.len()) =~= t);
    assert forall|i: int| from + t.len() <= i < s.len() implies is_space(#[trigger] s[i]) by {
        assert(s[i] == head[i - from]);
    }
    if t.len() > 0 {
        assert(t[0] == head[0]);
    }
}

/// What is left of a text without the white space that it starts with.
proof fn lemma_trim_start(s: Seq<char>)
    ensures
        trim_start(s).len() <= s.len(),
        trim_start(s) == s.skip(s.len() - trim_start(s).len()),
        trim_start(s).len() > 0 ==> !is_space(trim_start(s)[0]),
        forall|i: int| 0 <= i < s.len() - trim_start(s).len() ==> is_space(#[trigger] s[i]),
    decreases s.len(),
{
    if s.len() > 0 && is_space(s[0]) {
        let rest = s.drop_first();
        lemma_trim_start(rest);
        assert(trim_start(s) =~= s.skip(s.len() - trim_start(s).len()));
        assert forall|i: int| 0 <= i < s.len() - trim_start(s).len() implies is_space(
            #[trigger] s[i],
        ) by {
            if i > 0 {
                assert(s[i] == rest[i - 1]);
            }
        }
    } else {
        assert(trim_start(s) =~= s.skip(0));
    }
}

/// What is left of a text without the white space that it ends with.
proof fn lemma_trim_end(s: Seq<char>)
    ensures
        trim_end(s).len() <= s.len(),
        trim_end(s) == s.take(trim_end(s).len() as int),
        trim_end(s).len() > 0 ==> !is_space(trim_end(s).last()),
        forall|i: int| trim_end(s).len() <= i < s.len() ==> is_space(#[trigger] s[i]),
    decreases s.len(),
{
    if s.len() > 0 && is_space(s.last()) {
        let rest = s.drop_last();
        lemma_trim_end(rest);
        assert(trim_end(s) =~= s.take(trim_end(s).len() as int));
        assert forall|i: int| trim_end(s).len() <= i < s.len() implies is_space(
            #[trigger] s[i],
        ) by {
            if i < s.len() - 1 {
                assert(s[i] == rest[i]);
            }
        }
    } else {
        assert(trim_end(s) =~= s.take(s.len() as int));
    }
}

/// White space among the ASCII characters is the space and those from the tab to the carriage
/// return.
pub proof fn law_ascii_spaces(c: char)
    requires
        c <= '\u{7f}',
    ensures
        is_space(c) <==> c == ' ' || '\u{9}' <= c <= '\u{d}',
{
}

/// What is stripped off behind a text are characters `c`, and all of them.
pub proof fn law_strip_trailing(s: Seq<char>, c: char)
    ensures
        ({
            let t = strip_trailing(s, c);
            &&& t.len() <= s.len()
            &&& t == s.take(t.len() as int)
            &&& t.len() > 0 ==> t.last() != c
            &&& forall|i: int| t.len() <= i < s.len() ==> #[trigger] s[i] == c
        }),
    decreases s.len(),
{
    let t = strip_trailing(s, c);
    if s.len() > 0 && s.last() == c {
        let rest = s.drop_last();
        law_strip_trailing(rest, c);
        assert forall|i: int| t.len() <= i < s.len() implies #[trigger] s[i] == c by {
            if i < s.len() - 1 {
                assert(s[i] == rest[i]);
            }
        }
    }
    assert(t =~= s.take(t.len() as int));
}

/// The parts of a list with a `c` between each two of them.
pub open spec fn joined_by(parts: Seq<Seq<char>>, c: char) -> Seq<char>
    decreases parts.len(),
{
    if parts.len() == 0 {
        Seq::empty()
    } else if parts.len() == 1 {
        parts[0]
    } else {
        parts[0] + seq![c] + joined_by(parts.drop_first(), c)
    }
}

/// The pieces of a text hold no `c`, and make the text again with a `c` between each two of them.
pub proof fn law_split(s: Seq<char>, c: char)
    ensures
        split_at(s, c).len() > 0,
        joined_by(split_at(s, c), c) == s,
        forall|i: int| 0 <= i < split_at(s, c).len() ==> !(#[trigger] split_at(s, c)[i]).contains(c),
    decreases s.len(),
{
    lemma_first_index(s, c);
    let at = first_index(s, c);
    let parts = split_at(s, c);
    if at < s.len() {
        let rest = s.skip(at + 1);
        law_split(rest, c);
        assert(parts.drop_first() =~= split_at(rest, c));
        assert(s.take(at) + seq![c] + rest =~= s);
        assert forall|i: int| 0 <= i < parts.len() implies !(#[trigger] parts[i]).contains(c) by {
            if i > 0 {
                assert(parts[i] == split_at(rest, c)[i - 1]);
            }
        }
    }
}

/// A text is split at the first `c` or at the last, and nowhere where it holds none.
pub proof fn law_split_once(s: Seq<char>, c: char)
    ensures
        split_once_at(s, c) is Some <==> s.contains(c),
        rsplit_once_at(s, c) is Some <==> s.contains(c),
        split_once_at(s, c) matches Some((a, b)) ==> a + seq![c] + b == s && !a.contains(c),
        rsplit_once_at(s, c) matches Some((a, b)) ==> a + seq![c] + b == s && !b.contains(c),
{
    lemma_first_index(s, c);
    lemma_last_index(s, c);
    if s.contains(c) {
        let (a, b) = split_once_at(s, c)->0;
        assert(a + seq![c] + b =~= s);
        let (x, y) = rsplit_once_at(s, c)->0;
        assert(x + seq![c] + y =~= s);
    }
}

/// Two texts are the same but for case where their ASCII letters are in lower case, and only ASCII
/// letters change with case.
pub proof fn law_ascii_case(c: char, a: Seq<char>, b: Seq<char>)
    ensures
        'A' <= c <= 'Z' ==> ascii_lower(c) as int == c as int + 32,
        !('A' <= c <= 'Z') ==> ascii_lower(c) == c,
        same_ignoring_case(a, b) <==> ascii_lowered(a) == ascii_lowered(b),
        same_ignoring_case(a, a),
        same_ignoring_case(a, b) ==> same_ignoring_case(b, a),
{
    if same_ignoring_case(a, b) {
        assert(ascii_lowered(a) =~= ascii_lowered(b));
    }
    if ascii_lowered(a) == ascii_lowered(b) {
        assert(ascii_lowered(a).len() == a.len() && ascii_lowered(b).len() == b.len());
        assert forall|i: int| 0 <= i < a.len() implies ascii_lower(#[trigger] a[i])
            == ascii_lower(b[i]) by {
            assert(ascii_lowered(a)[i] == ascii_lowered(b)[i]);
        }
    }
}

/// What a hexadecimal digit in lower case stands for.
pub open spec fn hex_value(c: char) -> int {
    if '0' <= c <= '9' {
        c as int - '0' as int
    } else {
        c as int - 'a' as int + 10
    }
}

/// A byte is written as two hexadecimal digits in lower case, the higher first, from which it can
/// be told.
pub proof fn law_hex_byte(b: u8)
    ensures
        ({
            let text = hex_byte(b);
            &&& text.len() == 2
            &&& '0' <= text[0] <= '9' || 'a' <= text[0] <= 'f'
            &&& '0' <= text[1] <= '9' || 'a' <= text[1] <= 'f'
            &&& hex_value(text[0]) * 16 + hex_value(text[1]) == b
        }),
{
}

/// One text comes before another where it is the beginning of the other, or has the lower character
/// where they first differ.
pub proof fn law_precedes(a: Seq<char>, b: Seq<char>, i: int)
    requires
        0 <= i <= a.len(),
        i <= b.len(),
        a.take(i) == b.take(i),
        i < a.len() && i < b.len() ==> a[i] != b[i],
    ensures
        precedes(a, b) <==> {
            ||| i == a.len() && i < b.len()
            ||| i < a.len() && i < b.len() && a[i] < b[i]
        },
    decreases i,
{
    if i > 0 {
        assert(a[0] == a.take(i)[0]);
        assert(b[0] == b.take(i)[0]);
        assert(a.drop_first().take(i - 1) =~= a.take(i).drop_first());
        assert(b.drop_first().take(i - 1) =~= b.take(i).drop_first());
        law_precedes(a.drop_first(), b.drop_first(), i - 1);
    }
}

/// A number is written without leading zeros and read back from that.
pub proof fn law_decimal(n: nat, max: nat)
    ensures
        n > 0 ==> decimal(n)[0] != '0',
        n <= max ==> number_value(decimal(n), max) == Some(n),
        n > max ==> number_value(decimal(n), max) is None,
    decreases n,
{
    lemma_decimal(n);
    if n >= 10 {
        law_decimal(n / 10, max);
        lemma_decimal(n / 10);
        assert(decimal(n)[0] == decimal(n / 10)[0]);
    }
}

/// A sorted list of values holds each of them once, the lower first.
pub proof fn law_sorted_set(sorted: Seq<Seq<char>>, values: Seq<Seq<char>>, i: int, j: int)
    requires
        is_sorted_set(sorted, values),
    ensures
        0 <= i < j < sorted.len() ==> precedes(sorted[i], sorted[j]),
        forall|x: Seq<char>| #[trigger] values.contains(x) ==> sorted.contains(x),
        forall|x: Seq<char>| #[trigger] sorted.contains(x) ==> values.contains(x),
{
}

/// Dropping repetitions keeps the items in the order in which they first occur.
pub proof fn law_first_occurrences_keep_their_order(s: Seq<Seq<char>>, x: Seq<char>)
    ensures
        s.contains(x) ==> first_occurrences(s.push(x)) == first_occurrences(s),
        !s.contains(x) ==> first_occurrences(s.push(x)) == first_occurrences(s).push(x),
        first_occurrences(Seq::empty()).len() == 0,
{
    assert(s.push(x).drop_last() =~= s);
    assert(s.push(x).last() == x);
}

/// A port is a number up to 65535 in decimal digits, and may have a plus sign before it.
pub proof fn law_port(digits: Seq<char>)
    requires
        digits.len() > 0,
        all_digits(digits),
    ensures
        port_value(digits) == (if digits_value(digits) <= 65535 {
            Some(digits_value(digits) as u16)
        } else {
            None
        }),
        port_value(seq!['+'] + digits) == port_value(digits),
        port_value(Seq::empty()) is None,
{
    assert((seq!['+'] + digits).skip(1) =~= digits);
    assert(is_digit(digits[0]));
}

} // verus!
