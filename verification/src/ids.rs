//! Identifiers, secrets and the clock.
use base64::engine::general_purpose::URL_SAFE_NO_PAD;
use base64::Engine;
use rand::RngCore;
use vstd::prelude::*;

use crate::text::{first_index, hex_byte, lemma_first_index, split, split_at};

verus! {

/// The bytes as hexadecimal digits, two for each.
pub open spec fn hex_bytes(bytes: Seq<u8>) -> Seq<char>
    decreases bytes.len(),
{
    if bytes.len() == 0 {
        Seq::empty()
    } else {
        hex_byte(bytes[0]) + hex_bytes(bytes.drop_first())
    }
}

/// The sixteen bytes of a UUID in the form of RFC 9562: five groups of hexadecimal digits with
/// hyphens between them.
pub open spec fn hyphenated(bytes: Seq<u8>) -> Seq<char> {
    hex_bytes(bytes.subrange(0, 4)) + seq!['-'] + hex_bytes(bytes.subrange(4, 6)) + seq!['-']
        + hex_bytes(bytes.subrange(6, 8)) + seq!['-'] + hex_bytes(bytes.subrange(8, 10)) + seq!['-']
        + hex_bytes(bytes.subrange(10, 16))
}

/// Whether some bytes are those of a random UUID: its version is 4, and its variant that of RFC
/// 9562.
pub open spec fn is_random_uuid(bytes: Seq<u8>) -> bool {
    bytes.len() == 16 && bytes[6] / 16 == 4 && bytes[8] / 64 == 2
}

/// `uuid::Uuid::new_v4` draws a random UUID. Its bytes are open but for the version, which is 4,
/// and the variant, which is that of RFC 9562.
#[verifier::external_body]
pub(crate) fn new_uuid() -> (r: [u8; 16])
    ensures
        is_random_uuid(r@),
{
    uuid::Uuid::new_v4().into_bytes()
}

/// `uuid::Uuid` displays itself as lower-case hexadecimal digits with hyphens.
#[verifier::external_body]
pub(crate) fn uuid_text(bytes: &[u8; 16]) -> (r: String)
    ensures
        r@ == hyphenated(bytes@),
{
    uuid::Uuid::from_bytes(*bytes).to_string()
}

/// Whether `s` is the text of a random UUID.
pub open spec fn is_id(s: Seq<char>) -> bool {
    exists|bytes: Seq<u8>| is_random_uuid(bytes) && s == #[trigger] hyphenated(bytes)
}

/// Draws a fresh identifier.
pub fn new_id() -> (r: String)
    ensures
        is_id(r@),
{
    let bytes: [u8; 16] = new_uuid();
    uuid_text(&bytes)
}

/// Hexadecimal digits are no hyphens.
pub proof fn lemma_hex_bytes(bytes: Seq<u8>)
    ensures
        hex_bytes(bytes).len() == 2 * bytes.len(),
        forall|i: int| 0 <= i < hex_bytes(bytes).len() ==> #[trigger] hex_bytes(bytes)[i] != '-',
    decreases bytes.len(),
{
    if bytes.len() > 0 {
        lemma_hex_bytes(bytes.drop_first());
        let rest = hex_bytes(bytes.drop_first());
        assert forall|i: int| 0 <= i < hex_bytes(bytes).len() implies #[trigger] hex_bytes(bytes)[i]
            != '-' by {
            if i >= 2 {
                assert(hex_bytes(bytes)[i] == rest[i - 2]);
            }
        }
    }
}

/// The first group of a UUID's text: the hexadecimal digits of its first four bytes.
pub fn short_id(id: &[u8; 16]) -> (r: String)
    ensures
        r@ == hex_bytes(id@.subrange(0, 4)),
        r@.len() == 8,
{
    let text: String = uuid_text(id);
    let groups: Vec<String> = split(text.as_str(), '-');
    proof {
        let head = hex_bytes(id@.subrange(0, 4));
        lemma_hex_bytes(id@.subrange(0, 4));
        lemma_first_index(text@, '-');
        assert(text@[8] == '-');
        assert(text@.take(8) =~= head);
        assert forall|i: int| 0 <= i < 8 implies #[trigger] text@[i] != '-' by {
            assert(text@[i] == head[i]);
        }
        assert(first_index(text@, '-') == 8);
        assert(split_at(text@, '-')[0] == head);
        assert(groups.deep_view().len() == groups@.len());
        assert(groups@[0]@ == groups.deep_view()[0]);
    }
    groups[0].clone()
}

/// `rand::thread_rng` fills the bytes at random; nothing is known of them.
#[verifier::external_body]
pub(crate) fn random_bytes() -> (r: [u8; 32])
{
    let mut random = [0u8; 32];
    rand::thread_rng().fill_bytes(&mut random);
    random
}

/// The URL-safe base64 text of some bytes, without padding.
pub uninterp spec fn base64_url(bytes: Seq<u8>) -> Seq<char>;

/// `URL_SAFE_NO_PAD.encode` of the base64 crate writes thirty-two bytes as forty-three characters.
#[verifier::external_body]
pub(crate) fn encode_url_safe(bytes: &[u8; 32]) -> (r: String)
    ensures
        r@ == base64_url(bytes@),
        r@.len() == 43,
{
    URL_SAFE_NO_PAD.encode(bytes)
}

/// Whether `s` is a secret: the URL-safe base64 text of thirty-two bytes.
pub open spec fn is_secret(s: Seq<char>) -> bool {
    exists|bytes: Seq<u8>| bytes.len() == 32 && s == #[trigger] base64_url(bytes)
}

/// Draws a fresh secret.
pub fn random_secret() -> (r: String)
    ensures
        is_secret(r@),
        r@.len() == 43,
{
    let random: [u8; 32] = random_bytes();
    encode_url_safe(&random)
}

/// `time::OffsetDateTime::now_utc` gives the time of the system clock, here in seconds since the
/// Unix epoch. Nothing is known of it.
#[verifier::external_body]
pub(crate) fn now_unix() -> (r: i64)
{
    time::OffsetDateTime::now_utc().unix_timestamp()
}

/// An identifier is the 32 hexadecimal digits of its sixteen bytes, in order, with hyphens behind
/// the eighth, the twelfth, the sixteenth and the twentieth.
pub proof fn law_hyphenated(bytes: Seq<u8>)
    requires
        bytes.len() == 16,
    ensures
        ({
            let text = hyphenated(bytes);
            &&& text.len() == 36
            &&& text[8] == '-' && text[13] == '-' && text[18] == '-' && text[23] == '-'
            &&& text.subrange(0, 8) + text.subrange(9, 13) + text.subrange(14, 18) + text.subrange(
                19,
                23,
            ) + text.subrange(24, 36) == hex_bytes(bytes)
        }),
{
    let a = bytes.subrange(0, 4);
    let b = bytes.subrange(4, 6);
    let c = bytes.subrange(6, 8);
    let d = bytes.subrange(8, 10);
    let e = bytes.subrange(10, 16);
    lemma_hex_bytes(a);
    lemma_hex_bytes(b);
    lemma_hex_bytes(c);
    lemma_hex_bytes(d);
    lemma_hex_bytes(e);
    let text = hyphenated(bytes);
    assert(text.subrange(0, 8) =~= hex_bytes(a));
    assert(text.subrange(9, 13) =~= hex_bytes(b));
    assert(text.subrange(14, 18) =~= hex_bytes(c));
    assert(text.subrange(19, 23) =~= hex_bytes(d));
    assert(text.subrange(24, 36) =~= hex_bytes(e));
    lemma_hex_concat(a, b);
    lemma_hex_concat(a + b, c);
    lemma_hex_concat(a + b + c, d);
    lemma_hex_concat(a + b + c + d, e);
    assert(a + b + c + d + e =~= bytes);
}

/// The digits of some bytes are followed by those of the next.
proof fn lemma_hex_concat(a: Seq<u8>, b: Seq<u8>)
    ensures
        hex_bytes(a + b) == hex_bytes(a) + hex_bytes(b),
    decreases a.len(),
{
    if a.len() == 0 {
        assert(a + b =~= b);
        assert(hex_bytes(a) + hex_bytes(b) =~= hex_bytes(b));
    } else {
        lemma_hex_concat(a.drop_first(), b);
        assert((a + b).drop_first() =~= a.drop_first() + b);
        assert(hex_bytes(a + b) =~= hex_bytes(a) + hex_bytes(b));
    }
}

/// Each byte gives the two digits at its place.
pub proof fn law_hex_bytes(bytes: Seq<u8>, i: int)
    requires
        0 <= i < bytes.len(),
    ensures
        hex_bytes(bytes).len() == 2 * bytes.len(),
        hex_bytes(bytes).subrange(2 * i, 2 * i + 2) == hex_byte(bytes[i]),
    decreases bytes.len(),
{
    lemma_hex_bytes(bytes);
    let rest = bytes.drop_first();
    lemma_hex_bytes(rest);
    if i > 0 {
        law_hex_bytes(rest, i - 1);
        assert(hex_bytes(bytes).subrange(2 * i, 2 * i + 2) =~= hex_bytes(rest).subrange(
            2 * (i - 1),
            2 * (i - 1) + 2,
        ));
    } else {
        assert(hex_bytes(bytes).subrange(0, 2) =~= hex_byte(bytes[0]));
    }
}

} // verus!
