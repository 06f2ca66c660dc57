use lightscale_server::text::{
    decimal_text, dedup_strings, ends_with, eq_ignore_ascii_case, find, list_holds, parse_number,
    parse_port, rsplit_once, sort_and_dedup, split, split_once, starts_with, text_precedes, trim,
    trim_end_matches,
};

const SPACES: &str = "\t\n\u{b}\u{c}\r \u{85}\u{a0}\u{1680}\u{2000}\u{200a}\u{2028}\u{2029}\u{202f}\u{205f}\u{3000}";

#[test]
fn white_space_is_that_of_the_standard_library() {
    for code in 0..0x11_0000u32 {
        if let Some(c) = char::from_u32(code) {
            if c.is_whitespace() || code < 0x3100 {
                let text = format!("{}x{}", c, c);
                assert_eq!(trim(&text), text.trim());
            }
        }
    }
    assert_eq!(trim(&format!("{}a b{}", SPACES, SPACES)), "a b");
    assert_eq!(trim(SPACES), "");
}

#[test]
fn text_is_cut_as_the_standard_library_cuts_it() {
    for text in ["", "a", "a:b", ":a", "a:", "a::b", "\u{e4}:\u{f6}:x", "///"] {
        assert_eq!(
            split_once(text, ':'),
            text.split_once(':').map(|(a, b)| (a.to_string(), b.to_string()))
        );
        assert_eq!(
            rsplit_once(text, ':'),
            text.rsplit_once(':').map(|(a, b)| (a.to_string(), b.to_string()))
        );
        assert_eq!(split(text, ':'), text.split(':').collect::<Vec<_>>());
        assert_eq!(trim_end_matches(text, '/'), text.trim_end_matches('/'));
        for part in ["", "a", ":", "\u{e4}", "a:b:c"] {
            assert_eq!(starts_with(text, part), text.starts_with(part));
            assert_eq!(ends_with(text, part), text.ends_with(part));
            assert_eq!(text_precedes(text, part), text < part);
            assert_eq!(eq_ignore_ascii_case(text, part), text.eq_ignore_ascii_case(part));
        }
    }
    assert!(eq_ignore_ascii_case("HTTPS", "https"));
    assert!(!eq_ignore_ascii_case("\u{c4}", "\u{e4}"));
    assert_eq!(find("\u{e4}b", 'b'), Some(1));
    assert_eq!(find("\u{e4}b", 'c'), None);
}

#[test]
fn numbers_are_written_and_read() {
    for number in [0u64, 9, 10, 255, 65535, u64::MAX] {
        assert_eq!(decimal_text(number), number.to_string());
    }
    for text in ["", "0", "53", "+53", "++53", "-1", "65535", "65536", "0053", "5 3", "99999999999"] {
        assert_eq!(parse_port(text), text.parse::<u16>().ok());
    }
    assert_eq!(parse_number("32", 32), Some(32));
    assert_eq!(parse_number("33", 32), None);
    assert_eq!(parse_number("+3", 32), None);
}

#[test]
fn lists_are_sorted_and_freed_of_repetitions() {
    let list = |items: &[&str]| -> Vec<String> { items.iter().map(|item| item.to_string()).collect() };
    let values = list(&["b", "a", "b", "", "ab", "a"]);
    assert_eq!(sort_and_dedup(&values), list(&["", "a", "ab", "b"]));
    assert_eq!(dedup_strings(&values), list(&["b", "a", "", "ab"]));
    assert!(list_holds(&values, "ab"));
    assert!(!list_holds(&values, "c"));
}
