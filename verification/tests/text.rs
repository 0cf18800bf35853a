use loom_core::text::{parse_usize, str_contains, trimmed_bounds};

#[test]
fn parses_unsigned_numbers() {
    assert_eq!(parse_usize("42"), Some(42));
    assert_eq!(parse_usize("+7"), Some(7));
    assert_eq!(parse_usize("007"), Some(7));
    assert_eq!(parse_usize(""), None);
    assert_eq!(parse_usize("+"), None);
    assert_eq!(parse_usize("-1"), None);
    assert_eq!(parse_usize("1 2"), None);
    assert_eq!(parse_usize(&usize::MAX.to_string()), Some(usize::MAX));
    assert_eq!(parse_usize("99999999999999999999999999"), None);
}

#[test]
fn finds_text_inside_text() {
    assert!(str_contains("hello world", "lo w"));
    assert!(str_contains("abc", ""));
    assert!(str_contains("abc", "abc"));
    assert!(!str_contains("abc", "abcd"));
    assert!(!str_contains("", "a"));
}

#[test]
fn trims_white_space() {
    let cs: Vec<char> = " \t x y \u{3000}\n".chars().collect();
    let (a, b) = trimmed_bounds(&cs, 0, cs.len());
    let t: String = cs[a..b].iter().collect();
    assert_eq!(t, "x y");
    let blank: Vec<char> = "   ".chars().collect();
    let (a, b) = trimmed_bounds(&blank, 0, blank.len());
    assert_eq!(a, b);
}
