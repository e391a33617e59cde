use pgpad::text::{
    decimal_string, frame_json_array, is_whitespace, same_text, starts_with, trim, trim_end_char,
    trim_start_char,
};

#[test]
fn trim_removes_unicode_white_space() {
    assert_eq!(trim("  \t hello world \n"), "hello world");
    assert_eq!(trim("\u{3000}x\u{85}"), "x");
    assert_eq!(trim("   "), "");
    assert_eq!(trim(""), "");
    for s in ["  a b ", "\u{2028}\u{a0}z\u{200a}", "x", "\r\n\t"] {
        assert_eq!(trim(s), s.trim());
    }
}

#[test]
fn whitespace_matches_std() {
    for c in ['\t', '\n', '\u{b}', '\u{c}', '\r', ' ', '\u{85}', '\u{a0}', '\u{1680}', '\u{2000}',
        '\u{2005}', '\u{200a}', '\u{2028}', '\u{2029}', '\u{202f}', '\u{205f}', '\u{3000}', 'a',
        '\u{200b}', '_', '\u{180e}', '0', '\u{feff}']
    {
        assert_eq!(is_whitespace(c), c.is_whitespace(), "{:?}", c);
    }
}

#[test]
fn trim_char_ends() {
    assert_eq!(trim_end_char("SELECT 1;;", ';'), "SELECT 1");
    assert_eq!(trim_end_char(";;", ';'), "");
    assert_eq!(trim_start_char("//db/x", '/'), "db/x");
    assert_eq!(trim_start_char("db", '/'), "db");
}

#[test]
fn prefixes_and_equality() {
    assert!(starts_with("Nullable(String)", "Nullable("));
    assert!(!starts_with("LowCardinality(Nullable(String))", "Nullable("));
    assert!(!starts_with("Null", "Nullable("));
    assert!(same_text("true", "true"));
    assert!(!same_text("true", "tru"));
    assert!(!same_text("1", "2"));
}

#[test]
fn decimal_notation() {
    assert_eq!(decimal_string(0), "0");
    assert_eq!(decimal_string(7), "7");
    assert_eq!(decimal_string(8123), "8123");
    assert_eq!(decimal_string(1001), "1001");
    assert_eq!(decimal_string(u64::MAX), u64::MAX.to_string());
}

#[test]
fn json_array_framing() {
    let items = vec!["1".to_string(), "[2,3]".to_string(), "\"x\"".to_string()];
    assert_eq!(frame_json_array(&items, 0, 3), "[1,[2,3],\"x\"]");
    assert_eq!(frame_json_array(&items, 1, 2), "[[2,3]]");
    assert_eq!(frame_json_array(&items, 2, 2), "[]");
}
