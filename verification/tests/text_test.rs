use signals_sdk::text::{
    find_char, is_whitespace_char, leading_whitespace_len, str_equals, trimmed_end_len,
};

#[test]
fn whitespace_matches_std_for_every_char() {
    for code in 0u32..=0x10FFFF {
        if let Some(c) = char::from_u32(code) {
            assert_eq!(is_whitespace_char(c), c.is_whitespace(), "U+{:04X}", code);
        }
    }
}

#[test]
fn find_char_counts_characters() {
    assert_eq!(find_char("héllo:x", ':'), Some(5));
    assert_eq!(find_char("abc", ':'), None);
    assert_eq!(find_char(":", ':'), Some(0));
    assert_eq!(find_char("a:b:c", ':'), Some(1));
}

#[test]
fn trimming_helpers() {
    assert_eq!(trimmed_end_len("ab\r\r", '\r'), 2);
    assert_eq!(trimmed_end_len("\r", '\r'), 0);
    assert_eq!(trimmed_end_len("a\rb", '\r'), 3);
    assert_eq!(leading_whitespace_len(" \t\u{a0}x "), 3);
    assert_eq!(leading_whitespace_len("x"), 0);
    assert_eq!(leading_whitespace_len("   "), 3);
}

#[test]
fn string_equality() {
    assert!(str_equals("data", "data"));
    assert!(!str_equals("data", "dat"));
    assert!(!str_equals("data", "date"));
    assert!(str_equals("", ""));
}
