use partydeck::text::{contains_str, decimal_string, push_decimal, push_hex_padded, replace_str, split_whitespace};

#[test]
fn decimal_of_zero_and_large() {
    assert_eq!(decimal_string(0), "0");
    assert_eq!(decimal_string(7), "7");
    assert_eq!(decimal_string(1234567890), "1234567890");
    assert_eq!(decimal_string(u64::MAX), u64::MAX.to_string());
}

#[test]
fn push_decimal_appends() {
    let mut s = String::from("n=");
    push_decimal(&mut s, 42);
    assert_eq!(s, "n=42");
}

#[test]
fn split_whitespace_drops_empty_pieces() {
    let parts = split_whitespace("  a bb\tccc\n ");
    assert_eq!(parts, vec!["a".to_string(), "bb".to_string(), "ccc".to_string()]);
    assert!(split_whitespace("   ").is_empty());
    assert!(split_whitespace("").is_empty());
}

#[test]
fn split_whitespace_knows_unicode_spaces() {
    let text = "one\u{3000}two\u{a0}three\u{2009}four";
    let expected: Vec<String> = text.split_whitespace().map(String::from).collect();
    assert_eq!(split_whitespace(text), expected);
    assert_eq!(expected.len(), 4);
}

#[test]
fn replace_scans_left_to_right_without_overlap() {
    assert_eq!(replace_str("a//b//", "//", "/"), "a/b/");
    assert_eq!(replace_str("a///b", "//", "/"), "a//b");
    assert_eq!(replace_str("aaaa", "aa", "b"), "bb");
    assert_eq!(replace_str("xyz", "q", "r"), "xyz");
    assert_eq!(replace_str("....//", "../", ""), "....//".replace("../", ""));
}

#[test]
fn contains_finds_patterns() {
    assert!(contains_str("abc", "bc"));
    assert!(contains_str("abc", ""));
    assert!(!contains_str("abc", "cb"));
    assert!(!contains_str("", "a"));
}

#[test]
fn hex_is_lowercase_and_padded() {
    let mut s = String::new();
    push_hex_padded(&mut s, 0x1a, 4);
    assert_eq!(s, "001a");
    let mut t = String::new();
    push_hex_padded(&mut t, 0x12345, 4);
    assert_eq!(t, "12345");
    let mut z = String::new();
    push_hex_padded(&mut z, 0, 4);
    assert_eq!(z, "0000");
}
