use geck::text::{contains, starts_with};

#[test]
fn starts_with_cases() {
    assert!(starts_with(b"abc", b"ab"));
    assert!(starts_with(b"abc", b""));
    assert!(starts_with(b"abc", b"abc"));
    assert!(!starts_with(b"abc", b"abcd"));
    assert!(!starts_with(b"abc", b"b"));
}

#[test]
fn contains_cases() {
    assert!(contains(b"hello world", b"o w"));
    assert!(contains(b"hello", b""));
    assert!(contains(b"", b""));
    assert!(contains(b"hello", b"hello"));
    assert!(contains(b"hello", b"lo"));
    assert!(!contains(b"hello", b"hellos"));
    assert!(!contains(b"hello", b"ol"));
}

#[test]
fn contains_multibyte_text() {
    assert!(contains("καλημέρα κόσμε".as_bytes(), "κόσ".as_bytes()));
    assert!(!contains("καλημέρα".as_bytes(), "κόσ".as_bytes()));
}
