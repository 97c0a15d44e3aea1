//! Functions on text.

use connman::text::{contains, join, strip_wildcard, to_decimal};

#[test]
fn decimal_notation() {
    assert_eq!(to_decimal(0), "0");
    assert_eq!(to_decimal(9), "9");
    assert_eq!(to_decimal(10), "10");
    assert_eq!(to_decimal(1234567890), "1234567890");
    assert_eq!(to_decimal(u64::MAX), "18446744073709551615");
}

#[test]
fn search_finds_every_part() {
    assert!(contains("/connman-17", "17"));
    assert!(contains("abc", "abc"));
    assert!(contains("abc", ""));
    assert!(contains("aab", "ab"));
    assert!(!contains("abc", "abcd"));
    assert!(!contains("abc", "ac"));
    assert!(contains("größe", "öß"));
}

#[test]
fn wildcard_is_taken_off() {
    assert_eq!(strip_wildcard("*.example.org"), Some("example.org".to_string()));
    assert_eq!(strip_wildcard("*."), Some(String::new()));
    assert_eq!(strip_wildcard("*example.org"), None);
    assert_eq!(strip_wildcard("example.org"), None);
    assert_eq!(strip_wildcard(""), None);
}

#[test]
fn texts_are_joined() {
    assert_eq!(join("connman-", "7"), "connman-7");
    assert_eq!(join("", ""), "");
}
