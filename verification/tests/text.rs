//! The character-level helpers: number reading and word splitting.
use command_stream::text::{parse_i32_str, parse_i64_str, split_whitespace_words, str_eq};

#[test]
fn test_parse_i64_plain() {
    assert_eq!(parse_i64_str("0"), Some(0));
    assert_eq!(parse_i64_str("42"), Some(42));
    assert_eq!(parse_i64_str("-7"), Some(-7));
    assert_eq!(parse_i64_str("+13"), Some(13));
    assert_eq!(parse_i64_str("007"), Some(7));
}

#[test]
fn test_parse_i64_rejects_garbage() {
    assert_eq!(parse_i64_str(""), None);
    assert_eq!(parse_i64_str("-"), None);
    assert_eq!(parse_i64_str("1x"), None);
    assert_eq!(parse_i64_str(" 1"), None);
    assert_eq!(parse_i64_str("1 "), None);
}

#[test]
fn test_parse_i64_limits() {
    assert_eq!(parse_i64_str("9223372036854775807"), Some(i64::MAX));
    assert_eq!(parse_i64_str("-9223372036854775808"), Some(i64::MIN));
    assert_eq!(parse_i64_str("9223372036854775808"), None);
    assert_eq!(parse_i64_str("-9223372036854775809"), None);
    assert_eq!(
        parse_i64_str("00000000000000000000000000009"),
        Some(9)
    );
}

#[test]
fn test_parse_i32_limits() {
    assert_eq!(parse_i32_str("2147483647"), Some(i32::MAX));
    assert_eq!(parse_i32_str("-2147483648"), Some(i32::MIN));
    assert_eq!(parse_i32_str("2147483648"), None);
}

#[test]
fn test_split_whitespace_words() {
    let words = split_whitespace_words("  a  bb\t c\n");
    assert_eq!(
        words,
        vec!["a".to_string(), "bb".to_string(), "c".to_string()]
    );
    let empty = split_whitespace_words("   ");
    assert!(empty.is_empty());
}

#[test]
fn test_str_eq() {
    assert!(str_eq("abc", "abc"));
    assert!(!str_eq("abc", "abd"));
    assert!(!str_eq("abc", "ab"));
    assert!(str_eq("", ""));
}
