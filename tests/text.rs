use vegam::text::{find_char, parse_u64, same_text, starts_with, u64_to_decimal};

#[test]
fn decimal_spelling() {
    assert_eq!(u64_to_decimal(0), "0");
    assert_eq!(u64_to_decimal(4096), "4096");
    assert_eq!(u64_to_decimal(u64::MAX), "18446744073709551615");
}

#[test]
fn decimal_reading_follows_from_str() {
    assert_eq!(parse_u64("1234"), Some(1234));
    assert_eq!(parse_u64("+7"), Some(7));
    assert_eq!(parse_u64("007"), Some(7));
    assert_eq!(parse_u64("18446744073709551615"), Some(u64::MAX));
    assert_eq!(parse_u64("18446744073709551616"), None);
    assert_eq!(parse_u64(""), None);
    assert_eq!(parse_u64("+"), None);
    assert_eq!(parse_u64("-1"), None);
    assert_eq!(parse_u64("12a"), None);
    assert_eq!(parse_u64(" 1"), None);
}

#[test]
fn searching_text() {
    assert_eq!(find_char("a|b|c", '|', 0), Some(1));
    assert_eq!(find_char("a|b|c", '|', 2), Some(3));
    assert_eq!(find_char("abc", '|', 0), None);
    assert!(starts_with("vegam://x", "vegam://"));
    assert!(!starts_with("vega", "vegam://"));
    assert!(same_text("dév", "dév"));
    assert!(!same_text("dev", "dev2"));
}
