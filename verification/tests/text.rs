use checker::text::contains_text;
use checker::text::decimal_string;
use checker::text::ends_with;
use checker::text::parse_decimal;
use checker::text::starts_with;

#[test]
fn decimal_numbers_read_like_from_str() {
    assert_eq!(parse_decimal("0", 10), Some(0));
    assert_eq!(parse_decimal("+17", 100), Some(17));
    assert_eq!(parse_decimal("007", 100), Some(7));
    assert_eq!(parse_decimal("101", 100), None);
    assert_eq!(parse_decimal("", 100), None);
    assert_eq!(parse_decimal("+", 100), None);
    assert_eq!(parse_decimal("-1", 100), None);
    assert_eq!(parse_decimal("1a", 100), None);
    assert_eq!(parse_decimal("18446744073709551615", u64::MAX), Some(u64::MAX));
    assert_eq!(parse_decimal("18446744073709551616", u64::MAX), None);
}

#[test]
fn decimal_strings() {
    assert_eq!(decimal_string(0), "0");
    assert_eq!(decimal_string(9), "9");
    assert_eq!(decimal_string(1234567890), "1234567890");
    assert_eq!(parse_decimal(&decimal_string(4021), 5000), Some(4021));
}

#[test]
fn prefixes_suffixes_and_substrings() {
    assert!(starts_with("--sysroot=/x", "--sysroot"));
    assert!(!starts_with("-sysroot", "--sysroot"));
    assert!(starts_with("abc", ""));
    assert!(ends_with("-Zalways-encode-mir", "always-encode-mir"));
    assert!(!ends_with("mir", "always-encode-mir"));
    assert!(contains_text("/usr/lib/libcore/x", "/libcore"));
    assert!(!contains_text("/usr/lib/core", "/libcore"));
    assert!(contains_text("abc", ""));
}
