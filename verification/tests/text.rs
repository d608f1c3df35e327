use delivery_lib::controller::user_id_from_authorization;
use delivery_lib::text::{chars_of, has_utf8_len, parse_digits_i32, parse_i32, parse_u32};
use delivery_lib::types::UserId;

#[test]
fn decimal_numbers_as_from_str_reads_them() {
    assert_eq!(parse_u32("0"), Some(0));
    assert_eq!(parse_u32("+17"), Some(17));
    assert_eq!(parse_u32("4294967295"), Some(u32::MAX));
    assert_eq!(parse_u32("4294967296"), None);
    assert_eq!(parse_u32(""), None);
    assert_eq!(parse_u32("+"), None);
    assert_eq!(parse_u32("-1"), None);
    assert_eq!(parse_u32(" 1"), None);
}

#[test]
fn digit_runs_as_i32() {
    assert_eq!(parse_digits_i32(&chars_of("2147483647")), Some(i32::MAX));
    assert_eq!(parse_digits_i32(&chars_of("2147483648")), None);
    assert_eq!(parse_digits_i32(&chars_of("+1")), None);
    assert_eq!(parse_digits_i32(&chars_of("")), None);
}

#[test]
fn signed_decimal_numbers_as_from_str_reads_them() {
    assert_eq!(parse_i32("-2147483648"), Some(i32::MIN));
    assert_eq!(parse_i32("2147483647"), Some(i32::MAX));
    assert_eq!(parse_i32("2147483648"), None);
    assert_eq!(parse_i32("-2147483649"), None);
    assert_eq!(parse_i32("+12"), Some(12));
    assert_eq!(parse_i32("-0"), Some(0));
    assert_eq!(parse_i32("-"), None);
    assert_eq!(parse_i32("1-"), None);
}

#[test]
fn user_of_authorization_header() {
    assert_eq!(user_id_from_authorization(Some("42")), Some(UserId(42)));
    assert_eq!(user_id_from_authorization(Some("-7")), Some(UserId(-7)));
    assert_eq!(user_id_from_authorization(Some("Bearer 42")), None);
    assert_eq!(user_id_from_authorization(None), None);
}

#[test]
fn utf8_lengths() {
    assert!(has_utf8_len(&chars_of("RUS"), 3));
    assert!(has_utf8_len(&chars_of("ÄB"), 3));
    assert!(!has_utf8_len(&chars_of("жук"), 3));
    assert!(!has_utf8_len(&chars_of("abc"), usize::MAX));
    assert!(has_utf8_len(&chars_of(""), 0));
}
