use ccem_core::analytics::extract_date;
use ccem_core::text::{i32_to_string, parse_i32, str_eq, trim_str, u128_to_string};

#[test]
fn test_str_eq() {
    assert!(str_eq("abc", "abc"));
    assert!(!str_eq("abc", "abd"));
    assert!(!str_eq("abc", "ab"));
    assert!(str_eq("", ""));
    assert!(str_eq("naïve", "naïve"));
}

#[test]
fn test_decimal_rendering() {
    assert_eq!(u128_to_string(0), "0");
    assert_eq!(u128_to_string(7), "7");
    assert_eq!(u128_to_string(1234567890123456789), "1234567890123456789");
    assert_eq!(i32_to_string(0), "0");
    assert_eq!(i32_to_string(2), "2");
    assert_eq!(i32_to_string(-15), "-15");
    assert_eq!(i32_to_string(i32::MIN), "-2147483648");
    assert_eq!(i32_to_string(i32::MAX), "2147483647");
}

#[test]
fn test_parse_i32_accepts_integers() {
    assert_eq!(parse_i32("0"), Some(0));
    assert_eq!(parse_i32("130"), Some(130));
    assert_eq!(parse_i32("+7"), Some(7));
    assert_eq!(parse_i32("-15"), Some(-15));
    assert_eq!(parse_i32("2147483647"), Some(i32::MAX));
    assert_eq!(parse_i32("-2147483648"), Some(i32::MIN));
}

#[test]
fn test_parse_i32_rejects_junk_and_overflow() {
    assert_eq!(parse_i32(""), None);
    assert_eq!(parse_i32("-"), None);
    assert_eq!(parse_i32("+"), None);
    assert_eq!(parse_i32("12a"), None);
    assert_eq!(parse_i32(" 1"), None);
    assert_eq!(parse_i32("2147483648"), None);
    assert_eq!(parse_i32("-2147483649"), None);
    assert_eq!(parse_i32("99999999999999999999"), None);
}

#[test]
fn test_trim_str() {
    assert_eq!(trim_str("  x y\t\n"), "x y");
    assert_eq!(trim_str("0\n"), "0");
    assert_eq!(trim_str("   "), "");
    assert_eq!(trim_str(""), "");
    assert_eq!(trim_str("no-space"), "no-space");
}

#[test]
fn test_extract_date() {
    assert_eq!(
        extract_date("2026-02-07T01:06:29.622Z"),
        Some("2026-02-07".to_string())
    );
    assert_eq!(extract_date("2026-02-07"), Some("2026-02-07".to_string()));
    assert_eq!(extract_date("short"), None);
}
