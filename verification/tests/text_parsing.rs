use media_manager::numeral::parse_micros;
use media_manager::text::{chars_lt, decimal_chars, parse_u64, str_eq};

#[test]
fn parse_u64_like_std() {
    for s in ["0", "42", "+7", "", "+", "-1", "1a", " 1", "18446744073709551615", "18446744073709551616", "007"] {
        assert_eq!(parse_u64(s), s.parse::<u64>().ok(), "input {s:?}");
    }
}

#[test]
fn parse_micros_fixed_point() {
    assert_eq!(parse_micros("12.5"), Some(12_500_000));
    assert_eq!(parse_micros("3"), Some(3_000_000));
    assert_eq!(parse_micros(".25"), Some(250_000));
    assert_eq!(parse_micros("5."), Some(5_000_000));
    assert_eq!(parse_micros("+1.000001"), Some(1_000_001));
    assert_eq!(parse_micros("1.1234567"), Some(1_123_456));
    assert_eq!(parse_micros("596.474000"), Some(596_474_000));
    assert_eq!(parse_micros("N/A"), None);
    assert_eq!(parse_micros("."), None);
    assert_eq!(parse_micros(""), None);
    assert_eq!(parse_micros("1.2.3"), None);
    assert_eq!(parse_micros("18446744073709.551615"), Some(u64::MAX));
    assert_eq!(parse_micros("18446744073709.551616"), None);
}

#[test]
fn decimal_numerals() {
    assert_eq!(decimal_chars(0).into_iter().collect::<String>(), "0");
    assert_eq!(decimal_chars(3840).into_iter().collect::<String>(), "3840");
    assert_eq!(decimal_chars(u64::MAX).into_iter().collect::<String>(), u64::MAX.to_string());
}

#[test]
fn string_equality() {
    assert!(str_eq("mp4", "mp4"));
    assert!(!str_eq("mp4", "mp3"));
    assert!(!str_eq("mp4", "mp4 "));
    assert!(str_eq("", ""));
}

#[test]
fn lexicographic_order() {
    let c = |s: &str| s.chars().collect::<Vec<char>>();
    assert!(chars_lt(&c("a"), &c("b")));
    assert!(chars_lt(&c("ab"), &c("abc")));
    assert!(!chars_lt(&c("abc"), &c("ab")));
    assert!(!chars_lt(&c("x"), &c("x")));
    assert!(chars_lt(&c("Z"), &c("a")));
    assert!(chars_lt(&c(""), &c("a")));
}

#[test]
fn parse_micros_float_forms() {
    assert_eq!(parse_micros("1e3"), Some(1_000_000_000));
    assert_eq!(parse_micros("1E3"), Some(1_000_000_000));
    assert_eq!(parse_micros("1.5e-3"), Some(1_500));
    assert_eq!(parse_micros("2.5E+1"), Some(25_000_000));
    assert_eq!(parse_micros("0012.5"), Some(12_500_000));
    assert_eq!(parse_micros("1e-400"), Some(0));
    assert_eq!(parse_micros("123456789e-15"), Some(0));
    assert_eq!(parse_micros("123456789e-14"), Some(1));
    assert_eq!(parse_micros("0e999999999999999999999999"), Some(0));
    assert_eq!(parse_micros("1e999999999999999999999999"), None);
    assert_eq!(parse_micros("1e-999999999999999999999999"), Some(0));
    assert_eq!(parse_micros("1e400"), None);
    assert_eq!(parse_micros("-0"), Some(0));
    assert_eq!(parse_micros("-0.0e5"), Some(0));
    assert_eq!(parse_micros("-1"), None);
    assert_eq!(parse_micros("inf"), None);
    assert_eq!(parse_micros("NaN"), None);
    assert_eq!(parse_micros("e5"), None);
    assert_eq!(parse_micros("1e"), None);
    assert_eq!(parse_micros("1e+"), None);
    assert_eq!(parse_micros("1.e2"), Some(100_000_000));
    assert_eq!(parse_micros(".5e1"), Some(5_000_000));
    assert_eq!(parse_micros(".e1"), None);
    assert_eq!(parse_micros("+-1"), None);
    assert_eq!(parse_micros(" 1"), None);
}
