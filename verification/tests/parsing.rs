use transcode_orchestrator::numbers::{parse_fixed_micro, parse_i32, parse_i64, FixedMicro};
use transcode_orchestrator::text::{replace_all, str_eq};

#[test]
fn integers_parse_like_std() {
    assert_eq!(parse_i64("123"), Some(123));
    assert_eq!(parse_i64("+5"), Some(5));
    assert_eq!(parse_i64("-5"), Some(-5));
    assert_eq!(parse_i64("00042"), Some(42));
    assert_eq!(parse_i64("0"), Some(0));
    assert_eq!(parse_i64(""), None);
    assert_eq!(parse_i64("-"), None);
    assert_eq!(parse_i64("12a"), None);
    assert_eq!(parse_i64(" 12"), None);
}

#[test]
fn integer_range_limits_match_the_type() {
    assert_eq!(parse_i64("9223372036854775807"), Some(i64::MAX));
    assert_eq!(parse_i64("9223372036854775808"), None);
    assert_eq!(parse_i64("-9223372036854775808"), Some(i64::MIN));
    assert_eq!(parse_i64("-9223372036854775809"), None);
    assert_eq!(parse_i32("2147483647"), Some(i32::MAX));
    assert_eq!(parse_i32("2147483648"), None);
    assert_eq!(parse_i32("-2147483648"), Some(i32::MIN));
}

#[test]
fn decimals_parse_to_micro_units() {
    assert_eq!(
        parse_fixed_micro("25.30"),
        Some(FixedMicro { negative: false, micro: 25_300_000 })
    );
    assert_eq!(parse_fixed_micro("0"), Some(FixedMicro { negative: false, micro: 0 }));
    assert_eq!(parse_fixed_micro("7"), Some(FixedMicro { negative: false, micro: 7_000_000 }));
    assert_eq!(
        parse_fixed_micro("-1.5"),
        Some(FixedMicro { negative: true, micro: 1_500_000 })
    );
    assert_eq!(
        parse_fixed_micro("+0.25"),
        Some(FixedMicro { negative: false, micro: 250_000 })
    );
}

#[test]
fn fraction_digits_beyond_the_sixth_are_discarded() {
    assert_eq!(
        parse_fixed_micro("0.1234567"),
        Some(FixedMicro { negative: false, micro: 123_456 })
    );
    assert_eq!(
        parse_fixed_micro("0.123456"),
        Some(FixedMicro { negative: false, micro: 123_456 })
    );
}

#[test]
fn malformed_decimals_are_rejected() {
    assert_eq!(parse_fixed_micro(""), None);
    assert_eq!(parse_fixed_micro("1."), None);
    assert_eq!(parse_fixed_micro(".5"), None);
    assert_eq!(parse_fixed_micro("1.2.3"), None);
    assert_eq!(parse_fixed_micro("abc"), None);
    assert_eq!(parse_fixed_micro("1e3"), None);
    assert_eq!(parse_fixed_micro("nan"), None);
}

#[test]
fn replace_all_scans_left_to_right_without_overlap() {
    assert_eq!(replace_all("aaa", "aa", "b"), "ba".to_string());
    assert_eq!(replace_all("abcabc", "b", "xy"), "axycaxyc".to_string());
    assert_eq!(replace_all("abc", "z", "q"), "abc".to_string());
    assert_eq!(replace_all("frame=12", "frame=", ""), "12".to_string());
}

#[test]
fn string_equality_compares_characters() {
    assert!(str_eq("end", "end"));
    assert!(!str_eq("end", "continue"));
    assert!(!str_eq("end", "end "));
    assert!(str_eq("", ""));
}
