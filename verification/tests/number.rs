use chatmail_control::number::{format_i32, format_i64, format_u64, format_usize, parse_i64_str};

#[test]
fn formats_integers() {
    assert_eq!(format_u64(0), "0");
    assert_eq!(format_u64(1234567890), "1234567890");
    assert_eq!(format_usize(42), "42");
    assert_eq!(format_i64(-15), "-15");
    assert_eq!(format_i64(i64::MIN), i64::MIN.to_string());
    assert_eq!(format_i64(i64::MAX), i64::MAX.to_string());
    assert_eq!(format_i32(-1), "-1");
}

#[test]
fn parses_like_std() {
    for s in ["0", "-0", "+12", "-12", "9223372036854775807", "-9223372036854775808",
        "9223372036854775808", "-9223372036854775809", "", "-", "+", "1 ", " 1", "1a", "00012", "+-1"] {
        assert_eq!(parse_i64_str(s), s.parse::<i64>().ok(), "input {s:?}");
    }
}
