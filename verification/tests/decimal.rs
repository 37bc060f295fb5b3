use redis::resp::decimal::{parse_decimal, push_decimal, push_digits};
use redis::resp::display::decimal_text;

fn decimal(n: i64) -> Vec<u8> {
    let mut bytes = Vec::new();
    push_decimal(&mut bytes, n);
    bytes
}

#[test]
fn push_digits_writes_decimal_digits() {
    let mut bytes = Vec::new();
    push_digits(&mut bytes, 0);
    push_digits(&mut bytes, 9);
    push_digits(&mut bytes, 10);
    push_digits(&mut bytes, 536870912);
    push_digits(&mut bytes, u64::MAX);
    assert_eq!(bytes, b"091053687091218446744073709551615");
}

#[test]
fn push_decimal_writes_sign_and_digits() {
    assert_eq!(decimal(0), b"0");
    assert_eq!(decimal(7), b"7");
    assert_eq!(decimal(-7), b"-7");
    assert_eq!(decimal(100), b"100");
    assert_eq!(decimal(-100), b"-100");
    assert_eq!(decimal(i64::MAX), b"9223372036854775807");
    assert_eq!(decimal(i64::MIN), b"-9223372036854775808");
}

#[test]
fn push_decimal_agrees_with_std() {
    for n in [0i64, 1, -1, 9, 10, 11, 99, 100, 101, -999, 1000, 123456789, -987654321] {
        assert_eq!(decimal(n), n.to_string().into_bytes());
        assert_eq!(decimal_text(n), n.to_string());
    }
}

#[test]
fn parse_decimal_reads_what_std_reads() {
    let cases: [&str; 24] = [
        "0", "1", "-1", "+1", "-0", "+0", "007", "-007", "", "-", "+", "--1", "+-1", "-+1", "1-",
        "1+", " 1", "1 ", "1_000", "0x10", "9223372036854775807", "9223372036854775808",
        "-9223372036854775808", "-9223372036854775809",
    ];
    for text in cases {
        assert_eq!(parse_decimal(text.as_bytes()), text.parse::<i64>().ok());
    }
}

#[test]
fn parse_decimal_exact_values() {
    assert_eq!(parse_decimal(b"123"), Some(123));
    assert_eq!(parse_decimal(b"-123"), Some(-123));
    assert_eq!(parse_decimal(b"+123"), Some(123));
    assert_eq!(parse_decimal(b"9223372036854775807"), Some(i64::MAX));
    assert_eq!(parse_decimal(b"-9223372036854775808"), Some(i64::MIN));
    assert_eq!(parse_decimal(b"00000000000000000000000000000000000000001"), Some(1));
    assert_eq!(parse_decimal(b"9223372036854775808"), None);
    assert_eq!(parse_decimal(b"+9223372036854775808"), None);
    assert_eq!(parse_decimal(b"-9223372036854775809"), None);
    assert_eq!(parse_decimal(b"99999999999999999999999999999999999999999999"), None);
    assert_eq!(parse_decimal(b"-99999999999999999999999999999999999999999999"), None);
    assert_eq!(parse_decimal(b"12x"), None);
    assert_eq!(parse_decimal(b"\xff"), None);
}

#[test]
fn parse_decimal_undoes_push_decimal() {
    for n in [0i64, 5, -5, 10, -10, 536870912, i64::MAX, i64::MIN, i64::MAX - 1, i64::MIN + 1] {
        assert_eq!(parse_decimal(&decimal(n)), Some(n));
    }
}
