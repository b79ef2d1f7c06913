use redis_rs::decimal::{parse_decimal, push_decimal};

fn digits(n: usize) -> Vec<u8> {
    let mut out: Vec<u8> = Vec::new();
    push_decimal(&mut out, n);
    out
}

#[test]
fn decimal_fields_are_read_exactly() {
    assert_eq!(parse_decimal(b"0"), Some(0));
    assert_eq!(parse_decimal(b"1000"), Some(1000));
    assert_eq!(parse_decimal(b"-1"), Some(-1));
    assert_eq!(parse_decimal(b"-0"), Some(0));
    assert_eq!(parse_decimal(b"000123"), Some(123));
    assert_eq!(parse_decimal(b"9223372036854775807"), Some(i64::MAX));
    assert_eq!(parse_decimal(b"-9223372036854775808"), Some(i64::MIN));
    assert_eq!(parse_decimal(b"00000000000000000000000000000000000000000042"), Some(42));
}

#[test]
fn decimal_fields_refuse_everything_else() {
    assert_eq!(parse_decimal(b""), None);
    assert_eq!(parse_decimal(b"-"), None);
    assert_eq!(parse_decimal(b"--1"), None);
    assert_eq!(parse_decimal(b"+1"), None);
    assert_eq!(parse_decimal(b"1 "), None);
    assert_eq!(parse_decimal(b" 1"), None);
    assert_eq!(parse_decimal(b"1.5"), None);
    assert_eq!(parse_decimal(b"12a4"), None);
    assert_eq!(parse_decimal(b"9223372036854775808"), None);
    assert_eq!(parse_decimal(b"-9223372036854775809"), None);
    assert_eq!(parse_decimal(b"18446744073709551616"), None);
    assert_eq!(parse_decimal(b"92233720368547758070"), None);
    assert_eq!(parse_decimal(b"9223372036854775808x"), None);
    assert_eq!(parse_decimal(&[b'1', 0x2f]), None);
    assert_eq!(parse_decimal(&[b'1', 0x3a]), None);
}

#[test]
fn numbers_are_written_without_leading_zeros() {
    assert_eq!(digits(0), b"0".to_vec());
    assert_eq!(digits(7), b"7".to_vec());
    assert_eq!(digits(10), b"10".to_vec());
    assert_eq!(digits(19), b"19".to_vec());
    assert_eq!(digits(1000), b"1000".to_vec());
    assert_eq!(digits(1234567890), b"1234567890".to_vec());
    assert_eq!(digits(usize::MAX), usize::MAX.to_string().into_bytes());
}

#[test]
fn numbers_are_appended_to_what_is_there() {
    let mut out: Vec<u8> = b"$".to_vec();
    push_decimal(&mut out, 42);
    assert_eq!(out, b"$42".to_vec());
    push_decimal(&mut out, 0);
    assert_eq!(out, b"$420".to_vec());
}

#[test]
fn what_is_written_is_read_back() {
    let mut n: usize = 1;
    for _ in 0..18 {
        for m in [n - 1, n, n + 1] {
            assert_eq!(parse_decimal(&digits(m)), Some(m as i64));
        }
        n *= 10;
    }
}
