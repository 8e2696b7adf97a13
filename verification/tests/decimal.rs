use env_monitor::decimal::{decimal_len, parse_digits, push_decimal, push_zero_padded};

#[test]
fn zero_padding_as_the_format_width() {
    let mut v = Vec::new();
    push_zero_padded(&mut v, 7, 2);
    assert_eq!(v, b"07".to_vec());
    let mut v = Vec::new();
    push_zero_padded(&mut v, 123, 2);
    assert_eq!(v, b"123".to_vec());
    let mut v = b"x".to_vec();
    push_zero_padded(&mut v, 0, 4);
    assert_eq!(v, b"x0000".to_vec());
}

#[test]
fn decimal_numerals() {
    let mut v = Vec::new();
    push_decimal(&mut v, u64::MAX);
    assert_eq!(v, u64::MAX.to_string().into_bytes());
    assert_eq!(decimal_len(0), 1);
    assert_eq!(decimal_len(u64::MAX), 20);
}

#[test]
fn fixed_width_fields() {
    assert_eq!(parse_digits(b"ab2024", 2, 4), Some(2024));
    assert_eq!(parse_digits(b"0042", 0, 4), Some(42));
    assert_eq!(parse_digits(b"20x4", 0, 4), None);
    assert_eq!(parse_digits(b"", 0, 0), Some(0));
}
