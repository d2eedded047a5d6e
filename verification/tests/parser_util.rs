use truth::parser_util::{i32_from_ascii_radix, parse_ascii, parse_utf8};

#[test]
fn decimal_numbers() {
    assert_eq!(parse_ascii::<i32>(b"123").unwrap(), 123);
    assert_eq!(parse_ascii::<i32>(b"-123").unwrap(), -123);
    assert_eq!(parse_ascii::<i32>(b"+7").unwrap(), 7);
    assert_eq!(parse_utf8::<u32>(b"4294967295").unwrap(), u32::MAX);
}

#[test]
fn bad_numbers() {
    assert!(parse_ascii::<i32>(b"").is_err());
    assert!(parse_ascii::<i32>(b"-").is_err());
    assert!(parse_ascii::<i32>(b"1_000").is_err());
    assert!(parse_ascii::<i32>(b" 1").is_err());
    assert!(parse_ascii::<i32>(b"2147483648").is_err());
    assert!(parse_ascii::<u32>(b"-1").is_err());
    assert!(parse_utf8::<i32>("é".as_bytes()).is_err());
}

#[test]
fn numbers_in_a_radix() {
    assert_eq!(i32_from_ascii_radix(b"ff", 16).unwrap(), 255);
    assert_eq!(i32_from_ascii_radix(b"-7F", 16).unwrap(), -127);
    assert_eq!(i32_from_ascii_radix(b"101", 2).unwrap(), 5);
    assert_eq!(i32_from_ascii_radix(b"z", 36).unwrap(), 35);
    assert!(i32_from_ascii_radix(b"2", 2).is_err());
    assert!(i32_from_ascii_radix(b"80000000", 16).is_err());
}
