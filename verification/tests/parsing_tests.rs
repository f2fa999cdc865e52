use binfiddle::{parse_index, parse_range, BinfiddleError};

#[test]
fn test_parse_range_forms() {
    assert_eq!(parse_range("", 100).unwrap(), (0, None));
    assert_eq!(parse_range("5", 100).unwrap(), (5, Some(6)));
    assert_eq!(parse_range("2..8", 100).unwrap(), (2, Some(8)));
    assert_eq!(parse_range("..8", 100).unwrap(), (0, Some(8)));
    assert_eq!(parse_range("2..", 100).unwrap(), (2, None));
    assert_eq!(parse_range("0x10..0x20", 100).unwrap(), (16, Some(32)));
}

#[test]
fn test_parse_range_rejects_malformed() {
    assert!(parse_range("1..2..3", 100).is_err());
    assert!(parse_range("abc", 100).is_err());
    assert!(parse_range("1..xyz", 100).is_err());
}

#[test]
fn test_parse_index_decimal_and_hex() {
    assert_eq!(parse_index("42", 100).unwrap(), 42);
    assert_eq!(parse_index("0x2a", 100).unwrap(), 42);
    assert_eq!(parse_index("0X2A", 100).unwrap(), 42);
    // A bare leading zero also reads the rest as hexadecimal.
    assert_eq!(parse_index("010", 100).unwrap(), 16);
}

#[test]
fn test_parse_index_out_of_bounds() {
    let err = parse_index("50", 10).unwrap_err();
    assert!(matches!(err, BinfiddleError::InvalidRange(_)));
}

#[test]
fn test_parse_index_bad_digits() {
    let err = parse_index("12g4", 100).unwrap_err();
    assert!(matches!(err, BinfiddleError::Parse(_)));
    assert!(parse_index("", 100).is_err());
}
