use numrepr::decode::decode_literal;
use numrepr::error::ParseError;

#[test]
fn decode_decimal_basic() {
    assert_eq!(decode_literal("42"), Ok(42));
}

#[test]
fn decode_decimal_zero() {
    assert_eq!(decode_literal("0"), Ok(0));
}

#[test]
fn decode_decimal_leading_zeros() {
    assert_eq!(decode_literal("0042"), Ok(42));
}

#[test]
fn decode_hex_uppercase_digits() {
    assert_eq!(decode_literal("0xFF"), Ok(255));
}

#[test]
fn decode_hex_lowercase_digits() {
    assert_eq!(decode_literal("0x2a"), Ok(42));
}

#[test]
fn decode_hex_mixed_case() {
    assert_eq!(decode_literal("0xDeadBeef"), Ok(0xdead_beef));
}

#[test]
fn decode_binary() {
    assert_eq!(decode_literal("0b101010"), Ok(42));
}

#[test]
fn decode_binary_single_bit() {
    assert_eq!(decode_literal("0b1"), Ok(1));
}

#[test]
fn decode_max_decimal() {
    assert_eq!(decode_literal("18446744073709551615"), Ok(u64::MAX));
}

#[test]
fn decode_max_hex() {
    assert_eq!(decode_literal("0xffffffffffffffff"), Ok(u64::MAX));
}

#[test]
fn decode_overflow_decimal() {
    assert_eq!(
        decode_literal("18446744073709551616"),
        Err(ParseError::InvalidLiteral)
    );
}

#[test]
fn decode_overflow_hex() {
    assert_eq!(
        decode_literal("0x10000000000000000"),
        Err(ParseError::InvalidLiteral)
    );
}

#[test]
fn decode_invalid_binary_digit() {
    assert_eq!(decode_literal("0b12"), Err(ParseError::InvalidLiteral));
}

#[test]
fn decode_empty() {
    assert_eq!(decode_literal(""), Err(ParseError::InvalidLiteral));
}

#[test]
fn decode_bare_hex_prefix() {
    assert_eq!(decode_literal("0x"), Err(ParseError::InvalidLiteral));
}

#[test]
fn decode_bare_binary_prefix() {
    assert_eq!(decode_literal("0b"), Err(ParseError::InvalidLiteral));
}

#[test]
fn decode_no_sign_handling() {
    assert_eq!(decode_literal("+42"), Err(ParseError::InvalidLiteral));
    assert_eq!(decode_literal("-1"), Err(ParseError::InvalidLiteral));
}

#[test]
fn decode_no_whitespace_trimming() {
    assert_eq!(decode_literal(" 42"), Err(ParseError::InvalidLiteral));
    assert_eq!(decode_literal("42 "), Err(ParseError::InvalidLiteral));
}

#[test]
fn decode_letters_rejected_in_decimal() {
    assert_eq!(decode_literal("abc"), Err(ParseError::InvalidLiteral));
    assert_eq!(decode_literal("12a"), Err(ParseError::InvalidLiteral));
}

#[test]
fn decode_hex_digit_out_of_range() {
    assert_eq!(decode_literal("0xfg"), Err(ParseError::InvalidLiteral));
}

#[test]
fn invalid_literal_message() {
    assert_eq!(
        ParseError::InvalidLiteral.message(),
        "invalid numeric literal"
    );
}
