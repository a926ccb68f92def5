use cargo_dfu::number::{parse_hex_16, parse_u16, ParseError};
use std::num::IntErrorKind;

fn reference(input: &str) -> Result<u16, ParseError> {
    let parsed = match input.strip_prefix("0x") {
        Some(stripped) => u16::from_str_radix(stripped, 16),
        None => input.parse::<u16>(),
    };
    parsed.map_err(|e| match e.kind() {
        IntErrorKind::Empty => ParseError::Empty,
        IntErrorKind::InvalidDigit => ParseError::InvalidDigit,
        IntErrorKind::PosOverflow => ParseError::PosOverflow,
        other => panic!("unexpected kind {:?}", other),
    })
}

#[test]
fn hexadecimal_after_prefix() {
    assert_eq!(parse_hex_16("0x0483"), Ok(0x0483));
    assert_eq!(parse_hex_16("0xdf11"), Ok(0xdf11));
    assert_eq!(parse_hex_16("0xDF11"), Ok(0xdf11));
    assert_eq!(parse_hex_16("0xffff"), Ok(65535));
    assert_eq!(parse_hex_16("0x0"), Ok(0));
}

#[test]
fn decimal_without_prefix() {
    assert_eq!(parse_hex_16("1155"), Ok(1155));
    assert_eq!(parse_hex_16("0"), Ok(0));
    assert_eq!(parse_hex_16("65535"), Ok(65535));
    assert_eq!(parse_hex_16("+12"), Ok(12));
    assert_eq!(parse_hex_16("00012"), Ok(12));
}

#[test]
fn empty_text_is_refused() {
    assert_eq!(parse_hex_16(""), Err(ParseError::Empty));
    assert_eq!(parse_hex_16("0x"), Err(ParseError::Empty));
}

#[test]
fn bad_digits_are_refused() {
    assert_eq!(parse_hex_16("df11"), Err(ParseError::InvalidDigit));
    assert_eq!(parse_hex_16("0xg"), Err(ParseError::InvalidDigit));
    assert_eq!(parse_hex_16("-1"), Err(ParseError::InvalidDigit));
    assert_eq!(parse_hex_16("+"), Err(ParseError::InvalidDigit));
    assert_eq!(parse_hex_16("-"), Err(ParseError::InvalidDigit));
    assert_eq!(parse_hex_16("0X10"), Err(ParseError::InvalidDigit));
    assert_eq!(parse_hex_16(" 12"), Err(ParseError::InvalidDigit));
    assert_eq!(parse_hex_16("1_000"), Err(ParseError::InvalidDigit));
    assert_eq!(parse_hex_16("12\u{e9}"), Err(ParseError::InvalidDigit));
}

#[test]
fn numbers_past_sixteen_bits_are_refused() {
    assert_eq!(parse_hex_16("65536"), Err(ParseError::PosOverflow));
    assert_eq!(parse_hex_16("0x10000"), Err(ParseError::PosOverflow));
    assert_eq!(parse_hex_16("99999999999"), Err(ParseError::PosOverflow));
}

#[test]
fn first_fault_decides_the_error() {
    assert_eq!(parse_hex_16("0x10000g"), Err(ParseError::PosOverflow));
    assert_eq!(parse_hex_16("0x1g0000"), Err(ParseError::InvalidDigit));
    assert_eq!(parse_hex_16("6553x"), Err(ParseError::InvalidDigit));
    assert_eq!(parse_hex_16("65536x"), Err(ParseError::PosOverflow));
}

#[test]
fn other_radices() {
    assert_eq!(parse_u16(b"zz", 36), Ok(35 * 36 + 35));
    assert_eq!(parse_u16(b"1111111111111111", 2), Ok(65535));
    assert_eq!(parse_u16(b"12", 2), Err(ParseError::InvalidDigit));
    assert_eq!(parse_u16(b"+ff", 16), Ok(255));
}

#[test]
fn agrees_with_the_standard_library() {
    let samples = [
        "", "0", "7", "42", "0483", "65535", "65536", "70000", "+", "-", "+1", "-1", "++1", "+-1",
        "0x", "0x0", "0x1", "0xf", "0xF", "0xffff", "0xFFFF", "0x10000", "0x+1f", "0x-1", "0x+",
        "0x0x1", "x10", "0X1f", "1f", "abc", " 1", "1 ", "0x 1", "1.0", "1e3", "0x00000001",
        "000000000000065535", "0xfffff", "0x1g", "0xg1", "0x10000g", "999999", "6553a", "65536a",
        "\u{661}", "0x\u{ff11}",
    ];
    for s in samples {
        assert_eq!(parse_hex_16(s), reference(s), "input {:?}", s);
    }
    for n in 0..=70000u32 {
        let dec = format!("{}", n);
        let hex = format!("0x{:x}", n);
        assert_eq!(parse_hex_16(&dec), reference(&dec));
        assert_eq!(parse_hex_16(&hex), reference(&hex));
    }
}
