use tip5_cli::digest::{parse_digest, Digest};
use tip5_cli::error::{Error, FormatError, ParseError};
use tip5_cli::number::parse_number;

#[test]
fn decimal_number() {
    assert_eq!(parse_number("16909060"), Ok(16909060));
}

#[test]
fn hex_number_lower_and_upper_prefix() {
    assert_eq!(parse_number("0x01020304"), Ok(16909060));
    assert_eq!(parse_number("0X1F"), Ok(31));
    assert_eq!(parse_number("0xAbCd"), Ok(0xabcd));
}

#[test]
fn leading_zero_is_decimal() {
    assert_eq!(parse_number("0123"), Ok(123));
    assert_eq!(parse_number("0"), Ok(0));
    assert_eq!(parse_number("010"), Ok(10));
}

#[test]
fn number_surrounding_whitespace() {
    assert_eq!(parse_number("  42\t"), Ok(42));
    assert_eq!(parse_number("\u{a0}0x10\u{3000}"), Ok(16));
}

#[test]
fn number_empty() {
    assert_eq!(parse_number(""), Err(ParseError::Empty));
    assert_eq!(parse_number("   "), Err(ParseError::Empty));
    assert_eq!(parse_number("0x"), Err(ParseError::Empty));
}

#[test]
fn invalid_hex_digit() {
    assert_eq!(parse_number("0xg1"), Err(ParseError::InvalidDigit));
}

#[test]
fn invalid_decimal_digit() {
    assert_eq!(parse_number("12a"), Err(ParseError::InvalidDigit));
    assert_eq!(parse_number("-1"), Err(ParseError::InvalidDigit));
    assert_eq!(parse_number("1 2"), Err(ParseError::InvalidDigit));
}

#[test]
fn largest_values_fit() {
    assert_eq!(parse_number("18446744073709551615"), Ok(u64::MAX));
    assert_eq!(parse_number("0xffffffffffffffff"), Ok(u64::MAX));
}

#[test]
fn values_over_64_bits_overflow() {
    assert_eq!(parse_number("18446744073709551616"), Err(ParseError::Overflow));
    assert_eq!(parse_number("0x10000000000000000"), Err(ParseError::Overflow));
}

#[test]
fn decimal_and_hex_agree() {
    for v in [0u64, 1, 9, 10, 255, 16909060, 1 << 40, u64::MAX - 1, u64::MAX] {
        let decimal = format!("{}", v);
        let hex = format!("0x{:x}", v);
        assert_eq!(parse_number(&decimal), Ok(v));
        assert_eq!(parse_number(&hex), parse_number(&decimal));
    }
}

#[test]
fn digest_of_five_numbers() {
    let d = parse_digest("(1,2,3,4,5)").unwrap();
    assert_eq!(d.values(), [1, 2, 3, 4, 5]);
    assert_eq!(d, Digest::new([1, 2, 3, 4, 5]));
}

#[test]
fn digest_mixed_bases_and_inner_whitespace() {
    let d = parse_digest("( 0x10 , 017,0X0, 18446744073709551615 ,7 )").unwrap();
    assert_eq!(d.values(), [16, 17, 0, u64::MAX, 7]);
}

#[test]
fn digest_round_trip() {
    let values = [3u64, 0, u64::MAX, 42, 1 << 63];
    let text = format!("({},{},{},{},{})", values[0], values[1], values[2], values[3], values[4]);
    let d = parse_digest(&text).unwrap();
    assert_eq!(d.values(), values);
    let again = format!(
        "({},{},{},{},{})",
        d.values()[0],
        d.values()[1],
        d.values()[2],
        d.values()[3],
        d.values()[4]
    );
    assert_eq!(again, text);
}

#[test]
fn digest_missing_closing_parenthesis() {
    assert_eq!(
        parse_digest("(1,2,3,4,5"),
        Err(Error::Format(FormatError::MissingClosingParenthesis))
    );
    assert_eq!(parse_digest("("), Err(Error::Format(FormatError::MissingClosingParenthesis)));
}

#[test]
fn digest_missing_opening_parenthesis() {
    assert_eq!(
        parse_digest("1,2,3,4,5)"),
        Err(Error::Format(FormatError::MissingOpeningParenthesis))
    );
    assert_eq!(parse_digest(""), Err(Error::Format(FormatError::MissingOpeningParenthesis)));
}

#[test]
fn digest_with_four_or_six_elements() {
    assert_eq!(parse_digest("(1,2,3,4)"), Err(Error::Format(FormatError::WrongElementCount)));
    assert_eq!(
        parse_digest("(1,2,3,4,5,6)"),
        Err(Error::Format(FormatError::WrongElementCount))
    );
    assert_eq!(parse_digest("()"), Err(Error::Format(FormatError::WrongElementCount)));
}

#[test]
fn count_is_checked_before_numbers() {
    assert_eq!(parse_digest("(x,y)"), Err(Error::Format(FormatError::WrongElementCount)));
}

#[test]
fn first_bad_number_decides() {
    assert_eq!(parse_digest("(1,0xg1,,4,5)"), Err(Error::Parse(ParseError::InvalidDigit)));
    assert_eq!(parse_digest("(1,,0xg1,4,5)"), Err(Error::Parse(ParseError::Empty)));
    assert_eq!(
        parse_digest("(1,2,3,4,99999999999999999999)"),
        Err(Error::Parse(ParseError::Overflow))
    );
}

#[test]
fn digest_surrounding_whitespace() {
    assert_eq!(parse_digest(" (1,2,3,4,5) "), parse_digest("(1,2,3,4,5)"));
    assert_eq!(parse_digest("\n\t(1,2,3,4,5)\r\n"), parse_digest("(1,2,3,4,5)"));
    assert_eq!(parse_digest(" (1,2,3,4 "), parse_digest("(1,2,3,4"));
}
