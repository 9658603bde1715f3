//! The ways parsing and hashing requests can fail.

use vstd::prelude::*;

verus! {

/// A numeric token that is not a 64-bit unsigned integer in its base.
#[derive(Clone, Copy, Debug, PartialEq, Eq, Structural)]
pub enum ParseError {
    /// No digits after the optional `0x` prefix.
    Empty,
    /// A character that is not a digit of the selected base.
    InvalidDigit,
    /// The value does not fit in 64 bits.
    Overflow,
}

/// A digest token that is not a parenthesized group of five numbers.
#[derive(Clone, Copy, Debug, PartialEq, Eq, Structural)]
pub enum FormatError {
    MissingOpeningParenthesis,
    MissingClosingParenthesis,
    WrongElementCount,
}

/// A number of input digests that the selected mode does not take.
#[derive(Clone, Copy, Debug, PartialEq, Eq, Structural)]
pub enum UsageError {
    /// Pair mode takes exactly two digests.
    PairArity,
    /// Varlen mode takes at least two digests.
    VarlenArity,
}

/// Any failure of a hashing request.
#[derive(Clone, Copy, Debug, PartialEq, Eq, Structural)]
pub enum Error {
    Format(FormatError),
    Parse(ParseError),
    Usage(UsageError),
}

/// The human-readable message of an error.
pub open spec fn message_of(e: Error) -> Seq<char> {
    match e {
        Error::Format(FormatError::MissingOpeningParenthesis) => "Missing opening parenthesis"@,
        Error::Format(FormatError::MissingClosingParenthesis) => "Missing closing parenthesis"@,
        Error::Format(FormatError::WrongElementCount) => "Each digest must contain exactly 5 numbers"@,
        Error::Parse(ParseError::Empty) => "cannot parse integer from empty string"@,
        Error::Parse(ParseError::InvalidDigit) => "invalid digit found in string"@,
        Error::Parse(ParseError::Overflow) => "number too large to fit in target type"@,
        Error::Usage(UsageError::PairArity) => "pair mode requires exactly 2 digests"@,
        Error::Usage(UsageError::VarlenArity) => "varlen mode requires at least 2 digests"@,
    }
}

impl Error {
    pub fn message(&self) -> (r: String)
        ensures
            r@ == message_of(*self),
    {
        match self {
            Error::Format(FormatError::MissingOpeningParenthesis) => String::from_str(
                "Missing opening parenthesis",
            ),
            Error::Format(FormatError::MissingClosingParenthesis) => String::from_str(
                "Missing closing parenthesis",
            ),
            Error::Format(FormatError::WrongElementCount) => String::from_str(
                "Each digest must contain exactly 5 numbers",
            ),
            Error::Parse(ParseError::Empty) => String::from_str(
                "cannot parse integer from empty string",
            ),
            Error::Parse(ParseError::InvalidDigit) => String::from_str(
                "invalid digit found in string",
            ),
            Error::Parse(ParseError::Overflow) => String::from_str(
                "number too large to fit in target type",
            ),
            Error::Usage(UsageError::PairArity) => String::from_str(
                "pair mode requires exactly 2 digests",
            ),
            Error::Usage(UsageError::VarlenArity) => String::from_str(
                "varlen mode requires at least 2 digests",
            ),
        }
    }
}

} // verus!
