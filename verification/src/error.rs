//! Errors reported while a command line is turned into a configuration.

use vstd::prelude::*;
use vstd::string::StrSliceExecFns;

verus! {

/// Why an input token was rejected. All of these are terminal: the caller
/// reports the error and no rendering takes place.
#[derive(Clone, Copy, PartialEq, Eq, Structural, Debug)]
pub enum ParseError {
    /// The numeric literal is not a valid number for its base prefix,
    /// or does not fit in 64 bits.
    InvalidLiteral,
    /// A token of the representation list is none of `b`, `d`, `h`.
    InvalidRepresentation,
    /// The bit-width argument is neither `u32` nor `u64`.
    InvalidFormat,
}

impl ParseError {
    /// A human-readable description of the error.
    pub fn message(&self) -> (m: String)
        ensures
            self is InvalidLiteral ==> m@ == "invalid numeric literal"@,
            self is InvalidRepresentation ==> m@ == "invalid representation list"@,
            self is InvalidFormat ==> m@ == "invalid format, expected u32 or u64"@,
    {
        match self {
            ParseError::InvalidLiteral => "invalid numeric literal".to_owned(),
            ParseError::InvalidRepresentation => "invalid representation list".to_owned(),
            ParseError::InvalidFormat => "invalid format, expected u32 or u64".to_owned(),
        }
    }
}

} // verus!
