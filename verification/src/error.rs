//! What can go wrong while scrubbing.

use vstd::prelude::*;

verus! {

/// Errors that can occur while scrubbing a PSBT.
#[derive(Debug, PartialEq)]
pub enum Error {
    /// The input does not start with the PSBT magic bytes.
    InvalidMagic,
    /// A map of the PSBT ends early or is malformed.
    UnexpectedEof,
    /// The global map does not say how many inputs and outputs there are.
    InvalidGlobal,
}

impl Error {
    /// The message for a user.
    pub open spec fn text(self) -> Seq<char> {
        match self {
            Error::InvalidMagic => "invalid PSBT magic bytes"@,
            Error::UnexpectedEof => "unexpected end of input"@,
            Error::InvalidGlobal => "invalid or missing global map fields"@,
        }
    }

    /// Returns the message for a user.
    pub fn to_string(&self) -> (message: String)
        ensures
            message@ == self.text(),
            *self is InvalidMagic ==> message@ == "invalid PSBT magic bytes"@,
            *self is UnexpectedEof ==> message@ == "unexpected end of input"@,
            *self is InvalidGlobal ==> message@ == "invalid or missing global map fields"@,
    {
        match self {
            Error::InvalidMagic => "invalid PSBT magic bytes".to_string(),
            Error::UnexpectedEof => "unexpected end of input".to_string(),
            Error::InvalidGlobal => "invalid or missing global map fields".to_string(),
        }
    }
}

} // verus!
