//! The ways in which decoding or reading a chunk can fail.

use vstd::prelude::*;

verus! {

/// Why a chunk or a chunk type was rejected.
#[derive(Clone, Copy, Debug, PartialEq, Eq, Structural)]
pub enum Error {
    /// A chunk type is not four ASCII letters, or a buffer does not frame a
    /// chunk: it is too short, or its length field disagrees with its size.
    Format,
    /// The checksum stored in a buffer is not the checksum of its type and
    /// data.
    CrcMismatch,
    /// A payload that was asked for as text is not valid UTF-8.
    Encoding,
}

impl Error {
    /// A short description of the error.
    pub fn message(&self) -> (text: &'static str)
        ensures
            text@ == match *self {
                Error::Format => "malformed chunk"@,
                Error::CrcMismatch => "checksum mismatch"@,
                Error::Encoding => "payload is not valid UTF-8"@,
            },
    {
        match self {
            Error::Format => "malformed chunk",
            Error::CrcMismatch => "checksum mismatch",
            Error::Encoding => "payload is not valid UTF-8",
        }
    }
}

} // verus!
