//! What can go wrong while a tree is written or read.

use crate::tag::Tag;
use vstd::prelude::*;

verus! {

/// Why a call gave up. Every error ends the whole call it arose in.
#[derive(Clone, Copy, Debug, PartialEq, Eq, Structural)]
pub enum Error {
    /// The source ended before the value it holds did.
    Io,
    /// A byte stands where the tag of a value is due and names none.
    InvalidTag(u8),
    /// The outermost item is not a compound; the byte is the tag that it has.
    NonCompoundRoot(u8),
    /// A value of one kind stands where another kind is asked for. A missing
    /// entry is found as `Tag::End`.
    TypeMismatch { expected: Tag, found: Tag },
    /// A string is longer than 65535 bytes, or its bytes are not UTF-8.
    InvalidString,
    /// A sequence holds more elements than a count field can say, or a count
    /// field on the wire is negative.
    LengthOverflow,
    /// A list of entries names a key twice; the number is the position of the
    /// second occurrence.
    DuplicateKey(usize),
}

impl Error {
    /// A short name for the kind of the error.
    pub fn description(&self) -> (r: &'static str)
        ensures
            r@ == self.spec_description(),
    {
        match self {
            Error::Io => "unexpected end of input",
            Error::InvalidTag(_) => "invalid tag",
            Error::NonCompoundRoot(_) => "root must be a compound",
            Error::TypeMismatch { .. } => "type mismatch",
            Error::InvalidString => "invalid string",
            Error::LengthOverflow => "length overflow",
            Error::DuplicateKey(_) => "duplicate key",
        }
    }

    /// The text that `description` gives.
    pub open spec fn spec_description(&self) -> Seq<char> {
        match self {
            Error::Io => "unexpected end of input"@,
            Error::InvalidTag(_) => "invalid tag"@,
            Error::NonCompoundRoot(_) => "root must be a compound"@,
            Error::TypeMismatch { .. } => "type mismatch"@,
            Error::InvalidString => "invalid string"@,
            Error::LengthOverflow => "length overflow"@,
            Error::DuplicateKey(_) => "duplicate key"@,
        }
    }
}

} // verus!
