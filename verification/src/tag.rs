//! The one-byte discriminants of the wire format.

use vstd::prelude::*;

verus! {

/// The kind of a value, as the wire format names it.
#[derive(Clone, Copy, Debug, PartialEq, Eq, Structural)]
pub enum Tag {
    End,
    Byte,
    Short,
    Int,
    Long,
    Float,
    Double,
    ByteArray,
    String,
    List,
    Compound,
    IntArray,
    LongArray,
}

impl Tag {
    /// The byte that stands for this tag on the wire.
    pub open spec fn byte(self) -> u8 {
        match self {
            Tag::End => 0,
            Tag::Byte => 1,
            Tag::Short => 2,
            Tag::Int => 3,
            Tag::Long => 4,
            Tag::Float => 5,
            Tag::Double => 6,
            Tag::ByteArray => 7,
            Tag::String => 8,
            Tag::List => 9,
            Tag::Compound => 10,
            Tag::IntArray => 11,
            Tag::LongArray => 12,
        }
    }

    /// The tag that a byte stands for, if it stands for one.
    pub open spec fn of_byte(b: u8) -> Option<Tag> {
        if b == 0 {
            Some(Tag::End)
        } else if b == 1 {
            Some(Tag::Byte)
        } else if b == 2 {
            Some(Tag::Short)
        } else if b == 3 {
            Some(Tag::Int)
        } else if b == 4 {
            Some(Tag::Long)
        } else if b == 5 {
            Some(Tag::Float)
        } else if b == 6 {
            Some(Tag::Double)
        } else if b == 7 {
            Some(Tag::ByteArray)
        } else if b == 8 {
            Some(Tag::String)
        } else if b == 9 {
            Some(Tag::List)
        } else if b == 10 {
            Some(Tag::Compound)
        } else if b == 11 {
            Some(Tag::IntArray)
        } else if b == 12 {
            Some(Tag::LongArray)
        } else {
            None
        }
    }

    /// The tag of a value that is one number of a fixed width.
    pub open spec fn is_leaf(self) -> bool {
        self is Byte || self is Short || self is Int || self is Long || self is Float
            || self is Double
    }

    /// Gives the wire byte of the tag.
    pub fn to_u8(self) -> (b: u8)
        ensures
            b == self.byte(),
            b <= 12,
    {
        match self {
            Tag::End => 0,
            Tag::Byte => 1,
            Tag::Short => 2,
            Tag::Int => 3,
            Tag::Long => 4,
            Tag::Float => 5,
            Tag::Double => 6,
            Tag::ByteArray => 7,
            Tag::String => 8,
            Tag::List => 9,
            Tag::Compound => 10,
            Tag::IntArray => 11,
            Tag::LongArray => 12,
        }
    }

    /// Reads a wire byte as a tag; a byte above twelve names no tag.
    pub fn from_u8(b: u8) -> (r: Option<Tag>)
        ensures
            r == Tag::of_byte(b),
            r is Some <==> b <= 12,
            r matches Some(t) ==> t.byte() == b,
    {
        match b {
            0 => Some(Tag::End),
            1 => Some(Tag::Byte),
            2 => Some(Tag::Short),
            3 => Some(Tag::Int),
            4 => Some(Tag::Long),
            5 => Some(Tag::Float),
            6 => Some(Tag::Double),
            7 => Some(Tag::ByteArray),
            8 => Some(Tag::String),
            9 => Some(Tag::List),
            10 => Some(Tag::Compound),
            11 => Some(Tag::IntArray),
            12 => Some(Tag::LongArray),
            _ => None,
        }
    }
}

} // verus!
