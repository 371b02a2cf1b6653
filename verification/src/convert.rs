//! Values from plain data: a number, a string or a sequence becomes the value
//! that holds it, and is of the kind that its type says. A sequence of
//! numbers becomes an array; a list is built as a `List`.

use crate::tree::Tree;
use crate::value::{Compound, List, Value};
use vstd::prelude::*;
use vstd::std_specs::convert::FromSpecImpl;

verus! {

/// The value of a signed byte.
impl From<i8> for Value {
    fn from(x: i8) -> (v: Value) {
        Value::Byte(x)
    }
}

impl FromSpecImpl<i8> for Value {
    open spec fn obeys_from_spec() -> bool {
        true
    }

    open spec fn from_spec(x: i8) -> Value {
        Value::Byte(x)
    }
}

/// The value of a 16-bit number.
impl From<i16> for Value {
    fn from(x: i16) -> (v: Value) {
        Value::Short(x)
    }
}

impl FromSpecImpl<i16> for Value {
    open spec fn obeys_from_spec() -> bool {
        true
    }

    open spec fn from_spec(x: i16) -> Value {
        Value::Short(x)
    }
}

/// The value of a 32-bit number.
impl From<i32> for Value {
    fn from(x: i32) -> (v: Value) {
        Value::Int(x)
    }
}

impl FromSpecImpl<i32> for Value {
    open spec fn obeys_from_spec() -> bool {
        true
    }

    open spec fn from_spec(x: i32) -> Value {
        Value::Int(x)
    }
}

/// The value of a 64-bit number.
impl From<i64> for Value {
    fn from(x: i64) -> (v: Value) {
        Value::Long(x)
    }
}

impl FromSpecImpl<i64> for Value {
    open spec fn obeys_from_spec() -> bool {
        true
    }

    open spec fn from_spec(x: i64) -> Value {
        Value::Long(x)
    }
}

/// The value of a string.
impl From<String> for Value {
    fn from(x: String) -> (v: Value) {
        Value::String(x)
    }
}

impl FromSpecImpl<String> for Value {
    open spec fn obeys_from_spec() -> bool {
        true
    }

    open spec fn from_spec(x: String) -> Value {
        Value::String(x)
    }
}

/// The value of a sequence of signed bytes, as a byte array.
impl From<Vec<i8>> for Value {
    fn from(x: Vec<i8>) -> (v: Value) {
        Value::ByteArray(x)
    }
}

impl FromSpecImpl<Vec<i8>> for Value {
    open spec fn obeys_from_spec() -> bool {
        true
    }

    open spec fn from_spec(x: Vec<i8>) -> Value {
        Value::ByteArray(x)
    }
}

/// The value of a sequence of 32-bit numbers, as an int array.
impl From<Vec<i32>> for Value {
    fn from(x: Vec<i32>) -> (v: Value) {
        Value::IntArray(x)
    }
}

impl FromSpecImpl<Vec<i32>> for Value {
    open spec fn obeys_from_spec() -> bool {
        true
    }

    open spec fn from_spec(x: Vec<i32>) -> Value {
        Value::IntArray(x)
    }
}

/// The value of a sequence of 64-bit numbers, as a long array.
impl From<Vec<i64>> for Value {
    fn from(x: Vec<i64>) -> (v: Value) {
        Value::LongArray(x)
    }
}

impl FromSpecImpl<Vec<i64>> for Value {
    open spec fn obeys_from_spec() -> bool {
        true
    }

    open spec fn from_spec(x: Vec<i64>) -> Value {
        Value::LongArray(x)
    }
}

/// The value of a list.
impl From<List> for Value {
    fn from(x: List) -> (v: Value) {
        Value::List(x)
    }
}

impl FromSpecImpl<List> for Value {
    open spec fn obeys_from_spec() -> bool {
        true
    }

    open spec fn from_spec(x: List) -> Value {
        Value::List(x)
    }
}

/// The value of a compound.
impl From<Compound> for Value {
    fn from(x: Compound) -> (v: Value) {
        Value::Compound(x)
    }
}

impl FromSpecImpl<Compound> for Value {
    open spec fn obeys_from_spec() -> bool {
        true
    }

    open spec fn from_spec(x: Compound) -> Value {
        Value::Compound(x)
    }
}

impl Value {
    /// The value of a string slice.
    pub fn string(s: &str) -> (v: Value)
        ensures
            v@ == Tree::String(s@),
    {
        Value::String(s.to_owned())
    }
}

} // verus!
