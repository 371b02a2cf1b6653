//! Typed reading: the fields of a compound and the elements of a list, each
//! asked for as one kind and refused with `TypeMismatch` where it is another.

use crate::error::Error;
use crate::tag::Tag;
use crate::tree::{
    bytes_as_items, doubles_as_items, field, floats_as_items, ints_as_items, longs_as_items, lookup,
    mismatch, shorts_as_items, Entries, Tree,
};
use crate::value::{list_items, Compound, List, Value};
use vstd::prelude::*;

verus! {

/// The elements of a list, asked for as elements of the tag `of`. The list
/// without a kind has no elements and passes for a list of any kind.
pub open spec fn elements_as(of: Tag, list: Tree) -> Result<Seq<Tree>, Error> {
    match list {
        Tree::List(tag, items) => if tag == of || tag == Tag::End {
            Ok(items)
        } else {
            Err(Error::TypeMismatch { expected: of, found: tag })
        },
        _ => Err(mismatch(Tag::List, list)),
    }
}

/// The tree under a key that may be missing, asked for as a tree of one
/// kind: no entry gives nothing, an entry of another kind is refused.
pub open spec fn optional_field(entries: Entries, key: Seq<char>, expected: Tag)
    -> Result<Option<Tree>, Error> {
    match lookup(entries, key) {
        None => Ok(None),
        Some(t) => if t.tag() == expected {
            Ok(Some(t))
        } else {
            Err(mismatch(expected, t))
        },
    }
}

impl Compound {
    /// The value under the key, asked for as a value of the kind `expected`.
    /// A key without an entry is reported as a mismatch with `End`.
    pub fn field(&self, key: &str, expected: Tag) -> (r: Result<&Value, Error>)
        ensures
            match field(self@, key@, expected) {
                Ok(t) => r matches Ok(v) && v@ == t,
                Err(e) => r matches Err(x) && x == e,
            },
    {
        match self.get(key) {
            None => Err(Error::TypeMismatch { expected, found: Tag::End }),
            Some(v) => {
                let found = v.tag();
                if found == expected {
                    Ok(v)
                } else {
                    Err(Error::TypeMismatch { expected, found })
                }
            },
        }
    }

    /// The value under a key that may be missing, asked for as a value of
    /// the kind `expected`.
    pub fn optional_field(&self, key: &str, expected: Tag) -> (r: Result<Option<&Value>, Error>)
        ensures
            match optional_field(self@, key@, expected) {
                Ok(Some(t)) => r matches Ok(Some(v)) && v@ == t,
                Ok(None) => r matches Ok(None),
                Err(e) => r matches Err(x) && x == e,
            },
    {
        match self.get(key) {
            None => Ok(None),
            Some(v) => {
                let found = v.tag();
                if found == expected {
                    Ok(Some(v))
                } else {
                    Err(Error::TypeMismatch { expected, found })
                }
            },
        }
    }

    /// The signed byte under the key.
    pub fn get_byte(&self, key: &str) -> (r: Result<i8, Error>)
        ensures
            match field(self@, key@, Tag::Byte) {
                Ok(t) => r matches Ok(x) && Tree::Byte(x) == t,
                Err(e) => r matches Err(x) && x == e,
            },
    {
        match self.field(key, Tag::Byte) {
            Err(e) => Err(e),
            Ok(Value::Byte(x)) => Ok(*x),
            Ok(other) => Err(Error::TypeMismatch { expected: Tag::Byte, found: other.tag() }),
        }
    }

    /// The 16-bit number under the key.
    pub fn get_short(&self, key: &str) -> (r: Result<i16, Error>)
        ensures
            match field(self@, key@, Tag::Short) {
                Ok(t) => r matches Ok(x) && Tree::Short(x) == t,
                Err(e) => r matches Err(x) && x == e,
            },
    {
        match self.field(key, Tag::Short) {
            Err(e) => Err(e),
            Ok(Value::Short(x)) => Ok(*x),
            Ok(other) => Err(Error::TypeMismatch { expected: Tag::Short, found: other.tag() }),
        }
    }

    /// The 32-bit number under the key.
    pub fn get_int(&self, key: &str) -> (r: Result<i32, Error>)
        ensures
            match field(self@, key@, Tag::Int) {
                Ok(t) => r matches Ok(x) && Tree::Int(x) == t,
                Err(e) => r matches Err(x) && x == e,
            },
    {
        match self.field(key, Tag::Int) {
            Err(e) => Err(e),
            Ok(Value::Int(x)) => Ok(*x),
            Ok(other) => Err(Error::TypeMismatch { expected: Tag::Int, found: other.tag() }),
        }
    }

    /// The 64-bit number under the key.
    pub fn get_long(&self, key: &str) -> (r: Result<i64, Error>)
        ensures
            match field(self@, key@, Tag::Long) {
                Ok(t) => r matches Ok(x) && Tree::Long(x) == t,
                Err(e) => r matches Err(x) && x == e,
            },
    {
        match self.field(key, Tag::Long) {
            Err(e) => Err(e),
            Ok(Value::Long(x)) => Ok(*x),
            Ok(other) => Err(Error::TypeMismatch { expected: Tag::Long, found: other.tag() }),
        }
    }

    /// The 32-bit float pattern under the key.
    pub fn get_float(&self, key: &str) -> (r: Result<u32, Error>)
        ensures
            match field(self@, key@, Tag::Float) {
                Ok(t) => r matches Ok(x) && Tree::Float(x) == t,
                Err(e) => r matches Err(x) && x == e,
            },
    {
        match self.field(key, Tag::Float) {
            Err(e) => Err(e),
            Ok(Value::Float(x)) => Ok(*x),
            Ok(other) => Err(Error::TypeMismatch { expected: Tag::Float, found: other.tag() }),
        }
    }

    /// The 64-bit float pattern under the key.
    pub fn get_double(&self, key: &str) -> (r: Result<u64, Error>)
        ensures
            match field(self@, key@, Tag::Double) {
                Ok(t) => r matches Ok(x) && Tree::Double(x) == t,
                Err(e) => r matches Err(x) && x == e,
            },
    {
        match self.field(key, Tag::Double) {
            Err(e) => Err(e),
            Ok(Value::Double(x)) => Ok(*x),
            Ok(other) => Err(Error::TypeMismatch { expected: Tag::Double, found: other.tag() }),
        }
    }

    /// A copy of the byte array under the key.
    pub fn get_byte_array(&self, key: &str) -> (r: Result<Vec<i8>, Error>)
        ensures
            match field(self@, key@, Tag::ByteArray) {
                Ok(t) => r matches Ok(a) && Tree::ByteArray(a@) == t,
                Err(e) => r matches Err(x) && x == e,
            },
    {
        match self.field(key, Tag::ByteArray) {
            Err(e) => Err(e),
            Ok(Value::ByteArray(a)) => Ok(vstd::slice::slice_to_vec(a.as_slice())),
            Ok(other) => Err(Error::TypeMismatch { expected: Tag::ByteArray, found: other.tag() }),
        }
    }

    /// A copy of the int array under the key.
    pub fn get_int_array(&self, key: &str) -> (r: Result<Vec<i32>, Error>)
        ensures
            match field(self@, key@, Tag::IntArray) {
                Ok(t) => r matches Ok(a) && Tree::IntArray(a@) == t,
                Err(e) => r matches Err(x) && x == e,
            },
    {
        match self.field(key, Tag::IntArray) {
            Err(e) => Err(e),
            Ok(Value::IntArray(a)) => Ok(vstd::slice::slice_to_vec(a.as_slice())),
            Ok(other) => Err(Error::TypeMismatch { expected: Tag::IntArray, found: other.tag() }),
        }
    }

    /// A copy of the long array under the key.
    pub fn get_long_array(&self, key: &str) -> (r: Result<Vec<i64>, Error>)
        ensures
            match field(self@, key@, Tag::LongArray) {
                Ok(t) => r matches Ok(a) && Tree::LongArray(a@) == t,
                Err(e) => r matches Err(x) && x == e,
            },
    {
        match self.field(key, Tag::LongArray) {
            Err(e) => Err(e),
            Ok(Value::LongArray(a)) => Ok(vstd::slice::slice_to_vec(a.as_slice())),
            Ok(other) => Err(Error::TypeMismatch { expected: Tag::LongArray, found: other.tag() }),
        }
    }

    /// A copy of the string under the key.
    pub fn get_string(&self, key: &str) -> (r: Result<String, Error>)
        ensures
            match field(self@, key@, Tag::String) {
                Ok(t) => r matches Ok(s) && Tree::String(s@) == t,
                Err(e) => r matches Err(x) && x == e,
            },
    {
        match self.field(key, Tag::String) {
            Err(e) => Err(e),
            Ok(Value::String(s)) => Ok(s.clone()),
            Ok(other) => Err(Error::TypeMismatch { expected: Tag::String, found: other.tag() }),
        }
    }

    /// The list under the key.
    pub fn get_list(&self, key: &str) -> (r: Result<&List, Error>)
        ensures
            match field(self@, key@, Tag::List) {
                Ok(t) => r matches Ok(l) && l@ == t,
                Err(e) => r matches Err(x) && x == e,
            },
    {
        match self.field(key, Tag::List) {
            Err(e) => Err(e),
            Ok(Value::List(l)) => Ok(l),
            Ok(other) => Err(Error::TypeMismatch { expected: Tag::List, found: other.tag() }),
        }
    }

    /// The compound under the key.
    pub fn get_compound(&self, key: &str) -> (r: Result<&Compound, Error>)
        ensures
            match field(self@, key@, Tag::Compound) {
                Ok(t) => r matches Ok(c) && Tree::Compound(c@) == t,
                Err(e) => r matches Err(x) && x == e,
            },
    {
        match self.field(key, Tag::Compound) {
            Err(e) => Err(e),
            Ok(Value::Compound(c)) => Ok(c),
            Ok(other) => Err(Error::TypeMismatch { expected: Tag::Compound, found: other.tag() }),
        }
    }
}

impl List {
    /// A copy of the elements of a list of signed bytes.
    pub fn to_bytes(&self) -> (r: Result<Vec<i8>, Error>)
        ensures
            match elements_as(Tag::Byte, self@) {
                Ok(items) => r matches Ok(v) && bytes_as_items(v@) == items,
                Err(e) => r matches Err(x) && x == e,
            },
    {
        match self {
            List::Byte(v) => Ok(vstd::slice::slice_to_vec(v.as_slice())),
            List::End => {
                let v: Vec<i8> = Vec::new();
                assert(bytes_as_items(v@) =~= Seq::<Tree>::empty());
                Ok(v)
            },
            _ => Err(Error::TypeMismatch { expected: Tag::Byte, found: self.element_tag() }),
        }
    }

    /// A copy of the elements of a list of 16-bit numbers.
    pub fn to_shorts(&self) -> (r: Result<Vec<i16>, Error>)
        ensures
            match elements_as(Tag::Short, self@) {
                Ok(items) => r matches Ok(v) && shorts_as_items(v@) == items,
                Err(e) => r matches Err(x) && x == e,
            },
    {
        match self {
            List::Short(v) => Ok(vstd::slice::slice_to_vec(v.as_slice())),
            List::End => {
                let v: Vec<i16> = Vec::new();
                assert(shorts_as_items(v@) =~= Seq::<Tree>::empty());
                Ok(v)
            },
            _ => Err(Error::TypeMismatch { expected: Tag::Short, found: self.element_tag() }),
        }
    }

    /// A copy of the elements of a list of 32-bit numbers.
    pub fn to_ints(&self) -> (r: Result<Vec<i32>, Error>)
        ensures
            match elements_as(Tag::Int, self@) {
                Ok(items) => r matches Ok(v) && ints_as_items(v@) == items,
                Err(e) => r matches Err(x) && x == e,
            },
    {
        match self {
            List::Int(v) => Ok(vstd::slice::slice_to_vec(v.as_slice())),
            List::End => {
                let v: Vec<i32> = Vec::new();
                assert(ints_as_items(v@) =~= Seq::<Tree>::empty());
                Ok(v)
            },
            _ => Err(Error::TypeMismatch { expected: Tag::Int, found: self.element_tag() }),
        }
    }

    /// A copy of the elements of a list of 64-bit numbers.
    pub fn to_longs(&self) -> (r: Result<Vec<i64>, Error>)
        ensures
            match elements_as(Tag::Long, self@) {
                Ok(items) => r matches Ok(v) && longs_as_items(v@) == items,
                Err(e) => r matches Err(x) && x == e,
            },
    {
        match self {
            List::Long(v) => Ok(vstd::slice::slice_to_vec(v.as_slice())),
            List::End => {
                let v: Vec<i64> = Vec::new();
                assert(longs_as_items(v@) =~= Seq::<Tree>::empty());
                Ok(v)
            },
            _ => Err(Error::TypeMismatch { expected: Tag::Long, found: self.element_tag() }),
        }
    }

    /// A copy of the elements of a list of 32-bit float patterns.
    pub fn to_floats(&self) -> (r: Result<Vec<u32>, Error>)
        ensures
            match elements_as(Tag::Float, self@) {
                Ok(items) => r matches Ok(v) && floats_as_items(v@) == items,
                Err(e) => r matches Err(x) && x == e,
            },
    {
        match self {
            List::Float(v) => Ok(vstd::slice::slice_to_vec(v.as_slice())),
            List::End => {
                let v: Vec<u32> = Vec::new();
                assert(floats_as_items(v@) =~= Seq::<Tree>::empty());
                Ok(v)
            },
            _ => Err(Error::TypeMismatch { expected: Tag::Float, found: self.element_tag() }),
        }
    }

    /// A copy of the elements of a list of 64-bit float patterns.
    pub fn to_doubles(&self) -> (r: Result<Vec<u64>, Error>)
        ensures
            match elements_as(Tag::Double, self@) {
                Ok(items) => r matches Ok(v) && doubles_as_items(v@) == items,
                Err(e) => r matches Err(x) && x == e,
            },
    {
        match self {
            List::Double(v) => Ok(vstd::slice::slice_to_vec(v.as_slice())),
            List::End => {
                let v: Vec<u64> = Vec::new();
                assert(doubles_as_items(v@) =~= Seq::<Tree>::empty());
                Ok(v)
            },
            _ => Err(Error::TypeMismatch { expected: Tag::Double, found: self.element_tag() }),
        }
    }

    /// A copy of the elements of a list of strings.
    pub fn to_strings(&self) -> (r: Result<Vec<String>, Error>)
        ensures
            match elements_as(Tag::String, self@) {
                Ok(items) => r matches Ok(v) && list_items(List::String(v)) == items,
                Err(e) => r matches Err(x) && x == e,
            },
    {
        match self {
            List::String(v) => {
                let mut out: Vec<String> = Vec::new();
                let mut i: usize = 0;
                while i < v.len()
                    invariant
                        i <= v.len(),
                        out@.len() == i,
                        forall|k: int| 0 <= k < i ==> (#[trigger] out@[k])@ == v@[k]@,
                    decreases v.len() - i,
                {
                    out.push(v[i].clone());
                    i += 1;
                }
                assert(list_items(List::String(out)) =~= list_items(*self));
                Ok(out)
            },
            List::End => {
                let v: Vec<String> = Vec::new();
                assert(list_items(List::String(v)) =~= Seq::<Tree>::empty());
                Ok(v)
            },
            _ => Err(Error::TypeMismatch { expected: Tag::String, found: self.element_tag() }),
        }
    }
}

} // verus!
