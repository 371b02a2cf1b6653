//! The bridge between structured values and trees: what a type must be able
//! to do to be written and read, and how the plain types do it.

use crate::error::Error;
use crate::list::{gathered, trees_of};
use crate::tag::Tag;
use crate::tree::{as_byte, as_compound, as_int, as_long, as_short, as_string, mismatch, Tree};
use crate::value::{copy_compound, copy_list, copy_value, Compound, List, Value};
use vstd::prelude::*;

verus! {

/// A value that can describe itself as a tree: a struct as a compound with
/// an entry for each field under the name of the field, a field that is
/// absent as no entry at all, a plain sequence as a list.
///
/// What `to_value` gives for a type is for that type to say, in the contract
/// of its impl; the functions that take any `Encode` say what they do with
/// whatever it gives.
pub trait Encode {
    /// The value as a tree, or the reason why it has none.
    fn to_value(&self) -> (r: Result<Value, Error>);
}

/// A value that can be built from a tree. An impl refuses, with
/// `TypeMismatch`, a tree of another kind than the one it is built from.
pub trait Decode: Sized {
    /// The value that the tree is read as, or the reason why it is refused.
    fn from_value(value: &Value) -> (r: Result<Self, Error>);
}

impl Encode for i8 {
    fn to_value(&self) -> (r: Result<Value, Error>)
        ensures
            r matches Ok(v) && v@ == Tree::Byte(*self),
    {
        Ok(Value::Byte(*self))
    }
}

impl Decode for i8 {
    fn from_value(value: &Value) -> (r: Result<i8, Error>)
        ensures
            r == as_byte(value@),
    {
        match value {
            Value::Byte(x) => Ok(*x),
            _ => Err(Error::TypeMismatch { expected: Tag::Byte, found: value.tag() }),
        }
    }
}

impl Encode for i16 {
    fn to_value(&self) -> (r: Result<Value, Error>)
        ensures
            r matches Ok(v) && v@ == Tree::Short(*self),
    {
        Ok(Value::Short(*self))
    }
}

impl Decode for i16 {
    fn from_value(value: &Value) -> (r: Result<i16, Error>)
        ensures
            r == as_short(value@),
    {
        match value {
            Value::Short(x) => Ok(*x),
            _ => Err(Error::TypeMismatch { expected: Tag::Short, found: value.tag() }),
        }
    }
}

impl Encode for i32 {
    fn to_value(&self) -> (r: Result<Value, Error>)
        ensures
            r matches Ok(v) && v@ == Tree::Int(*self),
    {
        Ok(Value::Int(*self))
    }
}

impl Decode for i32 {
    fn from_value(value: &Value) -> (r: Result<i32, Error>)
        ensures
            r == as_int(value@),
    {
        match value {
            Value::Int(x) => Ok(*x),
            _ => Err(Error::TypeMismatch { expected: Tag::Int, found: value.tag() }),
        }
    }
}

impl Encode for i64 {
    fn to_value(&self) -> (r: Result<Value, Error>)
        ensures
            r matches Ok(v) && v@ == Tree::Long(*self),
    {
        Ok(Value::Long(*self))
    }
}

impl Decode for i64 {
    fn from_value(value: &Value) -> (r: Result<i64, Error>)
        ensures
            r == as_long(value@),
    {
        match value {
            Value::Long(x) => Ok(*x),
            _ => Err(Error::TypeMismatch { expected: Tag::Long, found: value.tag() }),
        }
    }
}

impl Encode for String {
    fn to_value(&self) -> (r: Result<Value, Error>)
        ensures
            r matches Ok(v) && v@ == Tree::String(self@),
    {
        Ok(Value::String(self.clone()))
    }
}

impl Decode for String {
    fn from_value(value: &Value) -> (r: Result<String, Error>)
        ensures
            match as_string(value@) {
                Ok(chars) => r matches Ok(s) && s@ == chars,
                Err(e) => r matches Err(x) && x == e,
            },
    {
        match value {
            Value::String(s) => Ok(s.clone()),
            _ => Err(Error::TypeMismatch { expected: Tag::String, found: value.tag() }),
        }
    }
}

impl Encode for Value {
    fn to_value(&self) -> (r: Result<Value, Error>)
        ensures
            r matches Ok(v) && v@ == self@,
    {
        Ok(copy_value(self))
    }
}

impl Decode for Value {
    fn from_value(value: &Value) -> (r: Result<Value, Error>)
        ensures
            r matches Ok(v) && v@ == value@,
    {
        Ok(copy_value(value))
    }
}

impl Encode for List {
    fn to_value(&self) -> (r: Result<Value, Error>)
        ensures
            r matches Ok(v) && v@ == self@,
    {
        Ok(Value::List(copy_list(self)))
    }
}

impl Decode for List {
    fn from_value(value: &Value) -> (r: Result<List, Error>)
        ensures
            match value@ {
                Tree::List(_, _) => r matches Ok(l) && l@ == value@,
                _ => r matches Err(e) && e == mismatch(Tag::List, value@),
            },
    {
        match value {
            Value::List(l) => Ok(copy_list(l)),
            _ => Err(Error::TypeMismatch { expected: Tag::List, found: value.tag() }),
        }
    }
}

impl Encode for Compound {
    fn to_value(&self) -> (r: Result<Value, Error>)
        ensures
            r matches Ok(v) && v@ == Tree::Compound(self@),
    {
        Ok(Value::Compound(copy_compound(self)))
    }
}

impl Decode for Compound {
    fn from_value(value: &Value) -> (r: Result<Compound, Error>)
        ensures
            match as_compound(value@) {
                Ok(entries) => r matches Ok(c) && c@ == entries,
                Err(e) => r matches Err(x) && x == e,
            },
    {
        match value {
            Value::Compound(c) => Ok(copy_compound(c)),
            _ => Err(Error::TypeMismatch { expected: Tag::Compound, found: value.tag() }),
        }
    }
}

/// `r` is what the `to_value` of the item gives.
pub open spec fn described<T: Encode>(item: &T, r: Result<Value, Error>) -> bool {
    call_ensures(T::to_value, (item,), r)
}

/// `r` is what `T::from_value` makes of the value.
pub open spec fn built<T: Decode>(value: &Value, r: Result<T, Error>) -> bool {
    call_ensures(T::from_value, (value,), r)
}

/// Each of the first `n` items is described as the value at its place.
pub open spec fn all_described<T: Encode>(items: Seq<T>, values: Seq<Value>, n: int) -> bool {
    &&& 0 <= n <= items.len()
    &&& n <= values.len()
    &&& forall|i: int|
        0 <= i < n ==> described(&items[i], Ok::<Value, Error>(#[trigger] values[i]))
}

/// Each of the first `n` values is built into the item at its place.
pub open spec fn all_built<T: Decode>(values: Seq<Value>, items: Seq<T>, n: int) -> bool {
    &&& 0 <= n <= values.len()
    &&& n <= items.len()
    &&& forall|i: int| 0 <= i < n ==> built(&values[i], Ok::<T, Error>(#[trigger] items[i]))
}

/// `r` is the outcome of writing a sequence whose items are described one by
/// one. The first `upto` items are described as `values`. Where that is not
/// all of them, the next item fails and `r` is its error; where it is, `r` is
/// what is made of the values: the tree `packed`, or the error in its place.
pub open spec fn sequence_written<T: Encode>(
    items: Seq<T>,
    values: Seq<Value>,
    upto: int,
    packed: Result<Tree, Error>,
    r: Result<Value, Error>,
) -> bool {
    &&& all_described(items, values, upto)
    &&& if upto < items.len() {
        r matches Err(e) && described(&items[upto], Err::<Value, Error>(e))
    } else {
        &&& values.len() == items.len()
        &&& match packed {
            Ok(tree) => r matches Ok(v) && v@ == tree,
            Err(e) => r matches Err(x) && x == e,
        }
    }
}

/// `r` is the outcome of reading a sequence whose items are built one by one
/// from `values`. The first `upto` values are built into `items`. Where that
/// is not all of them, the next value is refused and `r` is its error; where
/// it is, `r` is the items.
pub open spec fn sequence_read<T: Decode>(
    values: Seq<Value>,
    items: Seq<T>,
    upto: int,
    r: Result<Vec<T>, Error>,
) -> bool {
    &&& all_built(values, items, upto)
    &&& if upto < values.len() {
        r matches Err(e) && built(&values[upto], Err::<T, Error>(e))
    } else {
        r matches Ok(v) && v@ == items && items.len() == values.len()
    }
}

/// The values of the items of a sequence, each as its own `to_value` gives
/// it; the first item that fails ends the call with its error.
pub fn project_all<T: Encode>(items: &Vec<T>) -> (r: Result<Vec<Value>, Error>)
    ensures
        match r {
            Ok(values) => values@.len() == items@.len() && all_described(
                items@,
                values@,
                items@.len() as int,
            ),
            Err(e) => exists|values: Seq<Value>, upto: int|
                0 <= upto < items@.len() && #[trigger] all_described(items@, values, upto)
                    && described(&items@[upto], Err::<Value, Error>(e)),
        },
{
    let mut values: Vec<Value> = Vec::new();
    let mut i: usize = 0;
    while i < items.len()
        invariant
            i <= items.len(),
            values@.len() == i,
            all_described(items@, values@, i as int),
        decreases items.len() - i,
    {
        match items[i].to_value() {
            Err(e) => {
                assert(all_described(items@, values@, i as int) && described(
                    &items@[i as int],
                    Err::<Value, Error>(e),
                ));
                return Err(e);
            },
            Ok(v) => {
                values.push(v);
            },
        }
        i += 1;
    }
    Ok(values)
}

/// The items that a run of values gives, each as `T::from_value` builds it;
/// the first value that is refused ends the call with its error.
pub fn build_all<T: Decode>(values: &Vec<Value>) -> (r: Result<Vec<T>, Error>)
    ensures
        exists|items: Seq<T>, upto: int|
            0 <= upto <= values@.len() && #[trigger] sequence_read(values@, items, upto, r),
{
    let mut items: Vec<T> = Vec::new();
    let mut i: usize = 0;
    while i < values.len()
        invariant
            i <= values.len(),
            items@.len() == i,
            all_built(values@, items@, i as int),
        decreases values.len() - i,
    {
        match T::from_value(&values[i]) {
            Err(e) => {
                let r = Err(e);
                assert(sequence_read(values@, items@, i as int, r));
                return r;
            },
            Ok(item) => {
                items.push(item);
            },
        }
        i += 1;
    }
    let r = Ok(items);
    assert(sequence_read(values@, r->Ok_0@, values@.len() as int, r));
    r
}

/// A plain sequence is written as a list: its items are described one by
/// one, and the values must all be of one kind. The sequence without items
/// is the list without a kind.
impl<T: Encode> Encode for Vec<T> {
    fn to_value(&self) -> (r: Result<Value, Error>)
        ensures
            exists|values: Seq<Value>, upto: int| #[trigger]
                sequence_written(
                    self@,
                    values,
                    upto,
                    gathered(trees_of(values), values.len()),
                    r,
                ),
    {
        match project_all(self) {
            Err(e) => {
                let r = Err(e);
                proof {
                    let (values, upto) = choose|values: Seq<Value>, upto: int|
                        0 <= upto < self@.len() && #[trigger] all_described(self@, values, upto)
                            && described(&self@[upto], Err::<Value, Error>(e));
                    assert(sequence_written(
                        self@,
                        values,
                        upto,
                        gathered(trees_of(values), values.len()),
                        r,
                    ));
                }
                r
            },
            Ok(values) => {
                let r = match List::from_values(&values) {
                    Err(e) => Err(e),
                    Ok(list) => Ok(Value::List(list)),
                };
                assert(sequence_written(
                    self@,
                    values@,
                    self@.len() as int,
                    gathered(trees_of(values@), values@.len()),
                    r,
                ));
                r
            },
        }
    }
}

/// A plain sequence is read from a list and from nothing else, an array is
/// refused as any other kind is: the elements of the list are built one by
/// one.
impl<T: Decode> Decode for Vec<T> {
    fn from_value(value: &Value) -> (r: Result<Vec<T>, Error>)
        ensures
            match value@ {
                Tree::List(_, elements) => exists|values: Seq<Value>, items: Seq<T>, upto: int|
                    trees_of(values) == elements && 0 <= upto <= values.len()
                        && #[trigger] sequence_read(values, items, upto, r),
                _ => r matches Err(e) && e == mismatch(Tag::List, value@),
            },
    {
        match value {
            Value::List(list) => {
                let values = list.to_values();
                build_all(&values)
            },
            _ => Err(Error::TypeMismatch { expected: Tag::List, found: value.tag() }),
        }
    }
}

} // verus!
