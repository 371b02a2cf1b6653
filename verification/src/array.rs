//! The array bridge: a plain sequence that is written as one of the three
//! arrays of numbers in place of a list, and read from that array only.
//!
//! An array takes elements of its own kind and no others: a number of another
//! width is refused, never cut down or widened.

use crate::bridge::{
    all_described, build_all, described, project_all, sequence_read, sequence_written, Decode,
    Encode,
};
use crate::error::Error;
use crate::list::trees_of;
use crate::tag::Tag;
use crate::tree::{
    as_byte_array, as_int_array, as_long_array, bytes_as_items, bytes_of, ints_as_items, ints_of,
    longs_as_items, longs_of, mismatch, Tree,
};
use crate::value::Value;
use vstd::prelude::*;

verus! {

/// Whether the first `n` trees all have the tag `of`; if not, the mismatch of
/// the first that has another.
pub open spec fn uniform(of: Tag, trees: Seq<Tree>, n: nat) -> Result<(), Error>
    decreases n,
{
    if n == 0 || n > trees.len() {
        Ok(())
    } else {
        match uniform(of, trees, (n - 1) as nat) {
            Err(e) => Err(e),
            Ok(()) => if trees[n - 1].tag() == of {
                Ok(())
            } else {
                Err(mismatch(of, trees[n - 1]))
            },
        }
    }
}

/// The array of numbers of the tag `of` that a run of trees makes: a byte
/// array of bytes, an int array of 32-bit numbers, a long array of any
/// other.
pub open spec fn array_of(of: Tag, trees: Seq<Tree>) -> Tree {
    match of {
        Tag::Byte => Tree::ByteArray(bytes_of(trees)),
        Tag::Int => Tree::IntArray(ints_of(trees)),
        _ => Tree::LongArray(longs_of(trees)),
    }
}

/// What is made of a run of trees that is bridged to an array of the tag
/// `of`: the array, where each tree has that tag, and the mismatch of the
/// first that has another.
pub open spec fn packed(of: Tag, trees: Seq<Tree>) -> Result<Tree, Error> {
    match uniform(of, trees, trees.len()) {
        Ok(()) => Ok(array_of(of, trees)),
        Err(e) => Err(e),
    }
}

/// An array takes its elements exactly where each of them is of its kind; an
/// element of another kind is refused with a `TypeMismatch` that names the
/// kind of the array's elements and the other kind.
pub proof fn lemma_array_discipline(of: Tag, trees: Seq<Tree>, n: nat)
    requires
        n <= trees.len(),
    ensures
        uniform(of, trees, n) is Ok <==> forall|i: int|
            0 <= i < n ==> (#[trigger] trees[i]).tag() == of,
        uniform(of, trees, n) matches Err(e) ==> exists|i: int|
            0 <= i < n && (#[trigger] trees[i]).tag() != of && e == mismatch(of, trees[i]),
    decreases n,
{
    if n > 0 {
        lemma_array_discipline(of, trees, (n - 1) as nat);
        if uniform(of, trees, (n - 1) as nat) is Ok {
            if trees[n - 1].tag() != of {
                assert(uniform(of, trees, n) == Err::<(), Error>(mismatch(of, trees[n - 1])));
            }
        } else {
            let e = uniform(of, trees, (n - 1) as nat)->Err_0;
            let i = choose|i: int|
                0 <= i < n - 1 && (#[trigger] trees[i]).tag() != of && e == mismatch(of, trees[i]);
            assert(0 <= i < n && trees[i].tag() != of);
        }
    }
}

/// A mismatch among the first `k` trees is the mismatch of any longer run.
pub proof fn lemma_uniform_stays(of: Tag, trees: Seq<Tree>, k: nat, n: nat)
    requires
        k <= n <= trees.len(),
        uniform(of, trees, k) is Err,
    ensures
        uniform(of, trees, n) == uniform(of, trees, k),
    decreases n - k,
{
    if k < n {
        lemma_uniform_stays(of, trees, k, (n - 1) as nat);
    }
}

/// The byte array of a run of values: each must be a signed byte.
pub fn pack_bytes(values: &Vec<Value>) -> (r: Result<Value, Error>)
    ensures
        match packed(Tag::Byte, trees_of(values@)) {
            Ok(tree) => r matches Ok(v) && v@ == tree,
            Err(e) => r matches Err(x) && x == e,
        },
{
    let ghost trees = trees_of(values@);
    let mut out: Vec<i8> = Vec::new();
    let mut i: usize = 0;
    while i < values.len()
        invariant
            i <= values.len(),
            trees == trees_of(values@),
            uniform(Tag::Byte, trees, i as nat) is Ok,
            out@ == bytes_of(trees).take(i as int),
        decreases values.len() - i,
    {
        assert(trees[i as int] == values@[i as int]@);
        match &values[i] {
            Value::Byte(x) => {
                out.push(*x);
                assert(out@ =~= bytes_of(trees).take(i + 1 as int));
            },
            other => {
                proof {
                    lemma_uniform_stays(Tag::Byte, trees, (i + 1) as nat, values@.len());
                }
                return Err(Error::TypeMismatch { expected: Tag::Byte, found: other.tag() });
            },
        }
        i += 1;
    }
    assert(out@ =~= bytes_of(trees));
    Ok(Value::ByteArray(out))
}

/// The elements of a byte array as values. Any other value, a list too, is refused.
pub fn unpack_bytes(value: &Value) -> (r: Result<Vec<Value>, Error>)
    ensures
        match as_byte_array(value@) {
            Ok(a) => r matches Ok(values) && trees_of(values@) == bytes_as_items(a),
            Err(e) => r matches Err(x) && x == e,
        },
{
    match value {
        Value::ByteArray(a) => {
            let mut out: Vec<Value> = Vec::new();
            let mut i: usize = 0;
            while i < a.len()
                invariant
                    i <= a.len(),
                    out@.len() == i,
                    forall|k: int| 0 <= k < i ==> (#[trigger] out@[k])@ == Tree::Byte(a@[k]),
                decreases a.len() - i,
            {
                out.push(Value::Byte(a[i]));
                i += 1;
            }
            assert(trees_of(out@) =~= bytes_as_items(a@));
            Ok(out)
        },
        _ => Err(Error::TypeMismatch { expected: Tag::ByteArray, found: value.tag() }),
    }
}

/// Writes a plain sequence as a byte array. Each element is described by
/// its own `to_value` and must come out as a signed byte; the sequence without
/// elements is the array without elements.
pub fn byte_array<T: Encode>(field: &Vec<T>) -> (r: Result<Value, Error>)
    ensures
        exists|values: Seq<Value>, upto: int| #[trigger]
            sequence_written(field@, values, upto, packed(Tag::Byte, trees_of(values)), r),
{
    match project_all(field) {
        Err(e) => {
            let r = Err(e);
            proof {
                let (values, upto) = choose|values: Seq<Value>, upto: int|
                    0 <= upto < field@.len() && #[trigger] all_described(field@, values, upto)
                        && described(&field@[upto], Err::<Value, Error>(e));
                assert(sequence_written(
                    field@,
                    values,
                    upto,
                    packed(Tag::Byte, trees_of(values)),
                    r,
                ));
            }
            r
        },
        Ok(values) => {
            let r = pack_bytes(&values);
            assert(sequence_written(
                field@,
                values@,
                field@.len() as int,
                packed(Tag::Byte, trees_of(values@)),
                r,
            ));
            r
        },
    }
}

/// Reads a plain sequence from a byte array and from nothing else; each
/// element is built by `T::from_value` from a signed byte.
pub fn from_byte_array<T: Decode>(value: &Value) -> (r: Result<Vec<T>, Error>)
    ensures
        match as_byte_array(value@) {
            Ok(a) => exists|values: Seq<Value>, items: Seq<T>, upto: int|
                trees_of(values) == bytes_as_items(a) && 0 <= upto <= values.len()
                    && #[trigger] sequence_read(values, items, upto, r),
            Err(e) => r matches Err(x) && x == e,
        },
{
    match unpack_bytes(value) {
        Err(e) => Err(e),
        Ok(values) => build_all(&values),
    }
}

/// The int array of a run of values: each must be a 32-bit number.
pub fn pack_ints(values: &Vec<Value>) -> (r: Result<Value, Error>)
    ensures
        match packed(Tag::Int, trees_of(values@)) {
            Ok(tree) => r matches Ok(v) && v@ == tree,
            Err(e) => r matches Err(x) && x == e,
        },
{
    let ghost trees = trees_of(values@);
    let mut out: Vec<i32> = Vec::new();
    let mut i: usize = 0;
    while i < values.len()
        invariant
            i <= values.len(),
            trees == trees_of(values@),
            uniform(Tag::Int, trees, i as nat) is Ok,
            out@ == ints_of(trees).take(i as int),
        decreases values.len() - i,
    {
        assert(trees[i as int] == values@[i as int]@);
        match &values[i] {
            Value::Int(x) => {
                out.push(*x);
                assert(out@ =~= ints_of(trees).take(i + 1 as int));
            },
            other => {
                proof {
                    lemma_uniform_stays(Tag::Int, trees, (i + 1) as nat, values@.len());
                }
                return Err(Error::TypeMismatch { expected: Tag::Int, found: other.tag() });
            },
        }
        i += 1;
    }
    assert(out@ =~= ints_of(trees));
    Ok(Value::IntArray(out))
}

/// The elements of an int array as values. Any other value, a list too, is refused.
pub fn unpack_ints(value: &Value) -> (r: Result<Vec<Value>, Error>)
    ensures
        match as_int_array(value@) {
            Ok(a) => r matches Ok(values) && trees_of(values@) == ints_as_items(a),
            Err(e) => r matches Err(x) && x == e,
        },
{
    match value {
        Value::IntArray(a) => {
            let mut out: Vec<Value> = Vec::new();
            let mut i: usize = 0;
            while i < a.len()
                invariant
                    i <= a.len(),
                    out@.len() == i,
                    forall|k: int| 0 <= k < i ==> (#[trigger] out@[k])@ == Tree::Int(a@[k]),
                decreases a.len() - i,
            {
                out.push(Value::Int(a[i]));
                i += 1;
            }
            assert(trees_of(out@) =~= ints_as_items(a@));
            Ok(out)
        },
        _ => Err(Error::TypeMismatch { expected: Tag::IntArray, found: value.tag() }),
    }
}

/// Writes a plain sequence as an int array. Each element is described by
/// its own `to_value` and must come out as a 32-bit number; the sequence without
/// elements is the array without elements.
pub fn int_array<T: Encode>(field: &Vec<T>) -> (r: Result<Value, Error>)
    ensures
        exists|values: Seq<Value>, upto: int| #[trigger]
            sequence_written(field@, values, upto, packed(Tag::Int, trees_of(values)), r),
{
    match project_all(field) {
        Err(e) => {
            let r = Err(e);
            proof {
                let (values, upto) = choose|values: Seq<Value>, upto: int|
                    0 <= upto < field@.len() && #[trigger] all_described(field@, values, upto)
                        && described(&field@[upto], Err::<Value, Error>(e));
                assert(sequence_written(
                    field@,
                    values,
                    upto,
                    packed(Tag::Int, trees_of(values)),
                    r,
                ));
            }
            r
        },
        Ok(values) => {
            let r = pack_ints(&values);
            assert(sequence_written(
                field@,
                values@,
                field@.len() as int,
                packed(Tag::Int, trees_of(values@)),
                r,
            ));
            r
        },
    }
}

/// Reads a plain sequence from an int array and from nothing else; each
/// element is built by `T::from_value` from a 32-bit number.
pub fn from_int_array<T: Decode>(value: &Value) -> (r: Result<Vec<T>, Error>)
    ensures
        match as_int_array(value@) {
            Ok(a) => exists|values: Seq<Value>, items: Seq<T>, upto: int|
                trees_of(values) == ints_as_items(a) && 0 <= upto <= values.len()
                    && #[trigger] sequence_read(values, items, upto, r),
            Err(e) => r matches Err(x) && x == e,
        },
{
    match unpack_ints(value) {
        Err(e) => Err(e),
        Ok(values) => build_all(&values),
    }
}

/// The long array of a run of values: each must be a 64-bit number.
pub fn pack_longs(values: &Vec<Value>) -> (r: Result<Value, Error>)
    ensures
        match packed(Tag::Long, trees_of(values@)) {
            Ok(tree) => r matches Ok(v) && v@ == tree,
            Err(e) => r matches Err(x) && x == e,
        },
{
    let ghost trees = trees_of(values@);
    let mut out: Vec<i64> = Vec::new();
    let mut i: usize = 0;
    while i < values.len()
        invariant
            i <= values.len(),
            trees == trees_of(values@),
            uniform(Tag::Long, trees, i as nat) is Ok,
            out@ == longs_of(trees).take(i as int),
        decreases values.len() - i,
    {
        assert(trees[i as int] == values@[i as int]@);
        match &values[i] {
            Value::Long(x) => {
                out.push(*x);
                assert(out@ =~= longs_of(trees).take(i + 1 as int));
            },
            other => {
                proof {
                    lemma_uniform_stays(Tag::Long, trees, (i + 1) as nat, values@.len());
                }
                return Err(Error::TypeMismatch { expected: Tag::Long, found: other.tag() });
            },
        }
        i += 1;
    }
    assert(out@ =~= longs_of(trees));
    Ok(Value::LongArray(out))
}

/// The elements of a long array as values. Any other value, a list too, is refused.
pub fn unpack_longs(value: &Value) -> (r: Result<Vec<Value>, Error>)
    ensures
        match as_long_array(value@) {
            Ok(a) => r matches Ok(values) && trees_of(values@) == longs_as_items(a),
            Err(e) => r matches Err(x) && x == e,
        },
{
    match value {
        Value::LongArray(a) => {
            let mut out: Vec<Value> = Vec::new();
            let mut i: usize = 0;
            while i < a.len()
                invariant
                    i <= a.len(),
                    out@.len() == i,
                    forall|k: int| 0 <= k < i ==> (#[trigger] out@[k])@ == Tree::Long(a@[k]),
                decreases a.len() - i,
            {
                out.push(Value::Long(a[i]));
                i += 1;
            }
            assert(trees_of(out@) =~= longs_as_items(a@));
            Ok(out)
        },
        _ => Err(Error::TypeMismatch { expected: Tag::LongArray, found: value.tag() }),
    }
}

/// Writes a plain sequence as a long array. Each element is described by
/// its own `to_value` and must come out as a 64-bit number; the sequence without
/// elements is the array without elements.
pub fn long_array<T: Encode>(field: &Vec<T>) -> (r: Result<Value, Error>)
    ensures
        exists|values: Seq<Value>, upto: int| #[trigger]
            sequence_written(field@, values, upto, packed(Tag::Long, trees_of(values)), r),
{
    match project_all(field) {
        Err(e) => {
            let r = Err(e);
            proof {
                let (values, upto) = choose|values: Seq<Value>, upto: int|
                    0 <= upto < field@.len() && #[trigger] all_described(field@, values, upto)
                        && described(&field@[upto], Err::<Value, Error>(e));
                assert(sequence_written(
                    field@,
                    values,
                    upto,
                    packed(Tag::Long, trees_of(values)),
                    r,
                ));
            }
            r
        },
        Ok(values) => {
            let r = pack_longs(&values);
            assert(sequence_written(
                field@,
                values@,
                field@.len() as int,
                packed(Tag::Long, trees_of(values@)),
                r,
            ));
            r
        },
    }
}

/// Reads a plain sequence from a long array and from nothing else; each
/// element is built by `T::from_value` from a 64-bit number.
pub fn from_long_array<T: Decode>(value: &Value) -> (r: Result<Vec<T>, Error>)
    ensures
        match as_long_array(value@) {
            Ok(a) => exists|values: Seq<Value>, items: Seq<T>, upto: int|
                trees_of(values) == longs_as_items(a) && 0 <= upto <= values.len()
                    && #[trigger] sequence_read(values, items, upto, r),
            Err(e) => r matches Err(x) && x == e,
        },
{
    match unpack_longs(value) {
        Err(e) => Err(e),
        Ok(values) => build_all(&values),
    }
}

} // verus!
