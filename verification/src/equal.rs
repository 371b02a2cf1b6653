//! Equality of values: two values are equal where they stand for the same
//! tree. No kind is equal to another, and compounds are equal in the same
//! order of entries only.

use crate::tree::Tree;
use crate::value::{compound_entries, list_items, Compound, List, Value};
use vstd::prelude::*;
use vstd::std_specs::cmp::PartialEqSpecImpl;

verus! {

/// Whether two runs of signed bytes are the same.
pub fn same_bytes(a: &Vec<i8>, b: &Vec<i8>) -> (r: bool)
    ensures
        r <==> a@ == b@,
{
    if a.len() != b.len() {
        return false;
    }
    let mut i: usize = 0;
    while i < a.len()
        invariant
            i <= a.len(),
            a.len() == b.len(),
            forall|k: int| 0 <= k < i ==> a@[k] == b@[k],
        decreases a.len() - i,
    {
        if a[i] != b[i] {
            return false;
        }
        i += 1;
    }
    assert(a@ =~= b@);
    true
}

/// Whether two runs of 16-bit numbers are the same.
pub fn same_shorts(a: &Vec<i16>, b: &Vec<i16>) -> (r: bool)
    ensures
        r <==> a@ == b@,
{
    if a.len() != b.len() {
        return false;
    }
    let mut i: usize = 0;
    while i < a.len()
        invariant
            i <= a.len(),
            a.len() == b.len(),
            forall|k: int| 0 <= k < i ==> a@[k] == b@[k],
        decreases a.len() - i,
    {
        if a[i] != b[i] {
            return false;
        }
        i += 1;
    }
    assert(a@ =~= b@);
    true
}

/// Whether two runs of 32-bit numbers are the same.
pub fn same_ints(a: &Vec<i32>, b: &Vec<i32>) -> (r: bool)
    ensures
        r <==> a@ == b@,
{
    if a.len() != b.len() {
        return false;
    }
    let mut i: usize = 0;
    while i < a.len()
        invariant
            i <= a.len(),
            a.len() == b.len(),
            forall|k: int| 0 <= k < i ==> a@[k] == b@[k],
        decreases a.len() - i,
    {
        if a[i] != b[i] {
            return false;
        }
        i += 1;
    }
    assert(a@ =~= b@);
    true
}

/// Whether two runs of 64-bit numbers are the same.
pub fn same_longs(a: &Vec<i64>, b: &Vec<i64>) -> (r: bool)
    ensures
        r <==> a@ == b@,
{
    if a.len() != b.len() {
        return false;
    }
    let mut i: usize = 0;
    while i < a.len()
        invariant
            i <= a.len(),
            a.len() == b.len(),
            forall|k: int| 0 <= k < i ==> a@[k] == b@[k],
        decreases a.len() - i,
    {
        if a[i] != b[i] {
            return false;
        }
        i += 1;
    }
    assert(a@ =~= b@);
    true
}

/// Whether two runs of 32-bit patterns are the same.
pub fn same_floats(a: &Vec<u32>, b: &Vec<u32>) -> (r: bool)
    ensures
        r <==> a@ == b@,
{
    if a.len() != b.len() {
        return false;
    }
    let mut i: usize = 0;
    while i < a.len()
        invariant
            i <= a.len(),
            a.len() == b.len(),
            forall|k: int| 0 <= k < i ==> a@[k] == b@[k],
        decreases a.len() - i,
    {
        if a[i] != b[i] {
            return false;
        }
        i += 1;
    }
    assert(a@ =~= b@);
    true
}

/// Whether two runs of 64-bit patterns are the same.
pub fn same_doubles(a: &Vec<u64>, b: &Vec<u64>) -> (r: bool)
    ensures
        r <==> a@ == b@,
{
    if a.len() != b.len() {
        return false;
    }
    let mut i: usize = 0;
    while i < a.len()
        invariant
            i <= a.len(),
            a.len() == b.len(),
            forall|k: int| 0 <= k < i ==> a@[k] == b@[k],
        decreases a.len() - i,
    {
        if a[i] != b[i] {
            return false;
        }
        i += 1;
    }
    assert(a@ =~= b@);
    true
}

/// Whether two runs of runs of signed bytes are the same.
pub fn same_rows_of_bytes(a: &Vec<Vec<i8>>, b: &Vec<Vec<i8>>) -> (r: bool)
    ensures
        r <==> (a@.len() == b@.len() && forall|i: int|
            0 <= i < a@.len() ==> (#[trigger] a@[i])@ == b@[i]@),
{
    if a.len() != b.len() {
        return false;
    }
    let mut i: usize = 0;
    while i < a.len()
        invariant
            i <= a.len(),
            a.len() == b.len(),
            forall|k: int| 0 <= k < i ==> (#[trigger] a@[k])@ == b@[k]@,
        decreases a.len() - i,
    {
        if !same_bytes(&a[i], &b[i]) {
            return false;
        }
        i += 1;
    }
    true
}

/// Whether two runs of runs of 32-bit numbers are the same.
pub fn same_rows_of_ints(a: &Vec<Vec<i32>>, b: &Vec<Vec<i32>>) -> (r: bool)
    ensures
        r <==> (a@.len() == b@.len() && forall|i: int|
            0 <= i < a@.len() ==> (#[trigger] a@[i])@ == b@[i]@),
{
    if a.len() != b.len() {
        return false;
    }
    let mut i: usize = 0;
    while i < a.len()
        invariant
            i <= a.len(),
            a.len() == b.len(),
            forall|k: int| 0 <= k < i ==> (#[trigger] a@[k])@ == b@[k]@,
        decreases a.len() - i,
    {
        if !same_ints(&a[i], &b[i]) {
            return false;
        }
        i += 1;
    }
    true
}

/// Whether two runs of runs of 64-bit numbers are the same.
pub fn same_rows_of_longs(a: &Vec<Vec<i64>>, b: &Vec<Vec<i64>>) -> (r: bool)
    ensures
        r <==> (a@.len() == b@.len() && forall|i: int|
            0 <= i < a@.len() ==> (#[trigger] a@[i])@ == b@[i]@),
{
    if a.len() != b.len() {
        return false;
    }
    let mut i: usize = 0;
    while i < a.len()
        invariant
            i <= a.len(),
            a.len() == b.len(),
            forall|k: int| 0 <= k < i ==> (#[trigger] a@[k])@ == b@[k]@,
        decreases a.len() - i,
    {
        if !same_longs(&a[i], &b[i]) {
            return false;
        }
        i += 1;
    }
    true
}

/// Whether two runs of strings are the same.
pub fn same_strings(a: &Vec<String>, b: &Vec<String>) -> (r: bool)
    ensures
        r <==> (a@.len() == b@.len() && forall|i: int|
            0 <= i < a@.len() ==> (#[trigger] a@[i])@ == b@[i]@),
{
    if a.len() != b.len() {
        return false;
    }
    let mut i: usize = 0;
    while i < a.len()
        invariant
            i <= a.len(),
            a.len() == b.len(),
            forall|k: int| 0 <= k < i ==> (#[trigger] a@[k])@ == b@[k]@,
        decreases a.len() - i,
    {
        if a[i] != b[i] {
            return false;
        }
        i += 1;
    }
    true
}

/// Whether two values stand for the same tree.
pub fn values_equal(a: &Value, b: &Value) -> (r: bool)
    ensures
        r <==> a@ == b@,
    decreases a,
{
    match (a, b) {
        (Value::Byte(x), Value::Byte(y)) => *x == *y,
        (Value::Short(x), Value::Short(y)) => *x == *y,
        (Value::Int(x), Value::Int(y)) => *x == *y,
        (Value::Long(x), Value::Long(y)) => *x == *y,
        (Value::Float(x), Value::Float(y)) => *x == *y,
        (Value::Double(x), Value::Double(y)) => *x == *y,
        (Value::ByteArray(x), Value::ByteArray(y)) => same_bytes(x, y),
        (Value::String(x), Value::String(y)) => *x == *y,
        (Value::List(x), Value::List(y)) => lists_equal(x, y),
        (Value::Compound(x), Value::Compound(y)) => compounds_equal(x, y),
        (Value::IntArray(x), Value::IntArray(y)) => same_ints(x, y),
        (Value::LongArray(x), Value::LongArray(y)) => same_longs(x, y),
        _ => false,
    }
}

/// Whether two lists stand for the same tree: the same kind and the same
/// elements in the same order.
pub fn lists_equal(a: &List, b: &List) -> (r: bool)
    ensures
        r <==> a@ == b@,
    decreases a,
{
    match (a, b) {
        (List::End, List::End) => true,
        (List::Byte(x), List::Byte(y)) => {
            let r = same_bytes(x, y);
            proof {
                assert(list_items(*a).len() == x@.len() && list_items(*b).len() == y@.len());
                if list_items(*a) == list_items(*b) {
                    assert forall|i: int| 0 <= i < x@.len() implies x@[i] == y@[i] by {
                        assert(list_items(*a)[i] == Tree::Byte(x@[i]));
                        assert(list_items(*b)[i] == Tree::Byte(y@[i]));
                    }
                    assert(x@ =~= y@);
                }
            }
            r
        },
        (List::Short(x), List::Short(y)) => {
            let r = same_shorts(x, y);
            proof {
                assert(list_items(*a).len() == x@.len() && list_items(*b).len() == y@.len());
                if list_items(*a) == list_items(*b) {
                    assert forall|i: int| 0 <= i < x@.len() implies x@[i] == y@[i] by {
                        assert(list_items(*a)[i] == Tree::Short(x@[i]));
                        assert(list_items(*b)[i] == Tree::Short(y@[i]));
                    }
                    assert(x@ =~= y@);
                }
            }
            r
        },
        (List::Int(x), List::Int(y)) => {
            let r = same_ints(x, y);
            proof {
                assert(list_items(*a).len() == x@.len() && list_items(*b).len() == y@.len());
                if list_items(*a) == list_items(*b) {
                    assert forall|i: int| 0 <= i < x@.len() implies x@[i] == y@[i] by {
                        assert(list_items(*a)[i] == Tree::Int(x@[i]));
                        assert(list_items(*b)[i] == Tree::Int(y@[i]));
                    }
                    assert(x@ =~= y@);
                }
            }
            r
        },
        (List::Long(x), List::Long(y)) => {
            let r = same_longs(x, y);
            proof {
                assert(list_items(*a).len() == x@.len() && list_items(*b).len() == y@.len());
                if list_items(*a) == list_items(*b) {
                    assert forall|i: int| 0 <= i < x@.len() implies x@[i] == y@[i] by {
                        assert(list_items(*a)[i] == Tree::Long(x@[i]));
                        assert(list_items(*b)[i] == Tree::Long(y@[i]));
                    }
                    assert(x@ =~= y@);
                }
            }
            r
        },
        (List::Float(x), List::Float(y)) => {
            let r = same_floats(x, y);
            proof {
                assert(list_items(*a).len() == x@.len() && list_items(*b).len() == y@.len());
                if list_items(*a) == list_items(*b) {
                    assert forall|i: int| 0 <= i < x@.len() implies x@[i] == y@[i] by {
                        assert(list_items(*a)[i] == Tree::Float(x@[i]));
                        assert(list_items(*b)[i] == Tree::Float(y@[i]));
                    }
                    assert(x@ =~= y@);
                }
            }
            r
        },
        (List::Double(x), List::Double(y)) => {
            let r = same_doubles(x, y);
            proof {
                assert(list_items(*a).len() == x@.len() && list_items(*b).len() == y@.len());
                if list_items(*a) == list_items(*b) {
                    assert forall|i: int| 0 <= i < x@.len() implies x@[i] == y@[i] by {
                        assert(list_items(*a)[i] == Tree::Double(x@[i]));
                        assert(list_items(*b)[i] == Tree::Double(y@[i]));
                    }
                    assert(x@ =~= y@);
                }
            }
            r
        },
        (List::ByteArray(x), List::ByteArray(y)) => {
            let r = same_rows_of_bytes(x, y);
            proof {
                assert(list_items(*a).len() == x@.len() && list_items(*b).len() == y@.len());
                if r {
                    assert(list_items(*a) =~= list_items(*b));
                }
                if list_items(*a) == list_items(*b) {
                    assert forall|i: int| 0 <= i < x@.len() implies (#[trigger] x@[i])@
                        == y@[i]@ by {
                        assert(list_items(*a)[i] == Tree::ByteArray(x@[i]@));
                        assert(list_items(*b)[i] == Tree::ByteArray(y@[i]@));
                    }
                }
            }
            r
        },
        (List::String(x), List::String(y)) => {
            let r = same_strings(x, y);
            proof {
                assert(list_items(*a).len() == x@.len() && list_items(*b).len() == y@.len());
                if r {
                    assert(list_items(*a) =~= list_items(*b));
                }
                if list_items(*a) == list_items(*b) {
                    assert forall|i: int| 0 <= i < x@.len() implies (#[trigger] x@[i])@
                        == y@[i]@ by {
                        assert(list_items(*a)[i] == Tree::String(x@[i]@));
                        assert(list_items(*b)[i] == Tree::String(y@[i]@));
                    }
                }
            }
            r
        },
        (List::IntArray(x), List::IntArray(y)) => {
            let r = same_rows_of_ints(x, y);
            proof {
                assert(list_items(*a).len() == x@.len() && list_items(*b).len() == y@.len());
                if r {
                    assert(list_items(*a) =~= list_items(*b));
                }
                if list_items(*a) == list_items(*b) {
                    assert forall|i: int| 0 <= i < x@.len() implies (#[trigger] x@[i])@
                        == y@[i]@ by {
                        assert(list_items(*a)[i] == Tree::IntArray(x@[i]@));
                        assert(list_items(*b)[i] == Tree::IntArray(y@[i]@));
                    }
                }
            }
            r
        },
        (List::LongArray(x), List::LongArray(y)) => {
            let r = same_rows_of_longs(x, y);
            proof {
                assert(list_items(*a).len() == x@.len() && list_items(*b).len() == y@.len());
                if r {
                    assert(list_items(*a) =~= list_items(*b));
                }
                if list_items(*a) == list_items(*b) {
                    assert forall|i: int| 0 <= i < x@.len() implies (#[trigger] x@[i])@
                        == y@[i]@ by {
                        assert(list_items(*a)[i] == Tree::LongArray(x@[i]@));
                        assert(list_items(*b)[i] == Tree::LongArray(y@[i]@));
                    }
                }
            }
            r
        },
        (List::List(x), List::List(y)) => {
            assert(list_items(*a).len() == x@.len() && list_items(*b).len() == y@.len());
            if x.len() != y.len() {
                return false;
            }
            let mut i: usize = 0;
            while i < x.len()
                invariant
                    i <= x.len(),
                    x.len() == y.len(),
                    *a == List::List(*x),
                    *b == List::List(*y),
                    forall|k: int| 0 <= k < i ==> (#[trigger] x@[k])@ == y@[k]@,
                    decreases_to!(a => x),
                decreases x.len() - i,
            {
                if !lists_equal(&x[i], &y[i]) {
                    proof {
                        let i = i as int;
                        assert(list_items(*a)[i] == x@[i]@);
                        assert(list_items(*b)[i] == y@[i]@);
                    }
                    return false;
                }
                i += 1;
            }
            proof {
                assert forall|i: int| 0 <= i < x@.len() implies list_items(*a)[i] == list_items(
                    *b,
                )[i] by {
                    assert(x@[i]@ == y@[i]@);
                }
                assert(list_items(*a) =~= list_items(*b));
            }
            true
        },
        (List::Compound(x), List::Compound(y)) => {
            assert(list_items(*a).len() == x@.len() && list_items(*b).len() == y@.len());
            if x.len() != y.len() {
                return false;
            }
            let mut i: usize = 0;
            while i < x.len()
                invariant
                    i <= x.len(),
                    x.len() == y.len(),
                    *a == List::Compound(*x),
                    *b == List::Compound(*y),
                    forall|k: int| 0 <= k < i ==> (#[trigger] x@[k])@ == y@[k]@,
                    decreases_to!(a => x),
                decreases x.len() - i,
            {
                if !compounds_equal(&x[i], &y[i]) {
                    proof {
                        let i = i as int;
                        assert(list_items(*a)[i] == Tree::Compound(x@[i]@));
                        assert(list_items(*b)[i] == Tree::Compound(y@[i]@));
                    }
                    return false;
                }
                i += 1;
            }
            proof {
                assert forall|i: int| 0 <= i < x@.len() implies list_items(*a)[i] == list_items(
                    *b,
                )[i] by {
                    assert(x@[i]@ == y@[i]@);
                }
                assert(list_items(*a) =~= list_items(*b));
            }
            true
        },
        _ => false,
    }
}

/// Whether two compounds hold the same entries in the same order.
pub fn compounds_equal(a: &Compound, b: &Compound) -> (r: bool)
    ensures
        r <==> a@ == b@,
    decreases a,
{
    assert(a@.len() == a.entries@.len() && b@.len() == b.entries@.len());
    if a.entries.len() != b.entries.len() {
        return false;
    }
    let mut i: usize = 0;
    while i < a.entries.len()
        invariant
            i <= a.entries.len(),
            a.entries.len() == b.entries.len(),
            forall|k: int| 0 <= k < i ==> (#[trigger] a@[k]) == b@[k],
        decreases a.entries.len() - i,
    {
        let same = a.entries[i].0 == b.entries[i].0 && values_equal(
            &a.entries[i].1,
            &b.entries[i].1,
        );
        proof {
            let k = i as int;
            assert(a@[k] == (a.entries@[k].0@, a.entries@[k].1@));
            assert(b@[k] == (b.entries@[k].0@, b.entries@[k].1@));
        }
        if !same {
            return false;
        }
        i += 1;
    }
    assert(a@ =~= b@);
    true
}

impl PartialEq for Value {
    fn eq(&self, other: &Value) -> (r: bool) {
        values_equal(self, other)
    }
}

impl PartialEqSpecImpl for Value {
    open spec fn obeys_eq_spec() -> bool {
        true
    }

    open spec fn eq_spec(&self, other: &Value) -> bool {
        self@ == other@
    }
}

impl PartialEq for List {
    fn eq(&self, other: &List) -> (r: bool) {
        lists_equal(self, other)
    }
}

impl PartialEqSpecImpl for List {
    open spec fn obeys_eq_spec() -> bool {
        true
    }

    open spec fn eq_spec(&self, other: &List) -> bool {
        self@ == other@
    }
}

impl PartialEq for Compound {
    fn eq(&self, other: &Compound) -> (r: bool) {
        compounds_equal(self, other)
    }
}

impl PartialEqSpecImpl for Compound {
    open spec fn obeys_eq_spec() -> bool {
        true
    }

    open spec fn eq_spec(&self, other: &Compound) -> bool {
        self@ == other@
    }
}

impl Eq for Value {

}

impl Eq for List {

}

impl Eq for Compound {

}

} // verus!
