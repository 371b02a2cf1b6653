//! The tagged tree as a value to build, hold and take apart.

use crate::tag::Tag;
use crate::tree::{
    bytes_as_items, doubles_as_items, floats_as_items, ints_as_items, keys_unique, longs_as_items,
    shorts_as_items, Entries, Tree,
};
use vstd::prelude::*;

verus! {

/// One value of the tree. The variant is the tag under which the value is
/// written; no variant stands for another. A float or double is held as its
/// IEEE-754 bit pattern.
#[derive(Debug)]
pub enum Value {
    Byte(i8),
    Short(i16),
    Int(i32),
    Long(i64),
    Float(u32),
    Double(u64),
    ByteArray(Vec<i8>),
    String(String),
    List(List),
    Compound(Compound),
    IntArray(Vec<i32>),
    LongArray(Vec<i64>),
}

/// An ordered sequence of values of one kind. `End` is the list without
/// elements and without an element kind.
#[derive(Debug)]
pub enum List {
    End,
    Byte(Vec<i8>),
    Short(Vec<i16>),
    Int(Vec<i32>),
    Long(Vec<i64>),
    Float(Vec<u32>),
    Double(Vec<u64>),
    ByteArray(Vec<Vec<i8>>),
    String(Vec<String>),
    List(Vec<List>),
    Compound(Vec<Compound>),
    IntArray(Vec<Vec<i32>>),
    LongArray(Vec<Vec<i64>>),
}

/// An ordered mapping from keys to values. No key occurs twice, and the
/// entries stay in the order in which their keys were first put in.
#[derive(Debug)]
pub struct Compound {
    pub(crate) entries: Vec<(String, Value)>,
}

/// The tree that a value stands for.
pub open(crate) spec fn value_tree(v: Value) -> Tree
    decreases v,
{
    match v {
        Value::Byte(x) => Tree::Byte(x),
        Value::Short(x) => Tree::Short(x),
        Value::Int(x) => Tree::Int(x),
        Value::Long(x) => Tree::Long(x),
        Value::Float(x) => Tree::Float(x),
        Value::Double(x) => Tree::Double(x),
        Value::ByteArray(a) => Tree::ByteArray(a@),
        Value::String(s) => Tree::String(s@),
        Value::List(l) => Tree::List(list_tag(l), list_items(l)),
        Value::Compound(c) => Tree::Compound(compound_entries(c)),
        Value::IntArray(a) => Tree::IntArray(a@),
        Value::LongArray(a) => Tree::LongArray(a@),
    }
}

/// The tag that the elements of a list share.
pub open spec fn list_tag(l: List) -> Tag {
    match l {
        List::End => Tag::End,
        List::Byte(_) => Tag::Byte,
        List::Short(_) => Tag::Short,
        List::Int(_) => Tag::Int,
        List::Long(_) => Tag::Long,
        List::Float(_) => Tag::Float,
        List::Double(_) => Tag::Double,
        List::ByteArray(_) => Tag::ByteArray,
        List::String(_) => Tag::String,
        List::List(_) => Tag::List,
        List::Compound(_) => Tag::Compound,
        List::IntArray(_) => Tag::IntArray,
        List::LongArray(_) => Tag::LongArray,
    }
}

/// The elements of a list, each as a tree.
pub open(crate) spec fn list_items(l: List) -> Seq<Tree>
    decreases l,
{
    match l {
        List::End => Seq::empty(),
        List::Byte(v) => bytes_as_items(v@),
        List::Short(v) => shorts_as_items(v@),
        List::Int(v) => ints_as_items(v@),
        List::Long(v) => longs_as_items(v@),
        List::Float(v) => floats_as_items(v@),
        List::Double(v) => doubles_as_items(v@),
        List::ByteArray(v) => Seq::new(v@.len(), |i: int| Tree::ByteArray(v@[i]@)),
        List::String(v) => Seq::new(v@.len(), |i: int| Tree::String(v@[i]@)),
        List::List(v) => Seq::new(
            v@.len(),
            |i: int|
                if 0 <= i < v@.len() {
                    Tree::List(list_tag(v@[i]), list_items(v@[i]))
                } else {
                    Tree::List(Tag::End, Seq::empty())
                },
        ),
        List::Compound(v) => Seq::new(
            v@.len(),
            |i: int|
                if 0 <= i < v@.len() {
                    Tree::Compound(compound_entries(v@[i]))
                } else {
                    Tree::Compound(Seq::empty())
                },
        ),
        List::IntArray(v) => Seq::new(v@.len(), |i: int| Tree::IntArray(v@[i]@)),
        List::LongArray(v) => Seq::new(v@.len(), |i: int| Tree::LongArray(v@[i]@)),
    }
}

/// The entries of a compound, each value as a tree.
pub open(crate) spec fn compound_entries(c: Compound) -> Entries
    decreases c,
{
    Seq::new(
        c.entries@.len(),
        |i: int|
            if 0 <= i < c.entries@.len() {
                (c.entries@[i].0@, value_tree(c.entries@[i].1))
            } else {
                (Seq::empty(), Tree::Byte(0))
            },
    )
}

impl View for Value {
    type V = Tree;

    open spec fn view(&self) -> Tree {
        value_tree(*self)
    }
}

impl View for List {
    type V = Tree;

    open spec fn view(&self) -> Tree {
        Tree::List(list_tag(*self), list_items(*self))
    }
}

impl View for Compound {
    type V = Entries;

    open spec fn view(&self) -> Entries {
        compound_entries(*self)
    }
}

impl Compound {
    /// The invariant of a compound: no two entries share a key.
    #[verifier::type_invariant]
    pub open(crate) spec fn keys_distinct(self) -> bool {
        forall|i: int, j: int|
            0 <= i < j < self.entries@.len() ==> (#[trigger] self.entries@[i]).0@ != (
            #[trigger] self.entries@[j]).0@
    }

    /// A compound that keeps its invariant has unique keys in its view.
    pub proof fn lemma_keys_unique(self)
        requires
            self.keys_distinct(),
        ensures
            keys_unique(self@),
    {
        let entries = self@;
        assert forall|i: int, j: int| 0 <= i < j < entries.len() implies (#[trigger] entries[i]).0
            != (#[trigger] entries[j]).0 by {
            assert(self.entries@[i].0@ != self.entries@[j].0@);
        }
    }
}

impl Value {
    /// The tag under which the value is written.
    pub fn tag(&self) -> (t: Tag)
        ensures
            t == self@.tag(),
    {
        match self {
            Value::Byte(_) => Tag::Byte,
            Value::Short(_) => Tag::Short,
            Value::Int(_) => Tag::Int,
            Value::Long(_) => Tag::Long,
            Value::Float(_) => Tag::Float,
            Value::Double(_) => Tag::Double,
            Value::ByteArray(_) => Tag::ByteArray,
            Value::String(_) => Tag::String,
            Value::List(_) => Tag::List,
            Value::Compound(_) => Tag::Compound,
            Value::IntArray(_) => Tag::IntArray,
            Value::LongArray(_) => Tag::LongArray,
        }
    }
}

impl List {
    /// The tag that the elements share; `End` for the list without a kind.
    pub fn element_tag(&self) -> (t: Tag)
        ensures
            t == list_tag(*self),
            self@ matches Tree::List(tag, _) && tag == t,
    {
        match self {
            List::End => Tag::End,
            List::Byte(_) => Tag::Byte,
            List::Short(_) => Tag::Short,
            List::Int(_) => Tag::Int,
            List::Long(_) => Tag::Long,
            List::Float(_) => Tag::Float,
            List::Double(_) => Tag::Double,
            List::ByteArray(_) => Tag::ByteArray,
            List::String(_) => Tag::String,
            List::List(_) => Tag::List,
            List::Compound(_) => Tag::Compound,
            List::IntArray(_) => Tag::IntArray,
            List::LongArray(_) => Tag::LongArray,
        }
    }

    /// The number of elements.
    pub fn len(&self) -> (n: usize)
        ensures
            self@ matches Tree::List(_, items) && items.len() == n,
    {
        match self {
            List::End => 0,
            List::Byte(v) => v.len(),
            List::Short(v) => v.len(),
            List::Int(v) => v.len(),
            List::Long(v) => v.len(),
            List::Float(v) => v.len(),
            List::Double(v) => v.len(),
            List::ByteArray(v) => v.len(),
            List::String(v) => v.len(),
            List::List(v) => v.len(),
            List::Compound(v) => v.len(),
            List::IntArray(v) => v.len(),
            List::LongArray(v) => v.len(),
        }
    }
}

/// A copy of a vector of vectors of plain numbers.
fn copy_rows<T: Copy>(rows: &Vec<Vec<T>>) -> (r: Vec<Vec<T>>)
    ensures
        r@.len() == rows@.len(),
        forall|i: int| 0 <= i < rows@.len() ==> (#[trigger] r@[i])@ == rows@[i]@,
{
    let mut out: Vec<Vec<T>> = Vec::new();
    let mut i: usize = 0;
    while i < rows.len()
        invariant
            i <= rows.len(),
            out@.len() == i,
            forall|j: int| 0 <= j < i ==> (#[trigger] out@[j])@ == rows@[j]@,
        decreases rows.len() - i,
    {
        out.push(vstd::slice::slice_to_vec(rows[i].as_slice()));
        i += 1;
    }
    out
}

/// A copy of a vector of strings.
pub fn copy_strings(strings: &Vec<String>) -> (r: Vec<String>)
    ensures
        r@.len() == strings@.len(),
        forall|i: int| 0 <= i < strings@.len() ==> (#[trigger] r@[i])@ == strings@[i]@,
{
    let mut out: Vec<String> = Vec::new();
    let mut i: usize = 0;
    while i < strings.len()
        invariant
            i <= strings.len(),
            out@.len() == i,
            forall|j: int| 0 <= j < i ==> (#[trigger] out@[j])@ == strings@[j]@,
        decreases strings.len() - i,
    {
        out.push(strings[i].clone());
        i += 1;
    }
    out
}

/// A copy of a value: another value that stands for the same tree.
pub fn copy_value(v: &Value) -> (r: Value)
    ensures
        r@ == v@,
    decreases v,
{
    match v {
        Value::Byte(x) => Value::Byte(*x),
        Value::Short(x) => Value::Short(*x),
        Value::Int(x) => Value::Int(*x),
        Value::Long(x) => Value::Long(*x),
        Value::Float(x) => Value::Float(*x),
        Value::Double(x) => Value::Double(*x),
        Value::ByteArray(a) => Value::ByteArray(vstd::slice::slice_to_vec(a.as_slice())),
        Value::String(s) => Value::String(s.clone()),
        Value::List(l) => Value::List(copy_list(l)),
        Value::Compound(c) => Value::Compound(copy_compound(c)),
        Value::IntArray(a) => Value::IntArray(vstd::slice::slice_to_vec(a.as_slice())),
        Value::LongArray(a) => Value::LongArray(vstd::slice::slice_to_vec(a.as_slice())),
    }
}

/// A copy of a list: another list that stands for the same tree.
pub fn copy_list(l: &List) -> (r: List)
    ensures
        r@ == l@,
    decreases l,
{
    match l {
        List::End => List::End,
        List::Byte(v) => {
            let r = List::Byte(vstd::slice::slice_to_vec(v.as_slice()));
            assert(list_items(r) =~= list_items(*l));
            r
        },
        List::Short(v) => {
            let r = List::Short(vstd::slice::slice_to_vec(v.as_slice()));
            assert(list_items(r) =~= list_items(*l));
            r
        },
        List::Int(v) => {
            let r = List::Int(vstd::slice::slice_to_vec(v.as_slice()));
            assert(list_items(r) =~= list_items(*l));
            r
        },
        List::Long(v) => {
            let r = List::Long(vstd::slice::slice_to_vec(v.as_slice()));
            assert(list_items(r) =~= list_items(*l));
            r
        },
        List::Float(v) => {
            let r = List::Float(vstd::slice::slice_to_vec(v.as_slice()));
            assert(list_items(r) =~= list_items(*l));
            r
        },
        List::Double(v) => {
            let r = List::Double(vstd::slice::slice_to_vec(v.as_slice()));
            assert(list_items(r) =~= list_items(*l));
            r
        },
        List::ByteArray(v) => {
            let r = List::ByteArray(copy_rows(v));
            assert(list_items(r) =~= list_items(*l));
            r
        },
        List::String(v) => {
            let r = List::String(copy_strings(v));
            assert(list_items(r) =~= list_items(*l));
            r
        },
        List::List(v) => {
            let mut out: Vec<List> = Vec::new();
            let mut i: usize = 0;
            while i < v.len()
                invariant
                    i <= v.len(),
                    out@.len() == i,
                    forall|j: int| 0 <= j < i ==> (#[trigger] out@[j])@ == v@[j]@,
                    decreases_to!(l => v),
                decreases v.len() - i,
            {
                out.push(copy_list(&v[i]));
                i += 1;
            }
            let r = List::List(out);
            assert forall|j: int| 0 <= j < v@.len() implies list_items(r)[j] == list_items(
                *l,
            )[j] by {
                assert(out@[j]@ == v@[j]@);
            }
            assert(list_items(r) =~= list_items(*l));
            r
        },
        List::Compound(v) => {
            let mut out: Vec<Compound> = Vec::new();
            let mut i: usize = 0;
            while i < v.len()
                invariant
                    i <= v.len(),
                    out@.len() == i,
                    forall|j: int| 0 <= j < i ==> (#[trigger] out@[j])@ == v@[j]@,
                    decreases_to!(l => v),
                decreases v.len() - i,
            {
                out.push(copy_compound(&v[i]));
                i += 1;
            }
            let r = List::Compound(out);
            assert forall|j: int| 0 <= j < v@.len() implies list_items(r)[j] == list_items(
                *l,
            )[j] by {
                assert(out@[j]@ == v@[j]@);
            }
            assert(list_items(r) =~= list_items(*l));
            r
        },
        List::IntArray(v) => {
            let r = List::IntArray(copy_rows(v));
            assert(list_items(r) =~= list_items(*l));
            r
        },
        List::LongArray(v) => {
            let r = List::LongArray(copy_rows(v));
            assert(list_items(r) =~= list_items(*l));
            r
        },
    }
}

/// A copy of a compound: another compound with the same entries.
pub fn copy_compound(c: &Compound) -> (r: Compound)
    ensures
        r@ == c@,
    decreases c,
{
    let mut out: Vec<(String, Value)> = Vec::new();
    let mut i: usize = 0;
    while i < c.entries.len()
        invariant
            i <= c.entries.len(),
            out@.len() == i,
            forall|j: int|
                0 <= j < i ==> (#[trigger] out@[j]).0@ == c.entries@[j].0@ && out@[j].1@
                    == c.entries@[j].1@,
        decreases c.entries.len() - i,
    {
        let key = c.entries[i].0.clone();
        let value = copy_value(&c.entries[i].1);
        out.push((key, value));
        i += 1;
    }
    proof {
        use_type_invariant(c);
        assert forall|a: int, b: int| 0 <= a < b < out@.len() implies (#[trigger] out@[a]).0@ != (
        #[trigger] out@[b]).0@ by {
            assert(c.entries@[a].0@ != c.entries@[b].0@);
        }
    }
    let r = Compound { entries: out };
    assert(r@ =~= c@);
    r
}

impl Clone for Value {
    fn clone(&self) -> (r: Self)
        ensures
            r@ == self@,
    {
        copy_value(self)
    }
}

impl Clone for List {
    fn clone(&self) -> (r: Self)
        ensures
            r@ == self@,
    {
        copy_list(self)
    }
}

impl Clone for Compound {
    fn clone(&self) -> (r: Self)
        ensures
            r@ == self@,
    {
        copy_compound(self)
    }
}

} // verus!
