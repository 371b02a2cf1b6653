//! The mathematical model of a tagged tree, and of the entries of a compound.

use crate::error::Error;
use crate::tag::Tag;
use vstd::prelude::*;

verus! {

/// The entries of a compound, in the order in which they were put there.
pub type Entries = Seq<(Seq<char>, Tree)>;

/// A tagged tree as a mathematical value. A float stands as its IEEE-754 bit
/// pattern, a list as the tag its elements share and the elements.
pub enum Tree {
    Byte(i8),
    Short(i16),
    Int(i32),
    Long(i64),
    Float(u32),
    Double(u64),
    ByteArray(Seq<i8>),
    String(Seq<char>),
    List(Tag, Seq<Tree>),
    Compound(Entries),
    IntArray(Seq<i32>),
    LongArray(Seq<i64>),
}

impl Tree {
    /// The tag under which the tree is written.
    pub open spec fn tag(self) -> Tag {
        match self {
            Tree::Byte(_) => Tag::Byte,
            Tree::Short(_) => Tag::Short,
            Tree::Int(_) => Tag::Int,
            Tree::Long(_) => Tag::Long,
            Tree::Float(_) => Tag::Float,
            Tree::Double(_) => Tag::Double,
            Tree::ByteArray(_) => Tag::ByteArray,
            Tree::String(_) => Tag::String,
            Tree::List(_, _) => Tag::List,
            Tree::Compound(_) => Tag::Compound,
            Tree::IntArray(_) => Tag::IntArray,
            Tree::LongArray(_) => Tag::LongArray,
        }
    }

    /// Every list in the tree holds elements of its one element tag, a list
    /// tagged `End` holds none, and no compound names a key twice.
    pub open spec fn well_formed(self) -> bool
        decreases self,
    {
        match self {
            Tree::List(tag, items) => {
                &&& tag == Tag::End ==> items.len() == 0
                &&& forall|i: int|
                    0 <= i < items.len() ==> (#[trigger] items[i]).tag() == tag
                        && items[i].well_formed()
            },
            Tree::Compound(entries) => {
                &&& keys_unique(entries)
                &&& forall|i: int|
                    0 <= i < entries.len() ==> (#[trigger] entries[i]).1.well_formed()
            },
            _ => true,
        }
    }
}

/// A run of signed bytes as a run of trees.
pub open spec fn bytes_as_items(a: Seq<i8>) -> Seq<Tree> {
    Seq::new(a.len(), |i: int| Tree::Byte(a[i]))
}

/// A run of 16-bit numbers as a run of trees.
pub open spec fn shorts_as_items(a: Seq<i16>) -> Seq<Tree> {
    Seq::new(a.len(), |i: int| Tree::Short(a[i]))
}

/// A run of 32-bit numbers as a run of trees.
pub open spec fn ints_as_items(a: Seq<i32>) -> Seq<Tree> {
    Seq::new(a.len(), |i: int| Tree::Int(a[i]))
}

/// A run of 64-bit numbers as a run of trees.
pub open spec fn longs_as_items(a: Seq<i64>) -> Seq<Tree> {
    Seq::new(a.len(), |i: int| Tree::Long(a[i]))
}

/// A run of 32-bit float patterns as a run of trees.
pub open spec fn floats_as_items(a: Seq<u32>) -> Seq<Tree> {
    Seq::new(a.len(), |i: int| Tree::Float(a[i]))
}

/// A run of 64-bit float patterns as a run of trees.
pub open spec fn doubles_as_items(a: Seq<u64>) -> Seq<Tree> {
    Seq::new(a.len(), |i: int| Tree::Double(a[i]))
}

/// The signed bytes that a run of trees holds.
pub open spec fn bytes_of(items: Seq<Tree>) -> Seq<i8> {
    Seq::new(
        items.len(),
        |i: int|
            match items[i] {
                Tree::Byte(x) => x,
                _ => 0i8,
            },
    )
}

/// The 32-bit numbers that a run of trees holds.
pub open spec fn ints_of(items: Seq<Tree>) -> Seq<i32> {
    Seq::new(
        items.len(),
        |i: int|
            match items[i] {
                Tree::Int(x) => x,
                _ => 0i32,
            },
    )
}

/// The 64-bit numbers that a run of trees holds.
pub open spec fn longs_of(items: Seq<Tree>) -> Seq<i64> {
    Seq::new(
        items.len(),
        |i: int|
            match items[i] {
                Tree::Long(x) => x,
                _ => 0i64,
            },
    )
}

/// No two entries share a key.
pub open spec fn keys_unique(entries: Entries) -> bool {
    forall|i: int, j: int|
        0 <= i < j < entries.len() ==> (#[trigger] entries[i]).0 != (#[trigger] entries[j]).0
}

/// Some entry has the key.
pub open spec fn has_key(entries: Entries, key: Seq<char>) -> bool {
    exists|i: int| 0 <= i < entries.len() && (#[trigger] entries[i]).0 == key
}

/// The position of an entry with the key, where there is one.
pub open spec fn position(entries: Entries, key: Seq<char>) -> int {
    choose|i: int| 0 <= i < entries.len() && (#[trigger] entries[i]).0 == key
}

/// The tree under the key, if an entry has it.
pub open spec fn lookup(entries: Entries, key: Seq<char>) -> Option<Tree> {
    if has_key(entries, key) {
        Some(entries[position(entries, key)].1)
    } else {
        None
    }
}

/// The entries after one is put in: under a key that is there already the tree
/// is replaced where it stands, a new key goes to the end.
pub open spec fn put(entries: Entries, key: Seq<char>, tree: Tree) -> Entries {
    if has_key(entries, key) {
        entries.update(position(entries, key), (key, tree))
    } else {
        entries.push((key, tree))
    }
}

/// The entries without the one under the key; the others keep their order.
pub open spec fn without(entries: Entries, key: Seq<char>) -> Entries {
    if has_key(entries, key) {
        entries.remove(position(entries, key))
    } else {
        entries
    }
}

/// Where keys are unique, an entry with the key is at the position of the key.
pub proof fn lemma_position_unique(entries: Entries, key: Seq<char>, i: int)
    requires
        keys_unique(entries),
        0 <= i < entries.len(),
        entries[i].0 == key,
    ensures
        has_key(entries, key),
        position(entries, key) == i,
{
    let p = position(entries, key);
    if p < i {
        assert(entries[p].0 != entries[i].0);
    } else if i < p {
        assert(entries[i].0 != entries[p].0);
    }
}

/// Putting an entry in keeps the keys unique.
pub proof fn lemma_put_keeps_unique(entries: Entries, key: Seq<char>, tree: Tree)
    requires
        keys_unique(entries),
    ensures
        keys_unique(put(entries, key, tree)),
        has_key(put(entries, key, tree), key),
        lookup(put(entries, key, tree), key) == Some(tree),
{
    let after = put(entries, key, tree);
    if has_key(entries, key) {
        let p = position(entries, key);
        assert forall|i: int, j: int| 0 <= i < j < after.len() implies (#[trigger] after[i]).0 != (
        #[trigger] after[j]).0 by {
            assert(entries[i].0 != entries[j].0);
        }
        assert(after[p].0 == key);
        lemma_position_unique(after, key, p);
    } else {
        let n = entries.len() as int;
        assert forall|i: int, j: int| 0 <= i < j < after.len() implies (#[trigger] after[i]).0 != (
        #[trigger] after[j]).0 by {
            if j < n {
                assert(entries[i].0 != entries[j].0);
            } else {
                assert(after[i] == entries[i]);
            }
        }
        assert(after[n].0 == key);
        lemma_position_unique(after, key, n);
    }
}

/// Putting a well-formed tree into the entries of a well-formed compound gives
/// the entries of a well-formed compound.
pub proof fn lemma_put_keeps_well_formed(entries: Entries, key: Seq<char>, tree: Tree)
    requires
        Tree::Compound(entries).well_formed(),
        tree.well_formed(),
    ensures
        Tree::Compound(put(entries, key, tree)).well_formed(),
{
    lemma_put_keeps_unique(entries, key, tree);
    let after = put(entries, key, tree);
    assert forall|i: int| 0 <= i < after.len() implies (#[trigger] after[i]).1.well_formed() by {
        if has_key(entries, key) {
            if i != position(entries, key) {
                assert(after[i] == entries[i]);
            }
        } else {
            if i < entries.len() {
                assert(after[i] == entries[i]);
            }
        }
    }
}

/// The error for a tree that stands where a tree of the tag `expected` is
/// asked for.
pub open spec fn mismatch(expected: Tag, found: Tree) -> Error {
    Error::TypeMismatch { expected, found: found.tag() }
}

/// The error for a key that has no entry where a tree of the tag `expected`
/// is asked for: what is found is the end of the compound.
pub open spec fn missing(expected: Tag) -> Error {
    Error::TypeMismatch { expected, found: Tag::End }
}

/// The signed byte that a tree holds, if it is of that kind.
pub open spec fn as_byte(t: Tree) -> Result<i8, Error> {
    match t {
        Tree::Byte(x) => Ok(x),
        _ => Err(mismatch(Tag::Byte, t)),
    }
}

/// The 16-bit number that a tree holds, if it is of that kind.
pub open spec fn as_short(t: Tree) -> Result<i16, Error> {
    match t {
        Tree::Short(x) => Ok(x),
        _ => Err(mismatch(Tag::Short, t)),
    }
}

/// The 32-bit number that a tree holds, if it is of that kind.
pub open spec fn as_int(t: Tree) -> Result<i32, Error> {
    match t {
        Tree::Int(x) => Ok(x),
        _ => Err(mismatch(Tag::Int, t)),
    }
}

/// The 64-bit number that a tree holds, if it is of that kind.
pub open spec fn as_long(t: Tree) -> Result<i64, Error> {
    match t {
        Tree::Long(x) => Ok(x),
        _ => Err(mismatch(Tag::Long, t)),
    }
}

/// The bytes of a byte array that a tree holds, if it is of that kind.
pub open spec fn as_byte_array(t: Tree) -> Result<Seq<i8>, Error> {
    match t {
        Tree::ByteArray(x) => Ok(x),
        _ => Err(mismatch(Tag::ByteArray, t)),
    }
}

/// The characters of a string that a tree holds, if it is of that kind.
pub open spec fn as_string(t: Tree) -> Result<Seq<char>, Error> {
    match t {
        Tree::String(x) => Ok(x),
        _ => Err(mismatch(Tag::String, t)),
    }
}

/// The entries of a compound that a tree holds, if it is of that kind.
pub open spec fn as_compound(t: Tree) -> Result<Entries, Error> {
    match t {
        Tree::Compound(x) => Ok(x),
        _ => Err(mismatch(Tag::Compound, t)),
    }
}

/// The numbers of an int array that a tree holds, if it is of that kind.
pub open spec fn as_int_array(t: Tree) -> Result<Seq<i32>, Error> {
    match t {
        Tree::IntArray(x) => Ok(x),
        _ => Err(mismatch(Tag::IntArray, t)),
    }
}

/// The numbers of a long array that a tree holds, if it is of that kind.
pub open spec fn as_long_array(t: Tree) -> Result<Seq<i64>, Error> {
    match t {
        Tree::LongArray(x) => Ok(x),
        _ => Err(mismatch(Tag::LongArray, t)),
    }
}

/// The tree under a key, read as a tree of one kind: a key without an entry
/// is reported as a mismatch with `End`.
pub open spec fn field(entries: Entries, key: Seq<char>, expected: Tag) -> Result<Tree, Error> {
    match lookup(entries, key) {
        None => Err(missing(expected)),
        Some(t) => if t.tag() == expected {
            Ok(t)
        } else {
            Err(mismatch(expected, t))
        },
    }
}

} // verus!
