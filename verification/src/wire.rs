//! The byte layout: which bytes a tree is written as, and which trees cannot
//! be written at all.
//!
//! Every number is big-endian. A string is a 16-bit length in bytes and its
//! UTF-8 bytes. A sequence is a 32-bit signed count and its elements without
//! tags. A compound is its entries, each a tag byte, a key and a payload, and
//! then one zero byte.

use crate::error::Error;
use crate::tree::{bytes_as_items, ints_as_items, longs_as_items, Entries, Tree};
use vstd::prelude::*;
use vstd::utf8::encode_utf8;

verus! {

/// The longest string, in bytes, that a length field can say.
pub const MAX_STRING_BYTES: usize = 0xFFFF;

/// The longest sequence that a count field can say.
pub const MAX_COUNT: usize = 0x7FFF_FFFF;

/// Two bytes, the high one first.
pub open spec fn be16(x: u16) -> Seq<u8> {
    seq![(x >> 8) as u8, x as u8]
}

/// Four bytes, the highest first.
pub open spec fn be32(x: u32) -> Seq<u8> {
    seq![(x >> 24) as u8, (x >> 16) as u8, (x >> 8) as u8, x as u8]
}

/// Eight bytes, the highest first.
pub open spec fn be64(x: u64) -> Seq<u8> {
    seq![
        (x >> 56) as u8,
        (x >> 48) as u8,
        (x >> 40) as u8,
        (x >> 32) as u8,
        (x >> 24) as u8,
        (x >> 16) as u8,
        (x >> 8) as u8,
        x as u8,
    ]
}

/// The UTF-8 form of the string fits a 16-bit length.
pub open spec fn string_fits(s: Seq<char>) -> bool {
    encode_utf8(s).len() <= MAX_STRING_BYTES
}

/// The number of elements fits a 32-bit signed count.
pub open spec fn count_fits(n: nat) -> bool {
    n <= MAX_COUNT
}

/// A string on the wire: its length in bytes, then its UTF-8 bytes.
pub open spec fn string_bytes(s: Seq<char>) -> Seq<u8> {
    be16(encode_utf8(s).len() as u16) + encode_utf8(s)
}

/// A count on the wire.
pub open spec fn count_bytes(n: nat) -> Seq<u8> {
    be32(n as u32)
}

/// The payload of a tree that holds one number: its bytes, the highest first.
/// Of any other tree, nothing.
pub open spec fn leaf_payload(t: Tree) -> Seq<u8> {
    match t {
        Tree::Byte(x) => seq![x as u8],
        Tree::Short(x) => be16(x as u16),
        Tree::Int(x) => be32(x as u32),
        Tree::Long(x) => be64(x as u64),
        Tree::Float(x) => be32(x),
        Tree::Double(x) => be64(x),
        _ => Seq::empty(),
    }
}

/// The payloads of the first `n` of a run of numbers, one after another.
pub open spec fn leaves_payload(items: Seq<Tree>, n: nat) -> Seq<u8>
    decreases n,
{
    if n == 0 || n > items.len() {
        Seq::empty()
    } else {
        leaves_payload(items, (n - 1) as nat) + leaf_payload(items[n - 1])
    }
}

/// The payload of a tree: the bytes that follow its tag and, in a compound,
/// its key.
pub open spec fn payload(t: Tree) -> Seq<u8>
    decreases t, 0nat,
{
    match t {
        Tree::ByteArray(a) => count_bytes(a.len()) + leaves_payload(bytes_as_items(a), a.len()),
        Tree::String(s) => string_bytes(s),
        Tree::List(tag, items) => seq![tag.byte()] + count_bytes(items.len()) + items_payload(
            items,
            items.len(),
        ),
        Tree::Compound(entries) => entries_payload(entries, entries.len()) + seq![0u8],
        Tree::IntArray(a) => count_bytes(a.len()) + leaves_payload(ints_as_items(a), a.len()),
        Tree::LongArray(a) => count_bytes(a.len()) + leaves_payload(longs_as_items(a), a.len()),
        _ => leaf_payload(t),
    }
}

/// The payloads of the first `n` elements of a list, one after another.
pub open spec fn items_payload(items: Seq<Tree>, n: nat) -> Seq<u8>
    decreases items, n,
{
    if n == 0 || n > items.len() {
        Seq::empty()
    } else {
        items_payload(items, (n - 1) as nat) + payload(items[n - 1])
    }
}

/// The first `n` entries of a compound, one after another, each as its tag
/// byte, its key and its payload.
pub open spec fn entries_payload(entries: Entries, n: nat) -> Seq<u8>
    decreases entries, n,
{
    if n == 0 || n > entries.len() {
        Seq::empty()
    } else {
        entries_payload(entries, (n - 1) as nat) + seq![entries[n - 1].1.tag().byte()]
            + string_bytes(entries[n - 1].0) + payload(entries[n - 1].1)
    }
}

/// A whole stream with a named root: the root's tag, its name, its payload.
pub open spec fn stream(name: Seq<char>, root: Tree) -> Seq<u8> {
    seq![root.tag().byte()] + string_bytes(name) + payload(root)
}

/// A whole stream whose root carries no name: the root's tag and its payload.
pub open spec fn nameless_stream(root: Tree) -> Seq<u8> {
    seq![root.tag().byte()] + payload(root)
}

/// Why a string cannot be written, if it cannot.
pub open spec fn string_fault(s: Seq<char>) -> Option<Error> {
    if string_fits(s) {
        None
    } else {
        Some(Error::InvalidString)
    }
}

/// Why a sequence of that many elements cannot be written, if it cannot.
pub open spec fn count_fault(n: nat) -> Option<Error> {
    if count_fits(n) {
        None
    } else {
        Some(Error::LengthOverflow)
    }
}

/// Why a tree cannot be written, if it cannot: the first string of more than
/// 65535 bytes or sequence of more than 2147483647 elements that a walk in
/// wire order comes to.
pub open spec fn fault(t: Tree) -> Option<Error>
    decreases t, 0nat,
{
    match t {
        Tree::ByteArray(a) => count_fault(a.len()),
        Tree::String(s) => string_fault(s),
        Tree::List(_, items) => match count_fault(items.len()) {
            Some(e) => Some(e),
            None => items_fault(items, items.len()),
        },
        Tree::Compound(entries) => entries_fault(entries, entries.len()),
        Tree::IntArray(a) => count_fault(a.len()),
        Tree::LongArray(a) => count_fault(a.len()),
        _ => None,
    }
}

/// The first fault among the first `n` elements of a list.
pub open spec fn items_fault(items: Seq<Tree>, n: nat) -> Option<Error>
    decreases items, n,
{
    if n == 0 || n > items.len() {
        None
    } else {
        match items_fault(items, (n - 1) as nat) {
            Some(e) => Some(e),
            None => fault(items[n - 1]),
        }
    }
}

/// The first fault among the first `n` entries of a compound; the key of an
/// entry is looked at before its tree.
pub open spec fn entries_fault(entries: Entries, n: nat) -> Option<Error>
    decreases entries, n,
{
    if n == 0 || n > entries.len() {
        None
    } else {
        match entries_fault(entries, (n - 1) as nat) {
            Some(e) => Some(e),
            None => match string_fault(entries[n - 1].0) {
                Some(e) => Some(e),
                None => fault(entries[n - 1].1),
            },
        }
    }
}

/// Why a stream with that root and name cannot be written, if it cannot. A
/// root that is no compound is refused before anything else is looked at.
pub open spec fn stream_fault(name: Option<Seq<char>>, root: Tree) -> Option<Error> {
    if !(root is Compound) {
        Some(Error::NonCompoundRoot(root.tag().byte()))
    } else {
        match name {
            Some(n) => match string_fault(n) {
                Some(e) => Some(e),
                None => fault(root),
            },
            None => fault(root),
        }
    }
}

/// A run of trees that each hold one number is written as a run of numbers.
pub proof fn lemma_items_of_leaves(items: Seq<Tree>, n: nat)
    requires
        n <= items.len(),
        forall|i: int| 0 <= i < items.len() ==> (#[trigger] items[i]).tag().is_leaf(),
    ensures
        items_payload(items, n) == leaves_payload(items, n),
        items_fault(items, n) is None,
    decreases n,
{
    if n > 0 {
        lemma_items_of_leaves(items, (n - 1) as nat);
        let last = items[n - 1];
        assert(last.tag().is_leaf());
        assert(payload(last) == leaf_payload(last));
        assert(fault(last) is None);
        assert(items_payload(items, n) == items_payload(items, (n - 1) as nat) + payload(last));
        assert(items_fault(items, n) == match items_fault(items, (n - 1) as nat) {
            Some(e) => Some(e),
            None => fault(last),
        });
    }
}

} // verus!
