//! The binary writer: a tree to its bytes, appended to a sink in one pass.

use crate::error::Error;
use crate::tag::Tag;
use crate::tree::{
    bytes_as_items, doubles_as_items, floats_as_items, ints_as_items, longs_as_items,
    shorts_as_items, Entries, Tree,
};
use crate::value::{list_items, Compound, List, Value};
use crate::wire::{
    be16, be32, be64, count_bytes, count_fault, entries_fault, entries_payload, fault, items_fault,
    items_payload, leaf_payload, leaves_payload, lemma_items_of_leaves, payload, stream,
    stream_fault, string_bytes, string_fault, MAX_COUNT, MAX_STRING_BYTES,
};
use vstd::prelude::*;

verus! {

/// Appends a 16-bit number, the high byte first.
pub fn write_u16(sink: &mut Vec<u8>, x: u16)
    ensures
        final(sink)@ == old(sink)@ + be16(x),
{
    sink.push((x >> 8) as u8);
    sink.push(#[verifier::truncate] (x as u8));
    assert(sink@ =~= old(sink)@ + be16(x));
}

/// Appends a 32-bit number, the highest byte first.
pub fn write_u32(sink: &mut Vec<u8>, x: u32)
    ensures
        final(sink)@ == old(sink)@ + be32(x),
{
    sink.push((x >> 24) as u8);
    sink.push(#[verifier::truncate] ((x >> 16) as u8));
    sink.push(#[verifier::truncate] ((x >> 8) as u8));
    sink.push(#[verifier::truncate] (x as u8));
    assert(sink@ =~= old(sink)@ + be32(x));
}

/// Appends a 64-bit number, the highest byte first.
pub fn write_u64(sink: &mut Vec<u8>, x: u64)
    ensures
        final(sink)@ == old(sink)@ + be64(x),
{
    sink.push((x >> 56) as u8);
    sink.push(#[verifier::truncate] ((x >> 48) as u8));
    sink.push(#[verifier::truncate] ((x >> 40) as u8));
    sink.push(#[verifier::truncate] ((x >> 32) as u8));
    sink.push(#[verifier::truncate] ((x >> 24) as u8));
    sink.push(#[verifier::truncate] ((x >> 16) as u8));
    sink.push(#[verifier::truncate] ((x >> 8) as u8));
    sink.push(#[verifier::truncate] (x as u8));
    assert(sink@ =~= old(sink)@ + be64(x));
}

/// Appends a string as its length in bytes and its UTF-8 bytes. A string of
/// more than 65535 bytes is refused, and nothing is written.
pub fn write_string(sink: &mut Vec<u8>, s: &str) -> (r: Result<(), Error>)
    ensures
        match string_fault(s@) {
            None => r is Ok && final(sink)@ == old(sink)@ + string_bytes(s@),
            Some(e) => r == Err::<(), Error>(e) && final(sink)@ == old(sink)@,
        },
{
    let bytes = s.as_bytes();
    let n = bytes.len();
    if n > MAX_STRING_BYTES {
        return Err(Error::InvalidString);
    }
    write_u16(sink, n as u16);
    sink.extend_from_slice(bytes);
    assert(sink@ =~= old(sink)@ + string_bytes(s@));
    Ok(())
}

/// Appends the count of a sequence. A count above 2147483647 is refused, and
/// nothing is written.
pub fn write_count(sink: &mut Vec<u8>, n: usize) -> (r: Result<(), Error>)
    ensures
        match count_fault(n as nat) {
            None => r is Ok && final(sink)@ == old(sink)@ + count_bytes(n as nat),
            Some(e) => r == Err::<(), Error>(e) && final(sink)@ == old(sink)@,
        },
{
    if n > MAX_COUNT {
        return Err(Error::LengthOverflow);
    }
    write_u32(sink, n as u32);
    Ok(())
}

/// Appends a run of signed bytes, one byte each.
pub fn write_bytes(sink: &mut Vec<u8>, v: &Vec<i8>)
    ensures
        final(sink)@ == old(sink)@ + leaves_payload(bytes_as_items(v@), v@.len()),
{
    let ghost items = bytes_as_items(v@);
    let mut i: usize = 0;
    while i < v.len()
        invariant
            i <= v.len(),
            items == bytes_as_items(v@),
            sink@ == old(sink)@ + leaves_payload(items, i as nat),
        decreases v.len() - i,
    {
        sink.push(#[verifier::truncate] (v[i] as u8));
        proof {
            assert(leaf_payload(items[i as int]) == seq![v@[i as int] as u8]);
            assert(sink@ =~= old(sink)@ + leaves_payload(items, (i + 1) as nat));
        }
        i += 1;
    }
}

/// Appends a run of 16-bit numbers, two bytes each.
pub fn write_shorts(sink: &mut Vec<u8>, v: &Vec<i16>)
    ensures
        final(sink)@ == old(sink)@ + leaves_payload(shorts_as_items(v@), v@.len()),
{
    let ghost items = shorts_as_items(v@);
    let mut i: usize = 0;
    while i < v.len()
        invariant
            i <= v.len(),
            items == shorts_as_items(v@),
            sink@ == old(sink)@ + leaves_payload(items, i as nat),
        decreases v.len() - i,
    {
        write_u16(sink, #[verifier::truncate] (v[i] as u16));
        proof {
            assert(leaf_payload(items[i as int]) == be16(v@[i as int] as u16));
            assert(sink@ =~= old(sink)@ + leaves_payload(items, (i + 1) as nat));
        }
        i += 1;
    }
}

/// Appends a run of 32-bit numbers, four bytes each.
pub fn write_ints(sink: &mut Vec<u8>, v: &Vec<i32>)
    ensures
        final(sink)@ == old(sink)@ + leaves_payload(ints_as_items(v@), v@.len()),
{
    let ghost items = ints_as_items(v@);
    let mut i: usize = 0;
    while i < v.len()
        invariant
            i <= v.len(),
            items == ints_as_items(v@),
            sink@ == old(sink)@ + leaves_payload(items, i as nat),
        decreases v.len() - i,
    {
        write_u32(sink, #[verifier::truncate] (v[i] as u32));
        proof {
            assert(leaf_payload(items[i as int]) == be32(v@[i as int] as u32));
            assert(sink@ =~= old(sink)@ + leaves_payload(items, (i + 1) as nat));
        }
        i += 1;
    }
}

/// Appends a run of 64-bit numbers, eight bytes each.
pub fn write_longs(sink: &mut Vec<u8>, v: &Vec<i64>)
    ensures
        final(sink)@ == old(sink)@ + leaves_payload(longs_as_items(v@), v@.len()),
{
    let ghost items = longs_as_items(v@);
    let mut i: usize = 0;
    while i < v.len()
        invariant
            i <= v.len(),
            items == longs_as_items(v@),
            sink@ == old(sink)@ + leaves_payload(items, i as nat),
        decreases v.len() - i,
    {
        write_u64(sink, #[verifier::truncate] (v[i] as u64));
        proof {
            assert(leaf_payload(items[i as int]) == be64(v@[i as int] as u64));
            assert(sink@ =~= old(sink)@ + leaves_payload(items, (i + 1) as nat));
        }
        i += 1;
    }
}

/// Appends a run of 32-bit float patterns, four bytes each.
pub fn write_floats(sink: &mut Vec<u8>, v: &Vec<u32>)
    ensures
        final(sink)@ == old(sink)@ + leaves_payload(floats_as_items(v@), v@.len()),
{
    let ghost items = floats_as_items(v@);
    let mut i: usize = 0;
    while i < v.len()
        invariant
            i <= v.len(),
            items == floats_as_items(v@),
            sink@ == old(sink)@ + leaves_payload(items, i as nat),
        decreases v.len() - i,
    {
        write_u32(sink, v[i]);
        proof {
            assert(leaf_payload(items[i as int]) == be32(v@[i as int]));
            assert(sink@ =~= old(sink)@ + leaves_payload(items, (i + 1) as nat));
        }
        i += 1;
    }
}

/// Appends a run of 64-bit float patterns, eight bytes each.
pub fn write_doubles(sink: &mut Vec<u8>, v: &Vec<u64>)
    ensures
        final(sink)@ == old(sink)@ + leaves_payload(doubles_as_items(v@), v@.len()),
{
    let ghost items = doubles_as_items(v@);
    let mut i: usize = 0;
    while i < v.len()
        invariant
            i <= v.len(),
            items == doubles_as_items(v@),
            sink@ == old(sink)@ + leaves_payload(items, i as nat),
        decreases v.len() - i,
    {
        write_u64(sink, v[i]);
        proof {
            assert(leaf_payload(items[i as int]) == be64(v@[i as int]));
            assert(sink@ =~= old(sink)@ + leaves_payload(items, (i + 1) as nat));
        }
        i += 1;
    }
}

/// A fault among the first `k` elements is the fault of any longer run.
pub proof fn lemma_items_fault_stays(items: Seq<Tree>, k: nat, n: nat)
    requires
        k <= n <= items.len(),
        items_fault(items, k) is Some,
    ensures
        items_fault(items, n) == items_fault(items, k),
    decreases n - k,
{
    if k < n {
        lemma_items_fault_stays(items, k, (n - 1) as nat);
    }
}

/// A fault among the first `k` entries is the fault of any longer run.
pub proof fn lemma_entries_fault_stays(entries: Entries, k: nat, n: nat)
    requires
        k <= n <= entries.len(),
        entries_fault(entries, k) is Some,
    ensures
        entries_fault(entries, n) == entries_fault(entries, k),
    decreases n - k,
{
    if k < n {
        lemma_entries_fault_stays(entries, k, (n - 1) as nat);
    }
}

/// Appends the payload of a value. Where the value holds a string or a
/// sequence that is too long, the call fails at the first of them, with what
/// came before it written.
pub fn write_payload(sink: &mut Vec<u8>, v: &Value) -> (r: Result<(), Error>)
    ensures
        match fault(v@) {
            None => r is Ok && final(sink)@ == old(sink)@ + payload(v@),
            Some(e) => r == Err::<(), Error>(e) && old(sink)@.is_prefix_of(final(sink)@),
        },
    decreases v,
{
    match v {
        Value::Byte(x) => {
            sink.push(#[verifier::truncate] (*x as u8));
            assert(sink@ =~= old(sink)@ + payload(v@));
            Ok(())
        },
        Value::Short(x) => {
            write_u16(sink, #[verifier::truncate] (*x as u16));
            Ok(())
        },
        Value::Int(x) => {
            write_u32(sink, #[verifier::truncate] (*x as u32));
            Ok(())
        },
        Value::Long(x) => {
            write_u64(sink, #[verifier::truncate] (*x as u64));
            Ok(())
        },
        Value::Float(x) => {
            write_u32(sink, *x);
            Ok(())
        },
        Value::Double(x) => {
            write_u64(sink, *x);
            Ok(())
        },
        Value::ByteArray(a) => write_byte_array(sink, a),
        Value::String(s) => write_string(sink, s.as_str()),
        Value::List(l) => write_list(sink, l),
        Value::Compound(c) => write_compound(sink, c),
        Value::IntArray(a) => write_int_array(sink, a),
        Value::LongArray(a) => write_long_array(sink, a),
    }
}

/// Appends a byte array: its count, then its bytes.
pub fn write_byte_array(sink: &mut Vec<u8>, a: &Vec<i8>) -> (r: Result<(), Error>)
    ensures
        match fault(Tree::ByteArray(a@)) {
            None => r is Ok && final(sink)@ == old(sink)@ + payload(Tree::ByteArray(a@)),
            Some(e) => r == Err::<(), Error>(e) && final(sink)@ == old(sink)@,
        },
{
    match write_count(sink, a.len()) {
        Err(e) => Err(e),
        Ok(()) => {
            write_bytes(sink, a);
            assert(sink@ =~= old(sink)@ + payload(Tree::ByteArray(a@)));
            Ok(())
        },
    }
}

/// Appends an int array: its count, then its numbers.
pub fn write_int_array(sink: &mut Vec<u8>, a: &Vec<i32>) -> (r: Result<(), Error>)
    ensures
        match fault(Tree::IntArray(a@)) {
            None => r is Ok && final(sink)@ == old(sink)@ + payload(Tree::IntArray(a@)),
            Some(e) => r == Err::<(), Error>(e) && final(sink)@ == old(sink)@,
        },
{
    match write_count(sink, a.len()) {
        Err(e) => Err(e),
        Ok(()) => {
            write_ints(sink, a);
            assert(sink@ =~= old(sink)@ + payload(Tree::IntArray(a@)));
            Ok(())
        },
    }
}

/// Appends a long array: its count, then its numbers.
pub fn write_long_array(sink: &mut Vec<u8>, a: &Vec<i64>) -> (r: Result<(), Error>)
    ensures
        match fault(Tree::LongArray(a@)) {
            None => r is Ok && final(sink)@ == old(sink)@ + payload(Tree::LongArray(a@)),
            Some(e) => r == Err::<(), Error>(e) && final(sink)@ == old(sink)@,
        },
{
    match write_count(sink, a.len()) {
        Err(e) => Err(e),
        Ok(()) => {
            write_longs(sink, a);
            assert(sink@ =~= old(sink)@ + payload(Tree::LongArray(a@)));
            Ok(())
        },
    }
}

/// Appends the payload of a list: the tag of its elements, their count, and
/// the payload of each. The list without a kind is written with the tag
/// `End` and the count zero.
#[verifier::rlimit(50)]
pub fn write_list(sink: &mut Vec<u8>, l: &List) -> (r: Result<(), Error>)
    ensures
        match fault(l@) {
            None => r is Ok && final(sink)@ == old(sink)@ + payload(l@),
            Some(e) => r == Err::<(), Error>(e) && old(sink)@.is_prefix_of(final(sink)@),
        },
    decreases l,
{
    let n = l.len();
    let tag = l.element_tag();
    let ghost items = list_items(*l);
    sink.push(tag.to_u8());
    match write_count(sink, n) {
        Err(e) => {
            return Err(e);
        },
        Ok(()) => {},
    }
    let ghost base = sink@;
    assert(base =~= old(sink)@ + seq![tag.byte()] + count_bytes(n as nat));
    match l {
        List::End => {},
        List::Byte(v) => {
            write_bytes(sink, v);
            proof {
                lemma_items_of_leaves(items, n as nat);
            }
        },
        List::Short(v) => {
            write_shorts(sink, v);
            proof {
                lemma_items_of_leaves(items, n as nat);
            }
        },
        List::Int(v) => {
            write_ints(sink, v);
            proof {
                lemma_items_of_leaves(items, n as nat);
            }
        },
        List::Long(v) => {
            write_longs(sink, v);
            proof {
                lemma_items_of_leaves(items, n as nat);
            }
        },
        List::Float(v) => {
            write_floats(sink, v);
            proof {
                lemma_items_of_leaves(items, n as nat);
            }
        },
        List::Double(v) => {
            write_doubles(sink, v);
            proof {
                lemma_items_of_leaves(items, n as nat);
            }
        },
        List::ByteArray(v) => {
            let mut i: usize = 0;
            while i < v.len()
                invariant
                    i <= v.len(),
                    n == v.len(),
                    items == list_items(*l),
                    *l == List::ByteArray(*v),
                    sink@ == base + items_payload(items, i as nat),
                    items_fault(items, i as nat) is None,
                    old(sink)@.is_prefix_of(base),
                    count_fault(n as nat) is None,
                decreases v.len() - i,
            {
                assert(items[i as int] == Tree::ByteArray(v@[i as int]@));
                match write_byte_array(sink, &v[i]) {
                    Err(e) => {
                        proof {
                            assert(items_fault(items, (i + 1) as nat) == Some(e));
                            lemma_items_fault_stays(items, (i + 1) as nat, n as nat);
                        }
                        return Err(e);
                    },
                    Ok(()) => {},
                }
                assert(sink@ =~= base + items_payload(items, (i + 1) as nat));
                i += 1;
            }
        },
        List::String(v) => {
            let mut i: usize = 0;
            while i < v.len()
                invariant
                    i <= v.len(),
                    n == v.len(),
                    items == list_items(*l),
                    *l == List::String(*v),
                    sink@ == base + items_payload(items, i as nat),
                    items_fault(items, i as nat) is None,
                    old(sink)@.is_prefix_of(base),
                    count_fault(n as nat) is None,
                decreases v.len() - i,
            {
                assert(items[i as int] == Tree::String(v@[i as int]@));
                assert(fault(items[i as int]) == string_fault(v@[i as int]@));
                assert(payload(items[i as int]) == string_bytes(v@[i as int]@));
                match write_string(sink, v[i].as_str()) {
                    Err(e) => {
                        proof {
                            assert(items_fault(items, (i + 1) as nat) == Some(e));
                            lemma_items_fault_stays(items, (i + 1) as nat, n as nat);
                        }
                        return Err(e);
                    },
                    Ok(()) => {},
                }
                assert(sink@ =~= base + items_payload(items, (i + 1) as nat));
                i += 1;
            }
        },
        List::List(v) => {
            let mut i: usize = 0;
            while i < v.len()
                invariant
                    i <= v.len(),
                    n == v.len(),
                    items == list_items(*l),
                    *l == List::List(*v),
                    sink@ == base + items_payload(items, i as nat),
                    items_fault(items, i as nat) is None,
                    old(sink)@.is_prefix_of(base),
                    count_fault(n as nat) is None,
                decreases v.len() - i,
            {
                assert(items[i as int] == v@[i as int]@);
                match write_list(sink, &v[i]) {
                    Err(e) => {
                        proof {
                            assert(items_fault(items, (i + 1) as nat) == Some(e));
                            lemma_items_fault_stays(items, (i + 1) as nat, n as nat);
                        }
                        return Err(e);
                    },
                    Ok(()) => {},
                }
                assert(sink@ =~= base + items_payload(items, (i + 1) as nat));
                i += 1;
            }
        },
        List::Compound(v) => {
            let mut i: usize = 0;
            while i < v.len()
                invariant
                    i <= v.len(),
                    n == v.len(),
                    items == list_items(*l),
                    *l == List::Compound(*v),
                    sink@ == base + items_payload(items, i as nat),
                    items_fault(items, i as nat) is None,
                    old(sink)@.is_prefix_of(base),
                    count_fault(n as nat) is None,
                decreases v.len() - i,
            {
                assert(items[i as int] == Tree::Compound(v@[i as int]@));
                match write_compound(sink, &v[i]) {
                    Err(e) => {
                        proof {
                            assert(items_fault(items, (i + 1) as nat) == Some(e));
                            lemma_items_fault_stays(items, (i + 1) as nat, n as nat);
                        }
                        return Err(e);
                    },
                    Ok(()) => {},
                }
                assert(sink@ =~= base + items_payload(items, (i + 1) as nat));
                i += 1;
            }
        },
        List::IntArray(v) => {
            let mut i: usize = 0;
            while i < v.len()
                invariant
                    i <= v.len(),
                    n == v.len(),
                    items == list_items(*l),
                    *l == List::IntArray(*v),
                    sink@ == base + items_payload(items, i as nat),
                    items_fault(items, i as nat) is None,
                    old(sink)@.is_prefix_of(base),
                    count_fault(n as nat) is None,
                decreases v.len() - i,
            {
                assert(items[i as int] == Tree::IntArray(v@[i as int]@));
                match write_int_array(sink, &v[i]) {
                    Err(e) => {
                        proof {
                            assert(items_fault(items, (i + 1) as nat) == Some(e));
                            lemma_items_fault_stays(items, (i + 1) as nat, n as nat);
                        }
                        return Err(e);
                    },
                    Ok(()) => {},
                }
                assert(sink@ =~= base + items_payload(items, (i + 1) as nat));
                i += 1;
            }
        },
        List::LongArray(v) => {
            let mut i: usize = 0;
            while i < v.len()
                invariant
                    i <= v.len(),
                    n == v.len(),
                    items == list_items(*l),
                    *l == List::LongArray(*v),
                    sink@ == base + items_payload(items, i as nat),
                    items_fault(items, i as nat) is None,
                    old(sink)@.is_prefix_of(base),
                    count_fault(n as nat) is None,
                decreases v.len() - i,
            {
                assert(items[i as int] == Tree::LongArray(v@[i as int]@));
                match write_long_array(sink, &v[i]) {
                    Err(e) => {
                        proof {
                            assert(items_fault(items, (i + 1) as nat) == Some(e));
                            lemma_items_fault_stays(items, (i + 1) as nat, n as nat);
                        }
                        return Err(e);
                    },
                    Ok(()) => {},
                }
                assert(sink@ =~= base + items_payload(items, (i + 1) as nat));
                i += 1;
            }
        },
    }
    assert(sink@ =~= old(sink)@ + payload(l@));
    Ok(())
}

/// Appends the payload of a compound: each entry in order as its tag byte,
/// its key and its payload, and then the `End` byte.
pub fn write_compound(sink: &mut Vec<u8>, c: &Compound) -> (r: Result<(), Error>)
    ensures
        match fault(Tree::Compound(c@)) {
            None => r is Ok && final(sink)@ == old(sink)@ + payload(Tree::Compound(c@)),
            Some(e) => r == Err::<(), Error>(e) && old(sink)@.is_prefix_of(final(sink)@),
        },
    decreases c,
{
    let ghost entries = c@;
    let n = c.entries.len();
    let mut i: usize = 0;
    while i < n
        invariant
            i <= n,
            n == c.entries.len(),
            entries == c@,
            sink@ == old(sink)@ + entries_payload(entries, i as nat),
            entries_fault(entries, i as nat) is None,
        decreases n - i,
    {
        let key = &c.entries[i].0;
        let value = &c.entries[i].1;
        assert(entries[i as int] == (key@, value@));
        sink.push(value.tag().to_u8());
        match write_string(sink, key.as_str()) {
            Err(e) => {
                proof {
                    assert(entries_fault(entries, (i + 1) as nat) == Some(e));
                    lemma_entries_fault_stays(entries, (i + 1) as nat, n as nat);
                }
                return Err(e);
            },
            Ok(()) => {},
        }
        match write_payload(sink, value) {
            Err(e) => {
                proof {
                    assert(entries_fault(entries, (i + 1) as nat) == Some(e));
                    lemma_entries_fault_stays(entries, (i + 1) as nat, n as nat);
                }
                return Err(e);
            },
            Ok(()) => {},
        }
        assert(sink@ =~= old(sink)@ + entries_payload(entries, (i + 1) as nat));
        i += 1;
    }
    sink.push(0u8);
    assert(sink@ =~= old(sink)@ + payload(Tree::Compound(c@)));
    Ok(())
}

/// Writes a whole stream: the tag of the root, its name, and its payload. A
/// root that is no compound is refused before anything is written.
pub fn encode(sink: &mut Vec<u8>, name: &str, root: &Value) -> (r: Result<(), Error>)
    ensures
        match stream_fault(Some(name@), root@) {
            None => r is Ok && final(sink)@ == old(sink)@ + stream(name@, root@),
            Some(e) => r == Err::<(), Error>(e) && old(sink)@.is_prefix_of(final(sink)@),
        },
        !(root@ is Compound) ==> final(sink)@ == old(sink)@,
{
    match root {
        Value::Compound(c) => {
            sink.push(Tag::Compound.to_u8());
            match write_string(sink, name) {
                Err(e) => {
                    return Err(e);
                },
                Ok(()) => {},
            }
            match write_compound(sink, c) {
                Err(e) => Err(e),
                Ok(()) => {
                    assert(sink@ =~= old(sink)@ + stream(name@, root@));
                    Ok(())
                },
            }
        },
        _ => Err(Error::NonCompoundRoot(root.tag().to_u8())),
    }
}

} // verus!
