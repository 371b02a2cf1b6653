//! What holds between writing and reading: a tree that is written and read
//! again is the tree that was written.

use crate::error::Error;
use crate::parse::{
    has_bytes, leaf_at, leaf_width, parse_count, parse_entries, parse_items, parse_leaf,
    parse_leaves, parse_payload, parse_stream, parse_string, u16_at, u32_at, u64_at,
};
use crate::tag::Tag;
use crate::tree::{
    bytes_as_items, bytes_of, has_key, ints_as_items, ints_of, keys_unique, lemma_put_keeps_unique,
    longs_as_items, longs_of, position, put, Entries, Tree,
};
use crate::wire::{
    be16, be32, be64, count_bytes, count_fits, entries_fault, entries_payload, fault, items_fault,
    items_payload, leaf_payload, leaves_payload, nameless_stream, payload, stream, stream_fault,
    string_bytes, string_fits,
};
use vstd::prelude::*;
use vstd::utf8::{encode_utf8, encode_utf8_decode_utf8, encode_utf8_valid_utf8};

verus! {

/// The bytes `b` stand in `s` from position `p` on.
pub open spec fn stands_at(s: Seq<u8>, p: int, b: Seq<u8>) -> bool {
    0 <= p && p + b.len() <= s.len() && s.subrange(p, p + b.len()) == b
}

/// Where a run of bytes stands, each part of it stands at its offset.
pub proof fn lemma_stands_part(s: Seq<u8>, p: int, whole: Seq<u8>, off: int, part: Seq<u8>)
    requires
        stands_at(s, p, whole),
        0 <= off,
        off + part.len() <= whole.len(),
        whole.subrange(off, off + part.len()) == part,
    ensures
        stands_at(s, p + off, part),
{
    let got = s.subrange(p + off, p + off + part.len());
    assert forall|i: int| 0 <= i < part.len() implies got[i] == part[i] by {
        assert(s.subrange(p, p + whole.len())[off + i] == whole[off + i]);
        assert(whole.subrange(off, off + part.len())[i] == part[i]);
    }
    assert(got =~= part);
}

/// Where two runs stand one after the other, each of them stands.
pub proof fn lemma_stands_split(s: Seq<u8>, p: int, a: Seq<u8>, b: Seq<u8>)
    requires
        stands_at(s, p, a + b),
    ensures
        stands_at(s, p, a),
        stands_at(s, p + a.len(), b),
{
    assert((a + b).subrange(0, a.len() as int) =~= a);
    assert((a + b).subrange(a.len() as int, (a.len() + b.len()) as int) =~= b);
    lemma_stands_part(s, p, a + b, 0, a);
    lemma_stands_part(s, p, a + b, a.len() as int, b);
}

proof fn lemma_u16_bits(x: u16)
    by (bit_vector)
    ensures
        ((((x >> 8) as u8) as u16) << 8) | ((x as u8) as u16) == x,
{
}

proof fn lemma_u32_bits(x: u32)
    by (bit_vector)
    ensures
        ((((x >> 24) as u8) as u32) << 24) | ((((x >> 16) as u8) as u32) << 16) | ((((x
            >> 8) as u8) as u32) << 8) | ((x as u8) as u32) == x,
{
}

proof fn lemma_u64_bits(x: u64)
    by (bit_vector)
    ensures
        ((((x >> 56) as u8) as u64) << 56) | ((((x >> 48) as u8) as u64) << 48) | ((((x
            >> 40) as u8) as u64) << 40) | ((((x >> 32) as u8) as u64) << 32) | ((((x
            >> 24) as u8) as u64) << 24) | ((((x >> 16) as u8) as u64) << 16) | ((((x
            >> 8) as u8) as u64) << 8) | ((x as u8) as u64) == x,
{
}

proof fn lemma_signed_bits(a: i8, b: i16, c: i32, d: i64)
    by (bit_vector)
    ensures
        ((a as u8) as i8) == a,
        ((b as u16) as i16) == b,
        ((c as u32) as i32) == c,
        ((d as u64) as i64) == d,
{
}

/// The two bytes of a number, read back, are the number.
pub proof fn lemma_read_be16(s: Seq<u8>, p: int, x: u16)
    requires
        stands_at(s, p, be16(x)),
    ensures
        has_bytes(s, p, 2),
        u16_at(s, p) == x,
{
    let got = s.subrange(p, p + 2);
    assert(got[0] == s[p] && got[1] == s[p + 1]);
    lemma_u16_bits(x);
}

/// The four bytes of a number, read back, are the number.
pub proof fn lemma_read_be32(s: Seq<u8>, p: int, x: u32)
    requires
        stands_at(s, p, be32(x)),
    ensures
        has_bytes(s, p, 4),
        u32_at(s, p) == x,
{
    let got = s.subrange(p, p + 4);
    assert(got[0] == s[p] && got[1] == s[p + 1] && got[2] == s[p + 2] && got[3] == s[p + 3]);
    lemma_u32_bits(x);
}

/// The eight bytes of a number, read back, are the number.
pub proof fn lemma_read_be64(s: Seq<u8>, p: int, x: u64)
    requires
        stands_at(s, p, be64(x)),
    ensures
        has_bytes(s, p, 8),
        u64_at(s, p) == x,
{
    let got = s.subrange(p, p + 8);
    assert(got[0] == s[p] && got[1] == s[p + 1] && got[2] == s[p + 2] && got[3] == s[p + 3]);
    assert(got[4] == s[p + 4] && got[5] == s[p + 5] && got[6] == s[p + 6] && got[7] == s[p
        + 7]);
    lemma_u64_bits(x);
}

/// A string that fits, read back where it stands, is the string.
pub proof fn lemma_read_string(s: Seq<u8>, p: int, chars: Seq<char>)
    requires
        string_fits(chars),
        stands_at(s, p, string_bytes(chars)),
    ensures
        parse_string(s, p) == Ok::<(Seq<char>, int), Error>(
            (chars, p + string_bytes(chars).len()),
        ),
        string_bytes(chars).len() == 2 + encode_utf8(chars).len(),
{
    let bytes = encode_utf8(chars);
    let n = bytes.len() as u16;
    lemma_stands_split(s, p, be16(n), bytes);
    lemma_read_be16(s, p, n);
    encode_utf8_valid_utf8(chars);
    encode_utf8_decode_utf8(chars);
}

/// A count that fits, read back where it stands, is the count.
pub proof fn lemma_read_count(s: Seq<u8>, p: int, n: nat)
    requires
        count_fits(n),
        stands_at(s, p, count_bytes(n)),
    ensures
        parse_count(s, p) == Ok::<(nat, int), Error>((n, p + 4)),
{
    lemma_read_be32(s, p, n as u32);
}

/// One number, read back where its payload stands, is the number.
pub proof fn lemma_read_leaf(t: Tree, s: Seq<u8>, p: int)
    requires
        t.tag().is_leaf(),
        stands_at(s, p, leaf_payload(t)),
    ensures
        parse_leaf(t.tag(), s, p) == Ok::<(Tree, int), Error>((t, p + leaf_payload(t).len())),
        leaf_payload(t).len() == leaf_width(t.tag()),
        leaf_payload(t).len() > 0,
{
    match t {
        Tree::Byte(x) => {
            assert(s.subrange(p, p + 1)[0] == s[p]);
            lemma_signed_bits(x, 0, 0, 0);
        },
        Tree::Short(x) => {
            lemma_read_be16(s, p, x as u16);
            lemma_signed_bits(0, x, 0, 0);
        },
        Tree::Int(x) => {
            lemma_read_be32(s, p, x as u32);
            lemma_signed_bits(0, 0, x, 0);
        },
        Tree::Long(x) => {
            lemma_read_be64(s, p, x as u64);
            lemma_signed_bits(0, 0, 0, x);
        },
        Tree::Float(x) => {
            lemma_read_be32(s, p, x);
        },
        Tree::Double(x) => {
            lemma_read_be64(s, p, x);
        },
        _ => {},
    }
}

/// The payloads of the first `k` numbers begin those of the first `n`.
pub proof fn lemma_leaves_prefix(items: Seq<Tree>, k: nat, n: nat)
    requires
        k <= n <= items.len(),
    ensures
        leaves_payload(items, k).len() <= leaves_payload(items, n).len(),
        leaves_payload(items, n).subrange(0, leaves_payload(items, k).len() as int)
            == leaves_payload(items, k),
    decreases n - k,
{
    if k < n {
        lemma_leaves_prefix(items, k, (n - 1) as nat);
        let shorter = leaves_payload(items, (n - 1) as nat);
        assert(leaves_payload(items, n) == shorter + leaf_payload(items[n - 1]));
        assert(leaves_payload(items, n).subrange(0, leaves_payload(items, k).len() as int)
            =~= shorter.subrange(0, leaves_payload(items, k).len() as int));
    } else {
        assert(leaves_payload(items, n).subrange(0, leaves_payload(items, n).len() as int)
            =~= leaves_payload(items, n));
    }
}

/// A run of numbers of one kind, read back where it stands, is the run.
pub proof fn lemma_read_leaves(tag: Tag, items: Seq<Tree>, s: Seq<u8>, base: int, k: nat)
    requires
        tag.is_leaf(),
        forall|i: int| 0 <= i < items.len() ==> (#[trigger] items[i]).tag() == tag,
        stands_at(s, base, leaves_payload(items, items.len())),
        k <= items.len(),
    ensures
        parse_leaves(
            tag,
            s,
            base + leaves_payload(items, k).len(),
            (items.len() - k) as nat,
            items.take(k as int),
        ) == Ok::<(Seq<Tree>, int), Error>(
            (items, base + leaves_payload(items, items.len()).len()),
        ),
    decreases items.len() - k,
{
    let n = items.len();
    let whole = leaves_payload(items, n);
    if k == n {
        assert(items.take(k as int) =~= items);
    } else {
        let here = base + leaves_payload(items, k).len();
        let item = items[k as int];
        assert(item.tag() == tag);
        lemma_leaves_prefix(items, k + 1, n);
        let upto = leaves_payload(items, k + 1);
        assert(upto == leaves_payload(items, k) + leaf_payload(item));
        assert(whole.subrange(
            leaves_payload(items, k).len() as int,
            (leaves_payload(items, k).len() + leaf_payload(item).len()) as int,
        ) =~= leaf_payload(item)) by {
            assert(whole.subrange(0, upto.len() as int) == upto);
            assert forall|i: int| 0 <= i < leaf_payload(item).len() implies whole[leaves_payload(
                items,
                k,
            ).len() + i] == leaf_payload(item)[i] by {
                assert(whole.subrange(0, upto.len() as int)[leaves_payload(items, k).len() + i]
                    == upto[leaves_payload(items, k).len() + i]);
            }
        }
        lemma_stands_part(
            s,
            base,
            whole,
            leaves_payload(items, k).len() as int,
            leaf_payload(item),
        );
        lemma_read_leaf(item, s, here);
        assert(items.take(k as int).push(item) =~= items.take(k + 1 as int));
        lemma_read_leaves(tag, items, s, base, k + 1);
    }
}

/// The payloads of the first `k` elements begin those of the first `n`, and
/// element `k` stands right after them.
pub proof fn lemma_items_prefix(items: Seq<Tree>, k: nat, n: nat)
    requires
        k < n <= items.len(),
    ensures
        items_payload(items, k).len() + payload(items[k as int]).len() <= items_payload(
            items,
            n,
        ).len(),
        items_payload(items, n).subrange(
            items_payload(items, k).len() as int,
            (items_payload(items, k).len() + payload(items[k as int]).len()) as int,
        ) == payload(items[k as int]),
        items_payload(items, k + 1) == items_payload(items, k) + payload(items[k as int]),
    decreases n - k,
{
    let before = items_payload(items, k);
    let item = payload(items[k as int]);
    if k + 1 < n {
        lemma_items_prefix(items, k, (n - 1) as nat);
        let shorter = items_payload(items, (n - 1) as nat);
        assert(items_payload(items, n) == shorter + payload(items[n - 1]));
        assert(items_payload(items, n).subrange(
            before.len() as int,
            (before.len() + item.len()) as int,
        ) =~= shorter.subrange(before.len() as int, (before.len() + item.len()) as int));
    } else {
        assert(items_payload(items, n) == before + item);
        assert((before + item).subrange(before.len() as int, (before.len() + item.len()) as int)
            =~= item);
    }
}

/// One entry as it stands on the wire.
pub open spec fn entry_bytes(key: Seq<char>, tree: Tree) -> Seq<u8> {
    seq![tree.tag().byte()] + string_bytes(key) + payload(tree)
}

/// The first `k` entries begin the first `n`, and entry `k` stands right
/// after them.
pub proof fn lemma_entries_prefix(entries: Entries, k: nat, n: nat)
    requires
        k < n <= entries.len(),
    ensures
        entries_payload(entries, k).len() + entry_bytes(
            entries[k as int].0,
            entries[k as int].1,
        ).len() <= entries_payload(entries, n).len(),
        entries_payload(entries, n).subrange(
            entries_payload(entries, k).len() as int,
            (entries_payload(entries, k).len() + entry_bytes(
                entries[k as int].0,
                entries[k as int].1,
            ).len()) as int,
        ) == entry_bytes(entries[k as int].0, entries[k as int].1),
        entries_payload(entries, k + 1) == entries_payload(entries, k) + entry_bytes(
            entries[k as int].0,
            entries[k as int].1,
        ),
    decreases n - k,
{
    let before = entries_payload(entries, k);
    let entry = entry_bytes(entries[k as int].0, entries[k as int].1);
    assert(entries_payload(entries, k + 1) =~= before + entry);
    if k + 1 < n {
        lemma_entries_prefix(entries, k, (n - 1) as nat);
        let shorter = entries_payload(entries, (n - 1) as nat);
        let last = entry_bytes(entries[n - 1].0, entries[n - 1].1);
        assert(entries_payload(entries, n) =~= shorter + last);
        assert(entries_payload(entries, n).subrange(
            before.len() as int,
            (before.len() + entry.len()) as int,
        ) =~= shorter.subrange(before.len() as int, (before.len() + entry.len()) as int));
    } else {
        assert((before + entry).subrange(
            before.len() as int,
            (before.len() + entry.len()) as int,
        ) =~= entry);
    }
}

/// Where a run of elements has no fault, none of the elements has one.
pub proof fn lemma_items_sound(items: Seq<Tree>, n: nat, k: int)
    requires
        n <= items.len(),
        items_fault(items, n) is None,
        0 <= k < n,
    ensures
        fault(items[k]) is None,
    decreases n,
{
    if k < n - 1 {
        lemma_items_sound(items, (n - 1) as nat, k);
    }
}

/// Where a run of entries has no fault, every key fits and no tree has a
/// fault.
pub proof fn lemma_entries_sound(entries: Entries, n: nat, k: int)
    requires
        n <= entries.len(),
        entries_fault(entries, n) is None,
        0 <= k < n,
    ensures
        string_fits(entries[k].0),
        fault(entries[k].1) is None,
    decreases n,
{
    if k < n - 1 {
        lemma_entries_sound(entries, (n - 1) as nat, k);
    }
}

/// A byte array that fits, read back where its payload stands, is the array.
pub proof fn lemma_read_byte_array(a: Seq<i8>, s: Seq<u8>, p: int)
    requires
        count_fits(a.len()),
        stands_at(s, p, payload(Tree::ByteArray(a))),
    ensures
        parse_payload(Tag::ByteArray, s, p) == Ok::<(Tree, int), Error>(
            (Tree::ByteArray(a), p + payload(Tree::ByteArray(a)).len()),
        ),
        payload(Tree::ByteArray(a)).len() > 0,
{
    let items = bytes_as_items(a);
    lemma_stands_split(s, p, count_bytes(a.len()), leaves_payload(items, a.len()));
    lemma_read_count(s, p, a.len());
    lemma_read_leaves(Tag::Byte, items, s, p + 4, 0);
    assert(items.take(0) =~= Seq::<Tree>::empty());
    assert(bytes_of(items) =~= a);
}

/// An int array that fits, read back where its payload stands, is the array.
pub proof fn lemma_read_int_array(a: Seq<i32>, s: Seq<u8>, p: int)
    requires
        count_fits(a.len()),
        stands_at(s, p, payload(Tree::IntArray(a))),
    ensures
        parse_payload(Tag::IntArray, s, p) == Ok::<(Tree, int), Error>(
            (Tree::IntArray(a), p + payload(Tree::IntArray(a)).len()),
        ),
        payload(Tree::IntArray(a)).len() > 0,
{
    let items = ints_as_items(a);
    lemma_stands_split(s, p, count_bytes(a.len()), leaves_payload(items, a.len()));
    lemma_read_count(s, p, a.len());
    lemma_read_leaves(Tag::Int, items, s, p + 4, 0);
    assert(items.take(0) =~= Seq::<Tree>::empty());
    assert(ints_of(items) =~= a);
}

/// A long array that fits, read back where its payload stands, is the array.
pub proof fn lemma_read_long_array(a: Seq<i64>, s: Seq<u8>, p: int)
    requires
        count_fits(a.len()),
        stands_at(s, p, payload(Tree::LongArray(a))),
    ensures
        parse_payload(Tag::LongArray, s, p) == Ok::<(Tree, int), Error>(
            (Tree::LongArray(a), p + payload(Tree::LongArray(a)).len()),
        ),
        payload(Tree::LongArray(a)).len() > 0,
{
    let items = longs_as_items(a);
    lemma_stands_split(s, p, count_bytes(a.len()), leaves_payload(items, a.len()));
    lemma_read_count(s, p, a.len());
    lemma_read_leaves(Tag::Long, items, s, p + 4, 0);
    assert(items.take(0) =~= Seq::<Tree>::empty());
    assert(longs_of(items) =~= a);
}

/// A well-formed tree without a fault, read back where its payload stands, is
/// the tree, and the reading ends where the payload ends.
pub proof fn lemma_read_payload(t: Tree, s: Seq<u8>, p: int)
    requires
        t.well_formed(),
        fault(t) is None,
        stands_at(s, p, payload(t)),
    ensures
        parse_payload(t.tag(), s, p) == Ok::<(Tree, int), Error>((t, p + payload(t).len())),
        payload(t).len() > 0,
    decreases t, 0nat,
{
    match t {
        Tree::ByteArray(a) => {
            lemma_read_byte_array(a, s, p);
        },
        Tree::IntArray(a) => {
            lemma_read_int_array(a, s, p);
        },
        Tree::LongArray(a) => {
            lemma_read_long_array(a, s, p);
        },
        Tree::String(chars) => {
            lemma_read_string(s, p, chars);
        },
        Tree::List(of, items) => {
            lemma_read_list(of, items, s, p);
        },
        Tree::Compound(entries) => {
            lemma_read_compound(entries, s, p);
        },
        _ => {
            lemma_read_leaf(t, s, p);
        },
    }
}

/// A well-formed list without a fault, read back where its payload stands,
/// is the list.
pub proof fn lemma_read_list(of: Tag, items: Seq<Tree>, s: Seq<u8>, p: int)
    requires
        Tree::List(of, items).well_formed(),
        fault(Tree::List(of, items)) is None,
        stands_at(s, p, payload(Tree::List(of, items))),
    ensures
        parse_payload(Tag::List, s, p) == Ok::<(Tree, int), Error>(
            (Tree::List(of, items), p + payload(Tree::List(of, items)).len()),
        ),
        payload(Tree::List(of, items)).len() > 0,
    decreases items, items.len() + 1,
{
    let head = seq![of.byte()] + count_bytes(items.len());
    let body = items_payload(items, items.len());
    assert(payload(Tree::List(of, items)) == head + body);
    lemma_stands_split(s, p, head, body);
    lemma_stands_split(s, p, seq![of.byte()], count_bytes(items.len()));
    assert(s.subrange(p, p + 1)[0] == s[p]);
    assert(Tag::of_byte(of.byte()) == Some(of));
    lemma_read_count(s, p + 1, items.len());
    lemma_read_items(of, items, s, p + 5, 0);
    assert(items.take(0) =~= Seq::<Tree>::empty());
}

/// A well-formed compound without a fault, read back where its payload
/// stands, is the compound.
pub proof fn lemma_read_compound(entries: Entries, s: Seq<u8>, p: int)
    requires
        Tree::Compound(entries).well_formed(),
        fault(Tree::Compound(entries)) is None,
        stands_at(s, p, payload(Tree::Compound(entries))),
    ensures
        parse_payload(Tag::Compound, s, p) == Ok::<(Tree, int), Error>(
            (Tree::Compound(entries), p + payload(Tree::Compound(entries)).len()),
        ),
        payload(Tree::Compound(entries)).len() > 0,
    decreases entries, entries.len() + 1,
{
    let body = entries_payload(entries, entries.len());
    lemma_stands_split(s, p, body, seq![0u8]);
    assert(s.subrange(p + body.len(), p + body.len() + 1)[0] == s[p + body.len()]);
    lemma_read_entries(entries, s, p, 0);
    assert(entries.take(0) =~= Seq::<(Seq<char>, Tree)>::empty());
}

/// The elements of a well-formed list without a fault, read back where their
/// payloads stand, are the elements.
pub proof fn lemma_read_items(of: Tag, items: Seq<Tree>, s: Seq<u8>, base: int, k: nat)
    requires
        forall|i: int|
            0 <= i < items.len() ==> (#[trigger] items[i]).tag() == of && items[i].well_formed(),
        items_fault(items, items.len()) is None,
        stands_at(s, base, items_payload(items, items.len())),
        k <= items.len(),
    ensures
        parse_items(
            of,
            s,
            base + items_payload(items, k).len(),
            (items.len() - k) as nat,
            items.take(k as int),
        ) == Ok::<(Seq<Tree>, int), Error>(
            (items, base + items_payload(items, items.len()).len()),
        ),
    decreases items, items.len() - k,
{
    let n = items.len();
    let whole = items_payload(items, n);
    if k == n {
        assert(items.take(k as int) =~= items);
    } else {
        let here = base + items_payload(items, k).len();
        let item = items[k as int];
        assert(item.tag() == of && item.well_formed());
        lemma_items_prefix(items, k, n);
        lemma_items_sound(items, n, k as int);
        lemma_stands_part(s, base, whole, items_payload(items, k).len() as int, payload(item));
        lemma_read_payload(item, s, here);
        assert(items.take(k as int).push(item) =~= items.take(k + 1 as int));
        lemma_read_items(of, items, s, base, k + 1);
    }
}

/// The entries of a well-formed compound without a fault, read back where
/// they stand before an `End` byte, are the entries.
#[verifier::rlimit(50)]
pub proof fn lemma_read_entries(entries: Entries, s: Seq<u8>, base: int, k: nat)
    requires
        keys_unique(entries),
        forall|i: int| 0 <= i < entries.len() ==> (#[trigger] entries[i]).1.well_formed(),
        entries_fault(entries, entries.len()) is None,
        stands_at(s, base, entries_payload(entries, entries.len())),
        base + entries_payload(entries, entries.len()).len() < s.len(),
        s[base + entries_payload(entries, entries.len()).len()] == 0,
        k <= entries.len(),
    ensures
        parse_entries(s, base + entries_payload(entries, k).len(), entries.take(k as int))
            == Ok::<(Entries, int), Error>(
            (entries, base + entries_payload(entries, entries.len()).len() + 1),
        ),
    decreases entries, entries.len() - k,
{
    let n = entries.len();
    let whole = entries_payload(entries, n);
    if k == n {
        assert(entries.take(k as int) =~= entries);
    } else {
        let here = base + entries_payload(entries, k).len();
        let key = entries[k as int].0;
        let tree = entries[k as int].1;
        let tag = tree.tag();
        assert(tree.well_formed());
        lemma_entries_prefix(entries, k, n);
        lemma_entries_sound(entries, n, k as int);
        let entry = entry_bytes(key, tree);
        lemma_stands_part(s, base, whole, entries_payload(entries, k).len() as int, entry);
        lemma_stands_split(s, here, seq![tag.byte()] + string_bytes(key), payload(tree));
        lemma_stands_split(s, here, seq![tag.byte()], string_bytes(key));
        assert(s.subrange(here, here + 1)[0] == s[here]);
        assert(tag.byte() != 0);
        assert(Tag::of_byte(tag.byte()) == Some(tag));
        lemma_read_string(s, here + 1, key);
        let after_key = here + 1 + string_bytes(key).len();
        lemma_read_payload(tree, s, after_key);
        let acc = entries.take(k as int);
        assert(!has_key(acc, key)) by {
            if has_key(acc, key) {
                let i = choose|i: int| 0 <= i < acc.len() && (#[trigger] acc[i]).0 == key;
                assert(entries[i].0 != entries[k as int].0);
            }
        }
        assert(put(acc, key, tree) =~= entries.take(k + 1 as int));
        lemma_read_entries(entries, s, base, k + 1);
    }
}

/// A compound that is written under a name and read again is the compound,
/// under the name, whatever follows the stream: the entries come back in
/// their order.
pub proof fn lemma_round_trip(name: Seq<char>, root: Tree, rest: Seq<u8>)
    requires
        root is Compound,
        root.well_formed(),
        stream_fault(Some(name), root) is None,
    ensures
        parse_stream(stream(name, root) + rest, true) == Ok::<(Seq<char>, Tree, int), Error>(
            (name, root, stream(name, root).len() as int),
        ),
{
    let s = stream(name, root) + rest;
    assert(s.subrange(0, stream(name, root).len() as int) =~= stream(name, root));
    assert(stands_at(s, 0, stream(name, root)));
    lemma_stands_split(s, 0, seq![root.tag().byte()] + string_bytes(name), payload(root));
    lemma_stands_split(s, 0, seq![root.tag().byte()], string_bytes(name));
    assert(s[0] == Tag::Compound.byte());
    lemma_read_string(s, 1, name);
    lemma_read_payload(root, s, 1 + string_bytes(name).len() as int);
}

/// A compound that is written without a name and read again is the compound,
/// whatever follows the stream.
pub proof fn lemma_nameless_round_trip(root: Tree, rest: Seq<u8>)
    requires
        root is Compound,
        root.well_formed(),
        fault(root) is None,
    ensures
        parse_stream(nameless_stream(root) + rest, false) == Ok::<
            (Seq<char>, Tree, int),
            Error,
        >((Seq::empty(), root, nameless_stream(root).len() as int)),
{
    let s = nameless_stream(root) + rest;
    assert(s.subrange(0, nameless_stream(root).len() as int) =~= nameless_stream(root));
    assert(stands_at(s, 0, nameless_stream(root)));
    lemma_stands_split(s, 0, seq![root.tag().byte()], payload(root));
    assert(s[0] == Tag::Compound.byte());
    lemma_read_payload(root, s, 1);
}

/// Every tree of the run has the tag `of`, is well-formed and can be written.
pub open spec fn items_sound(of: Tag, items: Seq<Tree>) -> bool {
    forall|i: int|
        0 <= i < items.len() ==> (#[trigger] items[i]).tag() == of && items[i].well_formed()
            && fault(items[i]) is None
}

/// The entries are those of a well-formed compound that can be written.
pub open spec fn entries_sound(entries: Entries) -> bool {
    &&& keys_unique(entries)
    &&& forall|i: int|
        0 <= i < entries.len() ==> string_fits((#[trigger] entries[i]).0)
            && entries[i].1.well_formed() && fault(entries[i].1) is None
}

/// Where no element has a fault, the run has none.
pub proof fn lemma_items_no_fault(items: Seq<Tree>, n: nat)
    requires
        n <= items.len(),
        forall|i: int| 0 <= i < n ==> fault(#[trigger] items[i]) is None,
    ensures
        items_fault(items, n) is None,
    decreases n,
{
    if n > 0 {
        lemma_items_no_fault(items, (n - 1) as nat);
    }
}

/// Where every key fits and no tree has a fault, the entries have none.
pub proof fn lemma_entries_no_fault(entries: Entries, n: nat)
    requires
        n <= entries.len(),
        forall|i: int|
            0 <= i < n ==> string_fits((#[trigger] entries[i]).0) && fault(entries[i].1) is None,
    ensures
        entries_fault(entries, n) is None,
    decreases n,
{
    if n > 0 {
        lemma_entries_no_fault(entries, (n - 1) as nat);
        assert(string_fits(entries[n - 1].0) && fault(entries[n - 1].1) is None);
    }
}

/// A string that is read fits a length field, and ends within the bytes.
pub proof fn lemma_parse_string_sound(s: Seq<u8>, p: int)
    ensures
        parse_string(s, p) matches Ok((chars, q)) ==> (string_fits(chars) && p + 2 <= q
            <= s.len()),
{
    if parse_string(s, p) is Ok {
        let n = u16_at(s, p) as int;
        let bytes = s.subrange(p + 2, p + 2 + n);
        vstd::utf8::decode_utf8_encode_utf8(bytes);
    }
}

/// Numbers that are read are as many as were asked for, of the kind asked
/// for, and end within the bytes.
pub proof fn lemma_parse_leaves_sound(tag: Tag, s: Seq<u8>, p: int, n: nat, acc: Seq<Tree>)
    requires
        tag.is_leaf(),
        0 <= p <= s.len(),
        items_sound(tag, acc),
    ensures
        parse_leaves(tag, s, p, n, acc) matches Ok((items, q)) ==> (items_sound(tag, items)
            && items.len() == acc.len() + n && p <= q <= s.len()),
    decreases n,
{
    if n > 0 && parse_leaf(tag, s, p) is Ok {
        let t = leaf_at(tag, s, p);
        let next = acc.push(t);
        assert(items_sound(tag, next)) by {
            assert forall|i: int| 0 <= i < next.len() implies (#[trigger] next[i]).tag() == tag
                && next[i].well_formed() && fault(next[i]) is None by {
                if i < acc.len() {
                    assert(next[i] == acc[i]);
                }
            }
        }
        lemma_parse_leaves_sound(tag, s, p + leaf_width(tag), (n - 1) as nat, next);
    }
}

/// A payload that is read is a well-formed tree of the kind that was asked
/// for, takes at least one byte, ends within the bytes, and can be written.
pub proof fn lemma_parse_sound(tag: Tag, s: Seq<u8>, p: int)
    ensures
        parse_payload(tag, s, p) matches Ok((t, q)) ==> (t.tag() == tag && t.well_formed()
            && fault(t) is None && p < q <= s.len()),
    decreases s.len() - p, 2nat, 0nat,
{
    if parse_payload(tag, s, p) is Ok {
        match tag {
            Tag::ByteArray => {
                let (n, q) = parse_count(s, p)->Ok_0;
                lemma_parse_leaves_sound(Tag::Byte, s, q, n, Seq::empty());
            },
            Tag::IntArray => {
                let (n, q) = parse_count(s, p)->Ok_0;
                lemma_parse_leaves_sound(Tag::Int, s, q, n, Seq::empty());
            },
            Tag::LongArray => {
                let (n, q) = parse_count(s, p)->Ok_0;
                lemma_parse_leaves_sound(Tag::Long, s, q, n, Seq::empty());
            },
            Tag::String => {
                lemma_parse_string_sound(s, p);
            },
            Tag::List => {
                let of = Tag::of_byte(s[p])->Some_0;
                let (n, q) = parse_count(s, p + 1)->Ok_0;
                lemma_parse_items_sound(of, s, q, n, Seq::empty());
                let (items, r) = parse_items(of, s, q, n, Seq::empty())->Ok_0;
                lemma_items_no_fault(items, items.len());
            },
            Tag::Compound => {
                lemma_parse_entries_sound(s, p, Seq::empty());
                let (entries, q) = parse_entries(s, p, Seq::empty())->Ok_0;
                lemma_entries_no_fault(entries, entries.len());
            },
            _ => {},
        }
    }
}

/// Payloads that are read are as many as were asked for, each a well-formed
/// tree of the kind asked for that can be written.
pub proof fn lemma_parse_items_sound(tag: Tag, s: Seq<u8>, p: int, n: nat, acc: Seq<Tree>)
    requires
        0 <= p <= s.len(),
        items_sound(tag, acc),
    ensures
        parse_items(tag, s, p, n, acc) matches Ok((items, q)) ==> (items_sound(tag, items)
            && items.len() == acc.len() + n && p <= q <= s.len()),
    decreases s.len() - p, 3nat, n,
{
    if n > 0 && parse_payload(tag, s, p) is Ok {
        lemma_parse_sound(tag, s, p);
        let (t, q) = parse_payload(tag, s, p)->Ok_0;
        let next = acc.push(t);
        assert(items_sound(tag, next)) by {
            assert forall|i: int| 0 <= i < next.len() implies (#[trigger] next[i]).tag() == tag
                && next[i].well_formed() && fault(next[i]) is None by {
                if i < acc.len() {
                    assert(next[i] == acc[i]);
                }
            }
        }
        lemma_parse_items_sound(tag, s, q, (n - 1) as nat, next);
    }
}

/// Entries that are read are those of a well-formed compound that can be
/// written: no key twice, whatever the bytes say.
#[verifier::rlimit(50)]
pub proof fn lemma_parse_entries_sound(s: Seq<u8>, p: int, acc: Entries)
    requires
        entries_sound(acc),
    ensures
        parse_entries(s, p, acc) matches Ok((entries, q)) ==> (entries_sound(entries) && p < q
            <= s.len()),
    decreases s.len() - p, 1nat, 0nat,
{
    if parse_entries(s, p, acc) is Ok && s[p] != 0 {
        let tag = Tag::of_byte(s[p])->Some_0;
        lemma_parse_string_sound(s, p + 1);
        let (key, q) = parse_string(s, p + 1)->Ok_0;
        lemma_parse_sound(tag, s, q);
        let (tree, r) = parse_payload(tag, s, q)->Ok_0;
        let next = put(acc, key, tree);
        lemma_put_keeps_unique(acc, key, tree);
        assert(entries_sound(next)) by {
            assert forall|i: int| 0 <= i < next.len() implies string_fits((#[trigger] next[i]).0)
                && next[i].1.well_formed() && fault(next[i].1) is None by {
                if has_key(acc, key) {
                    if i != position(acc, key) {
                        assert(next[i] == acc[i]);
                    }
                } else {
                    if i < acc.len() {
                        assert(next[i] == acc[i]);
                    }
                }
            }
        }
        lemma_parse_entries_sound(s, r, next);
    }
}

/// A stream that is read gives a well-formed compound, and the name and the
/// compound can be written again.
pub proof fn lemma_stream_sound(s: Seq<u8>, named: bool)
    ensures
        parse_stream(s, named) matches Ok((name, root, q)) ==> (root is Compound
            && root.well_formed() && stream_fault(Some(name), root) is None && 0 < q
            <= s.len()),
{
    if parse_stream(s, named) is Ok {
        if named {
            lemma_parse_string_sound(s, 1);
            let (name, q) = parse_string(s, 1)->Ok_0;
            lemma_parse_sound(Tag::Compound, s, q);
        } else {
            lemma_parse_sound(Tag::Compound, s, 1);
            assert(encode_utf8(Seq::<char>::empty()).len() == 0);
        }
    }
}

/// A root that is no compound is never written, and a stream that does not
/// begin with the tag of a compound is never read: both fail with
/// `NonCompoundRoot`, whatever else holds of the root, the name or the bytes.
pub proof fn lemma_root_must_be_compound(
    name: Option<Seq<char>>,
    root: Tree,
    s: Seq<u8>,
    named: bool,
)
    ensures
        !(root is Compound) ==> stream_fault(name, root) == Some(
            Error::NonCompoundRoot(root.tag().byte()),
        ),
        root.tag().byte() == Tag::Compound.byte() <==> root is Compound,
        s.len() > 0 && s[0] != Tag::Compound.byte() ==> parse_stream(s, named) == Err::<
            (Seq<char>, Tree, int),
            Error,
        >(Error::NonCompoundRoot(s[0])),
{
}

/// A structured value that is written and read again is the value: where
/// `describe` says which tree a value of the type `V` is written as and
/// `build` which value a tree is read as, and `build` undoes `describe` on
/// the value, the stream of the value under any name is read back as the name
/// and a tree that `build` makes the value of. The tree must be a well-formed
/// compound that can be written.
pub proof fn lemma_bridged_round_trip<V>(
    describe: spec_fn(V) -> Tree,
    build: spec_fn(Tree) -> Result<V, Error>,
    value: V,
    name: Seq<char>,
    rest: Seq<u8>,
)
    requires
        build(describe(value)) == Ok::<V, Error>(value),
        describe(value) is Compound,
        describe(value).well_formed(),
        stream_fault(Some(name), describe(value)) is None,
    ensures
        parse_stream(stream(name, describe(value)) + rest, true) matches Ok((n, root, end)) && n
            == name && end == stream(name, describe(value)).len() && build(root) == Ok::<
            V,
            Error,
        >(value),
{
    lemma_round_trip(name, describe(value), rest);
}

/// No stream begins another, and no two compounds share a stream: where the
/// streams of two well-formed compounds, each followed by any bytes, are the
/// same bytes, the names are the same, the compounds are the same, and so is
/// what follows.
pub proof fn lemma_stream_unique(
    name1: Seq<char>,
    root1: Tree,
    rest1: Seq<u8>,
    name2: Seq<char>,
    root2: Tree,
    rest2: Seq<u8>,
)
    requires
        root1 is Compound,
        root1.well_formed(),
        stream_fault(Some(name1), root1) is None,
        root2 is Compound,
        root2.well_formed(),
        stream_fault(Some(name2), root2) is None,
        stream(name1, root1) + rest1 == stream(name2, root2) + rest2,
    ensures
        name1 == name2,
        root1 == root2,
        rest1 == rest2,
{
    lemma_round_trip(name1, root1, rest1);
    lemma_round_trip(name2, root2, rest2);
    let whole = stream(name1, root1) + rest1;
    let n = stream(name1, root1).len() as int;
    assert(rest1 =~= whole.subrange(n, whole.len() as int));
    assert(rest2 =~= whole.subrange(n, whole.len() as int));
}

} // verus!
