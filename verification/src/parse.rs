//! Reading, as mathematics: which tree a run of bytes holds from a position
//! on, where the tree ends, and which error stops the reading if one does.

use crate::error::Error;
use crate::tag::Tag;
use crate::tree::{bytes_of, ints_of, longs_of, put, Entries, Tree};
use crate::wire::MAX_COUNT;
use vstd::prelude::*;
use vstd::utf8::{decode_utf8, valid_utf8};

verus! {

/// `n` bytes stand in `s` from position `p` on.
pub open spec fn has_bytes(s: Seq<u8>, p: int, n: int) -> bool {
    0 <= p && 0 <= n && p + n <= s.len()
}

/// The 16-bit number whose two bytes stand at `p`, the high one first.
pub open spec fn u16_at(s: Seq<u8>, p: int) -> u16 {
    ((s[p] as u16) << 8) | (s[p + 1] as u16)
}

/// The 32-bit number whose four bytes stand at `p`, the highest first.
pub open spec fn u32_at(s: Seq<u8>, p: int) -> u32 {
    ((s[p] as u32) << 24) | ((s[p + 1] as u32) << 16) | ((s[p + 2] as u32) << 8) | (s[p
        + 3] as u32)
}

/// The 64-bit number whose eight bytes stand at `p`, the highest first.
pub open spec fn u64_at(s: Seq<u8>, p: int) -> u64 {
    ((s[p] as u64) << 56) | ((s[p + 1] as u64) << 48) | ((s[p + 2] as u64) << 40) | ((s[p
        + 3] as u64) << 32) | ((s[p + 4] as u64) << 24) | ((s[p + 5] as u64) << 16) | ((s[p
        + 6] as u64) << 8) | (s[p + 7] as u64)
}

/// A string at `p`: a 16-bit length and that many bytes of UTF-8. Too few
/// bytes are an `Io` error, bytes that are no UTF-8 an `InvalidString`.
pub open spec fn parse_string(s: Seq<u8>, p: int) -> Result<(Seq<char>, int), Error> {
    if !has_bytes(s, p, 2) {
        Err(Error::Io)
    } else {
        let n = u16_at(s, p) as int;
        let q = p + 2;
        if !has_bytes(s, q, n) {
            Err(Error::Io)
        } else if !valid_utf8(s.subrange(q, q + n)) {
            Err(Error::InvalidString)
        } else {
            Ok((decode_utf8(s.subrange(q, q + n)), q + n))
        }
    }
}

/// A count at `p`: four bytes, read as a signed number. Too few bytes are an
/// `Io` error, a negative count a `LengthOverflow`.
pub open spec fn parse_count(s: Seq<u8>, p: int) -> Result<(nat, int), Error> {
    if !has_bytes(s, p, 4) {
        Err(Error::Io)
    } else if u32_at(s, p) > MAX_COUNT {
        Err(Error::LengthOverflow)
    } else {
        Ok((u32_at(s, p) as nat, p + 4))
    }
}

/// The number of bytes that one number of the kind takes; zero for the kinds
/// that are no single number.
pub open spec fn leaf_width(tag: Tag) -> int {
    match tag {
        Tag::Byte => 1,
        Tag::Short => 2,
        Tag::Int => 4,
        Tag::Long => 8,
        Tag::Float => 4,
        Tag::Double => 8,
        _ => 0,
    }
}

/// The number of the kind whose bytes stand at `p`.
pub open spec fn leaf_at(tag: Tag, s: Seq<u8>, p: int) -> Tree {
    match tag {
        Tag::Short => Tree::Short(u16_at(s, p) as i16),
        Tag::Int => Tree::Int(u32_at(s, p) as i32),
        Tag::Long => Tree::Long(u64_at(s, p) as i64),
        Tag::Float => Tree::Float(u32_at(s, p)),
        Tag::Double => Tree::Double(u64_at(s, p)),
        _ => Tree::Byte(s[p] as i8),
    }
}

/// One number of the kind at `p`.
pub open spec fn parse_leaf(tag: Tag, s: Seq<u8>, p: int) -> Result<(Tree, int), Error> {
    if has_bytes(s, p, leaf_width(tag)) {
        Ok((leaf_at(tag, s, p), p + leaf_width(tag)))
    } else {
        Err(Error::Io)
    }
}

/// `n` numbers of the kind from `p` on, added to those read before.
pub open spec fn parse_leaves(tag: Tag, s: Seq<u8>, p: int, n: nat, acc: Seq<Tree>) -> Result<
    (Seq<Tree>, int),
    Error,
>
    decreases n,
{
    if n == 0 {
        Ok((acc, p))
    } else {
        match parse_leaf(tag, s, p) {
            Err(e) => Err(e),
            Ok((t, q)) => parse_leaves(tag, s, q, (n - 1) as nat, acc.push(t)),
        }
    }
}

/// The payload of a value of the kind at `p`: the tree, and the position
/// after it.
///
/// An array is a count and that many numbers. A list is the tag of its
/// elements, a count and that many payloads; a list of the tag `End` has no
/// elements. A compound is entries up to an `End` byte. `End` itself is the
/// tag of no value and has no payload.
pub open spec fn parse_payload(tag: Tag, s: Seq<u8>, p: int) -> Result<(Tree, int), Error>
    decreases s.len() - p, 2nat, 0nat,
{
    if p < 0 || p > s.len() {
        Err(Error::Io)
    } else {
        match tag {
            Tag::End => Err(Error::InvalidTag(0)),
            Tag::ByteArray => match parse_count(s, p) {
                Err(e) => Err(e),
                Ok((n, q)) => match parse_leaves(Tag::Byte, s, q, n, Seq::empty()) {
                    Err(e) => Err(e),
                    Ok((items, r)) => Ok((Tree::ByteArray(bytes_of(items)), r)),
                },
            },
            Tag::String => match parse_string(s, p) {
                Err(e) => Err(e),
                Ok((chars, q)) => Ok((Tree::String(chars), q)),
            },
            Tag::List => if !has_bytes(s, p, 1) {
                Err(Error::Io)
            } else {
                match Tag::of_byte(s[p]) {
                    None => Err(Error::InvalidTag(s[p])),
                    Some(of) => match parse_count(s, p + 1) {
                        Err(e) => Err(e),
                        Ok((n, q)) => if of == Tag::End && n > 0 {
                            Err(Error::InvalidTag(0))
                        } else {
                            match parse_items(of, s, q, n, Seq::empty()) {
                                Err(e) => Err(e),
                                Ok((items, r)) => Ok((Tree::List(of, items), r)),
                            }
                        },
                    },
                }
            },
            Tag::Compound => match parse_entries(s, p, Seq::empty()) {
                Err(e) => Err(e),
                Ok((entries, q)) => Ok((Tree::Compound(entries), q)),
            },
            Tag::IntArray => match parse_count(s, p) {
                Err(e) => Err(e),
                Ok((n, q)) => match parse_leaves(Tag::Int, s, q, n, Seq::empty()) {
                    Err(e) => Err(e),
                    Ok((items, r)) => Ok((Tree::IntArray(ints_of(items)), r)),
                },
            },
            Tag::LongArray => match parse_count(s, p) {
                Err(e) => Err(e),
                Ok((n, q)) => match parse_leaves(Tag::Long, s, q, n, Seq::empty()) {
                    Err(e) => Err(e),
                    Ok((items, r)) => Ok((Tree::LongArray(longs_of(items)), r)),
                },
            },
            _ => parse_leaf(tag, s, p),
        }
    }
}

/// `n` payloads of the kind from `p` on, added to those read before.
///
/// Every payload takes at least one byte and ends within `s`, as
/// `lemma_parse_sound` proves; the test on the position after a payload only
/// shows that to the termination check, and never fails.
pub open spec fn parse_items(tag: Tag, s: Seq<u8>, p: int, n: nat, acc: Seq<Tree>) -> Result<
    (Seq<Tree>, int),
    Error,
>
    decreases s.len() - p, 3nat, n,
{
    if n == 0 {
        Ok((acc, p))
    } else if p < 0 || p > s.len() {
        Err(Error::Io)
    } else {
        match parse_payload(tag, s, p) {
            Err(e) => Err(e),
            Ok((t, q)) => if q <= p || q > s.len() {
                Err(Error::Io)
            } else {
                parse_items(tag, s, q, (n - 1) as nat, acc.push(t))
            },
        }
    }
}

/// The entries of a compound from `p` on, put into those read before: a tag
/// byte, a key and a payload each, up to the byte zero. An entry whose key was
/// read before replaces the value under that key. The test on the position
/// after an entry never fails; it is there for the termination check.
pub open spec fn parse_entries(s: Seq<u8>, p: int, acc: Entries) -> Result<(Entries, int), Error>
    decreases s.len() - p, 1nat, 0nat,
{
    if !has_bytes(s, p, 1) {
        Err(Error::Io)
    } else if s[p] == 0 {
        Ok((acc, p + 1))
    } else {
        match Tag::of_byte(s[p]) {
            None => Err(Error::InvalidTag(s[p])),
            Some(tag) => match parse_string(s, p + 1) {
                Err(e) => Err(e),
                Ok((key, q)) => match parse_payload(tag, s, q) {
                    Err(e) => Err(e),
                    Ok((tree, r)) => if r <= p || r > s.len() {
                        Err(Error::Io)
                    } else {
                        parse_entries(s, r, put(acc, key, tree))
                    },
                },
            },
        }
    }
}

/// A whole stream: the tag byte of the root, which must be that of a
/// compound, the name of the root where the stream carries one, and the
/// payload of the root. Gives the name, the root and the position after it.
pub open spec fn parse_stream(s: Seq<u8>, named: bool) -> Result<(Seq<char>, Tree, int), Error> {
    if s.len() == 0 {
        Err(Error::Io)
    } else if s[0] != Tag::Compound.byte() {
        Err(Error::NonCompoundRoot(s[0]))
    } else {
        let name = if named {
            parse_string(s, 1)
        } else {
            Ok((Seq::empty(), 1int))
        };
        match name {
            Err(e) => Err(e),
            Ok((chars, q)) => match parse_payload(Tag::Compound, s, q) {
                Err(e) => Err(e),
                Ok((root, r)) => Ok((chars, root, r)),
            },
        }
    }
}

/// For numbers, reading payloads is reading numbers.
pub proof fn lemma_items_are_leaves(tag: Tag, s: Seq<u8>, p: int, n: nat, acc: Seq<Tree>)
    requires
        tag.is_leaf(),
        0 <= p <= s.len(),
    ensures
        parse_items(tag, s, p, n, acc) == parse_leaves(tag, s, p, n, acc),
    decreases n,
{
    if n > 0 {
        assert(parse_payload(tag, s, p) == parse_leaf(tag, s, p));
        if has_bytes(s, p, leaf_width(tag)) {
            let q = p + leaf_width(tag);
            lemma_items_are_leaves(tag, s, q, (n - 1) as nat, acc.push(leaf_at(tag, s, p)));
        }
    }
}

} // verus!
