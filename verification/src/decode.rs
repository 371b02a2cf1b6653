//! The binary reader: the bytes of a source to the tree that they hold.

use crate::error::Error;
use crate::parse::{
    has_bytes, lemma_items_are_leaves, parse_count, parse_entries, parse_items, parse_leaves,
    parse_payload, parse_stream, parse_string, u16_at, u32_at, u64_at,
};
use crate::tag::Tag;
use crate::tree::{
    bytes_as_items, bytes_of, doubles_as_items, floats_as_items, ints_as_items, ints_of,
    longs_as_items, longs_of, shorts_as_items, Tree,
};
use crate::value::{list_items, Compound, List, Value};
use crate::wire::MAX_COUNT;
use vstd::prelude::*;
use vstd::utf8::{encode_utf8, encode_utf8_decode_utf8, valid_utf8};

verus! {

/// `core::str::from_utf8`: the bytes as a string slice where they are
/// well-formed UTF-8, and nothing where they are not. The slice that comes
/// back is made of exactly those bytes.
#[verifier::external_body]
fn str_from_utf8(bytes: &[u8]) -> (r: Option<&str>)
    ensures
        r is Some <==> valid_utf8(bytes@),
        r matches Some(s) ==> encode_utf8(s@) == bytes@,
{
    core::str::from_utf8(bytes).ok()
}

/// Whether `n` bytes stand in the source from `pos` on.
fn holds(src: &[u8], pos: usize, n: usize) -> (b: bool)
    ensures
        b == has_bytes(src@, pos as int, n as int),
        src@.len() <= usize::MAX,
{
    pos <= src.len() && n <= src.len() - pos
}

/// The 16-bit number at `pos`.
fn read_u16(src: &[u8], pos: usize) -> (x: u16)
    requires
        has_bytes(src@, pos as int, 2),
    ensures
        x == u16_at(src@, pos as int),
{
    ((src[pos] as u16) << 8) | (src[pos + 1] as u16)
}

/// The 32-bit number at `pos`.
fn read_u32(src: &[u8], pos: usize) -> (x: u32)
    requires
        has_bytes(src@, pos as int, 4),
    ensures
        x == u32_at(src@, pos as int),
{
    ((src[pos] as u32) << 24) | ((src[pos + 1] as u32) << 16) | ((src[pos + 2] as u32) << 8) | (
    src[pos + 3] as u32)
}

/// The 64-bit number at `pos`.
fn read_u64(src: &[u8], pos: usize) -> (x: u64)
    requires
        has_bytes(src@, pos as int, 8),
    ensures
        x == u64_at(src@, pos as int),
{
    ((src[pos] as u64) << 56) | ((src[pos + 1] as u64) << 48) | ((src[pos + 2] as u64) << 40) | ((
    src[pos + 3] as u64) << 32) | ((src[pos + 4] as u64) << 24) | ((src[pos + 5] as u64) << 16)
        | ((src[pos + 6] as u64) << 8) | (src[pos + 7] as u64)
}

/// Reads a string at `pos`: its length in bytes, then its UTF-8 bytes.
pub fn read_string(src: &[u8], pos: usize) -> (r: Result<(String, usize), Error>)
    ensures
        match parse_string(src@, pos as int) {
            Ok((chars, q)) => r matches Ok((s, end)) && s@ == chars && end == q && pos + 2 <= end
                <= src.len(),
            Err(e) => r matches Err(x) && x == e,
        },
{
    if !holds(src, pos, 2) {
        return Err(Error::Io);
    }
    let n = read_u16(src, pos) as usize;
    let start = pos + 2;
    if !holds(src, start, n) {
        return Err(Error::Io);
    }
    let bytes = vstd::slice::slice_subrange(src, start, start + n);
    match str_from_utf8(bytes) {
        None => Err(Error::InvalidString),
        Some(s) => {
            proof {
                encode_utf8_decode_utf8(s@);
            }
            Ok((s.to_owned(), start + n))
        },
    }
}

/// Reads a count at `pos`: four bytes, refused where they say a negative
/// number.
pub fn read_count(src: &[u8], pos: usize) -> (r: Result<(usize, usize), Error>)
    ensures
        match parse_count(src@, pos as int) {
            Ok((n, q)) => r matches Ok((count, end)) && count == n && end == q && end == pos + 4
                && end <= src.len(),
            Err(e) => r matches Err(x) && x == e,
        },
{
    if !holds(src, pos, 4) {
        return Err(Error::Io);
    }
    let n = read_u32(src, pos);
    if n > MAX_COUNT as u32 {
        return Err(Error::LengthOverflow);
    }
    Ok((n as usize, pos + 4))
}

/// Reads `n` signed bytes from `pos` on.
pub fn read_bytes(src: &[u8], pos: usize, n: usize) -> (r: Result<(Vec<i8>, usize), Error>)
    ensures
        match parse_leaves(Tag::Byte, src@, pos as int, n as nat, Seq::empty()) {
            Ok((items, q)) => r matches Ok((v, end)) && bytes_as_items(v@) == items && end == q
                && pos <= end && (pos <= src.len() ==> end <= src.len()),
            Err(e) => r matches Err(x) && x == e,
        },
{
    let mut v: Vec<i8> = Vec::new();
    let mut p = pos;
    let mut i: usize = 0;
    assert(bytes_as_items(v@) =~= Seq::empty());
    while i < n
        invariant
            i <= n,
            pos <= p,
            pos <= src.len() ==> p <= src.len(),
            parse_leaves(Tag::Byte, src@, pos as int, n as nat, Seq::empty()) == parse_leaves(
                Tag::Byte,
                src@,
                p as int,
                (n - i) as nat,
                bytes_as_items(v@),
            ),
        decreases n - i,
    {
        if !holds(src, p, 1) {
            return Err(Error::Io);
        }
        let x = #[verifier::truncate] (src[p] as i8);
        let ghost before = v@;
        v.push(x);
        assert(bytes_as_items(v@) =~= bytes_as_items(before).push(Tree::Byte(x)));
        p += 1;
        i += 1;
    }
    Ok((v, p))
}

/// Reads `n` 16-bit numbers from `pos` on.
pub fn read_shorts(src: &[u8], pos: usize, n: usize) -> (r: Result<(Vec<i16>, usize), Error>)
    ensures
        match parse_leaves(Tag::Short, src@, pos as int, n as nat, Seq::empty()) {
            Ok((items, q)) => r matches Ok((v, end)) && shorts_as_items(v@) == items && end == q
                && pos <= end && (pos <= src.len() ==> end <= src.len()),
            Err(e) => r matches Err(x) && x == e,
        },
{
    let mut v: Vec<i16> = Vec::new();
    let mut p = pos;
    let mut i: usize = 0;
    assert(shorts_as_items(v@) =~= Seq::empty());
    while i < n
        invariant
            i <= n,
            pos <= p,
            pos <= src.len() ==> p <= src.len(),
            parse_leaves(Tag::Short, src@, pos as int, n as nat, Seq::empty()) == parse_leaves(
                Tag::Short,
                src@,
                p as int,
                (n - i) as nat,
                shorts_as_items(v@),
            ),
        decreases n - i,
    {
        if !holds(src, p, 2) {
            return Err(Error::Io);
        }
        let x = #[verifier::truncate] (read_u16(src, p) as i16);
        let ghost before = v@;
        v.push(x);
        assert(shorts_as_items(v@) =~= shorts_as_items(before).push(Tree::Short(x)));
        p += 2;
        i += 1;
    }
    Ok((v, p))
}

/// Reads `n` 32-bit numbers from `pos` on.
pub fn read_ints(src: &[u8], pos: usize, n: usize) -> (r: Result<(Vec<i32>, usize), Error>)
    ensures
        match parse_leaves(Tag::Int, src@, pos as int, n as nat, Seq::empty()) {
            Ok((items, q)) => r matches Ok((v, end)) && ints_as_items(v@) == items && end == q
                && pos <= end && (pos <= src.len() ==> end <= src.len()),
            Err(e) => r matches Err(x) && x == e,
        },
{
    let mut v: Vec<i32> = Vec::new();
    let mut p = pos;
    let mut i: usize = 0;
    assert(ints_as_items(v@) =~= Seq::empty());
    while i < n
        invariant
            i <= n,
            pos <= p,
            pos <= src.len() ==> p <= src.len(),
            parse_leaves(Tag::Int, src@, pos as int, n as nat, Seq::empty()) == parse_leaves(
                Tag::Int,
                src@,
                p as int,
                (n - i) as nat,
                ints_as_items(v@),
            ),
        decreases n - i,
    {
        if !holds(src, p, 4) {
            return Err(Error::Io);
        }
        let x = #[verifier::truncate] (read_u32(src, p) as i32);
        let ghost before = v@;
        v.push(x);
        assert(ints_as_items(v@) =~= ints_as_items(before).push(Tree::Int(x)));
        p += 4;
        i += 1;
    }
    Ok((v, p))
}

/// Reads `n` 64-bit numbers from `pos` on.
pub fn read_longs(src: &[u8], pos: usize, n: usize) -> (r: Result<(Vec<i64>, usize), Error>)
    ensures
        match parse_leaves(Tag::Long, src@, pos as int, n as nat, Seq::empty()) {
            Ok((items, q)) => r matches Ok((v, end)) && longs_as_items(v@) == items && end == q
                && pos <= end && (pos <= src.len() ==> end <= src.len()),
            Err(e) => r matches Err(x) && x == e,
        },
{
    let mut v: Vec<i64> = Vec::new();
    let mut p = pos;
    let mut i: usize = 0;
    assert(longs_as_items(v@) =~= Seq::empty());
    while i < n
        invariant
            i <= n,
            pos <= p,
            pos <= src.len() ==> p <= src.len(),
            parse_leaves(Tag::Long, src@, pos as int, n as nat, Seq::empty()) == parse_leaves(
                Tag::Long,
                src@,
                p as int,
                (n - i) as nat,
                longs_as_items(v@),
            ),
        decreases n - i,
    {
        if !holds(src, p, 8) {
            return Err(Error::Io);
        }
        let x = #[verifier::truncate] (read_u64(src, p) as i64);
        let ghost before = v@;
        v.push(x);
        assert(longs_as_items(v@) =~= longs_as_items(before).push(Tree::Long(x)));
        p += 8;
        i += 1;
    }
    Ok((v, p))
}

/// Reads `n` 32-bit float patterns from `pos` on.
pub fn read_floats(src: &[u8], pos: usize, n: usize) -> (r: Result<(Vec<u32>, usize), Error>)
    ensures
        match parse_leaves(Tag::Float, src@, pos as int, n as nat, Seq::empty()) {
            Ok((items, q)) => r matches Ok((v, end)) && floats_as_items(v@) == items && end == q
                && pos <= end && (pos <= src.len() ==> end <= src.len()),
            Err(e) => r matches Err(x) && x == e,
        },
{
    let mut v: Vec<u32> = Vec::new();
    let mut p = pos;
    let mut i: usize = 0;
    assert(floats_as_items(v@) =~= Seq::empty());
    while i < n
        invariant
            i <= n,
            pos <= p,
            pos <= src.len() ==> p <= src.len(),
            parse_leaves(Tag::Float, src@, pos as int, n as nat, Seq::empty()) == parse_leaves(
                Tag::Float,
                src@,
                p as int,
                (n - i) as nat,
                floats_as_items(v@),
            ),
        decreases n - i,
    {
        if !holds(src, p, 4) {
            return Err(Error::Io);
        }
        let x = read_u32(src, p);
        let ghost before = v@;
        v.push(x);
        assert(floats_as_items(v@) =~= floats_as_items(before).push(Tree::Float(x)));
        p += 4;
        i += 1;
    }
    Ok((v, p))
}

/// Reads `n` 64-bit float patterns from `pos` on.
pub fn read_doubles(src: &[u8], pos: usize, n: usize) -> (r: Result<(Vec<u64>, usize), Error>)
    ensures
        match parse_leaves(Tag::Double, src@, pos as int, n as nat, Seq::empty()) {
            Ok((items, q)) => r matches Ok((v, end)) && doubles_as_items(v@) == items && end == q
                && pos <= end && (pos <= src.len() ==> end <= src.len()),
            Err(e) => r matches Err(x) && x == e,
        },
{
    let mut v: Vec<u64> = Vec::new();
    let mut p = pos;
    let mut i: usize = 0;
    assert(doubles_as_items(v@) =~= Seq::empty());
    while i < n
        invariant
            i <= n,
            pos <= p,
            pos <= src.len() ==> p <= src.len(),
            parse_leaves(Tag::Double, src@, pos as int, n as nat, Seq::empty()) == parse_leaves(
                Tag::Double,
                src@,
                p as int,
                (n - i) as nat,
                doubles_as_items(v@),
            ),
        decreases n - i,
    {
        if !holds(src, p, 8) {
            return Err(Error::Io);
        }
        let x = read_u64(src, p);
        let ghost before = v@;
        v.push(x);
        assert(doubles_as_items(v@) =~= doubles_as_items(before).push(Tree::Double(x)));
        p += 8;
        i += 1;
    }
    Ok((v, p))
}

/// Reads a byte array at `pos`: its count, then its bytes.
pub fn read_byte_array(src: &[u8], pos: usize) -> (r: Result<(Vec<i8>, usize), Error>)
    ensures
        match parse_payload(Tag::ByteArray, src@, pos as int) {
            Ok((tree, q)) => r matches Ok((v, end)) && Tree::ByteArray(v@) == tree && end == q
                && pos < end <= src.len(),
            Err(e) => r matches Err(x) && x == e,
        },
{
    if pos > src.len() {
        return Err(Error::Io);
    }
    match read_count(src, pos) {
        Err(e) => Err(e),
        Ok((n, q)) => match read_bytes(src, q, n) {
            Err(e) => Err(e),
            Ok((v, end)) => {
                assert(bytes_of(bytes_as_items(v@)) =~= v@);
                Ok((v, end))
            },
        },
    }
}

/// Reads an int array at `pos`: its count, then its numbers.
pub fn read_int_array(src: &[u8], pos: usize) -> (r: Result<(Vec<i32>, usize), Error>)
    ensures
        match parse_payload(Tag::IntArray, src@, pos as int) {
            Ok((tree, q)) => r matches Ok((v, end)) && Tree::IntArray(v@) == tree && end == q
                && pos < end <= src.len(),
            Err(e) => r matches Err(x) && x == e,
        },
{
    if pos > src.len() {
        return Err(Error::Io);
    }
    match read_count(src, pos) {
        Err(e) => Err(e),
        Ok((n, q)) => match read_ints(src, q, n) {
            Err(e) => Err(e),
            Ok((v, end)) => {
                assert(ints_of(ints_as_items(v@)) =~= v@);
                Ok((v, end))
            },
        },
    }
}

/// Reads a long array at `pos`: its count, then its numbers.
pub fn read_long_array(src: &[u8], pos: usize) -> (r: Result<(Vec<i64>, usize), Error>)
    ensures
        match parse_payload(Tag::LongArray, src@, pos as int) {
            Ok((tree, q)) => r matches Ok((v, end)) && Tree::LongArray(v@) == tree && end == q
                && pos < end <= src.len(),
            Err(e) => r matches Err(x) && x == e,
        },
{
    if pos > src.len() {
        return Err(Error::Io);
    }
    match read_count(src, pos) {
        Err(e) => Err(e),
        Ok((n, q)) => match read_longs(src, q, n) {
            Err(e) => Err(e),
            Ok((v, end)) => {
                assert(longs_of(longs_as_items(v@)) =~= v@);
                Ok((v, end))
            },
        },
    }
}

/// The list that a run of elements of one tag makes, or the error that
/// stopped the reading of them.
pub open spec fn list_of(of: Tag, items: Result<(Seq<Tree>, int), Error>) -> Result<
    (Tree, int),
    Error,
> {
    match items {
        Err(e) => Err(e),
        Ok((items, end)) => Ok((Tree::List(of, items), end)),
    }
}

/// Reads the payload of a string value at `pos`.
fn read_string_payload(src: &[u8], pos: usize) -> (r: Result<(String, usize), Error>)
    ensures
        match parse_payload(Tag::String, src@, pos as int) {
            Ok((tree, q)) => r matches Ok((s, end)) && Tree::String(s@) == tree && end == q
                && pos < end <= src.len(),
            Err(e) => r matches Err(x) && x == e,
        },
{
    if pos > src.len() {
        return Err(Error::Io);
    }
    read_string(src, pos)
}

/// Reads the payload of a value of the kind `tag` at `pos`, and says where it
/// ends.
pub fn read_payload(tag: Tag, src: &[u8], pos: usize) -> (r: Result<(Value, usize), Error>)
    ensures
        match parse_payload(tag, src@, pos as int) {
            Ok((tree, q)) => r matches Ok((v, end)) && v@ == tree && end == q && pos < end
                <= src.len(),
            Err(e) => r matches Err(x) && x == e,
        },
    decreases src@.len() - pos, 3nat,
{
    if pos > src.len() {
        return Err(Error::Io);
    }
    match tag {
        Tag::End => Err(Error::InvalidTag(0)),
        Tag::Byte => {
            if !holds(src, pos, 1) {
                return Err(Error::Io);
            }
            Ok((Value::Byte(#[verifier::truncate] (src[pos] as i8)), pos + 1))
        },
        Tag::Short => {
            if !holds(src, pos, 2) {
                return Err(Error::Io);
            }
            Ok((Value::Short(#[verifier::truncate] (read_u16(src, pos) as i16)), pos + 2))
        },
        Tag::Int => {
            if !holds(src, pos, 4) {
                return Err(Error::Io);
            }
            Ok((Value::Int(#[verifier::truncate] (read_u32(src, pos) as i32)), pos + 4))
        },
        Tag::Long => {
            if !holds(src, pos, 8) {
                return Err(Error::Io);
            }
            Ok((Value::Long(#[verifier::truncate] (read_u64(src, pos) as i64)), pos + 8))
        },
        Tag::Float => {
            if !holds(src, pos, 4) {
                return Err(Error::Io);
            }
            Ok((Value::Float(read_u32(src, pos)), pos + 4))
        },
        Tag::Double => {
            if !holds(src, pos, 8) {
                return Err(Error::Io);
            }
            Ok((Value::Double(read_u64(src, pos)), pos + 8))
        },
        Tag::ByteArray => match read_byte_array(src, pos) {
            Err(e) => Err(e),
            Ok((v, end)) => Ok((Value::ByteArray(v), end)),
        },
        Tag::String => match read_string_payload(src, pos) {
            Err(e) => Err(e),
            Ok((s, end)) => Ok((Value::String(s), end)),
        },
        Tag::List => match read_list(src, pos) {
            Err(e) => Err(e),
            Ok((l, end)) => Ok((Value::List(l), end)),
        },
        Tag::Compound => match read_compound(src, pos) {
            Err(e) => Err(e),
            Ok((c, end)) => Ok((Value::Compound(c), end)),
        },
        Tag::IntArray => match read_int_array(src, pos) {
            Err(e) => Err(e),
            Ok((v, end)) => Ok((Value::IntArray(v), end)),
        },
        Tag::LongArray => match read_long_array(src, pos) {
            Err(e) => Err(e),
            Ok((v, end)) => Ok((Value::LongArray(v), end)),
        },
    }
}

/// Reads the payload of a list at `pos`: the tag of its elements, their
/// count, and that many payloads.
#[verifier::rlimit(50)]
pub fn read_list(src: &[u8], pos: usize) -> (r: Result<(List, usize), Error>)
    ensures
        match parse_payload(Tag::List, src@, pos as int) {
            Ok((tree, q)) => r matches Ok((l, end)) && l@ == tree && end == q && pos < end
                <= src.len(),
            Err(e) => r matches Err(x) && x == e,
        },
    decreases src@.len() - pos, 2nat,
{
    if !holds(src, pos, 1) {
        return Err(Error::Io);
    }
    let of = match Tag::from_u8(src[pos]) {
        None => {
            return Err(Error::InvalidTag(src[pos]));
        },
        Some(t) => t,
    };
    let (n, start) = match read_count(src, pos + 1) {
        Err(e) => {
            return Err(e);
        },
        Ok(x) => x,
    };
    match of {
        Tag::End => {
            if n > 0 {
                Err(Error::InvalidTag(0))
            } else {
                Ok((List::End, start))
            }
        },
        Tag::Byte => {
            proof {
                lemma_items_are_leaves(of, src@, start as int, n as nat, Seq::empty());
            }
            match read_bytes(src, start, n) {
                Err(e) => Err(e),
                Ok((v, end)) => Ok((List::Byte(v), end)),
            }
        },
        Tag::Short => {
            proof {
                lemma_items_are_leaves(of, src@, start as int, n as nat, Seq::empty());
            }
            match read_shorts(src, start, n) {
                Err(e) => Err(e),
                Ok((v, end)) => Ok((List::Short(v), end)),
            }
        },
        Tag::Int => {
            proof {
                lemma_items_are_leaves(of, src@, start as int, n as nat, Seq::empty());
            }
            match read_ints(src, start, n) {
                Err(e) => Err(e),
                Ok((v, end)) => Ok((List::Int(v), end)),
            }
        },
        Tag::Long => {
            proof {
                lemma_items_are_leaves(of, src@, start as int, n as nat, Seq::empty());
            }
            match read_longs(src, start, n) {
                Err(e) => Err(e),
                Ok((v, end)) => Ok((List::Long(v), end)),
            }
        },
        Tag::Float => {
            proof {
                lemma_items_are_leaves(of, src@, start as int, n as nat, Seq::empty());
            }
            match read_floats(src, start, n) {
                Err(e) => Err(e),
                Ok((v, end)) => Ok((List::Float(v), end)),
            }
        },
        Tag::Double => {
            proof {
                lemma_items_are_leaves(of, src@, start as int, n as nat, Seq::empty());
            }
            match read_doubles(src, start, n) {
                Err(e) => Err(e),
                Ok((v, end)) => Ok((List::Double(v), end)),
            }
        },
        Tag::ByteArray => {
            let mut v = Vec::new();
            let mut p = start;
            let mut i: usize = 0;
            assert(list_items(List::ByteArray(v)) =~= Seq::empty());
            while i < n
                invariant
                    i <= n,
                    pos < start <= p <= src.len(),
                    parse_payload(Tag::List, src@, pos as int) == list_of(
                        of,
                        parse_items(of, src@, start as int, n as nat, Seq::empty()),
                    ),
                    parse_items(of, src@, start as int, n as nat, Seq::empty()) == parse_items(
                        of,
                        src@,
                        p as int,
                        (n - i) as nat,
                        list_items(List::ByteArray(v)),
                    ),
                    of == Tag::ByteArray,
                decreases n - i,
            {
                match read_byte_array(src, p) {
                    Err(e) => {
                        return Err(e);
                    },
                    Ok((x, end)) => {
                        let ghost before = list_items(List::ByteArray(v));
                        let ghost tree = Tree::ByteArray(x@);
                        v.push(x);
                        assert(list_items(List::ByteArray(v)) =~= before.push(tree));
                        p = end;
                    },
                }
                i += 1;
            }
            Ok((List::ByteArray(v), p))
        },
        Tag::String => {
            let mut v = Vec::new();
            let mut p = start;
            let mut i: usize = 0;
            assert(list_items(List::String(v)) =~= Seq::empty());
            while i < n
                invariant
                    i <= n,
                    pos < start <= p <= src.len(),
                    parse_payload(Tag::List, src@, pos as int) == list_of(
                        of,
                        parse_items(of, src@, start as int, n as nat, Seq::empty()),
                    ),
                    parse_items(of, src@, start as int, n as nat, Seq::empty()) == parse_items(
                        of,
                        src@,
                        p as int,
                        (n - i) as nat,
                        list_items(List::String(v)),
                    ),
                    of == Tag::String,
                decreases n - i,
            {
                match read_string_payload(src, p) {
                    Err(e) => {
                        return Err(e);
                    },
                    Ok((x, end)) => {
                        let ghost before = list_items(List::String(v));
                        let ghost tree = Tree::String(x@);
                        v.push(x);
                        assert(list_items(List::String(v)) =~= before.push(tree));
                        p = end;
                    },
                }
                i += 1;
            }
            Ok((List::String(v), p))
        },
        Tag::List => {
            let mut v = Vec::new();
            let mut p = start;
            let mut i: usize = 0;
            assert(list_items(List::List(v)) =~= Seq::empty());
            while i < n
                invariant
                    i <= n,
                    pos < start <= p <= src.len(),
                    parse_payload(Tag::List, src@, pos as int) == list_of(
                        of,
                        parse_items(of, src@, start as int, n as nat, Seq::empty()),
                    ),
                    parse_items(of, src@, start as int, n as nat, Seq::empty()) == parse_items(
                        of,
                        src@,
                        p as int,
                        (n - i) as nat,
                        list_items(List::List(v)),
                    ),
                    of == Tag::List,
                decreases n - i,
            {
                match read_list(src, p) {
                    Err(e) => {
                        return Err(e);
                    },
                    Ok((x, end)) => {
                        let ghost before = list_items(List::List(v));
                        let ghost tree = x@;
                        v.push(x);
                        assert(list_items(List::List(v)) =~= before.push(tree));
                        p = end;
                    },
                }
                i += 1;
            }
            Ok((List::List(v), p))
        },
        Tag::Compound => {
            let mut v = Vec::new();
            let mut p = start;
            let mut i: usize = 0;
            assert(list_items(List::Compound(v)) =~= Seq::empty());
            while i < n
                invariant
                    i <= n,
                    pos < start <= p <= src.len(),
                    parse_payload(Tag::List, src@, pos as int) == list_of(
                        of,
                        parse_items(of, src@, start as int, n as nat, Seq::empty()),
                    ),
                    parse_items(of, src@, start as int, n as nat, Seq::empty()) == parse_items(
                        of,
                        src@,
                        p as int,
                        (n - i) as nat,
                        list_items(List::Compound(v)),
                    ),
                    of == Tag::Compound,
                decreases n - i,
            {
                match read_compound(src, p) {
                    Err(e) => {
                        return Err(e);
                    },
                    Ok((x, end)) => {
                        let ghost before = list_items(List::Compound(v));
                        let ghost tree = Tree::Compound(x@);
                        v.push(x);
                        assert(list_items(List::Compound(v)) =~= before.push(tree));
                        p = end;
                    },
                }
                i += 1;
            }
            Ok((List::Compound(v), p))
        },
        Tag::IntArray => {
            let mut v = Vec::new();
            let mut p = start;
            let mut i: usize = 0;
            assert(list_items(List::IntArray(v)) =~= Seq::empty());
            while i < n
                invariant
                    i <= n,
                    pos < start <= p <= src.len(),
                    parse_payload(Tag::List, src@, pos as int) == list_of(
                        of,
                        parse_items(of, src@, start as int, n as nat, Seq::empty()),
                    ),
                    parse_items(of, src@, start as int, n as nat, Seq::empty()) == parse_items(
                        of,
                        src@,
                        p as int,
                        (n - i) as nat,
                        list_items(List::IntArray(v)),
                    ),
                    of == Tag::IntArray,
                decreases n - i,
            {
                match read_int_array(src, p) {
                    Err(e) => {
                        return Err(e);
                    },
                    Ok((x, end)) => {
                        let ghost before = list_items(List::IntArray(v));
                        let ghost tree = Tree::IntArray(x@);
                        v.push(x);
                        assert(list_items(List::IntArray(v)) =~= before.push(tree));
                        p = end;
                    },
                }
                i += 1;
            }
            Ok((List::IntArray(v), p))
        },
        Tag::LongArray => {
            let mut v = Vec::new();
            let mut p = start;
            let mut i: usize = 0;
            assert(list_items(List::LongArray(v)) =~= Seq::empty());
            while i < n
                invariant
                    i <= n,
                    pos < start <= p <= src.len(),
                    parse_payload(Tag::List, src@, pos as int) == list_of(
                        of,
                        parse_items(of, src@, start as int, n as nat, Seq::empty()),
                    ),
                    parse_items(of, src@, start as int, n as nat, Seq::empty()) == parse_items(
                        of,
                        src@,
                        p as int,
                        (n - i) as nat,
                        list_items(List::LongArray(v)),
                    ),
                    of == Tag::LongArray,
                decreases n - i,
            {
                match read_long_array(src, p) {
                    Err(e) => {
                        return Err(e);
                    },
                    Ok((x, end)) => {
                        let ghost before = list_items(List::LongArray(v));
                        let ghost tree = Tree::LongArray(x@);
                        v.push(x);
                        assert(list_items(List::LongArray(v)) =~= before.push(tree));
                        p = end;
                    },
                }
                i += 1;
            }
            Ok((List::LongArray(v), p))
        },
    }
}

/// Reads the payload of a compound at `pos`: entries up to the `End` byte.
/// An entry under a key that was read before replaces the value under it.
pub fn read_compound(src: &[u8], pos: usize) -> (r: Result<(Compound, usize), Error>)
    ensures
        match parse_payload(Tag::Compound, src@, pos as int) {
            Ok((tree, q)) => r matches Ok((c, end)) && Tree::Compound(c@) == tree && end == q
                && pos < end <= src.len(),
            Err(e) => r matches Err(x) && x == e,
        },
    decreases src@.len() - pos, 1nat,
{
    if pos > src.len() {
        return Err(Error::Io);
    }
    let mut c = Compound::new();
    let mut p = pos;
    loop
        invariant
            pos <= p <= src.len(),
            parse_entries(src@, pos as int, Seq::empty()) == parse_entries(src@, p as int, c@),
        decreases src.len() - p,
    {
        if !holds(src, p, 1) {
            return Err(Error::Io);
        }
        let b = src[p];
        if b == 0 {
            return Ok((c, p + 1));
        }
        let tag = match Tag::from_u8(b) {
            None => {
                return Err(Error::InvalidTag(b));
            },
            Some(t) => t,
        };
        let (key, q) = match read_string(src, p + 1) {
            Err(e) => {
                return Err(e);
            },
            Ok(x) => x,
        };
        let (value, end) = match read_payload(tag, src, q) {
            Err(e) => {
                return Err(e);
            },
            Ok(x) => x,
        };
        c.insert(key, value);
        p = end;
    }
}

/// Reads a whole stream: the tag byte of the root, its name where the stream
/// carries one, and its payload. Gives the name, the root, and the number of
/// bytes that the stream took; what follows them is not looked at. A first
/// byte that is not the tag of a compound is refused at once.
pub fn decode(src: &[u8], named: bool) -> (r: Result<(String, Value, usize), Error>)
    ensures
        match parse_stream(src@, named) {
            Ok((name, root, q)) => r matches Ok((n, v, end)) && n@ == name && v@ == root && v@
                is Compound && end == q && end <= src.len(),
            Err(e) => r matches Err(x) && x == e,
        },
{
    if src.len() == 0 {
        return Err(Error::Io);
    }
    if src[0] != Tag::Compound.to_u8() {
        return Err(Error::NonCompoundRoot(src[0]));
    }
    let (name, start) = if named {
        match read_string(src, 1) {
            Err(e) => {
                return Err(e);
            },
            Ok(x) => x,
        }
    } else {
        (String::new(), 1)
    };
    match read_compound(src, start) {
        Err(e) => Err(e),
        Ok((c, end)) => Ok((name, Value::Compound(c), end)),
    }
}

} // verus!
