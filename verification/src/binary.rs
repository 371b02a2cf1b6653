//! The entry points of the binary format: structured values and trees to
//! bytes in a sink, and bytes of a source back.

use crate::bridge::{built, described, Decode, Encode};
use crate::decode::decode;
use crate::encode::encode;
use crate::error::Error;
use crate::parse::parse_stream;
use crate::value::Value;
use crate::wire::{stream, stream_fault};
use vstd::prelude::*;

verus! {

/// `r` and the sink after the call are what the writing of a structured
/// value gives, where the value is described as `d`: an error of the
/// description is the error of the call, and nothing is written; a tree is
/// written as a stream under the name, if it is a compound that can be
/// written, and refused with its fault if not; a tree that is no compound is
/// refused before anything is written.
pub open spec fn serialized(
    name: Seq<char>,
    before: Seq<u8>,
    after: Seq<u8>,
    d: Result<Value, Error>,
    r: Result<(), Error>,
) -> bool {
    match d {
        Err(e) => r == Err::<(), Error>(e) && after == before,
        Ok(root) => match stream_fault(Some(name), root@) {
            None => r is Ok && after == before + stream(name, root@),
            Some(e) => {
                &&& r == Err::<(), Error>(e)
                &&& before.is_prefix_of(after)
                &&& !(root@ is Compound) ==> after == before
            },
        },
    }
}

/// Writes streams whose root carries one fixed name.
pub struct Serializer {
    root_name: String,
}

impl Serializer {
    /// The name that the root of each stream is written under.
    pub closed spec fn name(&self) -> Seq<char> {
        self.root_name@
    }

    /// A writer of streams whose root is named `root_name`.
    pub fn new(root_name: &str) -> (s: Serializer)
        ensures
            s.name() == root_name@,
    {
        Serializer { root_name: root_name.to_owned() }
    }

    /// Appends the stream of a tree to the sink. The root must be a
    /// compound; a root of another kind is refused with `NonCompoundRoot`
    /// and nothing is written.
    pub fn serialize_value(&self, sink: &mut Vec<u8>, root: &Value) -> (r: Result<(), Error>)
        ensures
            match stream_fault(Some(self.name()), root@) {
                None => r is Ok && final(sink)@ == old(sink)@ + stream(self.name(), root@),
                Some(e) => r == Err::<(), Error>(e) && old(sink)@.is_prefix_of(final(sink)@),
            },
            !(root@ is Compound) ==> final(sink)@ == old(sink)@,
    {
        encode(sink, self.root_name.as_str(), root)
    }

    /// Appends the stream of a structured value to the sink: the value is
    /// described by its own `to_value`, and what that gives is written as
    /// `serialize_value` writes it.
    pub fn serialize<T: Encode>(&self, sink: &mut Vec<u8>, value: &T) -> (r: Result<(), Error>)
        ensures
            exists|d: Result<Value, Error>|
                described(value, d) && #[trigger] serialized(
                    self.name(),
                    old(sink)@,
                    final(sink)@,
                    d,
                    r,
                ),
    {
        let d = value.to_value();
        let r = match &d {
            Err(e) => Err(*e),
            Ok(root) => self.serialize_value(sink, root),
        };
        assert(serialized(self.name(), old(sink)@, sink@, d, r));
        r
    }
}

/// Reads streams, and keeps the name of the root of the last one read.
pub struct Deserializer {
    /// The name of the root of the stream that was read last; empty before
    /// the first, and where the streams carry no name.
    pub root_name: String,
    /// Whether the root of each stream carries a name.
    pub named: bool,
}

impl Deserializer {
    /// A reader of streams whose root carries a name, or, with `false`, of
    /// streams whose root carries none.
    pub fn new(named: bool) -> (d: Deserializer)
        ensures
            d.named == named,
            d.root_name@ == Seq::<char>::empty(),
    {
        Deserializer { root_name: String::new(), named }
    }

    /// Reads one stream from the front of the source as a tree, and moves the
    /// source past it. A source that does not begin with the tag of a
    /// compound is refused with `NonCompoundRoot`. After an error the source
    /// and the name stand as they did.
    pub fn deserialize_value(&mut self, source: &mut &[u8]) -> (r: Result<Value, Error>)
        ensures
            final(self).named == old(self).named,
            match parse_stream(old(source)@, old(self).named) {
                Ok((name, root, end)) => {
                    &&& r matches Ok(v) && v@ == root
                    &&& final(self).root_name@ == name
                    &&& final(source)@ == old(source)@.subrange(end, old(source)@.len() as int)
                },
                Err(e) => {
                    &&& r matches Err(x) && x == e
                    &&& final(self).root_name@ == old(self).root_name@
                    &&& final(source)@ == old(source)@
                },
            },
    {
        let src: &[u8] = *source;
        match decode(src, self.named) {
            Err(e) => Err(e),
            Ok((name, root, end)) => {
                self.root_name = name;
                *source = vstd::slice::slice_subrange(src, end, src.len());
                Ok(root)
            },
        }
    }

    /// Reads one stream from the front of the source as a structured value:
    /// the tree is read as `deserialize_value` reads it and handed to
    /// `T::from_value`, whose result is the result of the call. An error of
    /// the reading leaves the source and the name as they stood; once the
    /// tree is read the source is past it and the name is that of its root,
    /// whatever `T::from_value` makes of it.
    pub fn deserialize<T: Decode>(&mut self, source: &mut &[u8]) -> (r: Result<T, Error>)
        ensures
            final(self).named == old(self).named,
            match parse_stream(old(source)@, old(self).named) {
                Ok((name, root, end)) => {
                    &&& exists|v: Value| v@ == root && #[trigger] built(&v, r)
                    &&& final(self).root_name@ == name
                    &&& final(source)@ == old(source)@.subrange(end, old(source)@.len() as int)
                },
                Err(e) => {
                    &&& r matches Err(x) && x == e
                    &&& final(self).root_name@ == old(self).root_name@
                    &&& final(source)@ == old(source)@
                },
            },
    {
        match self.deserialize_value(source) {
            Err(e) => Err(e),
            Ok(root) => {
                let r = T::from_value(&root);
                assert(built(&root, r));
                r
            },
        }
    }
}

/// Appends the stream of a structured value to the sink, its root under the
/// empty name.
pub fn to_writer<T: Encode>(sink: &mut Vec<u8>, value: &T) -> (r: Result<(), Error>)
    ensures
        exists|d: Result<Value, Error>|
            described(value, d) && #[trigger] serialized(
                Seq::empty(),
                old(sink)@,
                final(sink)@,
                d,
                r,
            ),
{
    let serializer = Serializer::new("");
    proof {
        reveal_strlit("");
        assert(""@ =~= Seq::<char>::empty());
    }
    serializer.serialize(sink, value)
}

/// Reads one stream with a named root from the front of the source as a
/// structured value, and moves the source past it. The name is dropped.
pub fn from_reader<T: Decode>(source: &mut &[u8]) -> (r: Result<T, Error>)
    ensures
        match parse_stream(old(source)@, true) {
            Ok((_, root, end)) => {
                &&& exists|v: Value| v@ == root && #[trigger] built(&v, r)
                &&& final(source)@ == old(source)@.subrange(end, old(source)@.len() as int)
            },
            Err(e) => r matches Err(x) && x == e && final(source)@ == old(source)@,
        },
{
    let mut deserializer = Deserializer::new(true);
    deserializer.deserialize(source)
}

} // verus!
