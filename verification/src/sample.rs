//! A record with a field of every kind, bridged by hand: a worked example of
//! how a struct is written as a compound and read from one.
//!
//! A field is an entry under its name. A plain sequence is a list, a
//! sequence that is bridged to an array is that array, a nested record is a
//! nested compound, and an optional field that is absent has no entry.

use crate::bridge::{Decode, Encode};
use crate::error::Error;
use crate::laws::lemma_round_trip;
use crate::parse::parse_stream;
use crate::tag::Tag;
use crate::tree::{
    as_compound, field, has_key, ints_as_items, ints_of, keys_unique, lemma_position_unique, lookup,
    Entries, Tree,
};
use crate::typed::{elements_as, optional_field};
use crate::value::{copy_strings, list_items, Compound, List, Value};
use crate::wire::{stream, stream_fault};
use crate::equal::{same_bytes, same_ints, same_longs, same_strings};
use vstd::prelude::*;
use vstd::std_specs::cmp::PartialEqSpecImpl;

verus! {

/// The bit pattern of the 32-bit float 1e10.
pub const SAMPLE_FLOAT: u32 = 0x5015_02F9;

/// The bit pattern of the 64-bit float negative infinity.
pub const SAMPLE_DOUBLE: u64 = 0xFFF0_0000_0000_0000;

/// The nested record: one number of each width and two floats, each float
/// as its bit pattern.
#[derive(Clone, Copy, Debug, PartialEq, Eq, Structural)]
pub struct Inner {
    pub int: i32,
    pub long: i64,
    pub float: u32,
    pub double: u64,
}

/// The record.
#[derive(Debug)]
pub struct Struct {
    pub byte: i8,
    pub list_of_int: Vec<i32>,
    pub list_of_string: Vec<String>,
    pub string: String,
    pub inner: Inner,
    /// Written as an int array.
    pub int_array: Vec<i32>,
    /// Written as a byte array.
    pub byte_array: Vec<i8>,
    /// Written as a long array.
    pub long_array: Vec<i64>,
    pub some_int: Option<i32>,
    pub none_int: Option<i32>,
}

/// The record as a mathematical value.
pub struct StructView {
    pub byte: i8,
    pub list_of_int: Seq<i32>,
    pub list_of_string: Seq<Seq<char>>,
    pub string: Seq<char>,
    pub inner: Inner,
    pub int_array: Seq<i32>,
    pub byte_array: Seq<i8>,
    pub long_array: Seq<i64>,
    pub some_int: Option<i32>,
    pub none_int: Option<i32>,
}

impl View for Struct {
    type V = StructView;

    open spec fn view(&self) -> StructView {
        StructView {
            byte: self.byte,
            list_of_int: self.list_of_int@,
            list_of_string: Seq::new(
                self.list_of_string@.len(),
                |i: int| self.list_of_string@[i]@,
            ),
            string: self.string@,
            inner: self.inner,
            int_array: self.int_array@,
            byte_array: self.byte_array@,
            long_array: self.long_array@,
            some_int: self.some_int,
            none_int: self.none_int,
        }
    }
}

/// A run of strings as a run of trees.
pub open spec fn strings_as_items(strings: Seq<Seq<char>>) -> Seq<Tree> {
    Seq::new(strings.len(), |i: int| Tree::String(strings[i]))
}

/// The strings that a run of trees holds.
pub open spec fn strings_of(items: Seq<Tree>) -> Seq<Seq<char>> {
    Seq::new(
        items.len(),
        |i: int|
            match items[i] {
                Tree::String(s) => s,
                _ => Seq::empty(),
            },
    )
}

/// The entries of the nested record.
pub open spec fn inner_entries(inner: Inner) -> Entries {
    seq![
        ("int"@, Tree::Int(inner.int)),
        ("long"@, Tree::Long(inner.long)),
        ("float"@, Tree::Float(inner.float)),
        ("double"@, Tree::Double(inner.double)),
    ]
}

/// The entry of an optional number: none where the number is absent.
pub open spec fn optional_entry(key: Seq<char>, x: Option<i32>) -> Entries {
    match x {
        Some(n) => seq![(key, Tree::Int(n))],
        None => Seq::empty(),
    }
}

/// The entries of the record, in the order of its fields.
pub open spec fn struct_entries(v: StructView) -> Entries {
    seq![
        ("byte"@, Tree::Byte(v.byte)),
        ("list_of_int"@, Tree::List(Tag::Int, ints_as_items(v.list_of_int))),
        ("list_of_string"@, Tree::List(Tag::String, strings_as_items(v.list_of_string))),
        ("string"@, Tree::String(v.string)),
        ("inner"@, Tree::Compound(inner_entries(v.inner))),
        ("int_array"@, Tree::IntArray(v.int_array)),
        ("byte_array"@, Tree::ByteArray(v.byte_array)),
        ("long_array"@, Tree::LongArray(v.long_array)),
    ] + optional_entry("some_int"@, v.some_int) + optional_entry("none_int"@, v.none_int)
}

/// The tree that the record is written as.
pub open spec fn struct_tree(v: StructView) -> Tree {
    Tree::Compound(struct_entries(v))
}

/// The nested record that a tree is read as. Keys that the record does not
/// know are passed over.
pub open spec fn tree_inner(t: Tree) -> Result<Inner, Error> {
    match as_compound(t) {
        Err(e) => Err(e),
        Ok(entries) => {
            let a = field(entries, "int"@, Tag::Int);
            let b = field(entries, "long"@, Tag::Long);
            let c = field(entries, "float"@, Tag::Float);
            let d = field(entries, "double"@, Tag::Double);
            if a is Err {
                Err(a->Err_0)
            } else if b is Err {
                Err(b->Err_0)
            } else if c is Err {
                Err(c->Err_0)
            } else if d is Err {
                Err(d->Err_0)
            } else {
                Ok(
                    Inner {
                        int: a->Ok_0->Int_0,
                        long: b->Ok_0->Long_0,
                        float: c->Ok_0->Float_0,
                        double: d->Ok_0->Double_0,
                    },
                )
            }
        },
    }
}

/// The elements of the list under a key, asked for as elements of one tag.
pub open spec fn list_field(entries: Entries, key: Seq<char>, of: Tag) -> Result<Seq<Tree>, Error> {
    match field(entries, key, Tag::List) {
        Err(e) => Err(e),
        Ok(list) => elements_as(of, list),
    }
}

/// The record that a tree is read as: the fields are looked for in their
/// order, and the first that is missing or of another kind gives the error.
/// Keys that the record does not know are passed over.
pub open spec fn tree_struct(t: Tree) -> Result<StructView, Error> {
    match as_compound(t) {
        Err(e) => Err(e),
        Ok(entries) => {
            let byte = field(entries, "byte"@, Tag::Byte);
            let list_of_int = list_field(entries, "list_of_int"@, Tag::Int);
            let list_of_string = list_field(entries, "list_of_string"@, Tag::String);
            let string = field(entries, "string"@, Tag::String);
            let inner = match field(entries, "inner"@, Tag::Compound) {
                Err(e) => Err(e),
                Ok(tree) => tree_inner(tree),
            };
            let int_array = field(entries, "int_array"@, Tag::IntArray);
            let byte_array = field(entries, "byte_array"@, Tag::ByteArray);
            let long_array = field(entries, "long_array"@, Tag::LongArray);
            let some_int = optional_field(entries, "some_int"@, Tag::Int);
            let none_int = optional_field(entries, "none_int"@, Tag::Int);
            if byte is Err {
                Err(byte->Err_0)
            } else if list_of_int is Err {
                Err(list_of_int->Err_0)
            } else if list_of_string is Err {
                Err(list_of_string->Err_0)
            } else if string is Err {
                Err(string->Err_0)
            } else if inner is Err {
                Err(inner->Err_0)
            } else if int_array is Err {
                Err(int_array->Err_0)
            } else if byte_array is Err {
                Err(byte_array->Err_0)
            } else if long_array is Err {
                Err(long_array->Err_0)
            } else if some_int is Err {
                Err(some_int->Err_0)
            } else if none_int is Err {
                Err(none_int->Err_0)
            } else {
                Ok(
                    StructView {
                        byte: byte->Ok_0->Byte_0,
                        list_of_int: ints_of(list_of_int->Ok_0),
                        list_of_string: strings_of(list_of_string->Ok_0),
                        string: string->Ok_0->String_0,
                        inner: inner->Ok_0,
                        int_array: int_array->Ok_0->IntArray_0,
                        byte_array: byte_array->Ok_0->ByteArray_0,
                        long_array: long_array->Ok_0->LongArray_0,
                        some_int: match some_int->Ok_0 {
                            Some(t) => Some(t->Int_0),
                            None => None,
                        },
                        none_int: match none_int->Ok_0 {
                            Some(t) => Some(t->Int_0),
                            None => None,
                        },
                    },
                )
            }
        },
    }
}

/// The names of the fields differ from one another.
pub proof fn lemma_names_differ()
    ensures
        "byte"@ != "list_of_int"@,
        "byte"@ != "list_of_string"@,
        "byte"@ != "string"@,
        "byte"@ != "inner"@,
        "byte"@ != "int_array"@,
        "byte"@ != "byte_array"@,
        "byte"@ != "long_array"@,
        "byte"@ != "some_int"@,
        "byte"@ != "none_int"@,
        "list_of_int"@ != "list_of_string"@,
        "list_of_int"@ != "string"@,
        "list_of_int"@ != "inner"@,
        "list_of_int"@ != "int_array"@,
        "list_of_int"@ != "byte_array"@,
        "list_of_int"@ != "long_array"@,
        "list_of_int"@ != "some_int"@,
        "list_of_int"@ != "none_int"@,
        "list_of_string"@ != "string"@,
        "list_of_string"@ != "inner"@,
        "list_of_string"@ != "int_array"@,
        "list_of_string"@ != "byte_array"@,
        "list_of_string"@ != "long_array"@,
        "list_of_string"@ != "some_int"@,
        "list_of_string"@ != "none_int"@,
        "string"@ != "inner"@,
        "string"@ != "int_array"@,
        "string"@ != "byte_array"@,
        "string"@ != "long_array"@,
        "string"@ != "some_int"@,
        "string"@ != "none_int"@,
        "inner"@ != "int_array"@,
        "inner"@ != "byte_array"@,
        "inner"@ != "long_array"@,
        "inner"@ != "some_int"@,
        "inner"@ != "none_int"@,
        "int_array"@ != "byte_array"@,
        "int_array"@ != "long_array"@,
        "int_array"@ != "some_int"@,
        "int_array"@ != "none_int"@,
        "byte_array"@ != "long_array"@,
        "byte_array"@ != "some_int"@,
        "byte_array"@ != "none_int"@,
        "long_array"@ != "some_int"@,
        "long_array"@ != "none_int"@,
        "some_int"@ != "none_int"@,
        "int"@ != "long"@,
        "int"@ != "float"@,
        "int"@ != "double"@,
        "long"@ != "float"@,
        "long"@ != "double"@,
        "float"@ != "double"@,
{
    reveal_strlit("byte");
    reveal_strlit("list_of_int");
    reveal_strlit("list_of_string");
    reveal_strlit("string");
    reveal_strlit("inner");
    reveal_strlit("int_array");
    reveal_strlit("byte_array");
    reveal_strlit("long_array");
    reveal_strlit("some_int");
    reveal_strlit("none_int");
    reveal_strlit("int");
    reveal_strlit("long");
    reveal_strlit("float");
    reveal_strlit("double");
    assert("byte"@.len() == 4);
    assert("list_of_int"@.len() == 11);
    assert("list_of_string"@.len() == 14);
    assert("string"@.len() == 6);
    assert("inner"@.len() == 5);
    assert("int_array"@.len() == 9);
    assert("byte_array"@.len() == 10);
    assert("long_array"@.len() == 10);
    assert("some_int"@.len() == 8);
    assert("none_int"@.len() == 8);
    assert("int"@.len() == 3);
    assert("long"@.len() == 4);
    assert("float"@.len() == 5);
    assert("double"@.len() == 6);
    assert("byte_array"@[0] != "long_array"@[0]);
    assert("some_int"@[0] != "none_int"@[0]);
}

/// What is found under each name in the entries of the nested record.
pub proof fn lemma_inner_lookups(inner: Inner)
    ensures
        keys_unique(inner_entries(inner)),
        lookup(inner_entries(inner), "int"@) == Some(Tree::Int(inner.int)),
        lookup(inner_entries(inner), "long"@) == Some(Tree::Long(inner.long)),
        lookup(inner_entries(inner), "float"@) == Some(Tree::Float(inner.float)),
        lookup(inner_entries(inner), "double"@) == Some(Tree::Double(inner.double)),
{
    lemma_names_differ();
    let entries = inner_entries(inner);
    assert(entries[0].0 == "int"@ && entries[1].0 == "long"@ && entries[2].0 == "float"@
        && entries[3].0 == "double"@);
    assert(keys_unique(entries));
    lemma_position_unique(entries, "int"@, 0);
    lemma_position_unique(entries, "long"@, 1);
    lemma_position_unique(entries, "float"@, 2);
    lemma_position_unique(entries, "double"@, 3);
}

/// What is found under the name of an optional number.
pub open spec fn optional_tree(x: Option<i32>) -> Option<Tree> {
    match x {
        Some(n) => Some(Tree::Int(n)),
        None => None,
    }
}

/// What is found under each name in the entries of the record.
#[verifier::rlimit(50)]
pub proof fn lemma_struct_lookups(v: StructView)
    ensures
        keys_unique(struct_entries(v)),
        lookup(struct_entries(v), "byte"@) == Some(Tree::Byte(v.byte)),
        lookup(struct_entries(v), "list_of_int"@) == Some(
            Tree::List(Tag::Int, ints_as_items(v.list_of_int)),
        ),
        lookup(struct_entries(v), "list_of_string"@) == Some(
            Tree::List(Tag::String, strings_as_items(v.list_of_string)),
        ),
        lookup(struct_entries(v), "string"@) == Some(Tree::String(v.string)),
        lookup(struct_entries(v), "inner"@) == Some(Tree::Compound(inner_entries(v.inner))),
        lookup(struct_entries(v), "int_array"@) == Some(Tree::IntArray(v.int_array)),
        lookup(struct_entries(v), "byte_array"@) == Some(Tree::ByteArray(v.byte_array)),
        lookup(struct_entries(v), "long_array"@) == Some(Tree::LongArray(v.long_array)),
        lookup(struct_entries(v), "some_int"@) == optional_tree(v.some_int),
        lookup(struct_entries(v), "none_int"@) == optional_tree(v.none_int),
{
    lemma_names_differ();
    let entries = struct_entries(v);
    let some = optional_entry("some_int"@, v.some_int);
    let none = optional_entry("none_int"@, v.none_int);
    assert(entries.len() == 8 + some.len() + none.len());
    assert(entries[0].0 == "byte"@ && entries[1].0 == "list_of_int"@ && entries[2].0
        == "list_of_string"@ && entries[3].0 == "string"@);
    assert(entries[4].0 == "inner"@ && entries[5].0 == "int_array"@ && entries[6].0
        == "byte_array"@ && entries[7].0 == "long_array"@);
    if v.some_int is Some {
        assert(entries[8] == some[0]);
        if v.none_int is Some {
            assert(entries[9] == none[0]);
        }
    } else {
        if v.none_int is Some {
            assert(entries[8] == none[0]);
        }
    }
    assert(keys_unique(entries));
    lemma_position_unique(entries, "byte"@, 0);
    lemma_position_unique(entries, "list_of_int"@, 1);
    lemma_position_unique(entries, "list_of_string"@, 2);
    lemma_position_unique(entries, "string"@, 3);
    lemma_position_unique(entries, "inner"@, 4);
    lemma_position_unique(entries, "int_array"@, 5);
    lemma_position_unique(entries, "byte_array"@, 6);
    lemma_position_unique(entries, "long_array"@, 7);
    if v.some_int is Some {
        lemma_position_unique(entries, "some_int"@, 8);
        if v.none_int is Some {
            lemma_position_unique(entries, "none_int"@, 9);
        } else {
            assert(!has_key(entries, "none_int"@));
        }
    } else {
        assert(!has_key(entries, "some_int"@));
        if v.none_int is Some {
            lemma_position_unique(entries, "none_int"@, 8);
        } else {
            assert(!has_key(entries, "none_int"@));
        }
    }
}

/// The tree of a record is well-formed.
pub proof fn lemma_struct_well_formed(v: StructView)
    ensures
        struct_tree(v).well_formed(),
{
    lemma_struct_lookups(v);
    lemma_inner_lookups(v.inner);
    let entries = struct_entries(v);
    let inner = Tree::Compound(inner_entries(v.inner));
    assert(inner.well_formed()) by {
        assert forall|i: int| 0 <= i < inner_entries(v.inner).len() implies (
        #[trigger] inner_entries(v.inner)[i]).1.well_formed() by {}
    }
    let ints = ints_as_items(v.list_of_int);
    assert(Tree::List(Tag::Int, ints).well_formed()) by {
        assert forall|i: int| 0 <= i < ints.len() implies (#[trigger] ints[i]).tag() == Tag::Int
            && ints[i].well_formed() by {
            assert(ints[i] == Tree::Int(v.list_of_int[i]));
        }
    }
    let strings = strings_as_items(v.list_of_string);
    assert(Tree::List(Tag::String, strings).well_formed()) by {
        assert forall|i: int| 0 <= i < strings.len() implies (#[trigger] strings[i]).tag()
            == Tag::String && strings[i].well_formed() by {
            assert(strings[i] == Tree::String(v.list_of_string[i]));
        }
    }
    assert forall|i: int| 0 <= i < entries.len() implies (
    #[trigger] entries[i]).1.well_formed() by {
        if i >= 8 {
            assert(entries[i].1 is Int);
        }
    }
}

/// A nested record that is written as a tree and read again is the record.
pub proof fn lemma_inner_round_trip(inner: Inner)
    ensures
        tree_inner(Tree::Compound(inner_entries(inner))) == Ok::<Inner, Error>(inner),
{
    lemma_inner_lookups(inner);
}

/// A record that is written as a tree and read again is the record: every
/// field comes back, an absent field stays absent, and an array stays an
/// array.
pub proof fn lemma_struct_round_trip(v: StructView)
    ensures
        tree_struct(struct_tree(v)) == Ok::<StructView, Error>(v),
{
    lemma_struct_lookups(v);
    lemma_inner_round_trip(v.inner);
    let back = tree_struct(struct_tree(v));
    assert(ints_of(ints_as_items(v.list_of_int)) =~= v.list_of_int);
    assert(strings_of(strings_as_items(v.list_of_string)) =~= v.list_of_string);
    assert(back is Ok);
    assert(back->Ok_0.list_of_int == v.list_of_int);
    assert(back->Ok_0.list_of_string == v.list_of_string);
    assert(back->Ok_0.some_int == v.some_int);
    assert(back->Ok_0.none_int == v.none_int);
}

/// A record that is written as a stream under a name and read again is the
/// record, under the name, provided that its strings and sequences are short
/// enough to be written at all.
pub proof fn lemma_struct_stream_round_trip(name: Seq<char>, v: StructView, rest: Seq<u8>)
    requires
        stream_fault(Some(name), struct_tree(v)) is None,
    ensures
        parse_stream(stream(name, struct_tree(v)) + rest, true) matches Ok(
            (n, root, end),
        ) && n == name && end == stream(name, struct_tree(v)).len() && tree_struct(
            root,
        ) == Ok::<StructView, Error>(v),
{
    lemma_struct_well_formed(v);
    lemma_struct_round_trip(v);
    lemma_round_trip(name, struct_tree(v), rest);
}

impl Encode for Inner {
    fn to_value(&self) -> (r: Result<Value, Error>)
        ensures
            r matches Ok(v) && v@ == Tree::Compound(inner_entries(*self)),
    {
        let mut entries: Vec<(String, Value)> = Vec::new();
        entries.push(("int".to_owned(), Value::Int(self.int)));
        entries.push(("long".to_owned(), Value::Long(self.long)));
        entries.push(("float".to_owned(), Value::Float(self.float)));
        entries.push(("double".to_owned(), Value::Double(self.double)));
        proof {
            lemma_names_differ();
        }
        let c = Compound { entries };
        assert(c@ =~= inner_entries(*self));
        Ok(Value::Compound(c))
    }
}

impl Decode for Inner {
    fn from_value(value: &Value) -> (r: Result<Inner, Error>)
        ensures
            r == tree_inner(value@),
    {
        match value {
            Value::Compound(c) => {
                let a = match c.get_int("int") {
                    Err(e) => {
                        return Err(e);
                    },
                    Ok(x) => x,
                };
                let b = match c.get_long("long") {
                    Err(e) => {
                        return Err(e);
                    },
                    Ok(x) => x,
                };
                let f = match c.get_float("float") {
                    Err(e) => {
                        return Err(e);
                    },
                    Ok(x) => x,
                };
                let d = match c.get_double("double") {
                    Err(e) => {
                        return Err(e);
                    },
                    Ok(x) => x,
                };
                Ok(Inner { int: a, long: b, float: f, double: d })
            },
            _ => Err(Error::TypeMismatch { expected: Tag::Compound, found: value.tag() }),
        }
    }
}

impl Encode for Struct {
    #[verifier::rlimit(50)]
    fn to_value(&self) -> (r: Result<Value, Error>)
        ensures
            r matches Ok(v) && v@ == struct_tree(self@),
    {
        let inner = match self.inner.to_value() {
            Err(e) => {
                return Err(e);
            },
            Ok(v) => v,
        };
        let list_of_int = List::Int(vstd::slice::slice_to_vec(self.list_of_int.as_slice()));
        let list_of_string = List::String(copy_strings(&self.list_of_string));
        assert(list_items(list_of_string) =~= strings_as_items(self@.list_of_string));
        proof {
            lemma_names_differ();
        }
        let mut root = Compound::new();
        root.insert("byte".to_owned(), Value::Byte(self.byte));
        root.insert("list_of_int".to_owned(), Value::List(list_of_int));
        root.insert("list_of_string".to_owned(), Value::List(list_of_string));
        root.insert("string".to_owned(), Value::String(self.string.clone()));
        root.insert("inner".to_owned(), inner);
        root.insert(
            "int_array".to_owned(),
            Value::IntArray(vstd::slice::slice_to_vec(self.int_array.as_slice())),
        );
        root.insert(
            "byte_array".to_owned(),
            Value::ByteArray(vstd::slice::slice_to_vec(self.byte_array.as_slice())),
        );
        root.insert(
            "long_array".to_owned(),
            Value::LongArray(vstd::slice::slice_to_vec(self.long_array.as_slice())),
        );
        let ghost fixed = root@;
        assert(fixed =~= struct_entries(self@).take(8));
        if let Some(x) = self.some_int {
            root.insert("some_int".to_owned(), Value::Int(x));
        }
        let ghost with_first = root@;
        assert(with_first =~= fixed + optional_entry("some_int"@, self.some_int));
        if let Some(x) = self.none_int {
            root.insert("none_int".to_owned(), Value::Int(x));
        }
        assert(root@ =~= with_first + optional_entry("none_int"@, self.none_int));
        assert(root@ =~= struct_entries(self@));
        Ok(Value::Compound(root))
    }
}

impl Decode for Struct {
    #[verifier::rlimit(50)]
    fn from_value(value: &Value) -> (r: Result<Struct, Error>)
        ensures
            match tree_struct(value@) {
                Ok(v) => r matches Ok(s) && s@ == v,
                Err(e) => r matches Err(x) && x == e,
            },
    {
        let c = match value {
            Value::Compound(c) => c,
            _ => {
                return Err(Error::TypeMismatch { expected: Tag::Compound, found: value.tag() });
            },
        };
        let byte = match c.get_byte("byte") {
            Err(e) => {
                return Err(e);
            },
            Ok(x) => x,
        };
        let list_of_int = match c.get_list("list_of_int") {
            Err(e) => {
                return Err(e);
            },
            Ok(list) => match list.to_ints() {
                Err(e) => {
                    return Err(e);
                },
                Ok(v) => v,
            },
        };
        let list_of_string = match c.get_list("list_of_string") {
            Err(e) => {
                return Err(e);
            },
            Ok(list) => match list.to_strings() {
                Err(e) => {
                    return Err(e);
                },
                Ok(v) => v,
            },
        };
        let string = match c.get_string("string") {
            Err(e) => {
                return Err(e);
            },
            Ok(x) => x,
        };
        let inner = match c.field("inner", Tag::Compound) {
            Err(e) => {
                return Err(e);
            },
            Ok(v) => match Inner::from_value(v) {
                Err(e) => {
                    return Err(e);
                },
                Ok(x) => x,
            },
        };
        let int_array = match c.get_int_array("int_array") {
            Err(e) => {
                return Err(e);
            },
            Ok(x) => x,
        };
        let byte_array = match c.get_byte_array("byte_array") {
            Err(e) => {
                return Err(e);
            },
            Ok(x) => x,
        };
        let long_array = match c.get_long_array("long_array") {
            Err(e) => {
                return Err(e);
            },
            Ok(x) => x,
        };
        let some_int = match c.optional_field("some_int", Tag::Int) {
            Err(e) => {
                return Err(e);
            },
            Ok(Some(Value::Int(x))) => Some(*x),
            Ok(_) => None,
        };
        let none_int = match c.optional_field("none_int", Tag::Int) {
            Err(e) => {
                return Err(e);
            },
            Ok(Some(Value::Int(x))) => Some(*x),
            Ok(_) => None,
        };
        let s = Struct {
            byte,
            list_of_int,
            list_of_string,
            string,
            inner,
            int_array,
            byte_array,
            long_array,
            some_int,
            none_int,
        };
        proof {
            let want = tree_struct(value@)->Ok_0;
            assert(s@.list_of_int =~= want.list_of_int);
            assert(s@.list_of_string =~= want.list_of_string);
        }
        Ok(s)
    }
}

impl Struct {
    /// The record that `new` makes.
    pub open spec fn sample() -> StructView {
        StructView {
            byte: 123,
            list_of_int: seq![3i32, -7i32, 5i32],
            list_of_string: seq!["foo"@, "bar"@, "baz"@],
            string: "a\u{e9}\u{65e5}"@,
            inner: Inner {
                int: i32::MIN,
                long: i64::MAX,
                float: SAMPLE_FLOAT,
                double: SAMPLE_DOUBLE,
            },
            int_array: seq![5i32, -9i32, i32::MIN, 0i32, i32::MAX],
            byte_array: seq![0i8, 1i8, 2i8],
            long_array: seq![123i64, 456i64, 789i64],
            some_int: Some(321i32),
            none_int: None,
        }
    }

    /// A record with something in every field but the last.
    pub fn new() -> (s: Struct)
        ensures
            s@ == Struct::sample(),
    {
        let mut list_of_int: Vec<i32> = Vec::new();
        list_of_int.push(3);
        list_of_int.push(-7);
        list_of_int.push(5);
        let mut list_of_string: Vec<String> = Vec::new();
        list_of_string.push("foo".to_owned());
        list_of_string.push("bar".to_owned());
        list_of_string.push("baz".to_owned());
        let mut int_array: Vec<i32> = Vec::new();
        int_array.push(5);
        int_array.push(-9);
        int_array.push(i32::MIN);
        int_array.push(0);
        int_array.push(i32::MAX);
        let mut byte_array: Vec<i8> = Vec::new();
        byte_array.push(0);
        byte_array.push(1);
        byte_array.push(2);
        let mut long_array: Vec<i64> = Vec::new();
        long_array.push(123);
        long_array.push(456);
        long_array.push(789);
        let s = Struct {
            byte: 123,
            list_of_int,
            list_of_string,
            string: "a\u{e9}\u{65e5}".to_owned(),
            inner: Inner {
                int: i32::MIN,
                long: i64::MAX,
                float: SAMPLE_FLOAT,
                double: SAMPLE_DOUBLE,
            },
            int_array,
            byte_array,
            long_array,
            some_int: Some(321),
            none_int: None,
        };
        proof {
            let want = Struct::sample();
            assert(s@.list_of_int =~= want.list_of_int);
            assert(s@.list_of_string =~= want.list_of_string);
            assert(s@.int_array =~= want.int_array);
            assert(s@.byte_array =~= want.byte_array);
            assert(s@.long_array =~= want.long_array);
        }
        s
    }

    /// The tree that the record of `new` is written as, built entry by
    /// entry.
    pub fn value() -> (v: Value)
        ensures
            v@ == struct_tree(Struct::sample()),
    {
        let mut list_of_int: Vec<i32> = Vec::new();
        list_of_int.push(3);
        list_of_int.push(-7);
        list_of_int.push(5);
        let mut list_of_string: Vec<String> = Vec::new();
        list_of_string.push("foo".to_owned());
        list_of_string.push("bar".to_owned());
        list_of_string.push("baz".to_owned());
        let mut int_array: Vec<i32> = Vec::new();
        int_array.push(5);
        int_array.push(-9);
        int_array.push(i32::MIN);
        int_array.push(0);
        int_array.push(i32::MAX);
        let mut byte_array: Vec<i8> = Vec::new();
        byte_array.push(0);
        byte_array.push(1);
        byte_array.push(2);
        let mut long_array: Vec<i64> = Vec::new();
        long_array.push(123);
        long_array.push(456);
        long_array.push(789);
        let ghost want = Struct::sample();
        assert(list_of_int@ =~= want.list_of_int);
        assert(int_array@ =~= want.int_array);
        assert(byte_array@ =~= want.byte_array);
        assert(long_array@ =~= want.long_array);
        let strings = List::String(list_of_string);
        assert(list_items(strings) =~= strings_as_items(want.list_of_string));
        let mut inner = Compound::new();
        proof {
            lemma_names_differ();
        }
        inner.insert("int".to_owned(), Value::Int(i32::MIN));
        inner.insert("long".to_owned(), Value::Long(i64::MAX));
        inner.insert("float".to_owned(), Value::Float(SAMPLE_FLOAT));
        inner.insert("double".to_owned(), Value::Double(SAMPLE_DOUBLE));
        assert(inner@ =~= inner_entries(want.inner));
        let mut root = Compound::new();
        root.insert("byte".to_owned(), Value::Byte(123));
        root.insert("list_of_int".to_owned(), Value::List(List::Int(list_of_int)));
        root.insert("list_of_string".to_owned(), Value::List(strings));
        root.insert("string".to_owned(), Value::String("a\u{e9}\u{65e5}".to_owned()));
        root.insert("inner".to_owned(), Value::Compound(inner));
        root.insert("int_array".to_owned(), Value::IntArray(int_array));
        root.insert("byte_array".to_owned(), Value::ByteArray(byte_array));
        root.insert("long_array".to_owned(), Value::LongArray(long_array));
        root.insert("some_int".to_owned(), Value::Int(321));
        assert(root@ =~= struct_entries(want));
        Value::Compound(root)
    }
}

impl PartialEq for Struct {
    fn eq(&self, other: &Struct) -> (r: bool) {
        let r = self.byte == other.byte && same_ints(&self.list_of_int, &other.list_of_int)
            && same_strings(&self.list_of_string, &other.list_of_string) && self.string
            == other.string && self.inner == other.inner && same_ints(
            &self.int_array,
            &other.int_array,
        ) && same_bytes(&self.byte_array, &other.byte_array) && same_longs(
            &self.long_array,
            &other.long_array,
        ) && self.some_int == other.some_int && self.none_int == other.none_int;
        proof {
            let a = self@.list_of_string;
            let b = other@.list_of_string;
            if r {
                assert(a =~= b);
            }
            if a == b {
                assert(self.list_of_string@.len() == a.len());
                assert(other.list_of_string@.len() == b.len());
                assert forall|i: int| 0 <= i < a.len() implies (
                #[trigger] self.list_of_string@[i])@ == other.list_of_string@[i]@ by {
                    assert(a[i] == self.list_of_string@[i]@);
                    assert(b[i] == other.list_of_string@[i]@);
                }
            }
        }
        r
    }
}

impl PartialEqSpecImpl for Struct {
    open spec fn obeys_eq_spec() -> bool {
        true
    }

    open spec fn eq_spec(&self, other: &Struct) -> bool {
        self@ == other@
    }
}

impl Eq for Struct {

}

} // verus!
