use nbt_codec::array::{
    byte_array, from_byte_array, from_int_array, from_long_array, int_array, long_array,
    pack_bytes, pack_ints, pack_longs, unpack_bytes, unpack_ints, unpack_longs,
};
use nbt_codec::bridge::{build_all, project_all, Decode, Encode};
use nbt_codec::equal::{
    compounds_equal, lists_equal, same_bytes, same_doubles, same_floats, same_ints, same_longs,
    same_rows_of_bytes, same_rows_of_ints, same_rows_of_longs, same_shorts, same_strings,
    values_equal,
};
use nbt_codec::error::Error;
use nbt_codec::tag::Tag;
use nbt_codec::value::{copy_compound, copy_list, copy_value, Compound, List, Value};

fn mismatch(expected: Tag, found: Tag) -> Error {
    Error::TypeMismatch { expected, found }
}

fn one_of_each() -> Vec<Value> {
    vec![
        Value::Byte(1),
        Value::Short(2),
        Value::Int(3),
        Value::Long(4),
        Value::Float(5),
        Value::Double(6),
        Value::ByteArray(vec![7]),
        Value::String("8".to_owned()),
        Value::List(List::Int(vec![9])),
        Value::Compound(Compound::new()),
        Value::IntArray(vec![11]),
        Value::LongArray(vec![12]),
    ]
}

#[test]
fn tags_are_the_bytes_of_the_format() {
    let tags = [
        Tag::End,
        Tag::Byte,
        Tag::Short,
        Tag::Int,
        Tag::Long,
        Tag::Float,
        Tag::Double,
        Tag::ByteArray,
        Tag::String,
        Tag::List,
        Tag::Compound,
        Tag::IntArray,
        Tag::LongArray,
    ];
    for (i, tag) in tags.iter().enumerate() {
        assert_eq!(tag.to_u8(), i as u8);
        assert_eq!(Tag::from_u8(i as u8), Some(*tag));
    }
    for b in 13..=255u8 {
        assert_eq!(Tag::from_u8(b), None);
    }
}

#[test]
fn each_value_has_the_tag_of_its_variant() {
    for (i, value) in one_of_each().iter().enumerate() {
        assert_eq!(value.tag().to_u8(), i as u8 + 1);
    }
}

#[test]
fn no_variant_equals_another() {
    assert_ne!(Value::Byte(5), Value::Short(5));
    assert_ne!(Value::Int(5), Value::Long(5));
    assert_ne!(Value::Float(5), Value::Int(5));
    assert_ne!(Value::ByteArray(vec![1]), Value::List(List::Byte(vec![1])));
    assert_ne!(Value::IntArray(vec![1]), Value::List(List::Int(vec![1])));
    assert_ne!(Value::List(List::End), Value::List(List::Int(vec![])));
    assert_ne!(List::Byte(vec![]), List::Short(vec![]));
    assert_eq!(Value::Long(5), Value::Long(5));
}

#[test]
fn compounds_are_equal_in_the_same_order_only() {
    let mut ab = Compound::new();
    ab.insert("a".to_owned(), Value::Byte(1));
    ab.insert("b".to_owned(), Value::Byte(2));
    let mut ba = Compound::new();
    ba.insert("b".to_owned(), Value::Byte(2));
    ba.insert("a".to_owned(), Value::Byte(1));
    assert_ne!(ab, ba);
    let mut again = Compound::new();
    again.insert("a".to_owned(), Value::Byte(1));
    again.insert("b".to_owned(), Value::Byte(2));
    assert_eq!(ab, again);
}

#[test]
fn values_from_plain_data() {
    assert_eq!(Value::from(5_i8), Value::Byte(5));
    assert_eq!(Value::from(5_i16), Value::Short(5));
    assert_eq!(Value::from(5_i32), Value::Int(5));
    assert_eq!(Value::from(5_i64), Value::Long(5));
    assert_eq!(
        Value::from("s".to_owned()),
        Value::String("s".to_owned())
    );
    assert_eq!(Value::string("aé"), Value::String("aé".to_owned()));
    assert_eq!(Value::from(vec![1_i8, 2]), Value::ByteArray(vec![1, 2]));
    assert_eq!(Value::from(vec![1_i32, 2]), Value::IntArray(vec![1, 2]));
    assert_eq!(Value::from(vec![1_i64, 2]), Value::LongArray(vec![1, 2]));
    assert_eq!(
        Value::from(List::Int(vec![1])),
        Value::List(List::Int(vec![1]))
    );
    assert_eq!(
        Value::from(Compound::new()),
        Value::Compound(Compound::new())
    );
    let v: Value = 7_i32.into();
    assert_eq!(v, Value::Int(7));
}

#[test]
fn insert_puts_new_keys_last_and_replaces_in_place() {
    let mut c = Compound::new();
    assert!(c.is_empty());
    assert_eq!(c.insert("a".to_owned(), Value::Byte(1)), None);
    assert_eq!(c.insert("b".to_owned(), Value::Byte(2)), None);
    assert_eq!(c.insert("c".to_owned(), Value::Byte(3)), None);
    assert_eq!(c.insert("a".to_owned(), Value::Int(9)), Some(Value::Byte(1)));
    assert_eq!(c.len(), 3);
    assert!(!c.is_empty());
    assert_eq!(c.get_index(0), Some((&"a".to_owned(), &Value::Int(9))));
    assert_eq!(c.get_index(1), Some((&"b".to_owned(), &Value::Byte(2))));
    assert_eq!(c.get_index(2), Some((&"c".to_owned(), &Value::Byte(3))));
    assert_eq!(c.get_index(3), None);
    assert_eq!(c.get("a"), Some(&Value::Int(9)));
    assert_eq!(c.get("d"), None);
    assert!(c.contains_key("b"));
    assert!(!c.contains_key("B"));
    assert!(!c.contains_key(""));
}

#[test]
fn remove_keeps_the_order_of_the_rest() {
    let mut c = Compound::new();
    c.insert("a".to_owned(), Value::Byte(1));
    c.insert("b".to_owned(), Value::Byte(2));
    c.insert("c".to_owned(), Value::Byte(3));
    assert_eq!(c.remove("b"), Some(Value::Byte(2)));
    assert_eq!(c.remove("b"), None);
    assert_eq!(c.len(), 2);
    assert_eq!(c.get_index(0), Some((&"a".to_owned(), &Value::Byte(1))));
    assert_eq!(c.get_index(1), Some((&"c".to_owned(), &Value::Byte(3))));
    assert_eq!(c.insert("b".to_owned(), Value::Byte(4)), None);
    assert_eq!(c.get_index(2), Some((&"b".to_owned(), &Value::Byte(4))));
}

#[test]
fn entries_with_a_key_twice_are_refused() {
    let c = Compound::from_entries(vec![
        ("a".to_owned(), Value::Byte(1)),
        ("b".to_owned(), Value::Byte(2)),
    ])
    .unwrap();
    assert_eq!(c.len(), 2);
    assert_eq!(c.get_index(1), Some((&"b".to_owned(), &Value::Byte(2))));
    assert_eq!(Compound::from_entries(vec![]), Ok(Compound::new()));

    assert_eq!(
        Compound::from_entries(vec![
            ("a".to_owned(), Value::Byte(1)),
            ("b".to_owned(), Value::Byte(2)),
            ("c".to_owned(), Value::Byte(3)),
            ("b".to_owned(), Value::Byte(4)),
            ("a".to_owned(), Value::Byte(5)),
        ]),
        Err(Error::DuplicateKey(3))
    );
    assert_eq!(
        Compound::from_entries(vec![
            ("a".to_owned(), Value::Byte(1)),
            ("a".to_owned(), Value::Byte(1)),
        ]),
        Err(Error::DuplicateKey(1))
    );
}

#[test]
fn typed_fields() {
    let mut c = Compound::new();
    for (i, value) in one_of_each().into_iter().enumerate() {
        c.insert(format!("k{}", i + 1), value);
    }
    assert_eq!(c.get_byte("k1"), Ok(1));
    assert_eq!(c.get_short("k2"), Ok(2));
    assert_eq!(c.get_int("k3"), Ok(3));
    assert_eq!(c.get_long("k4"), Ok(4));
    assert_eq!(c.get_float("k5"), Ok(5));
    assert_eq!(c.get_double("k6"), Ok(6));
    assert_eq!(c.get_byte_array("k7"), Ok(vec![7]));
    assert_eq!(c.get_string("k8"), Ok("8".to_owned()));
    assert_eq!(c.get_list("k9"), Ok(&List::Int(vec![9])));
    assert_eq!(c.get_compound("k10"), Ok(&Compound::new()));
    assert_eq!(c.get_int_array("k11"), Ok(vec![11]));
    assert_eq!(c.get_long_array("k12"), Ok(vec![12]));
    assert_eq!(c.field("k3", Tag::Int), Ok(&Value::Int(3)));
    assert_eq!(c.optional_field("k3", Tag::Int), Ok(Some(&Value::Int(3))));
    assert_eq!(c.optional_field("none", Tag::Int), Ok(None));

    assert_eq!(c.get_byte("k2"), Err(mismatch(Tag::Byte, Tag::Short)));
    assert_eq!(c.get_short("k1"), Err(mismatch(Tag::Short, Tag::Byte)));
    assert_eq!(c.get_int("k4"), Err(mismatch(Tag::Int, Tag::Long)));
    assert_eq!(c.get_long("k3"), Err(mismatch(Tag::Long, Tag::Int)));
    assert_eq!(c.get_float("k6"), Err(mismatch(Tag::Float, Tag::Double)));
    assert_eq!(c.get_double("k5"), Err(mismatch(Tag::Double, Tag::Float)));
    assert_eq!(
        c.get_byte_array("k9"),
        Err(mismatch(Tag::ByteArray, Tag::List))
    );
    assert_eq!(c.get_string("k1"), Err(mismatch(Tag::String, Tag::Byte)));
    assert_eq!(c.get_list("k11"), Err(mismatch(Tag::List, Tag::IntArray)));
    assert_eq!(
        c.get_compound("k9"),
        Err(mismatch(Tag::Compound, Tag::List))
    );
    assert_eq!(
        c.get_int_array("k12"),
        Err(mismatch(Tag::IntArray, Tag::LongArray))
    );
    assert_eq!(
        c.get_long_array("k11"),
        Err(mismatch(Tag::LongArray, Tag::IntArray))
    );
    assert_eq!(c.get_int("none"), Err(mismatch(Tag::Int, Tag::End)));
    assert_eq!(c.field("none", Tag::List), Err(mismatch(Tag::List, Tag::End)));
    assert_eq!(
        c.optional_field("k1", Tag::Int),
        Err(mismatch(Tag::Int, Tag::Byte))
    );
}

#[test]
fn a_list_takes_values_of_one_kind() {
    let mut list = List::new();
    assert_eq!(list, List::End);
    assert_eq!(list.len(), 0);
    assert_eq!(list.element_tag(), Tag::End);
    assert_eq!(list.push(Value::Int(3)), Ok(()));
    assert_eq!(list.push(Value::Int(-7)), Ok(()));
    assert_eq!(list, List::Int(vec![3, -7]));
    assert_eq!(list.element_tag(), Tag::Int);
    assert_eq!(list.push(Value::Long(5)), Err(mismatch(Tag::Int, Tag::Long)));
    assert_eq!(list.push(Value::Byte(5)), Err(mismatch(Tag::Int, Tag::Byte)));
    assert_eq!(list, List::Int(vec![3, -7]));
    assert_eq!(list.len(), 2);
    assert_eq!(list.get(0), Some(Value::Int(3)));
    assert_eq!(list.get(1), Some(Value::Int(-7)));
    assert_eq!(list.get(2), None);
    assert_eq!(List::End.get(0), None);
}

#[test]
fn a_list_of_every_kind() {
    for value in one_of_each() {
        let mut list = List::new();
        assert_eq!(list.push(copy_value(&value)), Ok(()));
        assert_eq!(list.push(copy_value(&value)), Ok(()));
        assert_eq!(list.len(), 2);
        assert_eq!(list.element_tag(), value.tag());
        assert_eq!(list.get(1), Some(copy_value(&value)));
        assert_eq!(list.to_values(), vec![value.clone(), value.clone()]);
        assert_eq!(
            List::from_values(&vec![value.clone(), value.clone()]),
            Ok(list)
        );
    }
}

#[test]
fn values_of_two_kinds_make_no_list() {
    assert_eq!(List::from_values(&vec![]), Ok(List::End));
    assert_eq!(
        List::from_values(&vec![Value::Int(1), Value::Int(2)]),
        Ok(List::Int(vec![1, 2]))
    );
    assert_eq!(
        List::from_values(&vec![
            Value::Int(1),
            Value::Int(2),
            Value::Short(3),
            Value::Long(4)
        ]),
        Err(mismatch(Tag::Int, Tag::Short))
    );
    assert_eq!(
        List::from_values(&vec![
            Value::List(List::Int(vec![1])),
            Value::List(List::String(vec![]))
        ]),
        Ok(List::List(vec![List::Int(vec![1]), List::String(vec![])]))
    );
}

#[test]
fn typed_elements() {
    assert_eq!(List::Byte(vec![1]).to_bytes(), Ok(vec![1]));
    assert_eq!(List::Short(vec![1]).to_shorts(), Ok(vec![1]));
    assert_eq!(List::Int(vec![1]).to_ints(), Ok(vec![1]));
    assert_eq!(List::Long(vec![1]).to_longs(), Ok(vec![1]));
    assert_eq!(List::Float(vec![1]).to_floats(), Ok(vec![1]));
    assert_eq!(List::Double(vec![1]).to_doubles(), Ok(vec![1]));
    assert_eq!(
        List::String(vec!["a".to_owned()]).to_strings(),
        Ok(vec!["a".to_owned()])
    );
    assert_eq!(List::End.to_ints(), Ok(vec![]));
    assert_eq!(List::End.to_strings(), Ok(vec![]));
    assert_eq!(
        List::Int(vec![1]).to_bytes(),
        Err(mismatch(Tag::Byte, Tag::Int))
    );
    assert_eq!(
        List::Byte(vec![]).to_ints(),
        Err(mismatch(Tag::Int, Tag::Byte))
    );
    assert_eq!(
        List::Int(vec![1]).to_strings(),
        Err(mismatch(Tag::String, Tag::Int))
    );
    assert_eq!(
        List::Long(vec![1]).to_shorts(),
        Err(mismatch(Tag::Short, Tag::Long))
    );
    assert_eq!(
        List::Double(vec![1]).to_floats(),
        Err(mismatch(Tag::Float, Tag::Double))
    );
    assert_eq!(
        List::Float(vec![1]).to_doubles(),
        Err(mismatch(Tag::Double, Tag::Float))
    );
    assert_eq!(
        List::Int(vec![1]).to_longs(),
        Err(mismatch(Tag::Long, Tag::Int))
    );
}

#[test]
fn a_copy_is_equal_and_apart() {
    for value in one_of_each() {
        assert_eq!(copy_value(&value), value);
        assert_eq!(value.clone(), value);
    }
    let list = List::Compound(vec![Compound::new()]);
    assert_eq!(copy_list(&list), list);
    assert_eq!(list.clone(), list);
    let mut c = Compound::new();
    c.insert("a".to_owned(), Value::List(list));
    let mut copy = copy_compound(&c);
    assert_eq!(copy, c);
    assert_eq!(c.clone(), c);
    copy.insert("a".to_owned(), Value::Byte(1));
    assert_ne!(copy, c);
}

#[test]
fn plain_types_describe_themselves() {
    assert_eq!(5_i8.to_value(), Ok(Value::Byte(5)));
    assert_eq!(5_i16.to_value(), Ok(Value::Short(5)));
    assert_eq!(5_i32.to_value(), Ok(Value::Int(5)));
    assert_eq!(5_i64.to_value(), Ok(Value::Long(5)));
    assert_eq!(
        "s".to_owned().to_value(),
        Ok(Value::String("s".to_owned()))
    );
    assert_eq!(Value::Byte(1).to_value(), Ok(Value::Byte(1)));
    assert_eq!(
        List::Int(vec![1]).to_value(),
        Ok(Value::List(List::Int(vec![1])))
    );
    assert_eq!(
        Compound::new().to_value(),
        Ok(Value::Compound(Compound::new()))
    );
    assert_eq!(
        vec![3_i32, -7, 5].to_value(),
        Ok(Value::List(List::Int(vec![3, -7, 5])))
    );
    assert_eq!(
        Vec::<i32>::new().to_value(),
        Ok(Value::List(List::End))
    );
    assert_eq!(
        vec![vec![1_i8], vec![]].to_value(),
        Ok(Value::List(List::List(vec![List::Byte(vec![1]), List::End])))
    );
    assert_eq!(
        vec![Value::Int(1), Value::Byte(2)].to_value(),
        Err(mismatch(Tag::Int, Tag::Byte))
    );
    assert_eq!(
        project_all(&vec![1_i16, 2]),
        Ok(vec![Value::Short(1), Value::Short(2)])
    );
}

#[test]
fn plain_types_are_built_from_their_kind_only() {
    assert_eq!(i8::from_value(&Value::Byte(5)), Ok(5));
    assert_eq!(i16::from_value(&Value::Short(5)), Ok(5));
    assert_eq!(i32::from_value(&Value::Int(5)), Ok(5));
    assert_eq!(i64::from_value(&Value::Long(5)), Ok(5));
    assert_eq!(
        String::from_value(&Value::String("s".to_owned())),
        Ok("s".to_owned())
    );
    assert_eq!(i8::from_value(&Value::Short(5)), Err(mismatch(Tag::Byte, Tag::Short)));
    assert_eq!(i16::from_value(&Value::Byte(5)), Err(mismatch(Tag::Short, Tag::Byte)));
    assert_eq!(i32::from_value(&Value::Long(5)), Err(mismatch(Tag::Int, Tag::Long)));
    assert_eq!(i64::from_value(&Value::Int(5)), Err(mismatch(Tag::Long, Tag::Int)));
    assert_eq!(
        String::from_value(&Value::Int(5)),
        Err(mismatch(Tag::String, Tag::Int))
    );
    assert_eq!(Value::from_value(&Value::Int(5)), Ok(Value::Int(5)));
    assert_eq!(
        List::from_value(&Value::List(List::End)),
        Ok(List::End)
    );
    assert_eq!(
        List::from_value(&Value::IntArray(vec![])),
        Err(mismatch(Tag::List, Tag::IntArray))
    );
    assert_eq!(
        Compound::from_value(&Value::Compound(Compound::new())),
        Ok(Compound::new())
    );
    assert_eq!(
        Compound::from_value(&Value::Byte(1)),
        Err(mismatch(Tag::Compound, Tag::Byte))
    );
    assert_eq!(
        Vec::<i32>::from_value(&Value::List(List::Int(vec![1, 2]))),
        Ok(vec![1, 2])
    );
    assert_eq!(
        Vec::<i32>::from_value(&Value::List(List::End)),
        Ok(vec![])
    );
    assert_eq!(
        Vec::<i32>::from_value(&Value::IntArray(vec![1, 2])),
        Err(mismatch(Tag::List, Tag::IntArray))
    );
    assert_eq!(
        Vec::<i32>::from_value(&Value::List(List::Long(vec![1]))),
        Err(mismatch(Tag::Int, Tag::Long))
    );
    assert_eq!(
        build_all::<i64>(&vec![Value::Long(1), Value::Int(2)]),
        Err(mismatch(Tag::Long, Tag::Int))
    );
}

#[test]
fn an_array_takes_elements_of_its_kind_only() {
    assert_eq!(byte_array(&vec![1_i8, 2]), Ok(Value::ByteArray(vec![1, 2])));
    assert_eq!(int_array(&vec![1_i32, 2]), Ok(Value::IntArray(vec![1, 2])));
    assert_eq!(long_array(&vec![1_i64, 2]), Ok(Value::LongArray(vec![1, 2])));
    assert_eq!(byte_array(&Vec::<i32>::new()), Ok(Value::ByteArray(vec![])));
    assert_eq!(int_array(&Vec::<i8>::new()), Ok(Value::IntArray(vec![])));
    assert_eq!(long_array(&Vec::<String>::new()), Ok(Value::LongArray(vec![])));

    assert_eq!(byte_array(&vec![1_i32, 2, 3]), Err(mismatch(Tag::Byte, Tag::Int)));
    assert_eq!(byte_array(&vec![1_i16]), Err(mismatch(Tag::Byte, Tag::Short)));
    assert_eq!(int_array(&vec![1_i8]), Err(mismatch(Tag::Int, Tag::Byte)));
    assert_eq!(int_array(&vec![1_i64]), Err(mismatch(Tag::Int, Tag::Long)));
    assert_eq!(long_array(&vec![1_i32]), Err(mismatch(Tag::Long, Tag::Int)));
    assert_eq!(
        long_array(&vec!["1".to_owned()]),
        Err(mismatch(Tag::Long, Tag::String))
    );

    assert_eq!(
        pack_bytes(&vec![Value::Byte(1), Value::Byte(-1)]),
        Ok(Value::ByteArray(vec![1, -1]))
    );
    assert_eq!(
        pack_ints(&vec![Value::Int(1), Value::Short(2), Value::Long(3)]),
        Err(mismatch(Tag::Int, Tag::Short))
    );
    assert_eq!(
        pack_longs(&vec![Value::Long(1), Value::Long(2)]),
        Ok(Value::LongArray(vec![1, 2]))
    );
    assert_eq!(pack_bytes(&vec![]), Ok(Value::ByteArray(vec![])));
}

#[test]
fn an_array_is_read_from_its_own_tag_only() {
    assert_eq!(
        from_byte_array::<i8>(&Value::ByteArray(vec![1, 2])),
        Ok(vec![1, 2])
    );
    assert_eq!(
        from_int_array::<i32>(&Value::IntArray(vec![1, 2])),
        Ok(vec![1, 2])
    );
    assert_eq!(
        from_long_array::<i64>(&Value::LongArray(vec![1, 2])),
        Ok(vec![1, 2])
    );
    assert_eq!(
        from_int_array::<i32>(&Value::List(List::Int(vec![1, 2]))),
        Err(mismatch(Tag::IntArray, Tag::List))
    );
    assert_eq!(
        from_byte_array::<i8>(&Value::IntArray(vec![1])),
        Err(mismatch(Tag::ByteArray, Tag::IntArray))
    );
    assert_eq!(
        from_long_array::<i64>(&Value::Long(1)),
        Err(mismatch(Tag::LongArray, Tag::Long))
    );
    assert_eq!(
        from_byte_array::<i32>(&Value::ByteArray(vec![1])),
        Err(mismatch(Tag::Int, Tag::Byte))
    );
    assert_eq!(
        from_byte_array::<i32>(&Value::ByteArray(vec![])),
        Ok(vec![])
    );
    assert_eq!(
        unpack_bytes(&Value::ByteArray(vec![1])),
        Ok(vec![Value::Byte(1)])
    );
    assert_eq!(
        unpack_ints(&Value::IntArray(vec![1, 2])),
        Ok(vec![Value::Int(1), Value::Int(2)])
    );
    assert_eq!(unpack_longs(&Value::LongArray(vec![])), Ok(vec![]));
    assert_eq!(
        unpack_ints(&Value::List(List::Int(vec![1]))),
        Err(mismatch(Tag::IntArray, Tag::List))
    );
}

#[test]
fn each_error_has_a_description() {
    assert_eq!(Error::Io.description(), "unexpected end of input");
    assert_eq!(Error::InvalidTag(13).description(), "invalid tag");
    assert_eq!(
        Error::NonCompoundRoot(3).description(),
        "root must be a compound"
    );
    assert_eq!(
        mismatch(Tag::Int, Tag::Byte).description(),
        "type mismatch"
    );
    assert_eq!(Error::InvalidString.description(), "invalid string");
    assert_eq!(Error::LengthOverflow.description(), "length overflow");
    assert_eq!(Error::DuplicateKey(1).description(), "duplicate key");
}

#[test]
fn equality_looks_at_the_whole_tree() {
    let all = one_of_each();
    for (i, a) in all.iter().enumerate() {
        for (j, b) in all.iter().enumerate() {
            assert_eq!(values_equal(a, b), i == j);
            assert_eq!(a == b, i == j);
        }
    }
    let deep = |last: i8| {
        let mut inner = Compound::new();
        inner.insert(
            "l".to_owned(),
            Value::List(List::List(vec![List::End, List::Byte(vec![1, last])])),
        );
        let mut outer = Compound::new();
        outer.insert("c".to_owned(), Value::List(List::Compound(vec![inner])));
        outer
    };
    assert!(compounds_equal(&deep(2), &deep(2)));
    assert!(!compounds_equal(&deep(2), &deep(3)));
    assert!(deep(2) == deep(2));
    assert!(deep(2) != deep(3));
    assert!(lists_equal(&List::String(vec!["a".to_owned()]), &List::String(vec!["a".to_owned()])));
    assert!(!lists_equal(&List::String(vec!["a".to_owned()]), &List::String(vec!["b".to_owned()])));
    assert!(!lists_equal(&List::String(vec![]), &List::End));
    assert!(!lists_equal(&List::Int(vec![1]), &List::Int(vec![1, 1])));
    assert!(!lists_equal(&List::IntArray(vec![vec![1]]), &List::IntArray(vec![vec![2]])));
    assert!(lists_equal(&List::LongArray(vec![vec![], vec![1]]), &List::LongArray(vec![vec![], vec![1]])));
    assert!(!lists_equal(&List::ByteArray(vec![vec![1]]), &List::ByteArray(vec![vec![1], vec![]])));
    let mut short = Compound::new();
    short.insert("a".to_owned(), Value::Byte(1));
    let mut long = short.clone();
    long.insert("b".to_owned(), Value::Byte(1));
    assert!(short != long);
    let mut other_key = Compound::new();
    other_key.insert("b".to_owned(), Value::Byte(1));
    assert!(short != other_key);
}

#[test]
fn runs_are_equal_element_by_element() {
    assert!(same_bytes(&vec![1, 2], &vec![1, 2]));
    assert!(!same_bytes(&vec![1, 2], &vec![1, 3]));
    assert!(!same_bytes(&vec![1, 2], &vec![1]));
    assert!(same_bytes(&vec![], &vec![]));
    assert!(same_shorts(&vec![1], &vec![1]));
    assert!(!same_shorts(&vec![1], &vec![-1]));
    assert!(same_ints(&vec![1], &vec![1]));
    assert!(!same_ints(&vec![1], &vec![]));
    assert!(same_longs(&vec![i64::MIN], &vec![i64::MIN]));
    assert!(!same_longs(&vec![i64::MIN], &vec![i64::MAX]));
    assert!(same_floats(&vec![7], &vec![7]));
    assert!(!same_floats(&vec![7], &vec![8]));
    assert!(same_doubles(&vec![7], &vec![7]));
    assert!(!same_doubles(&vec![7, 7], &vec![7]));
    assert!(same_strings(&vec!["a".to_owned()], &vec!["a".to_owned()]));
    assert!(!same_strings(&vec!["a".to_owned()], &vec!["A".to_owned()]));
    assert!(same_rows_of_bytes(&vec![vec![1], vec![]], &vec![vec![1], vec![]]));
    assert!(!same_rows_of_bytes(&vec![vec![1], vec![]], &vec![vec![], vec![1]]));
    assert!(same_rows_of_ints(&vec![vec![1]], &vec![vec![1]]));
    assert!(!same_rows_of_ints(&vec![vec![1]], &vec![vec![1], vec![1]]));
    assert!(same_rows_of_longs(&vec![], &vec![]));
    assert!(!same_rows_of_longs(&vec![vec![2]], &vec![vec![3]]));
}
