use nbt_codec::binary::{from_reader, to_writer, Deserializer, Serializer};
use nbt_codec::bridge::{Decode, Encode};
use nbt_codec::decode::{decode, read_payload};
use nbt_codec::encode::{encode, write_payload};
use nbt_codec::error::Error;
use nbt_codec::sample::{Inner, Struct, SAMPLE_DOUBLE, SAMPLE_FLOAT};
use nbt_codec::tag::Tag;
use nbt_codec::value::{Compound, List, Value};

fn compound(entries: Vec<(&str, Value)>) -> Compound {
    let mut c = Compound::new();
    for (key, value) in entries {
        c.insert(key.to_owned(), value);
    }
    c
}

fn root(entries: Vec<(&str, Value)>) -> Value {
    Value::Compound(compound(entries))
}

fn bytes_of(value: &Value) -> Vec<u8> {
    let mut buf = Vec::new();
    write_payload(&mut buf, value).unwrap();
    buf
}

#[test]
fn empty_root_layout() {
    let mut buf = Vec::new();
    encode(&mut buf, "", &Value::Compound(Compound::new())).unwrap();
    assert_eq!(buf, vec![10u8, 0, 0, 0]);
}

#[test]
fn named_root_layout() {
    let mut buf = vec![42u8];
    encode(&mut buf, "hi", &root(vec![("k", Value::Byte(-1))])).unwrap();
    assert_eq!(
        buf,
        vec![42u8, 10, 0, 2, b'h', b'i', 1, 0, 1, b'k', 0xFF, 0]
    );
}

#[test]
fn scalar_root_is_refused() {
    let mut buf = Vec::new();
    assert_eq!(
        encode(&mut buf, "root", &Value::Int(123)),
        Err(Error::NonCompoundRoot(3))
    );
    assert!(buf.is_empty());
}

#[test]
fn every_other_root_is_refused() {
    let roots = vec![
        (Value::Byte(1), 1u8),
        (Value::Short(1), 2),
        (Value::Long(1), 4),
        (Value::Float(0), 5),
        (Value::Double(0), 6),
        (Value::ByteArray(vec![1]), 7),
        (Value::String("s".to_owned()), 8),
        (Value::List(List::Int(vec![1])), 9),
        (Value::IntArray(vec![1]), 11),
        (Value::LongArray(vec![1]), 12),
    ];
    for (value, tag) in roots {
        let mut buf = Vec::new();
        assert_eq!(
            encode(&mut buf, "", &value),
            Err(Error::NonCompoundRoot(tag))
        );
        assert!(buf.is_empty());
    }
}

#[test]
fn reading_a_root_of_another_kind_is_refused() {
    assert_eq!(
        decode(&[1, 0, 0, 5], true),
        Err(Error::NonCompoundRoot(1))
    );
    assert_eq!(decode(&[9, 0, 0], true), Err(Error::NonCompoundRoot(9)));
    assert_eq!(decode(&[200], true), Err(Error::NonCompoundRoot(200)));
    assert_eq!(decode(&[0], false), Err(Error::NonCompoundRoot(0)));
}

#[test]
fn empty_source_is_an_io_error() {
    assert_eq!(decode(&[], true), Err(Error::Io));
    assert_eq!(decode(&[], false), Err(Error::Io));
}

#[test]
fn every_truncation_is_an_io_error() {
    let mut buf = Vec::new();
    encode(&mut buf, "The root name‽", &Struct::value()).unwrap();
    for cut in 0..buf.len() {
        assert_eq!(decode(&buf[..cut], true), Err(Error::Io), "cut at {}", cut);
    }
    assert!(decode(&buf, true).is_ok());
}

#[test]
fn a_byte_that_names_no_tag_is_refused() {
    assert_eq!(
        decode(&[10, 0, 0, 13, 0, 1, b'a', 0, 0], true),
        Err(Error::InvalidTag(13))
    );
    assert_eq!(
        decode(&[10, 0, 0, 9, 0, 1, b'l', 99, 0, 0, 0, 0, 0], true),
        Err(Error::InvalidTag(99))
    );
}

#[test]
fn a_list_of_end_with_elements_is_refused() {
    assert_eq!(
        decode(&[10, 0, 0, 9, 0, 1, b'l', 0, 0, 0, 0, 1, 0], true),
        Err(Error::InvalidTag(0))
    );
    assert_eq!(
        read_payload(Tag::End, &[0, 0, 0], 0),
        Err(Error::InvalidTag(0))
    );
}

#[test]
fn a_negative_count_is_a_length_overflow() {
    assert_eq!(
        decode(
            &[10, 0, 0, 11, 0, 1, b'a', 0xFF, 0xFF, 0xFF, 0xFF, 0],
            true
        ),
        Err(Error::LengthOverflow)
    );
    assert_eq!(
        decode(
            &[10, 0, 0, 9, 0, 1, b'a', 3, 0x80, 0, 0, 0, 0],
            true
        ),
        Err(Error::LengthOverflow)
    );
}

#[test]
fn a_count_beyond_the_source_is_an_io_error() {
    assert_eq!(
        decode(
            &[10, 0, 0, 7, 0, 1, b'a', 0x7F, 0xFF, 0xFF, 0xFF, 1, 2, 3],
            true
        ),
        Err(Error::Io)
    );
}

#[test]
fn bytes_that_are_no_utf8_are_an_invalid_string() {
    assert_eq!(
        decode(&[10, 0, 1, 0xFF, 0], true),
        Err(Error::InvalidString)
    );
    assert_eq!(
        decode(&[10, 0, 0, 8, 0, 1, b's', 0, 2, 0xC3, 0x28, 0], true),
        Err(Error::InvalidString)
    );
    // An overlong form and a surrogate are no UTF-8 either.
    assert_eq!(
        decode(&[10, 0, 2, 0xC0, 0x80, 0], true),
        Err(Error::InvalidString)
    );
    assert_eq!(
        decode(&[10, 0, 3, 0xED, 0xA0, 0x80, 0], true),
        Err(Error::InvalidString)
    );
}

#[test]
fn a_string_of_more_than_65535_bytes_is_refused() {
    let long = "a".repeat(65536);
    let mut buf = Vec::new();
    assert_eq!(
        encode(&mut buf, &long, &Value::Compound(Compound::new())),
        Err(Error::InvalidString)
    );
    let mut buf = Vec::new();
    assert_eq!(
        encode(&mut buf, "", &root(vec![("s", Value::String(long.clone()))])),
        Err(Error::InvalidString)
    );
    let mut buf = Vec::new();
    assert_eq!(
        encode(&mut buf, "", &root(vec![(&long, Value::Byte(0))])),
        Err(Error::InvalidString)
    );
    // Two bytes each: 32768 characters are one byte too many.
    let wide = "é".repeat(32768);
    let mut buf = Vec::new();
    assert_eq!(
        encode(&mut buf, "", &root(vec![("s", Value::String(wide))])),
        Err(Error::InvalidString)
    );
}

#[test]
fn a_string_of_65535_bytes_round_trips() {
    let long = "a".repeat(65535);
    let value = root(vec![("s", Value::String(long.clone()))]);
    let mut buf = Vec::new();
    encode(&mut buf, &long, &value).unwrap();
    assert_eq!(&buf[..3], &[10, 0xFF, 0xFF]);
    let (name, back, used) = decode(&buf, true).unwrap();
    assert_eq!(name, long);
    assert_eq!(back, value);
    assert_eq!(used, buf.len());
}

#[test]
fn a_failed_write_keeps_what_was_written_before() {
    let long = "a".repeat(65536);
    let value = root(vec![
        ("ok", Value::Byte(1)),
        ("bad", Value::String(long)),
        ("never", Value::Byte(2)),
    ]);
    let mut buf = vec![7u8, 7];
    assert_eq!(encode(&mut buf, "", &value), Err(Error::InvalidString));
    assert_eq!(&buf[..2], &[7, 7]);
    assert_eq!(
        &buf[2..],
        &[10, 0, 0, 1, 0, 2, b'o', b'k', 1, 8, 0, 3, b'b', b'a', b'd']
    );
}

#[test]
fn numbers_are_big_endian() {
    assert_eq!(bytes_of(&Value::Byte(-128)), vec![0x80]);
    assert_eq!(bytes_of(&Value::Short(258)), vec![1, 2]);
    assert_eq!(bytes_of(&Value::Short(-2)), vec![0xFF, 0xFE]);
    assert_eq!(bytes_of(&Value::Int(0x0102_0304)), vec![1, 2, 3, 4]);
    assert_eq!(bytes_of(&Value::Int(i32::MIN)), vec![0x80, 0, 0, 0]);
    assert_eq!(
        bytes_of(&Value::Long(0x0102_0304_0506_0708)),
        vec![1, 2, 3, 4, 5, 6, 7, 8]
    );
    assert_eq!(
        bytes_of(&Value::Long(-1)),
        vec![0xFF, 0xFF, 0xFF, 0xFF, 0xFF, 0xFF, 0xFF, 0xFF]
    );
    assert_eq!(
        bytes_of(&Value::Float(1.0_f32.to_bits())),
        vec![0x3F, 0x80, 0, 0]
    );
    assert_eq!(
        bytes_of(&Value::Double((-2.0_f64).to_bits())),
        vec![0xC0, 0, 0, 0, 0, 0, 0, 0]
    );
}

#[test]
fn numbers_are_read_big_endian() {
    assert_eq!(
        read_payload(Tag::Byte, &[0x80], 0),
        Ok((Value::Byte(-128), 1))
    );
    assert_eq!(
        read_payload(Tag::Short, &[9, 0xFF, 0xFE], 1),
        Ok((Value::Short(-2), 3))
    );
    assert_eq!(
        read_payload(Tag::Int, &[0x80, 0, 0, 1], 0),
        Ok((Value::Int(i32::MIN + 1), 4))
    );
    assert_eq!(
        read_payload(Tag::Long, &[1, 2, 3, 4, 5, 6, 7, 8], 0),
        Ok((Value::Long(0x0102_0304_0506_0708), 8))
    );
    assert_eq!(
        read_payload(Tag::Float, &[0x3F, 0x80, 0, 0], 0),
        Ok((Value::Float(1.0_f32.to_bits()), 4))
    );
    assert_eq!(
        read_payload(Tag::Double, &[0xC0, 0, 0, 0, 0, 0, 0, 0], 0),
        Ok((Value::Double((-2.0_f64).to_bits()), 8))
    );
    assert_eq!(read_payload(Tag::Int, &[1, 2, 3], 0), Err(Error::Io));
    assert_eq!(read_payload(Tag::Byte, &[1], 5), Err(Error::Io));
}

#[test]
fn strings_and_arrays_are_framed_by_their_length() {
    assert_eq!(
        bytes_of(&Value::String("aé日".to_owned())),
        vec![0, 6, b'a', 0xC3, 0xA9, 0xE6, 0x97, 0xA5]
    );
    assert_eq!(bytes_of(&Value::String(String::new())), vec![0, 0]);
    assert_eq!(
        bytes_of(&Value::ByteArray(vec![0, -1, 2])),
        vec![0, 0, 0, 3, 0, 0xFF, 2]
    );
    assert_eq!(
        bytes_of(&Value::IntArray(vec![1, -1])),
        vec![0, 0, 0, 2, 0, 0, 0, 1, 0xFF, 0xFF, 0xFF, 0xFF]
    );
    assert_eq!(
        bytes_of(&Value::LongArray(vec![2])),
        vec![0, 0, 0, 1, 0, 0, 0, 0, 0, 0, 0, 2]
    );
    assert_eq!(bytes_of(&Value::LongArray(vec![])), vec![0, 0, 0, 0]);
}

#[test]
fn lists_carry_one_tag_and_a_count() {
    assert_eq!(bytes_of(&Value::List(List::End)), vec![0, 0, 0, 0, 0]);
    assert_eq!(
        bytes_of(&Value::List(List::Int(vec![]))),
        vec![3, 0, 0, 0, 0]
    );
    assert_eq!(
        bytes_of(&Value::List(List::Short(vec![1, 2]))),
        vec![2, 0, 0, 0, 2, 0, 1, 0, 2]
    );
    assert_eq!(
        bytes_of(&Value::List(List::String(vec![
            "a".to_owned(),
            String::new()
        ]))),
        vec![8, 0, 0, 0, 2, 0, 1, b'a', 0, 0]
    );
    assert_eq!(
        bytes_of(&Value::List(List::List(vec![
            List::Byte(vec![7]),
            List::End
        ]))),
        vec![9, 0, 0, 0, 2, 1, 0, 0, 0, 1, 7, 0, 0, 0, 0, 0]
    );
    assert_eq!(
        bytes_of(&Value::List(List::Compound(vec![
            compound(vec![("a", Value::Byte(1))]),
            Compound::new()
        ]))),
        vec![10, 0, 0, 0, 2, 1, 0, 1, b'a', 1, 0, 0]
    );
}

#[test]
fn every_kind_round_trips() {
    let value = root(vec![
        ("byte", Value::Byte(-7)),
        ("short", Value::Short(i16::MIN)),
        ("int", Value::Int(i32::MAX)),
        ("long", Value::Long(i64::MIN)),
        ("float", Value::Float(f32::NAN.to_bits())),
        ("double", Value::Double(f64::MIN_POSITIVE.to_bits())),
        ("bytes", Value::ByteArray(vec![i8::MIN, 0, i8::MAX])),
        ("string", Value::String("😀 aé日".to_owned())),
        ("ints", Value::IntArray(vec![i32::MIN, -1, 0, 1, i32::MAX])),
        ("longs", Value::LongArray(vec![i64::MIN, i64::MAX])),
        ("empty", Value::Compound(Compound::new())),
        ("l_end", Value::List(List::End)),
        ("l_byte", Value::List(List::Byte(vec![1, -1]))),
        ("l_short", Value::List(List::Short(vec![]))),
        ("l_int", Value::List(List::Int(vec![3, -7, 5]))),
        ("l_long", Value::List(List::Long(vec![1 << 40]))),
        ("l_float", Value::List(List::Float(vec![0.5_f32.to_bits()]))),
        (
            "l_double",
            Value::List(List::Double(vec![f64::INFINITY.to_bits()])),
        ),
        (
            "l_bytes",
            Value::List(List::ByteArray(vec![vec![1], vec![], vec![2, 3]])),
        ),
        (
            "l_string",
            Value::List(List::String(vec!["x".to_owned(), "".to_owned()])),
        ),
        (
            "l_list",
            Value::List(List::List(vec![
                List::Int(vec![1]),
                List::End,
                List::List(vec![List::String(vec!["deep".to_owned()])]),
            ])),
        ),
        (
            "l_compound",
            Value::List(List::Compound(vec![
                compound(vec![("z", Value::Byte(1)), ("a", Value::Byte(2))]),
                Compound::new(),
            ])),
        ),
        ("l_ints", Value::List(List::IntArray(vec![vec![1, 2], vec![]]))),
        ("l_longs", Value::List(List::LongArray(vec![vec![9]]))),
    ]);
    let mut buf = Vec::new();
    encode(&mut buf, "every kind", &value).unwrap();
    let (name, back, used) = decode(&buf, true).unwrap();
    assert_eq!(name, "every kind");
    assert_eq!(back, value);
    assert_eq!(used, buf.len());

    let mut again = Vec::new();
    encode(&mut again, &name, &back).unwrap();
    assert_eq!(again, buf);
}

#[test]
fn key_order_is_kept() {
    let value = root(vec![
        ("z", Value::Byte(1)),
        ("a", Value::Byte(2)),
        ("m", Value::Byte(3)),
    ]);
    let mut buf = Vec::new();
    encode(&mut buf, "", &value).unwrap();
    let (_, back, _) = decode(&buf, true).unwrap();
    let back = match back {
        Value::Compound(c) => c,
        other => panic!("root is {:?}", other),
    };
    let keys: Vec<String> = (0..back.len())
        .map(|i| back.get_index(i).unwrap().0.clone())
        .collect();
    assert_eq!(keys, vec!["z", "a", "m"]);
}

#[test]
fn a_key_read_twice_keeps_its_place_and_its_last_value() {
    let bytes = [
        10, 0, 0, 1, 0, 1, b'a', 1, 1, 0, 1, b'b', 2, 3, 0, 1, b'a', 0, 0, 0, 9, 0,
    ];
    let (_, back, used) = decode(&bytes, true).unwrap();
    assert_eq!(used, bytes.len());
    assert_eq!(
        back,
        root(vec![("a", Value::Int(9)), ("b", Value::Byte(2))])
    );
}

#[test]
fn a_root_without_a_name() {
    let bytes = [10, 1, 0, 1, b'a', 5, 0];
    let (name, back, used) = decode(&bytes, false).unwrap();
    assert_eq!(name, "");
    assert_eq!(back, root(vec![("a", Value::Byte(5))]));
    assert_eq!(used, 7);
    // Read as a stream with a name, the same bytes say a name of 256 bytes.
    assert_eq!(decode(&bytes, true), Err(Error::Io));

    let mut de = Deserializer::new(false);
    let value = de.deserialize_value(&mut &bytes[..]).unwrap();
    assert_eq!(value, back);
    assert_eq!(de.root_name, "");
}

#[test]
fn the_source_moves_past_each_stream() {
    let first = root(vec![("a", Value::Byte(1))]);
    let second = root(vec![("b", Value::Short(2))]);
    let mut buf = Vec::new();
    Serializer::new("one").serialize(&mut buf, &first).unwrap();
    let first_len = buf.len();
    Serializer::new("two")
        .serialize_value(&mut buf, &second)
        .unwrap();
    buf.extend_from_slice(&[1, 2, 3]);

    let mut source = buf.as_slice();
    let mut de = Deserializer::new(true);
    assert_eq!(de.root_name, "");
    assert_eq!(de.deserialize_value(&mut source), Ok(first));
    assert_eq!(de.root_name, "one");
    assert_eq!(source.len(), buf.len() - first_len);
    assert_eq!(de.deserialize::<Value>(&mut source), Ok(second));
    assert_eq!(de.root_name, "two");
    assert_eq!(source, &[1, 2, 3]);
    // What is left is no stream: the source and the name stay.
    assert_eq!(
        de.deserialize_value(&mut source),
        Err(Error::NonCompoundRoot(1))
    );
    assert_eq!(source, &[1, 2, 3]);
    assert_eq!(de.root_name, "two");
    assert!(de.named);
}

#[test]
fn the_source_moves_past_a_stream_that_the_target_refuses() {
    let mut buf = Vec::new();
    to_writer(&mut buf, &root(vec![("a", Value::Byte(1))])).unwrap();
    buf.push(99);
    let mut source = buf.as_slice();
    let r: Result<Struct, Error> = from_reader(&mut source);
    assert_eq!(
        r,
        Err(Error::TypeMismatch {
            expected: Tag::Byte,
            found: Tag::End
        })
    );
    assert_eq!(source, &[99]);
}

#[test]
fn sample_floats_are_the_bit_patterns() {
    assert_eq!(SAMPLE_FLOAT, 1e10_f32.to_bits());
    assert_eq!(SAMPLE_DOUBLE, f64::NEG_INFINITY.to_bits());
    let s = Struct::new();
    assert_eq!(f32::from_bits(s.inner.float), 1e10_f32);
    assert_eq!(f64::from_bits(s.inner.double), f64::NEG_INFINITY);
    assert_eq!(s.byte, 123);
    assert_eq!(s.list_of_int, vec![3, -7, 5]);
    assert_eq!(s.list_of_string, vec!["foo", "bar", "baz"]);
    assert_eq!(s.string, "aé日");
    assert_eq!(s.int_array, vec![5, -9, i32::MIN, 0, i32::MAX]);
    assert_eq!(s.byte_array, vec![0, 1, 2]);
    assert_eq!(s.long_array, vec![123, 456, 789]);
    assert_eq!(s.some_int, Some(321));
    assert_eq!(s.none_int, None);
    assert_eq!(s.inner.int, i32::MIN);
    assert_eq!(s.inner.long, i64::MAX);
}

#[test]
fn an_absent_field_has_no_entry() {
    let value = Struct::new().to_value().unwrap();
    let c = match &value {
        Value::Compound(c) => c,
        other => panic!("the record is {:?}", other),
    };
    assert_eq!(c.len(), 9);
    assert_eq!(c.get("some_int"), Some(&Value::Int(321)));
    assert_eq!(c.get("none_int"), None);
    assert!(!c.contains_key("none_int"));
    assert_eq!(c.get_index(8), Some((&"some_int".to_owned(), &Value::Int(321))));

    let mut buf = Vec::new();
    to_writer(&mut buf, &Struct::new()).unwrap();
    let needle = b"none_int";
    assert!(!buf.windows(needle.len()).any(|w| w == needle));
    let needle = b"some_int";
    assert!(buf.windows(needle.len()).any(|w| w == needle));
    assert_eq!(
        &buf[buf.len() - 16..],
        &[3, 0, 8, b's', b'o', b'm', b'e', b'_', b'i', b'n', b't', 0, 0, 1, 0x41, 0]
    );
}

#[test]
fn optional_fields_round_trip_in_every_state() {
    for (some_int, none_int) in [
        (None, None),
        (Some(1), None),
        (None, Some(-2)),
        (Some(3), Some(4)),
    ] {
        let mut s = Struct::new();
        s.some_int = some_int;
        s.none_int = none_int;
        s.list_of_int = vec![];
        s.list_of_string = vec![];
        let mut buf = Vec::new();
        Serializer::new("n").serialize(&mut buf, &s).unwrap();
        let back: Struct = from_reader(&mut buf.as_slice()).unwrap();
        assert_eq!(back, s);
        let entries = 8 + some_int.iter().count() + none_int.iter().count();
        match s.to_value().unwrap() {
            Value::Compound(c) => assert_eq!(c.len(), entries),
            other => panic!("the record is {:?}", other),
        }
    }
}

fn sample_entries() -> Compound {
    match Struct::value() {
        Value::Compound(c) => c,
        other => panic!("the record is {:?}", other),
    }
}

#[test]
fn a_record_is_read_from_a_compound_only() {
    assert_eq!(
        Struct::from_value(&Value::Int(1)),
        Err(Error::TypeMismatch {
            expected: Tag::Compound,
            found: Tag::Int
        })
    );
    assert_eq!(
        Inner::from_value(&Value::List(List::End)),
        Err(Error::TypeMismatch {
            expected: Tag::Compound,
            found: Tag::List
        })
    );
}

#[test]
fn a_missing_field_is_found_as_end() {
    let mut c = sample_entries();
    c.remove("string");
    assert_eq!(
        Struct::from_value(&Value::Compound(c)),
        Err(Error::TypeMismatch {
            expected: Tag::String,
            found: Tag::End
        })
    );
    let mut c = sample_entries();
    c.insert(
        "inner".to_owned(),
        root(vec![("int", Value::Int(1)), ("long", Value::Long(2))]),
    );
    assert_eq!(
        Struct::from_value(&Value::Compound(c)),
        Err(Error::TypeMismatch {
            expected: Tag::Float,
            found: Tag::End
        })
    );
}

#[test]
fn a_field_of_another_kind_is_refused() {
    let mut c = sample_entries();
    c.insert("byte".to_owned(), Value::Short(123));
    assert_eq!(
        Struct::from_value(&Value::Compound(c)),
        Err(Error::TypeMismatch {
            expected: Tag::Byte,
            found: Tag::Short
        })
    );
    let mut c = sample_entries();
    c.insert("some_int".to_owned(), Value::Long(321));
    assert_eq!(
        Struct::from_value(&Value::Compound(c)),
        Err(Error::TypeMismatch {
            expected: Tag::Int,
            found: Tag::Long
        })
    );
    // The first field in the order of the record gives the error.
    let mut c = sample_entries();
    c.insert("long_array".to_owned(), Value::Byte(0));
    c.insert("string".to_owned(), Value::Byte(0));
    assert_eq!(
        Struct::from_value(&Value::Compound(c)),
        Err(Error::TypeMismatch {
            expected: Tag::String,
            found: Tag::Byte
        })
    );
}

#[test]
fn a_list_is_no_array_and_an_array_no_list() {
    let mut c = sample_entries();
    c.insert("int_array".to_owned(), Value::List(List::Int(vec![1])));
    assert_eq!(
        Struct::from_value(&Value::Compound(c)),
        Err(Error::TypeMismatch {
            expected: Tag::IntArray,
            found: Tag::List
        })
    );
    let mut c = sample_entries();
    c.insert("list_of_int".to_owned(), Value::IntArray(vec![1]));
    assert_eq!(
        Struct::from_value(&Value::Compound(c)),
        Err(Error::TypeMismatch {
            expected: Tag::List,
            found: Tag::IntArray
        })
    );
    let mut c = sample_entries();
    c.insert("byte_array".to_owned(), Value::IntArray(vec![1]));
    assert_eq!(
        Struct::from_value(&Value::Compound(c)),
        Err(Error::TypeMismatch {
            expected: Tag::ByteArray,
            found: Tag::IntArray
        })
    );
    let mut c = sample_entries();
    c.insert(
        "list_of_int".to_owned(),
        Value::List(List::String(vec!["1".to_owned()])),
    );
    assert_eq!(
        Struct::from_value(&Value::Compound(c)),
        Err(Error::TypeMismatch {
            expected: Tag::Int,
            found: Tag::String
        })
    );
}

#[test]
fn keys_that_the_record_does_not_know_are_passed_over() {
    let mut c = sample_entries();
    c.insert("extra".to_owned(), Value::Long(1));
    c.insert("list_of_int".to_owned(), Value::List(List::End));
    let mut want = Struct::new();
    want.list_of_int = vec![];
    assert_eq!(Struct::from_value(&Value::Compound(c)), Ok(want));
}

#[test]
fn the_tree_of_the_record_is_the_tree_built_by_hand() {
    assert_eq!(Struct::new().to_value(), Ok(Struct::value()));
    assert_eq!(Struct::from_value(&Struct::value()), Ok(Struct::new()));
    let inner = Struct::new().inner;
    assert_eq!(Inner::from_value(&inner.to_value().unwrap()), Ok(inner));
}

#[test]
fn records_are_equal_field_by_field() {
    assert!(Struct::new() == Struct::new());
    let changes: Vec<fn(&mut Struct)> = vec![
        |s| s.byte = 1,
        |s| s.list_of_int.push(1),
        |s| s.list_of_string[0] = "x".to_owned(),
        |s| s.string.push('x'),
        |s| s.inner.float = 0,
        |s| s.int_array[0] = 6,
        |s| s.byte_array.clear(),
        |s| s.long_array[2] = 0,
        |s| s.some_int = None,
        |s| s.none_int = Some(0),
    ];
    for change in changes {
        let mut s = Struct::new();
        change(&mut s);
        assert!(s != Struct::new());
        assert!(Struct::new() != s);
    }
}
