use nbt_codec::array::{byte_array, int_array};
use nbt_codec::binary::{from_reader, to_writer, Deserializer, Serializer};
use nbt_codec::bridge::Encode;
use nbt_codec::error::Error;
use nbt_codec::sample::Struct;
use nbt_codec::tag::Tag;
use nbt_codec::value::{Compound, List, Value};

const ROOT_NAME: &str = "The root name‽";

#[test]
fn round_trip_binary_struct() {
    let mut buf = Vec::new();

    let struct_ = Struct::new();

    Serializer::new(ROOT_NAME)
        .serialize(&mut buf, &struct_)
        .unwrap();

    let reader = &mut buf.as_slice();

    let mut de = Deserializer::new(true);

    let struct_de: Struct = de.deserialize(reader).unwrap();

    assert_eq!(struct_, struct_de);
    assert_eq!(de.root_name, ROOT_NAME);
}

#[test]
fn round_trip_binary_value() {
    let mut buf = Vec::new();

    let value = Struct::value();

    Serializer::new(ROOT_NAME)
        .serialize(&mut buf, &value)
        .unwrap();

    let reader = &mut buf.as_slice();

    let mut de = Deserializer::new(true);

    let value_de: Value = de.deserialize(reader).unwrap();

    assert_eq!(value, value_de);
    assert_eq!(de.root_name, ROOT_NAME);
}

#[test]
fn to_hematite() {
    let mut buf = Vec::new();

    let struct_ = Struct::new();

    Serializer::new(ROOT_NAME)
        .serialize(&mut buf, &struct_)
        .unwrap();

    let blob = nbt::Blob::from_reader(&mut buf.as_slice()).unwrap();

    assert_eq!(blob.get("byte"), Some(&nbt::Value::Byte(123)));
    assert_eq!(
        blob.get("list_of_int"),
        Some(&nbt::Value::List(vec![
            nbt::Value::Int(3),
            nbt::Value::Int(-7),
            nbt::Value::Int(5),
        ]))
    );
    assert_eq!(
        blob.get("list_of_string"),
        Some(&nbt::Value::List(vec![
            nbt::Value::String("foo".to_owned()),
            nbt::Value::String("bar".to_owned()),
            nbt::Value::String("baz".to_owned()),
        ]))
    );
    assert_eq!(
        blob.get("string"),
        Some(&nbt::Value::String("aé日".to_owned()))
    );
    match blob.get("inner") {
        Some(nbt::Value::Compound(inner)) => {
            assert_eq!(inner.len(), 4);
            assert_eq!(inner.get("int"), Some(&nbt::Value::Int(i32::MIN)));
            assert_eq!(inner.get("long"), Some(&nbt::Value::Long(i64::MAX)));
            assert_eq!(inner.get("float"), Some(&nbt::Value::Float(1e10_f32)));
            assert_eq!(
                inner.get("double"),
                Some(&nbt::Value::Double(f64::NEG_INFINITY))
            );
        }
        other => panic!("inner is {:?}", other),
    }
    assert_eq!(
        blob.get("int_array"),
        Some(&nbt::Value::IntArray(vec![5, -9, i32::MIN, 0, i32::MAX]))
    );
    assert_eq!(
        blob.get("byte_array"),
        Some(&nbt::Value::ByteArray(vec![0, 1, 2]))
    );
    assert_eq!(
        blob.get("long_array"),
        Some(&nbt::Value::LongArray(vec![123, 456, 789]))
    );
    assert_eq!(blob.get("some_int"), Some(&nbt::Value::Int(321)));
    assert_eq!(blob.get("none_int"), None);
    assert_eq!(blob.len_bytes(), buf.len());
}

#[test]
fn from_hematite() {
    let mut blob = nbt::Blob::named(ROOT_NAME);
    blob.insert("byte", nbt::Value::Byte(-5)).unwrap();
    blob.insert("text", nbt::Value::String("aé日".to_owned()))
        .unwrap();
    blob.insert("longs", nbt::Value::LongArray(vec![i64::MIN, 7]))
        .unwrap();
    blob.insert(
        "list",
        nbt::Value::List(vec![nbt::Value::Double(0.5), nbt::Value::Double(-2.0)]),
    )
    .unwrap();
    let mut buf = Vec::new();
    blob.to_writer(&mut buf).unwrap();

    let mut de = Deserializer::new(true);
    let value = de.deserialize_value(&mut buf.as_slice()).unwrap();

    assert_eq!(de.root_name, ROOT_NAME);
    let root = match value {
        Value::Compound(c) => c,
        other => panic!("root is {:?}", other),
    };
    assert_eq!(root.len(), 4);
    assert_eq!(root.get("byte"), Some(&Value::Byte(-5)));
    assert_eq!(root.get_string("text"), Ok("aé日".to_owned()));
    assert_eq!(root.get_long_array("longs"), Ok(vec![i64::MIN, 7]));
    assert_eq!(
        root.get_list("list").unwrap().to_doubles(),
        Ok(vec![0.5_f64.to_bits(), (-2.0_f64).to_bits()])
    );
}

#[test]
fn root_requires_compound() {
    let mut buf = Vec::new();
    assert!(Serializer::new(ROOT_NAME)
        .serialize(&mut buf, &123_i32)
        .is_err());
}

struct Mismatched {
    data: Vec<i32>,
}

impl Encode for Mismatched {
    fn to_value(&self) -> Result<Value, Error> {
        let mut c = Compound::new();
        c.insert("data".to_owned(), byte_array(&self.data)?);
        Ok(Value::Compound(c))
    }
}

#[test]
fn mismatched_array_element() {
    let struct_ = Mismatched {
        data: vec![1, 2, 3],
    };

    let mut buf = Vec::new();
    assert!(Serializer::new(ROOT_NAME)
        .serialize(&mut buf, &struct_)
        .is_err());
}

#[test]
fn mismatched_array_element_is_a_type_mismatch() {
    let struct_ = Mismatched {
        data: vec![1, 2, 3],
    };

    let mut buf = Vec::new();
    assert_eq!(
        to_writer(&mut buf, &struct_),
        Err(Error::TypeMismatch {
            expected: Tag::Byte,
            found: Tag::Int
        })
    );
    assert!(buf.is_empty());
}

#[test]
fn struct_to_value() {
    let mut buf = Vec::new();

    let struct_ = Struct::new();

    to_writer(&mut buf, &struct_).unwrap();

    let val: Value = from_reader(&mut buf.as_slice()).unwrap();

    assert_eq!(val, Struct::value());
}

#[test]
fn value_to_struct() {
    let mut buf = Vec::new();

    to_writer(&mut buf, &Struct::value()).unwrap();

    let struct_: Struct = from_reader(&mut buf.as_slice()).unwrap();

    assert_eq!(struct_, Struct::new());
}

struct Pair {
    a: i8,
    bc: i16,
}

impl Encode for Pair {
    fn to_value(&self) -> Result<Value, Error> {
        let mut c = Compound::new();
        c.insert("a".to_owned(), self.a.to_value()?);
        c.insert("bc".to_owned(), self.bc.to_value()?);
        Ok(Value::Compound(c))
    }
}

#[test]
fn simple_struct() {
    let s = Pair { a: 10, bc: 258 };

    let mut buf = Vec::new();

    to_writer(&mut buf, &s).unwrap();

    assert_eq!(
        buf[..],
        [
            10_u8,  // Compound
            0, 0,   // Compound's name has length of 0 (unnamed)
            // First field
            1,      // Signed byte
            0, 1,   // The name is 1 byte long
            b'a',   // The name is 'a'
            10,     // Value is 10
            // Second field
            2,      // Signed short
            0, 2,   // The name is 2 bytes long
            b'b', b'c',     // The name is 'bc'
            1, 2,   // Value is 258 (big endian)
            0,      // End of compound (root)
        ]
    );
}

struct Numbers {
    x: Vec<i32>,
}

impl Encode for Numbers {
    fn to_value(&self) -> Result<Value, Error> {
        let mut c = Compound::new();
        c.insert("x".to_owned(), int_array(&self.x)?);
        Ok(Value::Compound(c))
    }
}

#[test]
fn simple_array() {
    let s = Numbers { x: vec![1, 2, 3] };

    let mut buf = Vec::new();

    to_writer(&mut buf, &s).unwrap();

    assert_eq!(
        buf[..],
        [
            10_u8,  // Compound
            0, 0,   // Compound's name has length of 0 (unnamed)
            // First field
            11,         // Int array
            0, 1,       // The name is 1 byte long
            b'x',       // The name is 'x'
            0, 0, 0, 3, // Array contains 3 items
            0, 0, 0, 1, // First item
            0, 0, 0, 2, // Second item
            0, 0, 0, 3, // Third item
            0,      // End of compound (root)
        ]
    );
}

struct Outer {
    field: Nested,
}

struct Nested {
    byte: i8,
}

impl Encode for Nested {
    fn to_value(&self) -> Result<Value, Error> {
        let mut c = Compound::new();
        c.insert("byte".to_owned(), self.byte.to_value()?);
        Ok(Value::Compound(c))
    }
}

impl Encode for Outer {
    fn to_value(&self) -> Result<Value, Error> {
        let mut c = Compound::new();
        c.insert("field".to_owned(), self.field.to_value()?);
        Ok(Value::Compound(c))
    }
}

#[test]
fn nested_compounds() {
    let s = Outer {
        field: Nested { byte: 8 },
    };

    let mut buf = Vec::new();

    to_writer(&mut buf, &s).unwrap();

    assert_eq!(
        buf[..],
        [
            10_u8,  // Compound
            0, 0,   // Compound's name has length of 0 (unnamed)
            // First field
            10,         // Compound
            0, 5,       // Name is 'field'
            b'f', b'i', b'e', b'l', b'd',
            // Inner first field
            1,
            0, 4,
            b'b', b'y', b't', b'e',
            8,
            0,      // End of compound (inner)
            0,      // End of compound (root)
        ]
    );
}

struct Lcg(u64);

impl Lcg {
    fn next(&mut self) -> u64 {
        self.0 = self
            .0
            .wrapping_mul(6364136223846793005)
            .wrapping_add(1442695040888963407);
        self.0 >> 16
    }

    fn below(&mut self, n: u64) -> u64 {
        self.next() % n
    }

    fn string(&mut self) -> String {
        let alphabet = ['a', 'Z', '0', ' ', '_', 'é', 'ß', '日', '‽', '\u{7f}'];
        let len = self.below(6);
        (0..len)
            .map(|_| alphabet[self.below(alphabet.len() as u64) as usize])
            .collect()
    }

    fn bytes(&mut self) -> Vec<i8> {
        let len = self.below(5);
        (0..len).map(|_| self.next() as i8).collect()
    }

    fn ints(&mut self) -> Vec<i32> {
        let len = self.below(5);
        (0..len).map(|_| self.next() as i32).collect()
    }

    fn longs(&mut self) -> Vec<i64> {
        let len = self.below(5);
        (0..len).map(|_| (self.next() << 20) as i64).collect()
    }

    fn compound(&mut self, depth: u32) -> Compound {
        let mut c = Compound::new();
        let len = self.below(5);
        for i in 0..len {
            let key = format!("{}{}", self.string(), i);
            let value = self.value(depth);
            c.insert(key, value);
        }
        c
    }

    fn list(&mut self, depth: u32) -> List {
        let len = self.below(4) as usize;
        let kinds = if depth == 0 { 9 } else { 13 };
        match self.below(kinds) {
            0 => List::End,
            1 => List::Byte(self.bytes()),
            2 => List::Short((0..len).map(|_| self.next() as i16).collect()),
            3 => List::Int(self.ints()),
            4 => List::Long(self.longs()),
            5 => List::Float((0..len).map(|_| (self.next() as f32).to_bits()).collect()),
            6 => List::Double((0..len).map(|_| (self.next() as f64 / 7.0).to_bits()).collect()),
            7 => List::ByteArray((0..len).map(|_| self.bytes()).collect()),
            8 => List::String((0..len).map(|_| self.string()).collect()),
            9 => List::IntArray((0..len).map(|_| self.ints()).collect()),
            10 => List::LongArray((0..len).map(|_| self.longs()).collect()),
            11 => List::List((0..len).map(|_| self.list(depth - 1)).collect()),
            _ => List::Compound((0..len).map(|_| self.compound(depth - 1)).collect()),
        }
    }

    fn value(&mut self, depth: u32) -> Value {
        let kinds = if depth == 0 { 10 } else { 12 };
        match self.below(kinds) {
            0 => Value::Byte(self.next() as i8),
            1 => Value::Short(self.next() as i16),
            2 => Value::Int(self.next() as i32),
            3 => Value::Long((self.next() << 20) as i64),
            4 => Value::Float((self.next() as f32 / 3.0).to_bits()),
            5 => Value::Double((self.next() as f64 / 3.0).to_bits()),
            6 => Value::ByteArray(self.bytes()),
            7 => Value::String(self.string()),
            8 => Value::IntArray(self.ints()),
            9 => Value::LongArray(self.longs()),
            10 => Value::List(self.list(depth - 1)),
            _ => Value::Compound(self.compound(depth - 1)),
        }
    }
}

fn same(ours: &Value, theirs: &nbt::Value) -> bool {
    match (ours, theirs) {
        (Value::Byte(a), nbt::Value::Byte(b)) => a == b,
        (Value::Short(a), nbt::Value::Short(b)) => a == b,
        (Value::Int(a), nbt::Value::Int(b)) => a == b,
        (Value::Long(a), nbt::Value::Long(b)) => a == b,
        (Value::Float(a), nbt::Value::Float(b)) => *a == b.to_bits(),
        (Value::Double(a), nbt::Value::Double(b)) => *a == b.to_bits(),
        (Value::ByteArray(a), nbt::Value::ByteArray(b)) => a == b,
        (Value::String(a), nbt::Value::String(b)) => a == b,
        (Value::IntArray(a), nbt::Value::IntArray(b)) => a == b,
        (Value::LongArray(a), nbt::Value::LongArray(b)) => a == b,
        (Value::List(a), nbt::Value::List(b)) => {
            let a = a.to_values();
            a.len() == b.len() && a.iter().zip(b.iter()).all(|(x, y)| same(x, y))
        }
        (Value::Compound(a), nbt::Value::Compound(b)) => {
            a.len() == b.len()
                && (0..a.len()).all(|i| {
                    let (key, value) = a.get_index(i).unwrap();
                    b.get(key).map_or(false, |other| same(value, other))
                })
        }
        _ => false,
    }
}

#[test]
fn generated_trees_round_trip_and_are_read_by_hematite() {
    let mut lcg = Lcg(0x5EED);
    for round in 0..300 {
        let root = lcg.compound(3);
        let name = lcg.string();
        let mut buf = Vec::new();
        Serializer::new(&name)
            .serialize_value(&mut buf, &Value::Compound(root.clone()))
            .unwrap();

        let mut de = Deserializer::new(true);
        let mut source = buf.as_slice();
        let back = de.deserialize_value(&mut source).unwrap();
        assert_eq!(back, Value::Compound(root.clone()), "round {}", round);
        assert_eq!(de.root_name, name);
        assert!(source.is_empty());

        let blob = nbt::Blob::from_reader(&mut buf.as_slice()).unwrap();
        assert_eq!(blob.len_bytes(), buf.len(), "round {}", round);
        for i in 0..root.len() {
            let (key, value) = root.get_index(i).unwrap();
            let theirs = &blob[key.as_str()];
            assert!(same(value, theirs), "round {} key {:?}", round, key);
        }

        let mut again = Vec::new();
        blob.to_writer(&mut again).unwrap();
        let reread = Deserializer::new(true)
            .deserialize_value(&mut again.as_slice())
            .unwrap();
        match reread {
            Value::Compound(c) => {
                assert_eq!(c.len(), root.len());
                for i in 0..root.len() {
                    let (key, value) = root.get_index(i).unwrap();
                    let got = c.get(key).unwrap();
                    assert!(equal_up_to_order(value, got), "round {} key {:?}", round, key);
                }
            }
            other => panic!("root is {:?}", other),
        }
    }
}

fn equal_up_to_order(a: &Value, b: &Value) -> bool {
    match (a, b) {
        (Value::Compound(x), Value::Compound(y)) => {
            x.len() == y.len()
                && (0..x.len()).all(|i| {
                    let (key, value) = x.get_index(i).unwrap();
                    y.get(key).map_or(false, |other| equal_up_to_order(value, other))
                })
        }
        (Value::List(x), Value::List(y)) => {
            let x = x.to_values();
            let y = y.to_values();
            x.len() == y.len() && x.iter().zip(y.iter()).all(|(p, q)| equal_up_to_order(p, q))
        }
        _ => a == b,
    }
}
