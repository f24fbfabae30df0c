use typed_kvs::codec::{decode, encode};
use typed_kvs::error::ErrorCode;
use typed_kvs::mapping::KvsMap;
use typed_kvs::value::Value;

fn key(s: &str) -> String {
    s.to_string()
}

fn object(entries: Vec<(String, Value)>) -> Value {
    Value::Object(KvsMap::from_entries(entries).unwrap())
}

fn sample() -> KvsMap {
    let mut m = KvsMap::new();
    m.insert(key("temperature"), Value::I32(-23));
    m.insert(key("count"), Value::U32(4_000_000_000));
    m.insert(key("offset"), Value::I64(i64::MIN));
    m.insert(key("total"), Value::U64(u64::MAX));
    m.insert(key("humidity"), Value::F64(65.5f64.to_bits()));
    m.insert(key("is_active"), Value::Boolean(true));
    m.insert(key("device_name"), Value::String(key("Sensor-001 \u{00e9}\u{4e2d}\u{1f600}")));
    m.insert(key("null_value"), Value::Null);
    m.insert(
        key("sensor_readings"),
        Value::Array(vec![
            Value::F64(23.5f64.to_bits()),
            Value::F64(24.1f64.to_bits()),
            Value::Array(vec![Value::Null, Value::Array(vec![])]),
        ]),
    );
    m.insert(
        key("device_config"),
        object(vec![
            (key("name"), Value::String(key("Temperature Sensor"))),
            (key("id"), Value::I32(1001)),
            (key("enabled"), Value::Boolean(false)),
            (key("nested"), object(vec![(key("deep"), Value::Array(vec![Value::I32(1)]))])),
        ]),
    );
    m
}

#[test]
fn round_trip_of_nested_mapping() {
    let m = sample();
    let bytes = encode(&m);
    let back = decode(&bytes).unwrap();
    assert_eq!(back.as_entries(), m.as_entries());
    assert_eq!(back.len(), 10);
}

#[test]
fn round_trip_of_empty_mapping() {
    let m = KvsMap::new();
    let bytes = encode(&m);
    assert_eq!(bytes, vec![0u8; 8]);
    let back = decode(&bytes).unwrap();
    assert_eq!(back.len(), 0);
}

#[test]
fn exact_bytes_of_one_entry() {
    let mut m = KvsMap::new();
    m.insert(key("a"), Value::I32(1));
    let bytes = encode(&m);
    let expected: Vec<u8> = vec![
        1, 0, 0, 0, 0, 0, 0, 0, // one entry
        1, 0, 0, 0, 0, 0, 0, 0, // key of one byte
        b'a', 0, // tag of a 32-bit signed integer
        1, 0, 0, 0,
    ];
    assert_eq!(bytes, expected);
}

#[test]
fn exact_bytes_of_each_scalar() {
    let cases: Vec<(Value, Vec<u8>)> = vec![
        (Value::I32(-1), vec![0, 0xff, 0xff, 0xff, 0xff]),
        (Value::U32(0x01020304), vec![1, 4, 3, 2, 1]),
        (Value::I64(-2), vec![2, 0xfe, 0xff, 0xff, 0xff, 0xff, 0xff, 0xff, 0xff]),
        (Value::U64(258), vec![3, 2, 1, 0, 0, 0, 0, 0, 0]),
        (Value::F64(1.0f64.to_bits()), vec![4, 0, 0, 0, 0, 0, 0, 0xf0, 0x3f]),
        (Value::Boolean(true), vec![5, 1]),
        (Value::Boolean(false), vec![5, 0]),
        (Value::String(key("hi")), vec![6, 2, 0, 0, 0, 0, 0, 0, 0, b'h', b'i']),
        (Value::Null, vec![7]),
        (Value::Array(vec![Value::Null]), vec![8, 1, 0, 0, 0, 0, 0, 0, 0, 7]),
        (
            object(vec![(key("k"), Value::Null)]),
            vec![9, 1, 0, 0, 0, 0, 0, 0, 0, 1, 0, 0, 0, 0, 0, 0, 0, b'k', 7],
        ),
    ];
    for (value, payload) in cases {
        let mut m = KvsMap::new();
        m.insert(key("x"), value.duplicate());
        let mut expected: Vec<u8> = vec![1, 0, 0, 0, 0, 0, 0, 0, 1, 0, 0, 0, 0, 0, 0, 0, b'x'];
        expected.extend_from_slice(&payload);
        assert_eq!(encode(&m), expected);
        let back = decode(&expected).unwrap();
        assert_eq!(back.get(&key("x")), Some(&value));
    }
}

fn one_entry_with(payload: &[u8]) -> Vec<u8> {
    let mut bytes: Vec<u8> = vec![1, 0, 0, 0, 0, 0, 0, 0, 1, 0, 0, 0, 0, 0, 0, 0, b'x'];
    bytes.extend_from_slice(payload);
    bytes
}

#[test]
fn decode_rejects_unknown_tag() {
    assert_eq!(decode(&one_entry_with(&[10])).err(), Some(ErrorCode::CorruptData));
    assert_eq!(decode(&one_entry_with(&[255, 0, 0, 0, 0])).err(), Some(ErrorCode::CorruptData));
}

#[test]
fn decode_rejects_payload_that_does_not_fit_tag() {
    assert_eq!(decode(&one_entry_with(&[5, 2])).err(), Some(ErrorCode::CorruptData));
}

#[test]
fn decode_rejects_truncated_bytes() {
    let bytes = encode(&sample());
    for cut in 0..bytes.len() {
        assert_eq!(decode(&bytes[..cut]).err(), Some(ErrorCode::CorruptData), "cut at {}", cut);
    }
    assert_eq!(decode(&[]).err(), Some(ErrorCode::CorruptData));
}

#[test]
fn decode_rejects_trailing_bytes() {
    let mut bytes = encode(&sample());
    bytes.push(0);
    assert_eq!(decode(&bytes).err(), Some(ErrorCode::CorruptData));
}

#[test]
fn decode_rejects_invalid_utf8() {
    let payload = [6, 2, 0, 0, 0, 0, 0, 0, 0, 0xc3, 0x28];
    assert_eq!(decode(&one_entry_with(&payload)).err(), Some(ErrorCode::CorruptData));
    let bad_key: Vec<u8> = vec![1, 0, 0, 0, 0, 0, 0, 0, 1, 0, 0, 0, 0, 0, 0, 0, 0xff, 7];
    assert_eq!(decode(&bad_key).err(), Some(ErrorCode::CorruptData));
}

#[test]
fn decode_reads_utf8_strings() {
    let payload = [6, 2, 0, 0, 0, 0, 0, 0, 0, 0xc3, 0xa9];
    let m = decode(&one_entry_with(&payload)).unwrap();
    assert_eq!(m.get(&key("x")), Some(&Value::String(key("\u{00e9}"))));
}

#[test]
fn decode_rejects_duplicate_keys() {
    let mut bytes: Vec<u8> = vec![2, 0, 0, 0, 0, 0, 0, 0];
    for _ in 0..2 {
        bytes.extend_from_slice(&[1, 0, 0, 0, 0, 0, 0, 0, b'k', 7]);
    }
    assert_eq!(decode(&bytes).err(), Some(ErrorCode::CorruptData));
}

#[test]
fn decode_rejects_duplicate_keys_in_a_nested_object() {
    let mut payload: Vec<u8> = vec![9, 2, 0, 0, 0, 0, 0, 0, 0];
    for _ in 0..2 {
        payload.extend_from_slice(&[1, 0, 0, 0, 0, 0, 0, 0, b'k', 7]);
    }
    assert_eq!(decode(&one_entry_with(&payload)).err(), Some(ErrorCode::CorruptData));
    let mut distinct: Vec<u8> = vec![9, 2, 0, 0, 0, 0, 0, 0, 0];
    distinct.extend_from_slice(&[1, 0, 0, 0, 0, 0, 0, 0, b'k', 7]);
    distinct.extend_from_slice(&[1, 0, 0, 0, 0, 0, 0, 0, b'l', 7]);
    let m = decode(&one_entry_with(&distinct)).unwrap();
    assert_eq!(
        m.get(&key("x")),
        Some(&object(vec![(key("k"), Value::Null), (key("l"), Value::Null)]))
    );
}

#[test]
fn mappings_copy_and_compare() {
    let m = sample();
    let copy = m.duplicate();
    assert!(m.equals(&copy));
    assert_eq!(copy.as_entries(), m.as_entries());
    let mut other = m.duplicate();
    other.insert(key("temperature"), Value::I32(0));
    assert!(!m.equals(&other));
}

#[test]
fn decode_rejects_count_beyond_the_bytes() {
    let bytes: Vec<u8> = vec![0xff, 0xff, 0xff, 0xff, 0xff, 0xff, 0xff, 0xff];
    assert_eq!(decode(&bytes).err(), Some(ErrorCode::CorruptData));
    let long_string = [6, 0xff, 0xff, 0xff, 0xff, 0xff, 0xff, 0xff, 0xff, b'a'];
    assert_eq!(decode(&one_entry_with(&long_string)).err(), Some(ErrorCode::CorruptData));
}

#[test]
fn variants_are_not_interchangeable() {
    let mut a = KvsMap::new();
    a.insert(key("n"), Value::I32(7));
    let mut b = KvsMap::new();
    b.insert(key("n"), Value::I64(7));
    assert_ne!(encode(&a), encode(&b));
    assert_eq!(decode(&encode(&a)).unwrap().get(&key("n")), Some(&Value::I32(7)));
    assert_eq!(decode(&encode(&b)).unwrap().get(&key("n")), Some(&Value::I64(7)));
}

#[test]
fn mapping_insert_get_remove() {
    let mut m = KvsMap::new();
    assert!(!m.contains_key(&key("a")));
    m.insert(key("a"), Value::I32(1));
    m.insert(key("b"), Value::I32(2));
    m.insert(key("a"), Value::I32(3));
    assert_eq!(m.len(), 2);
    assert_eq!(m.get(&key("a")), Some(&Value::I32(3)));
    assert_eq!(m.keys(), vec![key("a"), key("b")]);
    assert!(m.remove(&key("a")));
    assert!(!m.remove(&key("a")));
    assert_eq!(m.get(&key("a")), None);
    assert_eq!(m.len(), 1);
    m.clear();
    assert_eq!(m.len(), 0);
}

#[test]
fn mapping_from_entries_wants_distinct_keys() {
    let good = vec![(key("a"), Value::Null), (key("b"), Value::Null)];
    assert!(KvsMap::from_entries(good).is_some());
    let bad = vec![(key("a"), Value::Null), (key("b"), Value::Null), (key("a"), Value::I32(1))];
    assert!(KvsMap::from_entries(bad).is_none());
}

#[test]
fn type_tags_tell_the_variants_apart() {
    let values = vec![
        Value::I32(0),
        Value::U32(0),
        Value::I64(0),
        Value::U64(0),
        Value::F64(0),
        Value::Boolean(false),
        Value::String(String::new()),
        Value::Null,
        Value::Array(vec![]),
        object(vec![]),
    ];
    for (i, v) in values.iter().enumerate() {
        assert_eq!(v.type_tag(), i as u8);
        let mut m = KvsMap::new();
        m.insert(key("x"), v.duplicate());
        assert_eq!(encode(&m)[17], v.type_tag());
    }
}

#[test]
fn structural_equality_of_values() {
    let nested = |n: i32| {
        Value::Array(vec![
            object(vec![(key("a"), Value::I32(n)), (key("b"), Value::Null)]),
            Value::String(key("s")),
        ])
    };
    assert!(nested(1).equals(&nested(1)));
    assert!(!nested(1).equals(&nested(2)));
    assert!(nested(1).equals(&nested(1).duplicate()));
    assert_eq!(nested(3).duplicate(), nested(3));
    assert!(!Value::I32(7).equals(&Value::I64(7)));
    assert!(!Value::U32(7).equals(&Value::U64(7)));
    assert!(!Value::Null.equals(&Value::Boolean(false)));
    assert!(!Value::Array(vec![]).equals(&Value::Array(vec![Value::Null])));
    assert!(!object(vec![(key("a"), Value::Null)]).equals(&object(vec![(key("b"), Value::Null)])));
    assert!(Value::F64(1.5f64.to_bits()).equals(&Value::F64(1.5f64.to_bits())));
    assert!(Value::String(key("x")).equals(&Value::String(key("x"))));
    assert!(!Value::String(key("x")).equals(&Value::String(key("y"))));
}

#[test]
fn values_from_native_scalars_and_containers() {
    assert_eq!(Value::from(23i32), Value::I32(23));
    assert_eq!(Value::from(23u32), Value::U32(23));
    assert_eq!(Value::from(-5i64), Value::I64(-5));
    assert_eq!(Value::from(5u64), Value::U64(5));
    assert_eq!(Value::from(true), Value::Boolean(true));
    assert_eq!(Value::from(key("online")), Value::String(key("online")));
    assert_eq!(Value::from(()), Value::Null);
    assert_eq!(Value::from(vec![Value::from(1i32)]), Value::Array(vec![Value::I32(1)]));
    let mut config = KvsMap::new();
    config.insert(key("id"), Value::from(1001i32));
    assert_eq!(Value::from(config), object(vec![(key("id"), Value::I32(1001))]));
}

#[test]
fn objects_are_equal_whatever_the_order_of_their_entries() {
    let a = object(vec![(key("a"), Value::I32(1)), (key("b"), Value::Null)]);
    let b = object(vec![(key("b"), Value::Null), (key("a"), Value::I32(1))]);
    assert!(a.equals(&b));
    assert!(b.equals(&a));
    assert_eq!(a, b);
    let c = object(vec![(key("b"), Value::Null), (key("a"), Value::I32(2))]);
    assert!(!a.equals(&c));
    assert_ne!(a, c);
    let d = object(vec![(key("a"), Value::I32(1))]);
    assert!(!a.equals(&d));
    assert!(!d.equals(&a));
    let e = object(vec![(key("a"), Value::I32(1)), (key("c"), Value::Null)]);
    assert!(!a.equals(&e));
    let nested_a = Value::Array(vec![a.duplicate(), Value::I32(1)]);
    let nested_b = Value::Array(vec![b.duplicate(), Value::I32(1)]);
    assert_eq!(nested_a, nested_b);
    assert_ne!(
        Value::Array(vec![Value::I32(1), Value::I32(2)]),
        Value::Array(vec![Value::I32(2), Value::I32(1)])
    );
    let mut m1 = KvsMap::new();
    m1.insert(key("x"), a);
    m1.insert(key("y"), Value::Null);
    let mut m2 = KvsMap::new();
    m2.insert(key("y"), Value::Null);
    m2.insert(key("x"), b);
    assert!(m1.equals(&m2));
    assert_eq!(m1, m2);
    m2.insert(key("z"), Value::Null);
    assert!(!m1.equals(&m2));
    assert!(!m2.equals(&m1));
}
