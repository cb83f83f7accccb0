use nu_plugin_sled::codec::{decode_value, encode_value};
use nu_plugin_sled::value::{FloatDocument, Record, StructuredValue};

fn float(document: serde_json::Value) -> StructuredValue {
    StructuredValue::Float(FloatDocument::new(document).unwrap())
}

fn text(s: &str) -> StructuredValue {
    StructuredValue::String(s.to_string())
}

#[test]
fn scalars_encode_to_their_messagepack_bytes() {
    assert_eq!(encode_value(&StructuredValue::Nothing), Some(vec![0xc0]));
    assert_eq!(encode_value(&StructuredValue::Bool(true)), Some(vec![0xc3]));
    assert_eq!(encode_value(&StructuredValue::Bool(false)), Some(vec![0xc2]));
    assert_eq!(encode_value(&StructuredValue::Int(1)), Some(vec![0x01]));
    assert_eq!(encode_value(&StructuredValue::Int(-1)), Some(vec![0xff]));
    assert_eq!(encode_value(&StructuredValue::Int(300)), Some(vec![0xcd, 0x01, 0x2c]));
    assert_eq!(encode_value(&text("hello")), Some(vec![0xa5, b'h', b'e', b'l', b'l', b'o']));
}

#[test]
fn float_encodes_as_binary64() {
    let value = float(serde_json::Value::from(1.5f64));
    assert_eq!(encode_value(&value), Some(vec![0xcb, 0x3f, 0xf8, 0, 0, 0, 0, 0, 0]));
}

#[test]
fn list_and_record_encode_with_their_lengths() {
    let list = StructuredValue::List(vec![text("apple"), text("banana")]);
    let mut expected = vec![0x92, 0xa5];
    expected.extend_from_slice(b"apple");
    expected.push(0xa6);
    expected.extend_from_slice(b"banana");
    assert_eq!(encode_value(&list), Some(expected));

    let mut r = Record::new();
    r.insert("a".to_string(), StructuredValue::Int(1));
    assert_eq!(encode_value(&StructuredValue::Record(r)), Some(vec![0x81, 0xa1, b'a', 0x01]));
}

#[test]
fn bytes_decode_to_their_values() {
    assert_eq!(decode_value(&vec![0xc0]), Ok(StructuredValue::Nothing));
    assert_eq!(decode_value(&vec![0xc3]), Ok(StructuredValue::Bool(true)));
    assert_eq!(decode_value(&vec![0x2a]), Ok(StructuredValue::Int(42)));
    assert_eq!(decode_value(&vec![0xd0, 0x80]), Ok(StructuredValue::Int(-128)));
    assert_eq!(decode_value(&vec![0xa2, b'o', b'k']), Ok(text("ok")));
    assert_eq!(
        decode_value(&vec![0x92, 0x01, 0xc0]),
        Ok(StructuredValue::List(vec![StructuredValue::Int(1), StructuredValue::Nothing]))
    );
}

#[test]
fn unsigned_beyond_signed_range_decodes_to_float() {
    let bytes = vec![0xcf, 0xff, 0xff, 0xff, 0xff, 0xff, 0xff, 0xff, 0xff];
    assert_eq!(
        decode_value(&bytes),
        Ok(float(serde_json::Value::from(u64::MAX)))
    );
}

#[test]
fn truncated_bytes_fail_to_decode() {
    assert!(decode_value(&vec![]).is_err());
    assert!(decode_value(&vec![0xa5, b'h', b'i']).is_err());
    assert!(decode_value(&vec![0x92, 0x01]).is_err());
    assert!(decode_value(&vec![0xcd, 0x01]).is_err());
}

#[test]
fn unknown_tag_fails_to_decode() {
    let failure = decode_value(&vec![0xc1]).unwrap_err();
    assert!(!failure.detail.is_empty());
}

#[test]
fn binary_payload_is_no_document() {
    assert!(decode_value(&vec![0xc4, 0x01, 0x00]).is_err());
}

#[test]
fn non_text_key_is_no_document() {
    assert!(decode_value(&vec![0x81, 0x01, 0x02]).is_err());
}

#[test]
fn round_trip_of_plain_values() {
    let mut inner = Record::new();
    inner.insert("k".to_string(), StructuredValue::List(vec![StructuredValue::Int(-70_000)]));
    let mut r = Record::new();
    r.insert("id".to_string(), StructuredValue::Int(i64::MIN));
    r.insert("max".to_string(), StructuredValue::Int(i64::MAX));
    r.insert("name".to_string(), text("héllo ✓"));
    r.insert("none".to_string(), StructuredValue::Nothing);
    r.insert("flag".to_string(), StructuredValue::Bool(false));
    r.insert("inner".to_string(), StructuredValue::Record(inner));
    let value = StructuredValue::Record(r);
    let bytes = encode_value(&value).unwrap();
    assert_eq!(decode_value(&bytes), Ok(value));
}

#[test]
fn round_trip_of_a_float() {
    let value = float(serde_json::Value::from(-0.125f64));
    let bytes = encode_value(&value).unwrap();
    assert_eq!(decode_value(&bytes), Ok(value));
}

#[test]
fn round_trip_keeps_record_order() {
    let mut r = Record::new();
    r.insert("z".to_string(), StructuredValue::Int(1));
    r.insert("a".to_string(), StructuredValue::Int(2));
    let bytes = encode_value(&StructuredValue::Record(r)).unwrap();
    match decode_value(&bytes).unwrap() {
        StructuredValue::Record(back) => {
            assert_eq!(back.entries()[0].0, "z");
            assert_eq!(back.entries()[1].0, "a");
        }
        other => panic!("not a record: {:?}", other),
    }
}

#[test]
fn leftover_bytes_fail_to_decode() {
    let failure = decode_value(&vec![0xff, 0xff]).unwrap_err();
    assert_eq!(failure.detail, "trailing bytes after the value");
    assert!(decode_value(&vec![0x01, 0x02]).is_err());
    assert!(decode_value(&vec![0xa1, b'a', 0xc0]).is_err());
}
