use nu_plugin_sled::text::debug_text;
use nu_plugin_sled::transcode::{json_to_value, value_to_json};
use nu_plugin_sled::value::{FloatDocument, Record, StructuredValue};
use serde_json::Value as Json;

fn text(s: &str) -> StructuredValue {
    StructuredValue::String(s.to_string())
}

fn float(document: Json) -> StructuredValue {
    StructuredValue::Float(FloatDocument::new(document).unwrap())
}

fn record(entries: Vec<(&str, StructuredValue)>) -> StructuredValue {
    let mut r = Record::new();
    for (key, value) in entries {
        r.insert(key.to_string(), value);
    }
    StructuredValue::Record(r)
}

fn object(entries: Vec<(&str, Json)>) -> Json {
    let mut map = serde_json::Map::new();
    for (key, value) in entries {
        map.insert(key.to_string(), value);
    }
    Json::Object(map)
}

fn keys_of(doc: &Json) -> Vec<String> {
    match doc {
        Json::Object(map) => map.keys().cloned().collect(),
        _ => panic!("not an object"),
    }
}

#[test]
fn nothing_becomes_null() {
    assert_eq!(value_to_json(&StructuredValue::Nothing), Json::Null);
}

#[test]
fn bool_becomes_bool() {
    assert_eq!(value_to_json(&StructuredValue::Bool(true)), Json::Bool(true));
    assert_eq!(value_to_json(&StructuredValue::Bool(false)), Json::Bool(false));
}

#[test]
fn integer_becomes_number() {
    assert_eq!(value_to_json(&StructuredValue::Int(7)), Json::from(7i64));
    assert_eq!(value_to_json(&StructuredValue::Int(-7)), Json::from(-7i64));
    assert_eq!(value_to_json(&StructuredValue::Int(i64::MIN)), Json::from(i64::MIN));
    assert_eq!(value_to_json(&StructuredValue::Int(i64::MAX)), Json::from(i64::MAX));
}

#[test]
fn text_becomes_string() {
    assert_eq!(value_to_json(&text("hello")), Json::String("hello".to_string()));
    assert_eq!(value_to_json(&text("")), Json::String(String::new()));
}

#[test]
fn date_and_duration_become_integers() {
    assert_eq!(value_to_json(&StructuredValue::Date(1_700_000_000)), Json::from(1_700_000_000i64));
    assert_eq!(value_to_json(&StructuredValue::Duration(-5)), Json::from(-5i64));
}

#[test]
fn float_is_passed_through() {
    let carried = Json::from(1.5f64);
    assert_eq!(value_to_json(&float(carried.clone())), carried);
    let not_a_number = Json::from(f64::NAN);
    assert_eq!(not_a_number, Json::Null);
    assert_eq!(value_to_json(&float(not_a_number)), Json::Null);
}

#[test]
fn binary_becomes_debug_text() {
    let doc = value_to_json(&StructuredValue::Binary(vec![1, 2, 255]));
    assert_eq!(doc, Json::String("[1, 2, 255]".to_string()));
    assert_eq!(value_to_json(&StructuredValue::Binary(vec![])), Json::String("[]".to_string()));
}

#[test]
fn opaque_becomes_its_text() {
    let doc = value_to_json(&StructuredValue::Opaque("Range { .. }".to_string()));
    assert_eq!(doc, Json::String("Range { .. }".to_string()));
}

#[test]
fn list_becomes_array_in_order() {
    let list = StructuredValue::List(vec![text("apple"), StructuredValue::Int(2), StructuredValue::Nothing]);
    let expected = Json::Array(vec![Json::String("apple".to_string()), Json::from(2i64), Json::Null]);
    assert_eq!(value_to_json(&list), expected);
    assert_eq!(value_to_json(&StructuredValue::List(vec![])), Json::Array(vec![]));
}

#[test]
fn record_becomes_object_in_insertion_order() {
    let value = record(vec![
        ("zeta", StructuredValue::Int(1)),
        ("alpha", text("x")),
        ("mid", StructuredValue::Bool(false)),
    ]);
    let doc = value_to_json(&value);
    assert_eq!(keys_of(&doc), vec!["zeta", "alpha", "mid"]);
    assert_eq!(doc["zeta"], Json::from(1i64));
    assert_eq!(doc["alpha"], Json::String("x".to_string()));
    assert_eq!(doc["mid"], Json::Bool(false));
}

#[test]
fn null_becomes_nothing() {
    assert_eq!(json_to_value(&Json::Null), StructuredValue::Nothing);
}

#[test]
fn json_bool_and_text_come_back() {
    assert_eq!(json_to_value(&Json::Bool(true)), StructuredValue::Bool(true));
    assert_eq!(json_to_value(&Json::String("hi".to_string())), text("hi"));
}

#[test]
fn integral_number_in_range_becomes_integer() {
    assert_eq!(json_to_value(&Json::from(0u64)), StructuredValue::Int(0));
    assert_eq!(json_to_value(&Json::from(-3i64)), StructuredValue::Int(-3));
    assert_eq!(json_to_value(&Json::from(i64::MAX as u64)), StructuredValue::Int(i64::MAX));
    assert_eq!(json_to_value(&Json::from(i64::MIN)), StructuredValue::Int(i64::MIN));
}

#[test]
fn integer_beyond_range_becomes_float() {
    let big = Json::from(i64::MAX as u64 + 1);
    assert_eq!(json_to_value(&big), float(big.clone()));
    let biggest = Json::from(u64::MAX);
    assert_eq!(json_to_value(&biggest), float(biggest.clone()));
}

#[test]
fn fractional_number_becomes_float() {
    let half = Json::from(0.5f64);
    assert_eq!(json_to_value(&half), float(half.clone()));
    let whole = Json::from(256.0f64);
    assert_eq!(json_to_value(&whole), float(whole.clone()));
}

#[test]
fn array_becomes_list_in_order() {
    let doc = Json::Array(vec![Json::from(1i64), Json::Null, Json::Array(vec![Json::Bool(true)])]);
    let expected = StructuredValue::List(vec![
        StructuredValue::Int(1),
        StructuredValue::Nothing,
        StructuredValue::List(vec![StructuredValue::Bool(true)]),
    ]);
    assert_eq!(json_to_value(&doc), expected);
}

#[test]
fn object_becomes_record_in_order() {
    let doc = object(vec![("b", Json::from(2i64)), ("a", Json::from(1i64))]);
    let value = json_to_value(&doc);
    match &value {
        StructuredValue::Record(r) => {
            assert_eq!(r.len(), 2);
            assert_eq!(r.entries()[0], ("b".to_string(), StructuredValue::Int(2)));
            assert_eq!(r.entries()[1], ("a".to_string(), StructuredValue::Int(1)));
        }
        other => panic!("not a record: {:?}", other),
    }
}

#[test]
fn document_round_trip_of_plain_values() {
    let value = record(vec![
        ("id", StructuredValue::Int(1)),
        ("name", text("hello")),
        ("none", StructuredValue::Nothing),
        ("flag", StructuredValue::Bool(true)),
        ("items", StructuredValue::List(vec![text("apple"), text("banana")])),
        ("inner", record(vec![("deep", StructuredValue::List(vec![StructuredValue::Int(-9)]))])),
    ]);
    assert_eq!(json_to_value(&value_to_json(&value)), value);
}

#[test]
fn document_round_trip_of_floats() {
    let value = StructuredValue::List(vec![
        float(Json::from(2.25f64)),
        float(Json::from(u64::MAX)),
    ]);
    assert_eq!(json_to_value(&value_to_json(&value)), value);
}

#[test]
fn lossy_kinds_do_not_come_back() {
    assert_eq!(json_to_value(&value_to_json(&StructuredValue::Date(12))), StructuredValue::Int(12));
    assert_eq!(json_to_value(&value_to_json(&StructuredValue::Duration(3))), StructuredValue::Int(3));
    assert_eq!(
        json_to_value(&value_to_json(&StructuredValue::Opaque("x".to_string()))),
        text("x")
    );
    assert_eq!(
        json_to_value(&value_to_json(&StructuredValue::Binary(vec![7]))),
        text("[7]")
    );
    assert_eq!(
        json_to_value(&value_to_json(&float(Json::Null))),
        StructuredValue::Nothing
    );
}

#[test]
fn record_insert_keeps_place_and_takes_last_value() {
    let mut r = Record::new();
    r.insert("a".to_string(), StructuredValue::Int(1));
    r.insert("b".to_string(), StructuredValue::Int(2));
    r.insert("a".to_string(), StructuredValue::Int(3));
    assert_eq!(r.len(), 2);
    assert_eq!(r.entries()[0], ("a".to_string(), StructuredValue::Int(3)));
    assert_eq!(r.entries()[1], ("b".to_string(), StructuredValue::Int(2)));
}

#[test]
fn record_get_finds_by_key() {
    let mut r = Record::new();
    assert_eq!(r.len(), 0);
    assert_eq!(r.get(&"a".to_string()), None);
    r.insert("a".to_string(), StructuredValue::Int(1));
    r.insert("b".to_string(), text("two"));
    assert_eq!(r.get(&"a".to_string()), Some(&StructuredValue::Int(1)));
    assert_eq!(r.get(&"b".to_string()), Some(&text("two")));
    assert_eq!(r.get(&"c".to_string()), None);
}

#[test]
fn float_carries_only_a_number_or_null() {
    let number = FloatDocument::new(Json::from(1.5f64)).unwrap();
    assert_eq!(number.document(), &Json::from(1.5f64));
    let whole = FloatDocument::new(Json::from(3u64)).unwrap();
    assert_eq!(whole.document(), &Json::from(3u64));
    let null = FloatDocument::new(Json::Null).unwrap();
    assert_eq!(null.document(), &Json::Null);
    assert_eq!(FloatDocument::new(Json::String("1.5".to_string())), None);
    assert_eq!(FloatDocument::new(Json::Bool(true)), None);
    assert_eq!(FloatDocument::new(Json::Array(vec![])), None);
    assert_eq!(FloatDocument::new(Json::Object(serde_json::Map::new())), None);
}

#[test]
fn debug_text_lists_the_bytes_in_decimal() {
    assert_eq!(debug_text(&vec![]), "[]");
    assert_eq!(debug_text(&vec![0]), "[0]");
    assert_eq!(debug_text(&vec![7, 10, 99, 100, 109, 200, 255]), "[7, 10, 99, 100, 109, 200, 255]");
}
