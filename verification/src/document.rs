//! The document form of a value: a tree of null, booleans, numbers, text,
//! arrays and objects, held in a `serde_json::Value`.
//!
//! Verus cannot look inside a `serde_json::Value`. This module names what such
//! a value holds (`json_model`) and gives each `serde_json` operation that the
//! crate relies on a contract over that name. Those contracts are trusted, not
//! proved; everything else in the crate is proved against them.
use crate::entries::upsert;
use vstd::prelude::*;

verus! {

/// What a document number holds.
pub enum Num {
    /// An integer between `i64::MIN` and `u64::MAX`.
    Int(int),
    /// A finite binary64 number, identified by its bit pattern.
    Real(u64),
}

/// What a document holds. The entries of an object are in the order in which
/// the object yields them.
pub enum Json {
    Null,
    Bool(bool),
    Number(Num),
    Text(Seq<char>),
    Array(Seq<Json>),
    Object(Seq<(Seq<char>, Json)>),
}

#[verifier::external_type_specification]
#[verifier::external_body]
pub struct ExJsonValue(serde_json::Value);

#[verifier::external_type_specification]
#[verifier::external_body]
#[verifier::reject_recursive_types(K)]
#[verifier::reject_recursive_types(V)]
pub struct ExJsonMap<K, V>(serde_json::Map<K, V>);

/// Whether a document can stand for a floating-point number: it is a number,
/// or null, which stands for the infinite and the not-a-number.
pub open spec fn is_float_document(j: Json) -> bool {
    j is Number || j is Null
}

/// What the document `j` holds.
pub uninterp spec fn json_model(j: serde_json::Value) -> Json;

/// The entries of the object under construction `m`, in insertion order.
pub uninterp spec fn object_entries(m: serde_json::Map<String, serde_json::Value>) -> Seq<(Seq<char>, Json)>;

/// The models of a list of documents, item by item.
pub open spec fn json_models(items: Seq<serde_json::Value>) -> Seq<Json> {
    items.map_values(|j: serde_json::Value| json_model(j))
}

/// `serde_json::Value::Null`: the null document.
#[verifier::external_body]
pub(crate) fn json_null() -> (j: serde_json::Value)
    ensures
        json_model(j) == Json::Null,
{
    serde_json::Value::Null
}

/// `serde_json::Value::from(bool)`: the boolean document of `b`.
#[verifier::external_body]
pub(crate) fn json_bool(b: bool) -> (j: serde_json::Value)
    ensures
        json_model(j) == Json::Bool(b),
{
    serde_json::Value::from(b)
}

/// `serde_json::Value::from(i64)`: the number document that holds the integer `i`.
#[verifier::external_body]
pub(crate) fn json_int(i: i64) -> (j: serde_json::Value)
    ensures
        json_model(j) == Json::Number(Num::Int(i as int)),
{
    serde_json::Value::from(i)
}

/// `serde_json::Value::from(String)`: the text document of `s`.
#[verifier::external_body]
pub(crate) fn json_text(s: String) -> (j: serde_json::Value)
    ensures
        json_model(j) == Json::Text(s@),
{
    serde_json::Value::from(s)
}

/// `serde_json::Value::Array`: the array document of `items`, in their order.
#[verifier::external_body]
pub(crate) fn json_array(items: Vec<serde_json::Value>) -> (j: serde_json::Value)
    ensures
        json_model(j) == Json::Array(json_models(items@)),
{
    serde_json::Value::Array(items)
}

/// `serde_json::Map::new`: an object under construction with no entries.
#[verifier::external_body]
pub(crate) fn object_new() -> (m: serde_json::Map<String, serde_json::Value>)
    ensures
        object_entries(m) == Seq::<(Seq<char>, Json)>::empty(),
{
    serde_json::Map::new()
}

/// `serde_json::Map::insert`, with insertion order preserved: an entry whose
/// key is already present keeps its place and takes the new value, any other
/// goes last.
#[verifier::external_body]
pub(crate) fn object_insert(m: &mut serde_json::Map<String, serde_json::Value>, key: String, value: serde_json::Value)
    ensures
        object_entries(*final(m)) == upsert(object_entries(*old(m)), key@, json_model(value)),
{
    m.insert(key, value);
}

/// `serde_json::Value::Object`: the object document of the entries of `m`.
#[verifier::external_body]
pub(crate) fn json_object(m: serde_json::Map<String, serde_json::Value>) -> (j: serde_json::Value)
    ensures
        json_model(j) == Json::Object(object_entries(m)),
{
    serde_json::Value::Object(m)
}

/// `<serde_json::Value as Clone>::clone`: a document that holds what `j` holds.
pub assume_specification[ <serde_json::Value as Clone>::clone ](j: &serde_json::Value) -> (c: serde_json::Value)
    ensures
        json_model(c) == json_model(*j),
;

/// `serde_json::Value::as_i64`: the integer of a number document that holds
/// one between `i64::MIN` and `i64::MAX`, and `None` for every other document.
#[verifier::external_body]
pub(crate) fn json_as_i64(j: &serde_json::Value) -> (r: Option<i64>)
    ensures
        r == match json_model(*j) {
            Json::Number(Num::Int(i)) if i64::MIN <= i <= i64::MAX => Some(i as i64),
            _ => None,
        },
{
    j.as_i64()
}

/// One level of a document, with its parts borrowed from it.
pub enum JsonParts<'a> {
    Null,
    Bool(bool),
    Number,
    Text(&'a String),
    Array(&'a Vec<serde_json::Value>),
    Object(Vec<(&'a String, &'a serde_json::Value)>),
}

impl<'a> JsonParts<'a> {
    /// Whether these parts are the top level of a document that holds `whole`.
    pub open spec fn are_parts_of(self, whole: Json) -> bool {
        match self {
            JsonParts::Null => whole == Json::Null,
            JsonParts::Bool(b) => whole == Json::Bool(b),
            JsonParts::Number => whole is Number,
            JsonParts::Text(s) => whole == Json::Text(s@),
            JsonParts::Array(items) => whole == Json::Array(json_models(items@)),
            JsonParts::Object(entries) => whole == Json::Object(
                entries@.map_values(|e: (&String, &serde_json::Value)| (e.0@, json_model(*e.1))),
            ),
        }
    }
}

/// Tells the six variants of `serde_json::Value` apart and borrows their
/// fields; the entries of an object come from `serde_json::Map::iter`, which
/// yields them in the order of the map.
#[verifier::external_body]
pub(crate) fn json_parts<'a>(j: &'a serde_json::Value) -> (p: JsonParts<'a>)
    ensures
        p.are_parts_of(json_model(*j)),
{
    match j {
        serde_json::Value::Null => JsonParts::Null,
        serde_json::Value::Bool(b) => JsonParts::Bool(*b),
        serde_json::Value::Number(_) => JsonParts::Number,
        serde_json::Value::String(s) => JsonParts::Text(s),
        serde_json::Value::Array(items) => JsonParts::Array(items),
        serde_json::Value::Object(m) => JsonParts::Object(m.iter().collect()),
    }
}

} // verus!
