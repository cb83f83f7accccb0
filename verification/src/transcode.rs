//! The two directions between structured values and documents.
use crate::document::{
    is_float_document, json_array, json_as_i64, json_bool, json_int, json_model, json_models, json_null, json_object,
    json_parts, json_text, object_entries, object_insert, object_new, Json, JsonParts, Num,
};
use crate::entries::{collect, distinct_keys, lemma_collect_distinct, lemma_key_position_is};
use crate::text::{bytes_debug, debug_text};
use crate::value::{
    entries_view, items_view, lemma_entries_view, lemma_items_view, Datum, FloatDocument, Record,
    StructuredValue,
};
use vstd::prelude::*;

verus! {

/// The document of a datum. Integers, dates and durations become integer
/// numbers; a float is already a document; a value of another kind becomes
/// its debug text. Binary data has no document form either: the text chosen
/// here for it is the debug form of its bytes, which is this library's own
/// choice for callers that hand binary data over as such.
pub open spec fn document_of(d: Datum) -> Json
    decreases d,
{
    match d {
        Datum::Nothing => Json::Null,
        Datum::Bool(b) => Json::Bool(b),
        Datum::Int(i) => Json::Number(Num::Int(i as int)),
        Datum::Float(j) => j,
        Datum::Text(s) => Json::Text(s),
        Datum::Date(t) => Json::Number(Num::Int(t as int)),
        Datum::Duration(n) => Json::Number(Num::Int(n as int)),
        Datum::Binary(b) => Json::Text(bytes_debug(b)),
        Datum::List(items) => Json::Array(documents_of(items)),
        Datum::Record(entries) => Json::Object(object_of(entries)),
        Datum::Opaque(s) => Json::Text(s),
    }
}

/// The documents of a list of data, item by item.
pub open spec fn documents_of(items: Seq<Datum>) -> Seq<Json>
    decreases items,
{
    if items.len() == 0 {
        Seq::empty()
    } else {
        documents_of(items.drop_last()).push(document_of(items.last()))
    }
}

/// The object entries of a record's entries: the same keys in the same order,
/// each with the document of its value.
pub open spec fn object_of(entries: Seq<(Seq<char>, Datum)>) -> Seq<(Seq<char>, Json)>
    decreases entries,
{
    if entries.len() == 0 {
        Seq::empty()
    } else {
        object_of(entries.drop_last()).push((entries.last().0, document_of(entries.last().1)))
    }
}

/// The datum of a document. A number that is an integer between `i64::MIN`
/// and `i64::MAX` becomes an integer, any other number a float; an object
/// becomes the record that setting its entries in turn gives.
pub open spec fn datum_of(j: Json) -> Datum
    decreases j,
{
    match j {
        Json::Null => Datum::Nothing,
        Json::Bool(b) => Datum::Bool(b),
        Json::Number(Num::Int(i)) => if i64::MIN <= i <= i64::MAX {
            Datum::Int(i as i64)
        } else {
            Datum::Float(j)
        },
        Json::Number(Num::Real(_)) => Datum::Float(j),
        Json::Text(s) => Datum::Text(s),
        Json::Array(items) => Datum::List(data_of(items)),
        Json::Object(entries) => Datum::Record(collect(record_of(entries))),
    }
}

/// The data of a list of documents, item by item.
pub open spec fn data_of(items: Seq<Json>) -> Seq<Datum>
    decreases items,
{
    if items.len() == 0 {
        Seq::empty()
    } else {
        data_of(items.drop_last()).push(datum_of(items.last()))
    }
}

/// The keyed data of an object's entries, entry by entry.
pub open spec fn record_of(entries: Seq<(Seq<char>, Json)>) -> Seq<(Seq<char>, Datum)>
    decreases entries,
{
    if entries.len() == 0 {
        Seq::empty()
    } else {
        record_of(entries.drop_last()).push((entries.last().0, datum_of(entries.last().1)))
    }
}

/// Turns a structured value into its document. The document of a float is
/// the number, or the null, that it carries.
pub fn value_to_json(value: &StructuredValue) -> (json: serde_json::Value)
    ensures
        json_model(json) == document_of(value@),
        value@ is Float ==> is_float_document(json_model(json)),
    decreases value@,
{
    match value {
        StructuredValue::Nothing => json_null(),
        StructuredValue::Bool(b) => json_bool(*b),
        StructuredValue::Int(i) => json_int(*i),
        StructuredValue::Float(float) => float.document().clone(),
        StructuredValue::String(s) => json_text(s.clone()),
        StructuredValue::Date(t) => json_int(*t),
        StructuredValue::Duration(d) => json_int(*d),
        StructuredValue::Binary(bytes) => json_text(debug_text(bytes)),
        StructuredValue::List(items) => {
            let mut docs: Vec<serde_json::Value> = Vec::new();
            let mut i: usize = 0;
            proof {
                lemma_items_view(items@);
            }
            while i < items.len()
                invariant
                    i <= items.len(),
                    value@ == Datum::List(items_view(items@)),
                    items_view(items@).len() == items.len(),
                    forall|k: int|
                        0 <= k < items.len() ==> #[trigger] items_view(items@)[k] == items@[k]@,
                    json_models(docs@) == documents_of(items_view(items@).take(i as int)),
                decreases items.len() - i,
            {
                proof {
                    // The item lies below the list, so the call descends.
                    let all = items_view(items@);
                    assert(all[i as int] == items@[i as int]@);
                    assert(decreases_to!(all => all[i as int]));
                    assert(value@->List_0 == all);
                    assert(decreases_to!(value@ => value@->List_0));
                }
                let doc = value_to_json(&items[i]);
                docs.push(doc);
                proof {
                    let all = items_view(items@);
                    assert(all.take(i + 1).drop_last() == all.take(i as int));
                    assert(json_models(docs@) =~= documents_of(all.take(i + 1)));
                }
                i += 1;
            }
            assert(items_view(items@).take(i as int) == items_view(items@));
            json_array(docs)
        },
        StructuredValue::Record(record) => {
            let entries = record.entries();
            let mut map = object_new();
            let mut i: usize = 0;
            proof {
                lemma_entries_view(entries@);
            }
            while i < entries.len()
                invariant
                    i <= entries.len(),
                    value@ == Datum::Record(record@),
                    record@ == entries_view(entries@),
                    distinct_keys(record@),
                    record@.len() == entries.len(),
                    forall|k: int|
                        0 <= k < entries.len() ==> #[trigger] record@[k] == (
                            entries@[k].0@,
                            entries@[k].1@,
                        ),
                    object_entries(map) == object_of(record@.take(i as int)),
                decreases entries.len() - i,
            {
                proof {
                    // The entry's value lies below the record, so the call descends.
                    assert(record@[i as int] == (entries@[i as int].0@, entries@[i as int].1@));
                    assert(decreases_to!(record@ => record@[i as int]));
                    assert(value@->Record_0 == record@);
                    assert(decreases_to!(value@ => value@->Record_0));
                    assert(decreases_to!(record@[i as int] => record@[i as int].1));
                }
                let doc = value_to_json(&entries[i].1);
                proof {
                    // No earlier entry has this key, so the insertion goes last.
                    let front = record@.take(i as int);
                    let key = entries@[i as int].0@;
                    assert(record@.take(i + 1).drop_last() == front);
                    lemma_object_of(front);
                    assert forall|k: int| 0 <= k < i implies (#[trigger] object_of(front)[k]).0
                        != key by {
                        assert(front[k] == record@[k]);
                        assert(record@[k].0 != record@[i as int].0);
                    }
                    lemma_key_position_is(object_of(front), key, i as int);
                }
                object_insert(&mut map, entries[i].0.clone(), doc);
                i += 1;
            }
            assert(record@.take(i as int) == record@);
            json_object(map)
        },
        StructuredValue::Opaque(s) => json_text(s.clone()),
    }
}

/// Turns a document into its structured value. A float comes only of a
/// number, which it carries.
pub fn json_to_value(json: &serde_json::Value) -> (value: StructuredValue)
    ensures
        value@ == datum_of(json_model(*json)),
        value@ matches Datum::Float(carried) ==> carried is Number && carried == json_model(*json),
    decreases json_model(*json),
{
    let ghost whole = json_model(*json);
    match json_parts(json) {
        JsonParts::Null => StructuredValue::Nothing,
        JsonParts::Bool(b) => StructuredValue::Bool(b),
        JsonParts::Number => match json_as_i64(json) {
            Some(i) => StructuredValue::Int(i),
            None => StructuredValue::Float(FloatDocument::of(json.clone())),
        },
        JsonParts::Text(s) => StructuredValue::String(s.clone()),
        JsonParts::Array(items) => {
            let ghost all = json_models(items@);
            let mut values: Vec<StructuredValue> = Vec::new();
            let mut i: usize = 0;
            while i < items.len()
                invariant
                    i <= items.len(),
                    whole == json_model(*json),
                    whole == Json::Array(all),
                    all == json_models(items@),
                    items_view(values@) == data_of(all.take(i as int)),
                decreases items.len() - i,
            {
                proof {
                    // The item lies below the array, so the call descends.
                    assert(all[i as int] == json_model(items@[i as int]));
                    assert(whole->Array_0 == all);
                    assert(decreases_to!(whole => whole->Array_0));
                    assert(decreases_to!(all => all[i as int]));
                }
                let item = json_to_value(&items[i]);
                let ghost before = values@;
                values.push(item);
                proof {
                    assert(all.take(i + 1).drop_last() == all.take(i as int));
                    assert(values@.drop_last() == before);
                }
                i += 1;
            }
            assert(all.take(i as int) == all);
            StructuredValue::List(values)
        },
        JsonParts::Object(entries) => {
            let ghost all = entries@.map_values(
                |e: (&String, &serde_json::Value)| (e.0@, json_model(*e.1)),
            );
            let mut record = Record::new();
            let mut i: usize = 0;
            while i < entries.len()
                invariant
                    i <= entries.len(),
                    whole == json_model(*json),
                    whole == Json::Object(all),
                    all == entries@.map_values(
                        |e: (&String, &serde_json::Value)| (e.0@, json_model(*e.1)),
                    ),
                    record@ == collect(record_of(all.take(i as int))),
                decreases entries.len() - i,
            {
                proof {
                    // The entry's value lies below the object, so the call descends.
                    assert(all[i as int] == (entries@[i as int].0@, json_model(*entries@[i as int].1)));
                    assert(whole->Object_0 == all);
                    assert(decreases_to!(whole => whole->Object_0));
                    assert(decreases_to!(all => all[i as int]));
                    assert(decreases_to!(all[i as int] => all[i as int].1));
                }
                let item = json_to_value(entries[i].1);
                proof {
                    let front = all.take(i as int);
                    let next = all.take(i + 1);
                    assert(next.drop_last() == front);
                    lemma_record_of(next);
                    assert(record_of(next).drop_last() == record_of(front));
                }
                record.insert(entries[i].0.clone(), item);
                i += 1;
            }
            assert(all.take(i as int) == all);
            StructuredValue::Record(record)
        },
    }
}

/// `record_of` keeps the keys, in place.
pub proof fn lemma_record_of(entries: Seq<(Seq<char>, Json)>)
    ensures
        record_of(entries).len() == entries.len(),
        forall|i: int|
            0 <= i < entries.len() ==> #[trigger] record_of(entries)[i] == (
                entries[i].0,
                datum_of(entries[i].1),
            ),
    decreases entries.len(),
{
    reveal_with_fuel(record_of, 2);
    if entries.len() > 0 {
        lemma_record_of(entries.drop_last());
    }
}

/// `object_of` keeps the keys, in place.
pub proof fn lemma_object_of(entries: Seq<(Seq<char>, Datum)>)
    ensures
        object_of(entries).len() == entries.len(),
        forall|i: int|
            0 <= i < entries.len() ==> #[trigger] object_of(entries)[i] == (
                entries[i].0,
                document_of(entries[i].1),
            ),
    decreases entries.len(),
{
    reveal_with_fuel(object_of, 2);
    if entries.len() > 0 {
        lemma_object_of(entries.drop_last());
    }
}

/// `documents_of` has one document for each datum, in place.
pub proof fn lemma_documents_of(items: Seq<Datum>)
    ensures
        documents_of(items).len() == items.len(),
        forall|i: int|
            0 <= i < items.len() ==> #[trigger] documents_of(items)[i] == document_of(items[i]),
    decreases items.len(),
{
    reveal_with_fuel(documents_of, 2);
    if items.len() > 0 {
        lemma_documents_of(items.drop_last());
    }
}

/// `data_of` has one datum for each document, in place.
pub proof fn lemma_data_of(items: Seq<Json>)
    ensures
        data_of(items).len() == items.len(),
        forall|i: int| 0 <= i < items.len() ==> #[trigger] data_of(items)[i] == datum_of(items[i]),
    decreases items.len(),
{
    reveal_with_fuel(data_of, 2);
    if items.len() > 0 {
        lemma_data_of(items.drop_last());
    }
}

/// A datum that its document gives back unchanged: it is built from nothing,
/// booleans, integers, text, floats whose document is a number other than an
/// integer between `i64::MIN` and `i64::MAX`, lists of such data, and records
/// of such data whose keys are distinct.
pub open spec fn faithful(d: Datum) -> bool
    decreases d,
{
    match d {
        Datum::Nothing => true,
        Datum::Bool(_) => true,
        Datum::Int(_) => true,
        Datum::Text(_) => true,
        Datum::Float(j) => match j {
            Json::Number(Num::Int(i)) => !(i64::MIN <= i <= i64::MAX),
            Json::Number(Num::Real(_)) => true,
            _ => false,
        },
        Datum::List(items) => forall|i: int| 0 <= i < items.len() ==> faithful(#[trigger] items[i]),
        Datum::Record(entries) => distinct_keys(entries) && forall|i: int|
            0 <= i < entries.len() ==> faithful((#[trigger] entries[i]).1),
        _ => false,
    }
}

/// Document round trip: the datum of the document of a faithful datum is that
/// datum. In particular this holds of every datum built only from nothing,
/// booleans, integers, text, lists, and records with distinct keys.
pub proof fn lemma_document_round_trip(d: Datum)
    requires
        faithful(d),
    ensures
        datum_of(document_of(d)) == d,
    decreases d,
{
    match d {
        Datum::List(items) => {
            lemma_documents_of(items);
            lemma_data_of(documents_of(items));
            assert forall|i: int| 0 <= i < items.len() implies #[trigger] data_of(
                documents_of(items),
            )[i] == items[i] by {
                assert(faithful(items[i]));
                lemma_document_round_trip(items[i]);
            }
            assert(data_of(documents_of(items)) =~= items);
        },
        Datum::Record(entries) => {
            lemma_object_of(entries);
            lemma_record_of(object_of(entries));
            assert forall|i: int| 0 <= i < entries.len() implies #[trigger] record_of(
                object_of(entries),
            )[i] == entries[i] by {
                assert(faithful(entries[i].1));
                lemma_document_round_trip(entries[i].1);
            }
            assert(record_of(object_of(entries)) =~= entries);
            lemma_collect_distinct(entries);
        },
        _ => {},
    }
}

} // verus!
