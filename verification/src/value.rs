//! Structured values: scalars, lists, and records with unique keys in
//! insertion order.
use crate::document::{is_float_document, json_model, json_parts, Json, JsonParts};
use crate::entries::{distinct_keys, lemma_key_position_is, lemma_upsert, lookup, upsert};
use vstd::prelude::*;

verus! {

/// What a structured value holds.
pub enum Datum {
    Nothing,
    Bool(bool),
    Int(i64),
    /// A floating-point number, in document form: a number, or null, in
    /// every value that the program holds.
    Float(Json),
    Text(Seq<char>),
    /// Seconds since the epoch.
    Date(i64),
    Duration(i64),
    Binary(Seq<u8>),
    List(Seq<Datum>),
    /// The entries of a record, in insertion order.
    Record(Seq<(Seq<char>, Datum)>),
    /// The debug text of a value of any other kind.
    Opaque(Seq<char>),
}

/// A floating-point number. Floating-point arithmetic is outside what is
/// verified here, so the number is carried in document form, as
/// `serde_json::Value::from` makes it: a number, or null where the float is
/// infinite or not a number. No other document can be carried.
#[derive(Debug, PartialEq, Eq)]
pub struct FloatDocument {
    document: serde_json::Value,
}

/// A structured value.
#[derive(Debug, PartialEq, Eq)]
pub enum StructuredValue {
    Nothing,
    Bool(bool),
    Int(i64),
    Float(FloatDocument),
    String(String),
    Date(i64),
    Duration(i64),
    Binary(Vec<u8>),
    List(Vec<StructuredValue>),
    Record(Record),
    Opaque(String),
}

/// A record: entries in insertion order, no two with the same key.
#[derive(Debug, PartialEq, Eq)]
pub struct Record {
    entries: Vec<(String, StructuredValue)>,
}

impl View for StructuredValue {
    type V = Datum;

    open spec fn view(&self) -> Datum
        decreases self,
    {
        match self {
            StructuredValue::Nothing => Datum::Nothing,
            StructuredValue::Bool(b) => Datum::Bool(*b),
            StructuredValue::Int(i) => Datum::Int(*i),
            StructuredValue::Float(f) => Datum::Float(f.view()),
            StructuredValue::String(s) => Datum::Text(s@),
            StructuredValue::Date(t) => Datum::Date(*t),
            StructuredValue::Duration(d) => Datum::Duration(*d),
            StructuredValue::Binary(b) => Datum::Binary(b@),
            StructuredValue::List(items) => Datum::List(items_view(items@)),
            StructuredValue::Record(r) => Datum::Record(r.view()),
            StructuredValue::Opaque(s) => Datum::Opaque(s@),
        }
    }
}

impl View for FloatDocument {
    type V = Json;

    closed spec fn view(&self) -> Json {
        json_model(self.document)
    }
}

impl FloatDocument {
    #[verifier::type_invariant]
    spec fn stands_for_a_float(self) -> bool {
        is_float_document(self@)
    }

    /// Carries a document that is known to be a number or null.
    pub(crate) fn of(document: serde_json::Value) -> (float: FloatDocument)
        requires
            is_float_document(json_model(document)),
        ensures
            float@ == json_model(document),
    {
        FloatDocument { document }
    }

    /// The float that a document stands for, if it is a number or null.
    pub fn new(document: serde_json::Value) -> (float: Option<FloatDocument>)
        ensures
            match float {
                Some(carried) => carried@ == json_model(document) && is_float_document(carried@),
                None => !is_float_document(json_model(document)),
            },
    {
        let numeric = match json_parts(&document) {
            JsonParts::Null => true,
            JsonParts::Number => true,
            _ => false,
        };
        if numeric {
            Some(FloatDocument::of(document))
        } else {
            None
        }
    }

    /// The document that is carried.
    pub fn document(&self) -> (document: &serde_json::Value)
        ensures
            json_model(*document) == self@,
            is_float_document(self@),
    {
        proof {
            use_type_invariant(self);
        }
        &self.document
    }
}

impl View for Record {
    type V = Seq<(Seq<char>, Datum)>;

    closed spec fn view(&self) -> Seq<(Seq<char>, Datum)>
        decreases self,
    {
        entries_view(self.entries@)
    }
}

/// What a list of values holds, item by item.
pub open spec fn items_view(items: Seq<StructuredValue>) -> Seq<Datum>
    decreases items,
{
    if items.len() == 0 {
        Seq::empty()
    } else {
        items_view(items.drop_last()).push(items.last().view())
    }
}

/// What a list of keyed values holds, entry by entry.
pub open spec fn entries_view(entries: Seq<(String, StructuredValue)>) -> Seq<(Seq<char>, Datum)>
    decreases entries,
{
    if entries.len() == 0 {
        Seq::empty()
    } else {
        entries_view(entries.drop_last()).push((entries.last().0@, entries.last().1.view()))
    }
}

/// `items_view` has one item for each value, and it is that value's view.
pub proof fn lemma_items_view(items: Seq<StructuredValue>)
    ensures
        items_view(items).len() == items.len(),
        forall|i: int| 0 <= i < items.len() ==> #[trigger] items_view(items)[i] == items[i]@,
    decreases items.len(),
{
    reveal_with_fuel(items_view, 2);
    if items.len() > 0 {
        lemma_items_view(items.drop_last());
    }
}

/// `entries_view` has one entry for each keyed value: its key's text and its
/// value's view.
pub proof fn lemma_entries_view(entries: Seq<(String, StructuredValue)>)
    ensures
        entries_view(entries).len() == entries.len(),
        forall|i: int|
            0 <= i < entries.len() ==> #[trigger] entries_view(entries)[i] == (
                entries[i].0@,
                entries[i].1@,
            ),
    decreases entries.len(),
{
    reveal_with_fuel(entries_view, 2);
    if entries.len() > 0 {
        lemma_entries_view(entries.drop_last());
    }
}

/// Sets `key` to `value` in a list of keyed values.
fn set_entry(entries: &mut Vec<(String, StructuredValue)>, key: String, value: StructuredValue)
    ensures
        entries_view(final(entries)@) == upsert(entries_view(old(entries)@), key@, value@),
{
    let ghost before = entries_view(entries@);
    let ghost goal = upsert(before, key@, value@);
    proof {
        lemma_entries_view(entries@);
    }
    let n = entries.len();
    let mut i: usize = 0;
    while i < n
        invariant
            i <= n,
            n == entries@.len(),
            entries@ == old(entries)@,
            before == entries_view(entries@),
            goal == upsert(before, key@, value@),
            before.len() == n,
            forall|j: int| 0 <= j < n ==> #[trigger] before[j] == (entries@[j].0@, entries@[j].1@),
            forall|j: int| 0 <= j < i ==> (#[trigger] before[j]).0 != key@,
        decreases n - i,
    {
        if entries[i].0 == key {
            proof {
                lemma_key_position_is(before, key@, i as int);
            }
            entries.set(i, (key, value));
            proof {
                lemma_entries_view(entries@);
                assert forall|j: int| 0 <= j < n implies entries_view(entries@)[j] == goal[j] by {
                    if j != i {
                        assert(entries@[j] == old(entries)@[j]);
                    }
                }
                assert(entries_view(entries@) =~= goal);
            }
            return ;
        }
        i += 1;
    }
    proof {
        lemma_key_position_is(before, key@, n as int);
    }
    entries.push((key, value));
    proof {
        lemma_entries_view(entries@);
        assert(entries_view(entries@) =~= goal);
    }
}

impl Record {
    #[verifier::type_invariant]
    spec fn keys_are_distinct(self) -> bool {
        distinct_keys(self@)
    }

    /// The record with no entries.
    pub fn new() -> (r: Record)
        ensures
            r@ == Seq::<(Seq<char>, Datum)>::empty(),
    {
        Record { entries: Vec::new() }
    }

    /// The number of entries.
    pub fn len(&self) -> (n: usize)
        ensures
            n == self@.len(),
    {
        proof {
            lemma_entries_view(self.entries@);
        }
        self.entries.len()
    }

    /// The entries, in insertion order.
    pub fn entries(&self) -> (e: &Vec<(String, StructuredValue)>)
        ensures
            entries_view(e@) == self@,
            distinct_keys(self@),
    {
        proof {
            use_type_invariant(self);
        }
        &self.entries
    }

    /// Sets `key` to `value`: an entry with that key keeps its place and takes
    /// the new value, otherwise a new entry goes last.
    pub fn insert(&mut self, key: String, value: StructuredValue)
        ensures
            final(self)@ == upsert(old(self)@, key@, value@),
    {
        proof {
            use_type_invariant(&*self);
            lemma_upsert(self@, key@, value@);
        }
        let mut entries: Vec<(String, StructuredValue)> = Vec::new();
        core::mem::swap(&mut entries, &mut self.entries);
        set_entry(&mut entries, key, value);
        self.entries = entries;
    }

    /// The value of the entry with `key`, if there is one.
    pub fn get(&self, key: &String) -> (found: Option<&StructuredValue>)
        ensures
            match found {
                Some(value) => lookup(self@, key@) == Some(value@),
                None => lookup(self@, key@).is_none(),
            },
    {
        proof {
            lemma_entries_view(self.entries@);
        }
        let n = self.entries.len();
        let mut i: usize = 0;
        while i < n
            invariant
                i <= n,
                n == self.entries@.len(),
                self@.len() == n,
                forall|j: int|
                    0 <= j < n ==> #[trigger] self@[j] == (self.entries@[j].0@, self.entries@[j].1@),
                forall|j: int| 0 <= j < i ==> (#[trigger] self@[j]).0 != key@,
            decreases n - i,
        {
            if self.entries[i].0 == *key {
                proof {
                    lemma_key_position_is(self@, key@, i as int);
                }
                return Some(&self.entries[i].1);
            }
            i += 1;
        }
        proof {
            lemma_key_position_is(self@, key@, n as int);
        }
        None
    }
}

} // verus!
