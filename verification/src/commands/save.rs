//! Saving: each entry of a record as one store entry, in the root or in a
//! namespace.
use crate::codec::{encode_value, encoding_of};
use crate::error::CommandError;
use crate::value::{lemma_entries_view, Datum, Record, StructuredValue};
use vstd::prelude::*;
use vstd::string::StrSliceExecFns;
use vstd::utf8::encode_utf8;

verus! {

/// What became of encoding the values of a record, value by value: the bytes,
/// or `None` where the encoder failed.
pub open spec fn outcomes_view(encoded: Seq<Option<Vec<u8>>>) -> Seq<Option<Seq<u8>>> {
    encoded.map_values(
        |outcome: Option<Vec<u8>>|
            match outcome {
                Some(bytes) => Some(bytes@),
                None => None,
            },
    )
}

/// Whether `encoded` can be what became of encoding the values of `entries`:
/// one outcome for each entry, and bytes only where they are the stored bytes
/// of the entry's value.
pub open spec fn are_encodings_of(
    encoded: Seq<Option<Seq<u8>>>,
    entries: Seq<(Seq<char>, Datum)>,
) -> bool {
    &&& encoded.len() == entries.len()
    &&& forall|i: int|
        0 <= i < entries.len() ==> ((#[trigger] encoded[i]) matches Some(bytes) ==> bytes
            == encoding_of(entries[i].1))
}

/// The store entries to write for the entries of a record, in their order,
/// given what became of encoding each value: for each entry whose value was
/// encoded, the UTF-8 bytes of its key and the encoded bytes. An entry whose
/// value was not encoded is passed over.
pub open spec fn writes_of(
    entries: Seq<(Seq<char>, Datum)>,
    encoded: Seq<Option<Seq<u8>>>,
) -> Seq<(Seq<u8>, Seq<u8>)>
    decreases entries.len(),
{
    if entries.len() == 0 {
        Seq::empty()
    } else {
        let front = writes_of(entries.drop_last(), encoded);
        let at = entries.len() - 1;
        if at < encoded.len() && encoded[at] is Some {
            front.push((encode_utf8(entries.last().0), encoded[at]->0))
        } else {
            front
        }
    }
}

/// Whether `writes` is what flattening `entries` can give: the writes for
/// some outcome of encoding their values.
pub open spec fn is_flatten_of(
    writes: Seq<(Seq<u8>, Seq<u8>)>,
    entries: Seq<(Seq<char>, Datum)>,
) -> bool {
    exists|encoded: Seq<Option<Seq<u8>>>| #[trigger]
        are_encodings_of(encoded, entries) && writes == writes_of(entries, encoded)
}

/// The bytes of store entries, pair by pair.
pub open spec fn writes_view(writes: Seq<(Vec<u8>, Vec<u8>)>) -> Seq<(Seq<u8>, Seq<u8>)> {
    writes.map_values(|e: (Vec<u8>, Vec<u8>)| (e.0@, e.1@))
}

/// Encodes the value of each entry of a record, in order. The encoder decides
/// which values it fails on; the bytes that it gives are the stored bytes of
/// the value.
pub fn encode_entries(record: &Record) -> (encoded: Vec<Option<Vec<u8>>>)
    ensures
        are_encodings_of(outcomes_view(encoded@), record@),
{
    let entries = record.entries();
    let mut encoded: Vec<Option<Vec<u8>>> = Vec::new();
    let mut i: usize = 0;
    proof {
        lemma_entries_view(entries@);
    }
    while i < entries.len()
        invariant
            i <= entries.len(),
            record@.len() == entries.len(),
            forall|k: int|
                0 <= k < entries.len() ==> #[trigger] record@[k] == (
                    entries@[k].0@,
                    entries@[k].1@,
                ),
            encoded@.len() == i,
            forall|k: int|
                0 <= k < i ==> ((#[trigger] outcomes_view(encoded@)[k]) matches Some(bytes)
                    ==> bytes == encoding_of(record@[k].1)),
        decreases entries.len() - i,
    {
        let ghost before = encoded@;
        let outcome = encode_value(&entries[i].1);
        encoded.push(outcome);
        proof {
            assert(record@[i as int].1 == entries@[i as int].1@);
            assert forall|k: int| 0 <= k < i + 1 implies ((#[trigger] outcomes_view(
                encoded@,
            )[k]) matches Some(bytes) ==> bytes == encoding_of(record@[k].1)) by {
                if k < i {
                    assert(outcomes_view(encoded@)[k] == outcomes_view(before)[k]);
                }
            }
        }
        i += 1;
    }
    encoded
}

/// The store entries to write for a record, given what became of encoding
/// each of its values. An entry without an outcome is passed over like one
/// whose value was not encoded.
pub fn writes_for(record: &Record, encoded: &Vec<Option<Vec<u8>>>) -> (writes: Vec<
    (Vec<u8>, Vec<u8>),
>)
    ensures
        writes_view(writes@) == writes_of(record@, outcomes_view(encoded@)),
{
    let entries = record.entries();
    let mut writes: Vec<(Vec<u8>, Vec<u8>)> = Vec::new();
    let mut i: usize = 0;
    proof {
        lemma_entries_view(entries@);
    }
    while i < entries.len()
        invariant
            i <= entries.len(),
            record@.len() == entries.len(),
            forall|k: int|
                0 <= k < entries.len() ==> #[trigger] record@[k] == (
                    entries@[k].0@,
                    entries@[k].1@,
                ),
            writes_view(writes@) == writes_of(record@.take(i as int), outcomes_view(encoded@)),
        decreases entries.len() - i,
    {
        proof {
            assert(record@.take(i + 1).drop_last() == record@.take(i as int));
            assert(record@.take(i + 1).last() == record@[i as int]);
        }
        if i < encoded.len() {
            match &encoded[i] {
                Some(bytes) => {
                    let key = entries[i].0.as_str().as_bytes_vec();
                    writes.push((key, bytes.clone()));
                    assert(writes_view(writes@) =~= writes_of(
                        record@.take(i + 1),
                        outcomes_view(encoded@),
                    ));
                },
                None => {},
            }
        }
        i += 1;
    }
    assert(record@.take(i as int) == record@);
    writes
}

/// Flattens a record into the store entries to write for it: the value of
/// each entry is encoded, and the entries whose value was encoded are written
/// under the UTF-8 bytes of their keys.
pub fn flatten(record: &Record) -> (writes: Vec<(Vec<u8>, Vec<u8>)>)
    ensures
        is_flatten_of(writes_view(writes@), record@),
{
    let encoded = encode_entries(record);
    let writes = writes_for(record, &encoded);
    assert(are_encodings_of(outcomes_view(encoded@), record@));
    writes
}

/// The save command.
#[derive(Debug, PartialEq, Eq)]
pub struct SledSave;

/// What happened last in a save.
#[derive(Debug, PartialEq, Eq)]
pub enum SaveEvent {
    /// Nothing yet.
    Start,
    /// Whether the store path is an existing directory; `path` is its text.
    Directory { found: bool, path: String },
    StoreOpened,
    /// The engine refused to open the store at `path`, with its complaint.
    StoreRefused { path: String, detail: String },
    NamespaceOpened,
    /// The engine refused to open the namespace of the store at `path`, with
    /// its complaint.
    NamespaceRefused { path: String, detail: String },
    /// Every write has been attempted; the engine refused `failed` of them.
    Written { failed: usize },
}

/// What a save needs done next.
#[derive(Debug, PartialEq, Eq)]
pub enum SaveAction {
    /// Find out whether the store path is an existing directory.
    CheckDirectory,
    OpenStore,
    /// Open the namespace of this name, creating it if need be.
    OpenNamespace(Vec<u8>),
    /// Write these entries into what was opened last, each on its own: a
    /// write that fails is passed over and the others are still attempted.
    Write(Vec<(Vec<u8>, Vec<u8>)>),
    /// The save has ended with this result.
    Finish(Result<StructuredValue, CommandError>),
}

/// Whether `action` is the write of the record's entries.
pub open spec fn writes_record(action: SaveAction, record: Seq<(Seq<char>, Datum)>) -> bool {
    action matches SaveAction::Write(writes) && is_flatten_of(writes_view(writes@), record)
}

impl SledSave {
    pub fn name(&self) -> (text: &'static str)
        ensures
            text@ == "sled-save"@,
    {
        "sled-save"
    }

    pub fn description(&self) -> (text: &'static str)
        ensures
            text@ == "Save a record to sled db (encode by rmp-serde)"@,
    {
        "Save a record to sled db (encode by rmp-serde)"
    }

    /// One step of a save of `input` into the namespace `tree`, or into the
    /// root where there is none. An input that is not a record ends the save
    /// with an input error before anything is looked at or opened. The path
    /// is checked next, and the save ends with a path error where it is no
    /// directory, so that nothing is created. Then the store is opened, then
    /// the namespace where one is given; a refusal ends the save with the
    /// path and the engine's complaint. Then the record's entries are
    /// written, and the save ends with nothing, however many of the single
    /// writes the engine refused.
    pub fn run(&self, input: &StructuredValue, tree: &Option<String>, event: SaveEvent) -> (action:
        SaveAction)
        ensures
            match input@ {
                Datum::Record(record) => match event {
                    SaveEvent::Start => action is CheckDirectory,
                    SaveEvent::Directory { found, path } => if found {
                        action is OpenStore
                    } else {
                        action matches SaveAction::Finish(
                            Err(CommandError::Path { path: reported }),
                        ) && reported@ == path@
                    },
                    SaveEvent::StoreOpened => match tree {
                        Some(name) => action matches SaveAction::OpenNamespace(bytes) && bytes@
                            == encode_utf8(name@),
                        None => writes_record(action, record),
                    },
                    SaveEvent::StoreRefused { path, detail } => action matches SaveAction::Finish(
                        Err(CommandError::StoreOpen { path: at, detail: reported }),
                    ) && at@ == path@ && reported@ == detail@,
                    SaveEvent::NamespaceOpened => writes_record(action, record),
                    SaveEvent::NamespaceRefused { path, detail } => action matches SaveAction::Finish(
                        Err(CommandError::NamespaceOpen { path: at, detail: reported }),
                    ) && at@ == path@ && reported@ == detail@,
                    SaveEvent::Written { failed } => action matches SaveAction::Finish(
                        Ok(StructuredValue::Nothing),
                    ),
                },
                _ => action matches SaveAction::Finish(Err(CommandError::InputShape)),
            },
    {
        match input {
            StructuredValue::Record(record) => match event {
                SaveEvent::Start => SaveAction::CheckDirectory,
                SaveEvent::Directory { found, path } => if found {
                    SaveAction::OpenStore
                } else {
                    SaveAction::Finish(Err(CommandError::Path { path }))
                },
                SaveEvent::StoreOpened => match tree {
                    Some(name) => SaveAction::OpenNamespace(name.as_str().as_bytes_vec()),
                    None => SaveAction::Write(flatten(record)),
                },
                SaveEvent::StoreRefused { path, detail } => SaveAction::Finish(
                    Err(CommandError::StoreOpen { path, detail }),
                ),
                SaveEvent::NamespaceOpened => SaveAction::Write(flatten(record)),
                SaveEvent::NamespaceRefused { path, detail } => SaveAction::Finish(
                    Err(CommandError::NamespaceOpen { path, detail }),
                ),
                SaveEvent::Written { failed: _ } => SaveAction::Finish(
                    Ok(StructuredValue::Nothing),
                ),
            },
            _ => SaveAction::Finish(Err(CommandError::InputShape)),
        }
    }
}

} // verus!
