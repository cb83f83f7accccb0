//! Loading: the entries of a store, or of one of its namespaces, as one record.
use crate::codec::{decode_value, decoding_of};
use crate::entries::collect;
use crate::error::CommandError;
use crate::text::{text_lossy, text_of};
use crate::value::{Datum, Record, StructuredValue};
use vstd::prelude::*;
use vstd::string::StrSliceExecFns;
use vstd::utf8::encode_utf8;

verus! {

/// The bytes of stored entries, pair by pair.
pub open spec fn pairs_view(entries: Seq<(Vec<u8>, Vec<u8>)>) -> Seq<(Seq<u8>, Seq<u8>)> {
    entries.map_values(|e: (Vec<u8>, Vec<u8>)| (e.0@, e.1@))
}

/// What a stored value is loaded as: the bytes themselves in raw mode,
/// otherwise the datum that they decode to, if any.
pub open spec fn loaded_value(bytes: Seq<u8>, raw: bool) -> Option<Datum> {
    if raw {
        Some(Datum::Binary(bytes))
    } else {
        decoding_of(bytes)
    }
}

/// The entry at `at` is the first whose value cannot be loaded.
pub open spec fn fails_first_at(entries: Seq<(Seq<u8>, Seq<u8>)>, raw: bool, at: int) -> bool {
    &&& 0 <= at < entries.len()
    &&& loaded_value(entries[at].1, raw).is_none()
    &&& forall|i: int| 0 <= i < at ==> loaded_value((#[trigger] entries[i]).1, raw).is_some()
}

/// Every entry's value can be loaded.
pub open spec fn all_load(entries: Seq<(Seq<u8>, Seq<u8>)>, raw: bool) -> bool {
    forall|i: int| 0 <= i < entries.len() ==> loaded_value((#[trigger] entries[i]).1, raw).is_some()
}

/// Each entry as a record entry: the text of its key and its loaded value.
pub open spec fn loaded_entries(entries: Seq<(Seq<u8>, Seq<u8>)>, raw: bool) -> Seq<
    (Seq<char>, Datum),
> {
    entries.map_values(
        |e: (Seq<u8>, Seq<u8>)| (text_of(e.0), loaded_value(e.1, raw).unwrap()),
    )
}

/// The record that a load yields where every value can be loaded: the loaded
/// entries set in turn, so that of two keys with the same text the first
/// decides the place and the last the value.
pub open spec fn projection(entries: Seq<(Seq<u8>, Seq<u8>)>, raw: bool) -> Seq<
    (Seq<char>, Datum),
> {
    collect(loaded_entries(entries, raw))
}

/// Whether `result` is what loading `entries` yields: the projection where
/// every value can be loaded, otherwise the decode error of the first entry
/// whose value cannot, named by the text of its key.
pub open spec fn is_load_of(
    result: Result<StructuredValue, CommandError>,
    entries: Seq<(Seq<u8>, Seq<u8>)>,
    raw: bool,
) -> bool {
    match result {
        Ok(value) => all_load(entries, raw) && value@ == Datum::Record(projection(entries, raw)),
        Err(CommandError::Decode { key, .. }) => exists|at: int|
            fails_first_at(entries, raw, at) && key@ == text_of(#[trigger] entries[at].0),
        Err(_) => false,
    }
}

/// What was read, item by item: the bytes of an entry, or `None` where the
/// engine failed to read one.
pub open spec fn reads_view(items: Seq<Option<(Vec<u8>, Vec<u8>)>>) -> Seq<
    Option<(Seq<u8>, Seq<u8>)>,
> {
    items.map_values(
        |item: Option<(Vec<u8>, Vec<u8>)>|
            match item {
                Some(entry) => Some((entry.0@, entry.1@)),
                None => None,
            },
    )
}

/// The entries among what was read, in their order; a failed read is passed
/// over.
pub open spec fn readable_of(items: Seq<Option<(Seq<u8>, Seq<u8>)>>) -> Seq<(Seq<u8>, Seq<u8>)>
    decreases items.len(),
{
    if items.len() == 0 {
        Seq::empty()
    } else {
        let front = readable_of(items.drop_last());
        match items.last() {
            Some(entry) => front.push(entry),
            None => front,
        }
    }
}

/// The entries among what was read, in their order; a failed read is passed
/// over.
pub fn readable(items: &Vec<Option<(Vec<u8>, Vec<u8>)>>) -> (entries: Vec<(Vec<u8>, Vec<u8>)>)
    ensures
        pairs_view(entries@) == readable_of(reads_view(items@)),
{
    let ghost all = reads_view(items@);
    let mut entries: Vec<(Vec<u8>, Vec<u8>)> = Vec::new();
    let mut i: usize = 0;
    while i < items.len()
        invariant
            i <= items.len(),
            all == reads_view(items@),
            pairs_view(entries@) == readable_of(all.take(i as int)),
        decreases items.len() - i,
    {
        proof {
            assert(all.take(i + 1).drop_last() == all.take(i as int));
            assert(all.take(i + 1).last() == all[i as int]);
        }
        match &items[i] {
            Some(entry) => {
                entries.push((entry.0.clone(), entry.1.clone()));
                assert(pairs_view(entries@) =~= readable_of(all.take(i + 1)));
            },
            None => {},
        }
        i += 1;
    }
    assert(all.take(i as int) == all);
    entries
}

/// Loads stored entries, in their order, into one record. In raw mode each
/// value is kept as binary data. Otherwise each value is decoded, and the
/// first that cannot be decoded ends the load with an error that names its
/// key; nothing of what was loaded before is returned.
pub fn read_from_iter(entries: &Vec<(Vec<u8>, Vec<u8>)>, raw: bool) -> (result: Result<
    StructuredValue,
    CommandError,
>)
    ensures
        is_load_of(result, pairs_view(entries@), raw),
{
    let ghost pairs = pairs_view(entries@);
    let mut record = Record::new();
    let mut i: usize = 0;
    while i < entries.len()
        invariant
            i <= entries.len(),
            pairs == pairs_view(entries@),
            all_load(pairs.take(i as int), raw),
            record@ == projection(pairs.take(i as int), raw),
        decreases entries.len() - i,
    {
        let ghost front = pairs.take(i as int);
        let ghost next = pairs.take(i + 1);
        proof {
            assert(pairs[i as int] == (entries@[i as int].0@, entries@[i as int].1@));
            assert(next.drop_last() == front);
            assert(loaded_entries(next, raw).drop_last() == loaded_entries(front, raw));
        }
        let key = text_lossy(&entries[i].0);
        let value = if raw {
            StructuredValue::Binary(entries[i].1.clone())
        } else {
            match decode_value(&entries[i].1) {
                Ok(value) => value,
                Err(failure) => {
                    proof {
                        assert forall|k: int| 0 <= k < i implies loaded_value(
                            (#[trigger] pairs[k]).1,
                            raw,
                        ).is_some() by {
                            assert(front[k] == pairs[k]);
                        }
                        assert(fails_first_at(pairs, raw, i as int));
                        assert(key@ == text_of(pairs[i as int].0));
                    }
                    return Err(CommandError::Decode { key, detail: failure.detail });
                },
            }
        };
        proof {
            assert forall|k: int| 0 <= k < next.len() implies loaded_value(
                (#[trigger] next[k]).1,
                raw,
            ).is_some() by {
                if k < i {
                    assert(front[k] == next[k]);
                }
            }
        }
        record.insert(key, value);
        i += 1;
    }
    assert(pairs.take(i as int) == pairs);
    Ok(StructuredValue::Record(record))
}

/// Raw mode: a load in raw mode succeeds whatever the stored bytes are, and
/// each value of its record is the stored bytes as they are.
pub proof fn lemma_raw_load(
    entries: Seq<(Seq<u8>, Seq<u8>)>,
    result: Result<StructuredValue, CommandError>,
)
    requires
        is_load_of(result, entries, true),
    ensures
        result matches Ok(value) && value@ == Datum::Record(
            collect(
                entries.map_values(|e: (Seq<u8>, Seq<u8>)| (text_of(e.0), Datum::Binary(e.1))),
            ),
        ),
{
    assert(all_load(entries, true));
    match result {
        Ok(value) => {
            assert(loaded_entries(entries, true) =~= entries.map_values(
                |e: (Seq<u8>, Seq<u8>)| (text_of(e.0), Datum::Binary(e.1)),
            ));
        },
        Err(CommandError::Decode { key, .. }) => {
            let at = choose|at: int|
                fails_first_at(entries, true, at) && key@ == text_of(#[trigger] entries[at].0);
            assert(loaded_value(entries[at].1, true).is_some());
        },
        Err(_) => {},
    }
}

/// Fail fast: a load that decodes fails where some value cannot be decoded,
/// with the decode error that names the key of the first such entry.
pub proof fn lemma_undecodable_fails(
    entries: Seq<(Seq<u8>, Seq<u8>)>,
    result: Result<StructuredValue, CommandError>,
    at: int,
)
    requires
        is_load_of(result, entries, false),
        fails_first_at(entries, false, at),
    ensures
        result matches Err(CommandError::Decode { key, .. }) && key@ == text_of(entries[at].0),
{
    match result {
        Ok(_) => {
            assert(loaded_value(entries[at].1, false).is_some());
        },
        Err(CommandError::Decode { key, .. }) => {
            let first = choose|first: int|
                fails_first_at(entries, false, first) && key@ == text_of(
                    #[trigger] entries[first].0,
                );
            if first < at {
                assert(loaded_value(entries[first].1, false).is_some());
            }
            if at < first {
                assert(loaded_value(entries[at].1, false).is_some());
            }
        },
        Err(_) => {},
    }
}

/// The load command.
#[derive(Debug, PartialEq, Eq)]
pub struct SledOpen;

/// What a load was asked for: the namespace to read, if not the root; the
/// prefix that keys must have, if any; and whether values stay undecoded.
#[derive(Debug, PartialEq, Eq)]
pub struct LoadRequest {
    pub tree: Option<String>,
    pub prefix: Option<String>,
    pub raw: bool,
}

/// What happened last in a load.
#[derive(Debug, PartialEq, Eq)]
pub enum LoadEvent {
    /// Nothing yet.
    Start,
    /// Whether the store path is an existing directory; `path` is its text.
    Directory { found: bool, path: String },
    StoreOpened,
    /// The engine refused to open the store at `path`, with its complaint.
    StoreRefused { path: String, detail: String },
    NamespaceOpened,
    /// The engine refused to open the namespace of the store at `path`, with
    /// its complaint.
    NamespaceRefused { path: String, detail: String },
    /// What was read, ascending by key: the entries, with `None` in place of
    /// each one that the engine failed to read.
    Entries(Vec<Option<(Vec<u8>, Vec<u8>)>>),
}

/// What a load needs done next.
#[derive(Debug, PartialEq, Eq)]
pub enum LoadAction {
    /// Find out whether the store path is an existing directory.
    CheckDirectory,
    OpenStore,
    /// Open the namespace of this name.
    OpenNamespace(Vec<u8>),
    /// Read every entry of what was opened last.
    ReadAll,
    /// Read the entries of what was opened last whose keys have this prefix.
    ReadPrefix(Vec<u8>),
    /// The load has ended with this result.
    Finish(Result<StructuredValue, CommandError>),
}

impl LoadRequest {
    /// Whether `action` is the read that the request asks for.
    pub open spec fn reads_with(&self, action: LoadAction) -> bool {
        match self.prefix {
            Some(prefix) => action matches LoadAction::ReadPrefix(bytes) && bytes@ == encode_utf8(
                prefix@,
            ),
            None => action is ReadAll,
        }
    }

    /// Whether `action` is what follows the opening of the store: opening the
    /// namespace where one is asked for, otherwise the read.
    pub open spec fn enters_with(&self, action: LoadAction) -> bool {
        match self.tree {
            Some(name) => action matches LoadAction::OpenNamespace(bytes) && bytes@ == encode_utf8(
                name@,
            ),
            None => self.reads_with(action),
        }
    }

    fn read(&self) -> (action: LoadAction)
        ensures
            self.reads_with(action),
    {
        match &self.prefix {
            Some(prefix) => LoadAction::ReadPrefix(prefix.as_str().as_bytes_vec()),
            None => LoadAction::ReadAll,
        }
    }
}

impl SledOpen {
    pub fn name(&self) -> (text: &'static str)
        ensures
            text@ == "sled-open"@,
    {
        "sled-open"
    }

    pub fn description(&self) -> (text: &'static str)
        ensures
            text@ == "Open a sled database by path (rmp-serde value only)"@,
    {
        "Open a sled database by path (rmp-serde value only)"
    }

    /// One step of a load. The path is checked first and the load ends with a
    /// path error where it is no directory. Then the store is opened, then the
    /// namespace where one is asked for; a refusal ends the load with the
    /// path and the engine's complaint. Then the entries are read, and what those that
    /// could be read load as is the result.
    pub fn run(&self, request: &LoadRequest, event: LoadEvent) -> (action: LoadAction)
        ensures
            match event {
                LoadEvent::Start => action is CheckDirectory,
                LoadEvent::Directory { found, path } => if found {
                    action is OpenStore
                } else {
                    action matches LoadAction::Finish(Err(CommandError::Path { path: reported }))
                        && reported@ == path@
                },
                LoadEvent::StoreOpened => request.enters_with(action),
                LoadEvent::StoreRefused { path, detail } => action matches LoadAction::Finish(
                    Err(CommandError::StoreOpen { path: at, detail: reported }),
                ) && at@ == path@ && reported@ == detail@,
                LoadEvent::NamespaceOpened => request.reads_with(action),
                LoadEvent::NamespaceRefused { path, detail } => action matches LoadAction::Finish(
                    Err(CommandError::NamespaceOpen { path: at, detail: reported }),
                ) && at@ == path@ && reported@ == detail@,
                LoadEvent::Entries(items) => action matches LoadAction::Finish(result)
                    && is_load_of(result, readable_of(reads_view(items@)), request.raw),
            },
    {
        match event {
            LoadEvent::Start => LoadAction::CheckDirectory,
            LoadEvent::Directory { found, path } => if found {
                LoadAction::OpenStore
            } else {
                LoadAction::Finish(Err(CommandError::Path { path }))
            },
            LoadEvent::StoreOpened => match &request.tree {
                Some(name) => LoadAction::OpenNamespace(name.as_str().as_bytes_vec()),
                None => request.read(),
            },
            LoadEvent::StoreRefused { path, detail } => LoadAction::Finish(
                Err(CommandError::StoreOpen { path, detail }),
            ),
            LoadEvent::NamespaceOpened => request.read(),
            LoadEvent::NamespaceRefused { path, detail } => LoadAction::Finish(
                Err(CommandError::NamespaceOpen { path, detail }),
            ),
            LoadEvent::Entries(items) => LoadAction::Finish(
                read_from_iter(&readable(&items), request.raw),
            ),
        }
    }
}

} // verus!
