//! The ordered store as loading and saving see it, and what holds of the two
//! together.
//!
//! The store itself is the engine's. This module states what the commands
//! rely on: a write sets a key, whatever it held; a read yields the entries
//! with the prefix, ascending by key; and the root and each namespace have
//! key spaces of their own.
use crate::codec::{decoding_of, encoding_of, lemma_round_trip, reads_back};
use crate::commands::open::{all_load, is_load_of, loaded_entries, loaded_value, projection};
use crate::commands::save::{are_encodings_of, writes_of};
use crate::entries::{
    distinct_keys, key_position, lemma_collect_distinct, lemma_key_position, lemma_key_position_is,
    lookup,
};
use crate::error::CommandError;
use crate::transcode::{document_of, faithful};
use crate::value::{Datum, StructuredValue};
use vstd::prelude::*;
use vstd::utf8::{encode_utf8, encode_utf8_decode_utf8, encode_utf8_valid_utf8};

verus! {

/// Whether `a` comes before `b` in the order of the store's keys: byte by
/// byte, a proper prefix first.
pub open spec fn key_before(a: Seq<u8>, b: Seq<u8>) -> bool
    decreases a.len(),
{
    if b.len() == 0 {
        false
    } else if a.len() == 0 {
        true
    } else if a[0] != b[0] {
        a[0] < b[0]
    } else {
        key_before(a.drop_first(), b.drop_first())
    }
}

/// No key comes before itself.
pub proof fn lemma_key_before_irreflexive(a: Seq<u8>)
    ensures
        !key_before(a, a),
    decreases a.len(),
{
    if a.len() > 0 {
        lemma_key_before_irreflexive(a.drop_first());
    }
}

/// Of two keys, at most one comes before the other.
pub proof fn lemma_key_before_asymmetric(a: Seq<u8>, b: Seq<u8>)
    ensures
        !(key_before(a, b) && key_before(b, a)),
    decreases a.len(),
{
    if a.len() > 0 && b.len() > 0 && a[0] == b[0] {
        lemma_key_before_asymmetric(a.drop_first(), b.drop_first());
    }
}

/// A key space after `writes` were made to it in turn, each setting its key.
pub open spec fn written(table: Map<Seq<u8>, Seq<u8>>, writes: Seq<(Seq<u8>, Seq<u8>)>) -> Map<
    Seq<u8>,
    Seq<u8>,
>
    decreases writes.len(),
{
    if writes.len() == 0 {
        table
    } else {
        written(table, writes.drop_last()).insert(writes.last().0, writes.last().1)
    }
}

/// Whether `entries` is what a read of `table` yields for `prefix`: exactly
/// the entries of the table whose keys have the prefix, ascending by key.
pub open spec fn is_scan_of(
    entries: Seq<(Seq<u8>, Seq<u8>)>,
    table: Map<Seq<u8>, Seq<u8>>,
    prefix: Seq<u8>,
) -> bool {
    &&& forall|i: int|
        0 <= i < entries.len() ==> {
            let entry = #[trigger] entries[i];
            &&& table.contains_key(entry.0)
            &&& table[entry.0] == entry.1
            &&& prefix.is_prefix_of(entry.0)
        }
    &&& forall|i: int, j: int|
        0 <= i < j < entries.len() ==> key_before(
            (#[trigger] entries[i]).0,
            (#[trigger] entries[j]).0,
        )
    &&& forall|key: Seq<u8>|
        table.contains_key(key) && prefix.is_prefix_of(key) ==> exists|i: int|
            0 <= i < entries.len() && (#[trigger] entries[i]).0 == key
}

/// Whether keys are in ascending order.
pub open spec fn ascending(keys: Seq<Seq<u8>>) -> bool {
    forall|i: int, j: int| 0 <= i < j < keys.len() ==> key_before(keys[i], keys[j])
}

/// Two ascending lists of the same keys are the same list.
proof fn lemma_ascending_is_determined(a: Seq<Seq<u8>>, b: Seq<Seq<u8>>)
    requires
        ascending(a),
        ascending(b),
        forall|key: Seq<u8>| a.contains(key) <==> b.contains(key),
    ensures
        a == b,
    decreases a.len(),
{
    if a.len() == 0 {
        if b.len() > 0 {
            assert(b.contains(b[0]));
        }
        assert(a =~= b);
    } else {
        let x = a.last();
        let y = b.last();
        assert(a.contains(x));
        assert(b.contains(x));
        assert(b.contains(y));
        assert(a.contains(y));
        let at = b.index_of(x);
        let back = a.index_of(y);
        lemma_key_before_asymmetric(x, y);
        if at < b.len() - 1 {
            assert(key_before(b[at], b[b.len() - 1]));
        }
        if back < a.len() - 1 {
            assert(key_before(a[back], a[a.len() - 1]));
        }
        assert(x == y);
        lemma_key_before_irreflexive(x);
        let front = a.drop_last();
        let other = b.drop_last();
        assert forall|key: Seq<u8>| front.contains(key) <==> other.contains(key) by {
            if front.contains(key) {
                let i = front.index_of(key);
                assert(a[i] == key);
                assert(key_before(a[i], a[a.len() - 1]));
                assert(a.contains(key));
                let j = b.index_of(key);
                assert(other[j] == key);
            }
            if other.contains(key) {
                let j = other.index_of(key);
                assert(b[j] == key);
                assert(key_before(b[j], b[b.len() - 1]));
                assert(b.contains(key));
                let i = a.index_of(key);
                assert(front[i] == key);
            }
        }
        lemma_ascending_is_determined(front, other);
        assert(a =~= front.push(x));
        assert(b =~= other.push(y));
    }
}

/// A read is determined: two reads of the same key space for the same prefix
/// yield the same entries in the same order.
pub proof fn lemma_scan_is_determined(
    first: Seq<(Seq<u8>, Seq<u8>)>,
    second: Seq<(Seq<u8>, Seq<u8>)>,
    table: Map<Seq<u8>, Seq<u8>>,
    prefix: Seq<u8>,
)
    requires
        is_scan_of(first, table, prefix),
        is_scan_of(second, table, prefix),
    ensures
        first == second,
{
    let a = first.map_values(|e: (Seq<u8>, Seq<u8>)| e.0);
    let b = second.map_values(|e: (Seq<u8>, Seq<u8>)| e.0);
    assert forall|key: Seq<u8>| a.contains(key) <==> b.contains(key) by {
        if a.contains(key) {
            let i = a.index_of(key);
            assert(first[i].0 == key);
            let j = choose|j: int| 0 <= j < second.len() && (#[trigger] second[j]).0 == key;
            assert(b[j] == key);
        }
        if b.contains(key) {
            let j = b.index_of(key);
            assert(second[j].0 == key);
            let i = choose|i: int| 0 <= i < first.len() && (#[trigger] first[i]).0 == key;
            assert(a[i] == key);
        }
    }
    assert(ascending(a)) by {
        assert forall|i: int, j: int| 0 <= i < j < a.len() implies key_before(a[i], a[j]) by {
            assert(key_before(first[i].0, first[j].0));
        }
    }
    assert(ascending(b)) by {
        assert forall|i: int, j: int| 0 <= i < j < b.len() implies key_before(b[i], b[j]) by {
            assert(key_before(second[i].0, second[j].0));
        }
    }
    lemma_ascending_is_determined(a, b);
    assert(first.len() == a.len() && second.len() == b.len());
    assert forall|i: int| 0 <= i < first.len() implies first[i] == second[i] by {
        assert(a[i] == first[i].0 && b[i] == second[i].0);
        assert(table[first[i].0] == first[i].1);
        assert(table[second[i].0] == second[i].1);
    }
    assert(first =~= second);
}

/// A store: the key space of the root and those of the namespaces.
#[verifier::ext_equal]
pub struct Store {
    pub root: Map<Seq<u8>, Seq<u8>>,
    pub namespaces: Map<Seq<u8>, Map<Seq<u8>, Seq<u8>>>,
}

impl Store {
    /// The key space of a namespace, or of the root for `None`. A namespace
    /// that was never written to is empty.
    pub open spec fn table(self, namespace: Option<Seq<u8>>) -> Map<Seq<u8>, Seq<u8>> {
        match namespace {
            None => self.root,
            Some(name) => if self.namespaces.contains_key(name) {
                self.namespaces[name]
            } else {
                Map::empty()
            },
        }
    }

    /// The store after `writes` were made to a namespace, or to the root.
    pub open spec fn save(self, namespace: Option<Seq<u8>>, writes: Seq<(Seq<u8>, Seq<u8>)>) -> Store {
        match namespace {
            None => Store { root: written(self.root, writes), namespaces: self.namespaces },
            Some(name) => Store {
                root: self.root,
                namespaces: self.namespaces.insert(name, written(self.table(namespace), writes)),
            },
        }
    }
}

/// Whether some write is to `key`.
pub open spec fn writes_to(writes: Seq<(Seq<u8>, Seq<u8>)>, key: Seq<u8>) -> bool {
    exists|i: int| 0 <= i < writes.len() && (#[trigger] writes[i]).0 == key
}

/// `written` holds the keys of the table and of the writes, and leaves a key
/// that no write is to with what the table gave it.
pub proof fn lemma_written(table: Map<Seq<u8>, Seq<u8>>, writes: Seq<(Seq<u8>, Seq<u8>)>)
    ensures
        forall|key: Seq<u8>|
            (#[trigger] written(table, writes).contains_key(key)) <==> (table.contains_key(key)
                || writes_to(writes, key)),
        forall|key: Seq<u8>|
            !writes_to(writes, key) ==> (#[trigger] written(table, writes)[key]) == table[key],
    decreases writes.len(),
{
    if writes.len() > 0 {
        let front = writes.drop_last();
        let last = writes.last();
        lemma_written(table, front);
        let before = written(table, front);
        let after = written(table, writes);
        assert forall|key: Seq<u8>| writes_to(writes, key) <==> (writes_to(front, key) || key
            == last.0) by {
            if writes_to(writes, key) {
                let i = choose|i: int| 0 <= i < writes.len() && (#[trigger] writes[i]).0 == key;
                if i < front.len() {
                    assert(front[i].0 == key);
                }
            }
            if writes_to(front, key) {
                let i = choose|i: int| 0 <= i < front.len() && (#[trigger] front[i]).0 == key;
                assert(writes[i].0 == key);
            }
            if key == last.0 {
                assert(writes[writes.len() - 1].0 == key);
            }
        }
        assert forall|key: Seq<u8>|
            (#[trigger] after.contains_key(key)) <==> (table.contains_key(key) || writes_to(
                writes,
                key,
            )) by {
            assert(before.contains_key(key) <==> (table.contains_key(key) || writes_to(front, key)));
        }
        assert forall|key: Seq<u8>| !writes_to(writes, key) implies (#[trigger] after[key])
            == table[key] by {
            assert(before[key] == table[key]);
        }
    }
}

/// Namespace isolation: writes to one key space leave every other key space,
/// the root's too, as it was.
pub proof fn lemma_namespace_isolation(
    store: Store,
    target: Option<Seq<u8>>,
    writes: Seq<(Seq<u8>, Seq<u8>)>,
    other: Option<Seq<u8>>,
)
    requires
        other != target,
    ensures
        store.save(target, writes).table(other) == store.table(other),
{
}

/// Making the same writes a second time changes nothing.
pub proof fn lemma_written_twice(table: Map<Seq<u8>, Seq<u8>>, writes: Seq<(Seq<u8>, Seq<u8>)>)
    ensures
        written(written(table, writes), writes) == written(table, writes),
{
    let once = written(table, writes);
    let twice = written(once, writes);
    lemma_last_write(table, writes);
    lemma_last_write(once, writes);
    lemma_written(table, writes);
    lemma_written(once, writes);
    assert forall|key: Seq<u8>| twice.contains_key(key) == once.contains_key(key) by {}
    assert forall|key: Seq<u8>| twice.contains_key(key) implies twice[key] == once[key] by {
        if writes_to(writes, key) {
            let i = choose|i: int| 0 <= i < writes.len() && (#[trigger] writes[i]).0 == key;
            assert(last_write(writes, writes[i].0) == last_write(writes, key));
        }
    }
    assert(twice =~= once);
}

/// The position of the last write to `key`, or -1 where there is none.
pub open spec fn last_write(writes: Seq<(Seq<u8>, Seq<u8>)>, key: Seq<u8>) -> int
    decreases writes.len(),
{
    if writes.len() == 0 {
        -1
    } else if writes.last().0 == key {
        writes.len() - 1
    } else {
        last_write(writes.drop_last(), key)
    }
}

/// A key that was written holds what its last write gave it.
pub proof fn lemma_last_write(table: Map<Seq<u8>, Seq<u8>>, writes: Seq<(Seq<u8>, Seq<u8>)>)
    ensures
        forall|i: int|
            0 <= i < writes.len() ==> {
                let last = last_write(writes, (#[trigger] writes[i]).0);
                &&& i <= last < writes.len()
                &&& writes[last].0 == writes[i].0
                &&& written(table, writes)[writes[i].0] == writes[last].1
            },
    decreases writes.len(),
{
    if writes.len() > 0 {
        let front = writes.drop_last();
        lemma_last_write(table, front);
        assert forall|i: int| 0 <= i < writes.len() implies {
            let last = last_write(writes, (#[trigger] writes[i]).0);
            &&& i <= last < writes.len()
            &&& writes[last].0 == writes[i].0
            &&& written(table, writes)[writes[i].0] == writes[last].1
        } by {
            if writes.last().0 != writes[i].0 {
                assert(front[i] == writes[i]);
                let last = last_write(front, front[i].0);
                assert(front[last] == writes[last]);
            }
        }
    }
}

/// Idempotence: saving a record a second time to the same place, with the
/// same outcome of encoding its values, leaves the store as the first save
/// left it, so that whatever is loaded from it is the same.
pub proof fn lemma_save_twice(
    store: Store,
    namespace: Option<Seq<u8>>,
    record: Seq<(Seq<char>, Datum)>,
    encoded: Seq<Option<Seq<u8>>>,
)
    ensures
        store.save(namespace, writes_of(record, encoded)).save(
            namespace,
            writes_of(record, encoded),
        ) == store.save(namespace, writes_of(record, encoded)),
{
    let writes = writes_of(record, encoded);
    let once = store.save(namespace, writes);
    let twice = once.save(namespace, writes);
    lemma_written_twice(store.table(namespace), writes);
    match namespace {
        None => {},
        Some(name) => {
            assert(once.table(namespace) == written(store.table(namespace), writes));
            assert(twice.namespaces =~= once.namespaces);
        },
    }
    assert(twice =~= once);
}

/// Whether two lists of keyed data give every key the same value.
pub open spec fn same_entries(a: Seq<(Seq<char>, Datum)>, b: Seq<(Seq<char>, Datum)>) -> bool {
    forall|key: Seq<char>| #[trigger] lookup(a, key) == lookup(b, key)
}

/// The entries of a record whose values were encoded, in their order.
pub open spec fn kept_entries(
    entries: Seq<(Seq<char>, Datum)>,
    encoded: Seq<Option<Seq<u8>>>,
) -> Seq<(Seq<char>, Datum)>
    decreases entries.len(),
{
    if entries.len() == 0 {
        Seq::empty()
    } else {
        let front = kept_entries(entries.drop_last(), encoded);
        let at = entries.len() - 1;
        if at < encoded.len() && encoded[at] is Some {
            front.push(entries.last())
        } else {
            front
        }
    }
}

/// Whether the kept entry at `k` is the record's entry at `i`, whose value
/// was encoded, and the write at `k` is the one made for it.
pub open spec fn is_kept_from(
    entries: Seq<(Seq<char>, Datum)>,
    encoded: Seq<Option<Seq<u8>>>,
    k: int,
    i: int,
) -> bool {
    &&& 0 <= i < entries.len()
    &&& i < encoded.len()
    &&& encoded[i] is Some
    &&& entries[i] == kept_entries(entries, encoded)[k]
    &&& writes_of(entries, encoded)[k] == (encode_utf8(entries[i].0), encoded[i]->0)
}

/// Whether the kept entry at `k` is an entry of the record.
pub open spec fn is_kept(entries: Seq<(Seq<char>, Datum)>, encoded: Seq<Option<Seq<u8>>>, k: int) -> bool {
    exists|i: int| is_kept_from(entries, encoded, k, i)
}

/// The kept entries are entries of the record, each with the write that was
/// made for it; they are all of the record where every value was encoded, and
/// their keys are distinct where the record's are.
pub proof fn lemma_kept_entries(entries: Seq<(Seq<char>, Datum)>, encoded: Seq<Option<Seq<u8>>>)
    ensures
        kept_entries(entries, encoded).len() == writes_of(entries, encoded).len(),
        forall|k: int|
            0 <= k < kept_entries(entries, encoded).len() ==> #[trigger] is_kept(
                entries,
                encoded,
                k,
            ),
        distinct_keys(entries) ==> distinct_keys(kept_entries(entries, encoded)),
        (encoded.len() >= entries.len() && forall|i: int|
            0 <= i < entries.len() ==> (#[trigger] encoded[i]) is Some) ==> kept_entries(
            entries,
            encoded,
        ) == entries,
    decreases entries.len(),
{
    if entries.len() > 0 {
        let front = entries.drop_last();
        let at = entries.len() - 1;
        lemma_kept_entries(front, encoded);
        let kept = kept_entries(entries, encoded);
        let before = kept_entries(front, encoded);
        assert forall|k: int| 0 <= k < kept.len() implies #[trigger] is_kept(
            entries,
            encoded,
            k,
        ) by {
            if k < before.len() {
                assert(is_kept(front, encoded, k));
                let i = choose|i: int| is_kept_from(front, encoded, k, i);
                assert(entries[i] == front[i]);
                assert(is_kept_from(entries, encoded, k, i));
            } else {
                assert(is_kept_from(entries, encoded, k, at));
            }
        }
        if distinct_keys(entries) {
            assert(distinct_keys(front)) by {
                assert forall|i: int, j: int| 0 <= i < j < front.len() implies front[i].0
                    != front[j].0 by {
                    assert(front[i] == entries[i] && front[j] == entries[j]);
                }
            }
            assert forall|a: int, b: int| 0 <= a < b < kept.len() implies kept[a].0
                != kept[b].0 by {
                if b == before.len() {
                    assert(is_kept(front, encoded, a));
                    let i = choose|i: int| is_kept_from(front, encoded, a, i);
                    assert(entries[i] == front[i]);
                    assert(entries[i].0 != entries[at].0);
                }
            }
        }
        if encoded.len() >= entries.len() && forall|i: int|
            0 <= i < entries.len() ==> (#[trigger] encoded[i]) is Some {
            assert(encoded[at] is Some);
            assert(before == front);
            assert(kept =~= entries);
        }
    }
}

/// Load after save: let a record with distinct keys and faithful values be
/// saved to an empty key space, and let all of that key space be read and
/// loaded with decoding. Where the decoder reads back the document of every
/// value that was encoded, the load succeeds with a record that has just the
/// entries whose values were encoded: as many of them, with distinct keys,
/// each key with the value that the saved record gives it. Where every value
/// was encoded these are the entries of the saved record; an entry whose
/// value was not encoded leaves nothing behind.
pub proof fn lemma_load_after_save(
    record: Seq<(Seq<char>, Datum)>,
    encoded: Seq<Option<Seq<u8>>>,
    entries: Seq<(Seq<u8>, Seq<u8>)>,
    result: Result<StructuredValue, CommandError>,
)
    requires
        distinct_keys(record),
        forall|i: int| 0 <= i < record.len() ==> faithful((#[trigger] record[i]).1),
        are_encodings_of(encoded, record),
        is_scan_of(entries, written(Map::empty(), writes_of(record, encoded)), Seq::empty()),
        is_load_of(result, entries, false),
    ensures
        (forall|i: int|
            0 <= i < record.len() && encoded[i] is Some ==> reads_back(
                document_of((#[trigger] record[i]).1),
            )) ==> match result {
            Ok(value) => value@ matches Datum::Record(loaded) && loaded.len() == kept_entries(
                record,
                encoded,
            ).len() && distinct_keys(loaded) && same_entries(
                loaded,
                kept_entries(record, encoded),
            ),
            Err(_) => false,
        },
        (forall|i: int| 0 <= i < record.len() ==> (#[trigger] encoded[i]) is Some) ==> kept_entries(
            record,
            encoded,
        ) == record,
{
    lemma_kept_entries(record, encoded);
    if forall|i: int|
        0 <= i < record.len() && encoded[i] is Some ==> reads_back(
            document_of((#[trigger] record[i]).1),
        ) {
        let kept = kept_entries(record, encoded);
        let writes = writes_of(record, encoded);
        assert forall|k: int| 0 <= k < kept.len() implies {
            &&& (#[trigger] writes[k]) == (encode_utf8(kept[k].0), encoding_of(kept[k].1))
            &&& decoding_of(encoding_of(kept[k].1)) == Some(kept[k].1)
        } by {
            assert(is_kept(record, encoded, k));
            let i = choose|i: int| is_kept_from(record, encoded, k, i);
            assert(faithful(record[i].1));
            assert(reads_back(document_of(record[i].1)));
            lemma_round_trip(record[i].1);
        }
        lemma_load_of_writes(kept, writes, entries, result);
    }
}

/// The load of a full read of the key space that one write for each of the
/// kept entries made.
proof fn lemma_load_of_writes(
    record: Seq<(Seq<char>, Datum)>,
    writes: Seq<(Seq<u8>, Seq<u8>)>,
    entries: Seq<(Seq<u8>, Seq<u8>)>,
    result: Result<StructuredValue, CommandError>,
)
    requires
        distinct_keys(record),
        writes.len() == record.len(),
        forall|k: int|
            0 <= k < record.len() ==> {
                &&& (#[trigger] writes[k]) == (encode_utf8(record[k].0), encoding_of(record[k].1))
                &&& decoding_of(encoding_of(record[k].1)) == Some(record[k].1)
            },
        is_scan_of(entries, written(Map::empty(), writes), Seq::empty()),
        is_load_of(result, entries, false),
    ensures
        match result {
            Ok(value) => value@ matches Datum::Record(loaded) && loaded.len() == record.len()
                && distinct_keys(loaded) && same_entries(loaded, record),
            Err(_) => false,
        },
{
    let table = written(Map::empty(), writes);
    lemma_written(Map::empty(), writes);
    lemma_last_write(Map::empty(), writes);
    assert forall|i: int, j: int| 0 <= i < j < writes.len() implies (#[trigger] writes[i]).0 != (
    #[trigger] writes[j]).0 by {
        encode_utf8_decode_utf8(record[i].0);
        encode_utf8_decode_utf8(record[j].0);
    }
    assert forall|i: int| 0 <= i < writes.len() implies table[(#[trigger] writes[i]).0]
        == writes[i].1 by {
        let last = last_write(writes, writes[i].0);
        if last != i {
            assert(writes[i].0 != writes[last].0);
        }
    }
    let source = |j: int|
        choose|i: int| 0 <= i < writes.len() && (#[trigger] writes[i]).0 == entries[j].0;
    assert forall|j: int| 0 <= j < entries.len() implies {
        &&& 0 <= source(j) < record.len()
        &&& (#[trigger] entries[j]) == writes[source(j)]
    } by {
        assert(table.contains_key(entries[j].0));
        assert(writes_to(writes, entries[j].0));
    }
    let loaded = loaded_entries(entries, false);
    assert forall|j: int| 0 <= j < entries.len() implies {
        &&& loaded_value((#[trigger] entries[j]).1, false).is_some()
        &&& loaded[j] == record[source(j)]
    } by {
        let i = source(j);
        assert(entries[j] == writes[i]);
        encode_utf8_decode_utf8(record[i].0);
        encode_utf8_valid_utf8(record[i].0);
    }
    assert(all_load(entries, false));
    assert forall|i: int, j: int| 0 <= i < j < loaded.len() implies loaded[i].0
        != loaded[j].0 by {
        lemma_key_before_irreflexive(entries[i].0);
        assert(key_before(entries[i].0, entries[j].0));
        assert(entries[i] == writes[source(i)]);
        assert(entries[j] == writes[source(j)]);
        assert(source(i) != source(j));
        if source(i) < source(j) {
            assert(record[source(i)].0 != record[source(j)].0);
        } else {
            assert(record[source(j)].0 != record[source(i)].0);
        }
    }
    lemma_collect_distinct(loaded);
    assert(projection(entries, false) == loaded);
    assert forall|key: Seq<char>| #[trigger] lookup(loaded, key) == lookup(record, key) by {
        lemma_key_position(record, key);
        let at = key_position(record, key);
        if at < record.len() {
            assert(table.contains_key(writes[at].0));
            assert(Seq::<u8>::empty().is_prefix_of(writes[at].0));
            let j = choose|j: int|
                0 <= j < entries.len() && (#[trigger] entries[j]).0 == writes[at].0;
            assert(entries[j] == writes[source(j)]);
            assert(source(j) == at);
            assert(loaded[j] == record[at]);
            assert forall|k: int| 0 <= k < j implies (#[trigger] loaded[k]).0 != key by {
                assert(loaded[k].0 != loaded[j].0);
            }
            lemma_key_position_is(loaded, key, j);
        } else {
            assert forall|k: int| 0 <= k < loaded.len() implies (#[trigger] loaded[k]).0
                != key by {
                assert(loaded[k] == record[source(k)]);
            }
            lemma_key_position_is(loaded, key, loaded.len() as int);
        }
    }
    lemma_same_length(record, writes, entries);
}

/// A full read of the key space that distinct writes made has one entry for
/// each write.
proof fn lemma_same_length(
    record: Seq<(Seq<char>, Datum)>,
    writes: Seq<(Seq<u8>, Seq<u8>)>,
    entries: Seq<(Seq<u8>, Seq<u8>)>,
)
    requires
        writes.len() == record.len(),
        forall|i: int, j: int|
            0 <= i < j < writes.len() ==> (#[trigger] writes[i]).0 != (#[trigger] writes[j]).0,
        is_scan_of(entries, written(Map::empty(), writes), Seq::empty()),
    ensures
        entries.len() == record.len(),
{
    let table = written(Map::empty(), writes);
    lemma_written(Map::empty(), writes);
    let written_keys = writes.map_values(|e: (Seq<u8>, Seq<u8>)| e.0);
    let read_keys = entries.map_values(|e: (Seq<u8>, Seq<u8>)| e.0);
    assert forall|i: int, j: int|
        0 <= i < read_keys.len() && 0 <= j < read_keys.len() && i != j implies read_keys[i]
        != read_keys[j] by {
        lemma_key_before_irreflexive(entries[i].0);
        if i < j {
            assert(key_before(entries[i].0, entries[j].0));
        } else {
            assert(key_before(entries[j].0, entries[i].0));
        }
    }
    assert forall|i: int, j: int|
        0 <= i < written_keys.len() && 0 <= j < written_keys.len() && i != j implies written_keys[i]
        != written_keys[j] by {
        if i < j {
            assert(writes[i].0 != writes[j].0);
        } else {
            assert(writes[j].0 != writes[i].0);
        }
    }
    assert forall|key: Seq<u8>| read_keys.to_set().contains(key) == written_keys.to_set().contains(
        key,
    ) by {
        if read_keys.contains(key) {
            let j = choose|j: int| 0 <= j < read_keys.len() && read_keys[j] == key;
            assert(table.contains_key(entries[j].0));
            assert(writes_to(writes, key));
            let i = choose|i: int| 0 <= i < writes.len() && (#[trigger] writes[i]).0 == key;
            assert(written_keys[i] == key);
        }
        if written_keys.contains(key) {
            let i = choose|i: int| 0 <= i < written_keys.len() && written_keys[i] == key;
            assert(writes[i].0 == key);
            assert(writes_to(writes, key));
            assert(table.contains_key(key));
            assert(Seq::<u8>::empty().is_prefix_of(key));
            let j = choose|j: int| 0 <= j < entries.len() && (#[trigger] entries[j]).0 == key;
            assert(read_keys[j] == key);
        }
    }
    assert(read_keys.to_set() =~= written_keys.to_set());
    read_keys.unique_seq_to_set();
    written_keys.unique_seq_to_set();
}

} // verus!
