//! Keyed entries in insertion order, the shape shared by records and document
//! objects, and what setting a key does to them.
use vstd::prelude::*;

verus! {

/// No two entries share a key.
pub open spec fn distinct_keys<T>(entries: Seq<(Seq<char>, T)>) -> bool {
    forall|i: int, j: int| 0 <= i < j < entries.len() ==> entries[i].0 != entries[j].0
}

/// The position of the first entry with `key`, or `entries.len()` where no
/// entry has it.
pub open spec fn key_position<T>(entries: Seq<(Seq<char>, T)>, key: Seq<char>) -> int
    decreases entries.len(),
{
    if entries.len() == 0 {
        0
    } else if entries[0].0 == key {
        0
    } else {
        1 + key_position(entries.drop_first(), key)
    }
}

/// `entries` after `key` has been set to `value`: an entry with that key keeps
/// its place and takes the new value, otherwise a new entry goes last.
pub open spec fn upsert<T>(entries: Seq<(Seq<char>, T)>, key: Seq<char>, value: T) -> Seq<
    (Seq<char>, T),
> {
    let at = key_position(entries, key);
    if at < entries.len() {
        entries.update(at, (key, value))
    } else {
        entries.push((key, value))
    }
}

/// The value that the entries give for `key`, if any.
pub open spec fn lookup<T>(entries: Seq<(Seq<char>, T)>, key: Seq<char>) -> Option<T> {
    let at = key_position(entries, key);
    if at < entries.len() {
        Some(entries[at].1)
    } else {
        None
    }
}

/// `key_position` is the least position that holds the key.
pub proof fn lemma_key_position<T>(entries: Seq<(Seq<char>, T)>, key: Seq<char>)
    ensures
        0 <= key_position(entries, key) <= entries.len(),
        key_position(entries, key) < entries.len() ==> entries[key_position(entries, key)].0
            == key,
        forall|i: int| 0 <= i < key_position(entries, key) ==> (#[trigger] entries[i]).0 != key,
    decreases entries.len(),
{
    if entries.len() > 0 && entries[0].0 != key {
        let rest = entries.drop_first();
        lemma_key_position(rest, key);
        assert forall|i: int| 0 <= i < key_position(entries, key) implies (#[trigger] entries[i]).0
            != key by {
            if i > 0 {
                assert(entries[i] == rest[i - 1]);
            }
        }
    }
}

/// A position that holds the key, with none before it that does, is the
/// key's position.
pub proof fn lemma_key_position_is<T>(entries: Seq<(Seq<char>, T)>, key: Seq<char>, at: int)
    requires
        0 <= at <= entries.len(),
        at < entries.len() ==> entries[at].0 == key,
        forall|i: int| 0 <= i < at ==> (#[trigger] entries[i]).0 != key,
    ensures
        key_position(entries, key) == at,
{
    lemma_key_position(entries, key);
    let p = key_position(entries, key);
    if p < at {
        assert(entries[p].0 != key);
    }
}

/// Setting a key keeps the keys distinct, gives the key its value and leaves
/// every other key with what it had.
pub proof fn lemma_upsert<T>(entries: Seq<(Seq<char>, T)>, key: Seq<char>, value: T)
    requires
        distinct_keys(entries),
    ensures
        distinct_keys(upsert(entries, key, value)),
        lookup(upsert(entries, key, value), key) == Some(value),
        forall|other: Seq<char>|
            other != key ==> #[trigger] lookup(upsert(entries, key, value), other) == lookup(
                entries,
                other,
            ),
{
    lemma_key_position(entries, key);
    let at = key_position(entries, key);
    let after = upsert(entries, key, value);
    lemma_key_position_is(after, key, at);
    assert forall|other: Seq<char>| other != key implies #[trigger] lookup(after, other) == lookup(
        entries,
        other,
    ) by {
        lemma_key_position(entries, other);
        let p = key_position(entries, other);
        if p < entries.len() {
            assert(p != at);
            lemma_key_position_is(after, other, p);
        } else {
            lemma_key_position_is(after, other, after.len() as int);
        }
    }
}

/// The entries that result from setting each key of `entries` in turn,
/// starting from none: a key that occurs again keeps its first place and
/// takes its last value.
pub open spec fn collect<T>(entries: Seq<(Seq<char>, T)>) -> Seq<(Seq<char>, T)>
    decreases entries.len(),
{
    if entries.len() == 0 {
        Seq::empty()
    } else {
        upsert(collect(entries.drop_last()), entries.last().0, entries.last().1)
    }
}

/// Entries with distinct keys are what collecting them gives.
pub proof fn lemma_collect_distinct<T>(entries: Seq<(Seq<char>, T)>)
    requires
        distinct_keys(entries),
    ensures
        collect(entries) == entries,
    decreases entries.len(),
{
    if entries.len() > 0 {
        let front = entries.drop_last();
        lemma_collect_distinct(front);
        lemma_key_position_is(front, entries.last().0, front.len() as int);
        assert(front.push(entries.last()) =~= entries);
    }
}

/// The value of the last entry with `key`, if any.
pub open spec fn last_value<T>(entries: Seq<(Seq<char>, T)>, key: Seq<char>) -> Option<T>
    decreases entries.len(),
{
    if entries.len() == 0 {
        None
    } else if entries.last().0 == key {
        Some(entries.last().1)
    } else {
        last_value(entries.drop_last(), key)
    }
}

/// Last one wins: collected entries have distinct keys, and give each key
/// the value of the last entry that had it.
pub proof fn lemma_collect<T>(entries: Seq<(Seq<char>, T)>)
    ensures
        distinct_keys(collect(entries)),
        forall|key: Seq<char>| #[trigger] lookup(collect(entries), key) == last_value(entries, key),
    decreases entries.len(),
{
    if entries.len() > 0 {
        let front = entries.drop_last();
        lemma_collect(front);
        lemma_upsert(collect(front), entries.last().0, entries.last().1);
        assert forall|key: Seq<char>| #[trigger]
            lookup(collect(entries), key) == last_value(entries, key) by {
            if key != entries.last().0 {
                assert(lookup(collect(entries), key) == lookup(collect(front), key));
            }
        }
    }
}

} // verus!
