//! Association lists: sequences of keys and values, read as mappings.
//!
//! The first entry with a key is the one that counts. A list that was
//! built from the empty one by [`inserted`] holds each key once, in the
//! order in which the keys came.

use vstd::prelude::*;

verus! {

/// The index of the first entry with `key` at or after index `from`.
pub open spec fn position<K, V>(entries: Seq<(K, V)>, key: K, from: int) -> Option<int>
    decreases entries.len() - from,
{
    if from < 0 || from >= entries.len() {
        None
    } else if entries[from].0 == key {
        Some(from)
    } else {
        position(entries, key, from + 1)
    }
}

/// The value that `key` is bound to, if it is bound.
pub open spec fn lookup<K, V>(entries: Seq<(K, V)>, key: K) -> Option<V> {
    match position(entries, key, 0) {
        Some(i) => Some(entries[i].1),
        None => None,
    }
}

/// The list with `key` bound to `value`: in place where `key` was bound,
/// at the end where it was not.
pub open spec fn inserted<K, V>(entries: Seq<(K, V)>, key: K, value: V) -> Seq<(K, V)> {
    match position(entries, key, 0) {
        Some(i) => entries.update(i, (key, value)),
        None => entries.push((key, value)),
    }
}

/// The list `entries` with every entry of `more` from index `from` on
/// inserted, in order.
pub open spec fn merged<K, V>(entries: Seq<(K, V)>, more: Seq<(K, V)>, from: int) -> Seq<(K, V)>
    decreases more.len() - from,
{
    if from < 0 || from >= more.len() {
        entries
    } else {
        merged(inserted(entries, more[from].0, more[from].1), more, from + 1)
    }
}

/// No key occurs twice.
pub open spec fn distinct_keys<K, V>(entries: Seq<(K, V)>) -> bool {
    forall|i: int, j: int|
        0 <= i < j < entries.len() ==> (#[trigger] entries[i]).0 != (#[trigger] entries[j]).0
}

/// Where no entry from `from` up to `to` has the key, the search from
/// `from` is the search from `to`.
pub proof fn lemma_position_skips<K, V>(entries: Seq<(K, V)>, key: K, from: int, to: int)
    requires
        0 <= from <= to <= entries.len(),
        forall|k: int| from <= k < to ==> (#[trigger] entries[k]).0 != key,
    ensures
        position(entries, key, from) == position(entries, key, to),
    decreases to - from,
{
    if from < to {
        lemma_position_skips(entries, key, from + 1, to);
    }
}

/// A position that the search gives holds the key, is the first that does,
/// and lies in the list.
pub proof fn lemma_position_is_first<K, V>(entries: Seq<(K, V)>, key: K, from: int)
    requires
        0 <= from,
    ensures
        match position(entries, key, from) {
            Some(i) => from <= i < entries.len() && entries[i].0 == key && forall|k: int|
                from <= k < i ==> (#[trigger] entries[k]).0 != key,
            None => forall|k: int| from <= k < entries.len() ==> (#[trigger] entries[k]).0 != key,
        },
    decreases entries.len() - from,
{
    if from < entries.len() && entries[from].0 != key {
        lemma_position_is_first(entries, key, from + 1);
    }
}

/// After an insertion the key is bound to the value.
pub proof fn lemma_lookup_inserted_same<K, V>(entries: Seq<(K, V)>, key: K, value: V)
    ensures
        lookup(inserted(entries, key, value), key) == Some(value),
{
    lemma_position_is_first(entries, key, 0);
    let after = inserted(entries, key, value);
    match position(entries, key, 0) {
        Some(i) => {
            assert forall|k: int| 0 <= k < i implies (#[trigger] after[k]).0 != key by {
                assert(entries[k].0 != key);
            }
            lemma_position_skips(after, key, 0, i);
        },
        None => {
            assert forall|k: int| 0 <= k < entries.len() implies (#[trigger] after[k]).0
                != key by {
                assert(entries[k].0 != key);
            }
            lemma_position_skips(after, key, 0, entries.len() as int);
        },
    }
}

/// An insertion leaves every other key as it was.
pub proof fn lemma_lookup_inserted_other<K, V>(entries: Seq<(K, V)>, key: K, value: V, other: K)
    requires
        other != key,
    ensures
        lookup(inserted(entries, key, value), other) == lookup(entries, other),
{
    let after = inserted(entries, key, value);
    lemma_position_is_first(entries, key, 0);
    lemma_position_is_first(entries, other, 0);
    lemma_position_is_first(after, other, 0);
    match position(entries, other, 0) {
        Some(i) => {
            assert(after[i].0 == other);
            assert(after[i].1 == entries[i].1);
            match position(after, other, 0) {
                Some(j) => {
                    if j < i {
                        assert(entries[j].0 != other);
                        assert(after[j].0 == other);
                    }
                    if i < j {
                        assert(after[i].0 != other);
                    }
                },
                None => {
                    assert(after[i].0 != other);
                },
            }
        },
        None => {
            match position(after, other, 0) {
                Some(j) => {
                    if j < entries.len() {
                        assert(entries[j].0 != other);
                    }
                },
                None => {},
            }
        },
    }
}

/// An insertion keeps the keys distinct, and grows the list by one entry
/// exactly where the key was not bound.
pub proof fn lemma_inserted_distinct<K, V>(entries: Seq<(K, V)>, key: K, value: V)
    requires
        distinct_keys(entries),
    ensures
        distinct_keys(inserted(entries, key, value)),
        inserted(entries, key, value).len() == if lookup(entries, key) is Some {
            entries.len()
        } else {
            entries.len() + 1
        },
{
    let after = inserted(entries, key, value);
    lemma_position_is_first(entries, key, 0);
    assert forall|i: int, j: int| 0 <= i < j < after.len() implies (#[trigger] after[i]).0 != (
    #[trigger] after[j]).0 by {
        match position(entries, key, 0) {
            Some(p) => {
                assert(entries[i].0 != entries[j].0);
                if i == p {
                    assert(entries[p].0 == key);
                }
                if j == p {
                    assert(entries[p].0 == key);
                }
            },
            None => {
                if j < entries.len() {
                    assert(entries[i].0 != entries[j].0);
                } else {
                    assert(entries[i].0 != key);
                }
            },
        }
    }
}

} // verus!
