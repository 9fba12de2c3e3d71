//! Entries under keys in an order of their own: what it means to look
//! one up, to put one in and to take one out.

use vstd::prelude::*;

verus! {

/// Whether some entry of the list has the key.
pub open spec fn has_key<K, V>(entries: Seq<(K, V)>, key: K) -> bool {
    exists|i: int| 0 <= i < entries.len() && (#[trigger] entries[i]).0 == key
}

/// A place at which an entry with the key stands, if there is one.
pub open spec fn key_index<K, V>(entries: Seq<(K, V)>, key: K) -> int {
    choose|i: int| 0 <= i < entries.len() && (#[trigger] entries[i]).0 == key
}

/// Whether no two entries of the list have the same key.
pub open spec fn distinct_keys<K, V>(entries: Seq<(K, V)>) -> bool {
    forall|i: int, j: int|
        0 <= i < entries.len() && 0 <= j < entries.len() && i != j ==> (#[trigger] entries[i]).0
            != (#[trigger] entries[j]).0
}

/// The value that the list holds under the key, if it holds one.
pub open spec fn value_of<K, V>(entries: Seq<(K, V)>, key: K) -> Option<V> {
    if has_key(entries, key) {
        Some(entries[key_index(entries, key)].1)
    } else {
        None
    }
}

/// The list with `value` under `key`: in the place of the entry that
/// had the key, or behind all others where none had it.
pub open spec fn upsert<K, V>(entries: Seq<(K, V)>, key: K, value: V) -> Seq<
    (K, V),
> {
    if has_key(entries, key) {
        entries.update(key_index(entries, key), (key, value))
    } else {
        entries.push((key, value))
    }
}

/// The list without the entry that has the key; the others keep their
/// order.
pub open spec fn remove_key<K, V>(entries: Seq<(K, V)>, key: K) -> Seq<(K, V)> {
    if has_key(entries, key) {
        entries.remove(key_index(entries, key))
    } else {
        entries
    }
}

/// The list without the entry at the place `i`, with the last entry in
/// its place.
pub open spec fn swap_remove_at<K, V>(entries: Seq<(K, V)>, i: int) -> Seq<(K, V)>
    recommends
        0 <= i < entries.len(),
{
    if i == entries.len() - 1 {
        entries.drop_last()
    } else {
        entries.update(i, entries.last()).drop_last()
    }
}

/// Among entries with distinct keys, a key stands at one place only.
pub proof fn lemma_key_index<K, V>(entries: Seq<(K, V)>, key: K, i: int)
    requires
        distinct_keys(entries),
        0 <= i < entries.len(),
        entries[i].0 == key,
    ensures
        has_key(entries, key),
        key_index(entries, key) == i,
{
}

/// A new value in the place of an old one changes no key: the keys
/// stay distinct, and each key stands where it stood.
pub proof fn lemma_update_value<K, V>(entries: Seq<(K, V)>, i: int, value: V)
    requires
        distinct_keys(entries),
        0 <= i < entries.len(),
    ensures
        distinct_keys(entries.update(i, (entries[i].0, value))),
        forall|key: K|
            has_key(entries.update(i, (entries[i].0, value)), key) == has_key(entries, key),
        forall|key: K|
            has_key(entries, key) ==> key_index(entries.update(i, (entries[i].0, value)), key)
                == key_index(entries, key),
{
    let after = entries.update(i, (entries[i].0, value));
    assert forall|a: int, b: int|
        0 <= a < after.len() && 0 <= b < after.len() && a != b implies (#[trigger] after[a]).0 != (
    #[trigger] after[b]).0 by {
        assert(after[a].0 == entries[a].0);
        assert(after[b].0 == entries[b].0);
    }
    assert forall|key: K| has_key(after, key) == has_key(entries, key) by {
        if has_key(after, key) {
            let a = key_index(after, key);
            assert(entries[a].0 == key);
        }
        if has_key(entries, key) {
            let a = key_index(entries, key);
            assert(after[a].0 == key);
        }
    }
    assert forall|key: K| has_key(entries, key) implies key_index(after, key) == key_index(
        entries,
        key,
    ) by {
        let a = key_index(entries, key);
        assert(after[a].0 == key);
        lemma_key_index(after, key, a);
    }
}

/// An entry under a key that the list does not hold, put behind all
/// others, leaves the keys distinct and the other entries where they
/// stood.
pub proof fn lemma_push_new_key<K, V>(entries: Seq<(K, V)>, key: K, value: V)
    requires
        distinct_keys(entries),
        !has_key(entries, key),
    ensures
        distinct_keys(entries.push((key, value))),
        key_index(entries.push((key, value)), key) == entries.len(),
        forall|other: K|
            has_key(entries.push((key, value)), other) == (other == key || has_key(
                entries,
                other,
            )),
        forall|other: K|
            has_key(entries, other) ==> key_index(entries.push((key, value)), other) == key_index(
                entries,
                other,
            ),
{
    let after = entries.push((key, value));
    assert forall|a: int, b: int|
        0 <= a < after.len() && 0 <= b < after.len() && a != b implies (#[trigger] after[a]).0 != (
    #[trigger] after[b]).0 by {
        if a < entries.len() {
            assert(after[a] == entries[a]);
        }
        if b < entries.len() {
            assert(after[b] == entries[b]);
        }
    }
    assert(after[entries.len() as int].0 == key);
    lemma_key_index(after, key, entries.len() as int);
    assert forall|other: K| has_key(after, other) == (other == key || has_key(
        entries,
        other,
    )) by {
        if has_key(after, other) {
            let a = key_index(after, other);
            if a < entries.len() {
                assert(entries[a].0 == other);
            }
        }
        if has_key(entries, other) {
            let a = key_index(entries, other);
            assert(after[a].0 == other);
        }
    }
    assert forall|other: K| has_key(entries, other) implies key_index(after, other)
        == key_index(entries, other) by {
        let a = key_index(entries, other);
        assert(after[a].0 == other);
        lemma_key_index(after, other, a);
    }
}

/// Taking out the entry at a place, with the last entry put in its
/// place, takes out its key and no other: the keys stay distinct, and
/// every other key keeps its value.
pub proof fn lemma_swap_remove<K, V>(entries: Seq<(K, V)>, i: int)
    requires
        distinct_keys(entries),
        0 <= i < entries.len(),
    ensures
        distinct_keys(swap_remove_at(entries, i)),
        !has_key(swap_remove_at(entries, i), entries[i].0),
        forall|key: K|
            key != entries[i].0 ==> has_key(swap_remove_at(entries, i), key) == has_key(
                entries,
                key,
            ),
        forall|key: K|
            key != entries[i].0 && has_key(entries, key) ==> value_of(
                swap_remove_at(entries, i),
                key,
            ) == value_of(entries, key),
        forall|j: int|
            0 <= j < swap_remove_at(entries, i).len() ==> #[trigger] swap_remove_at(entries, i)[j]
                == (if j == i {
                entries.last()
            } else {
                entries[j]
            }),
{
    let after = swap_remove_at(entries, i);
    let last = entries.len() - 1;
    assert forall|j: int| 0 <= j < after.len() implies #[trigger] after[j] == (if j == i {
        entries.last()
    } else {
        entries[j]
    }) by {}
    assert forall|a: int, b: int|
        0 <= a < after.len() && 0 <= b < after.len() && a != b implies (#[trigger] after[a]).0 != (
    #[trigger] after[b]).0 by {
        let oa = if a == i {
            last
        } else {
            a
        };
        let ob = if b == i {
            last
        } else {
            b
        };
        assert(after[a] == entries[oa]);
        assert(after[b] == entries[ob]);
    }
    if has_key(after, entries[i].0) {
        let a = key_index(after, entries[i].0);
        let oa = if a == i {
            last
        } else {
            a
        };
        assert(after[a] == entries[oa]);
        assert(false);
    }
    assert forall|key: K| key != entries[i].0 implies has_key(after, key) == has_key(
        entries,
        key,
    ) by {
        if has_key(after, key) {
            let a = key_index(after, key);
            let oa = if a == i {
                last
            } else {
                a
            };
            assert(entries[oa].0 == key);
        }
        if has_key(entries, key) {
            let a = key_index(entries, key);
            let na = if a == last {
                i
            } else {
                a
            };
            assert(after[na].0 == key);
        }
    }
    assert forall|key: K| key != entries[i].0 && has_key(entries, key) implies value_of(
        after,
        key,
    ) == value_of(entries, key) by {
        let a = key_index(entries, key);
        let na = if a == last {
            i
        } else {
            a
        };
        assert(after[na] == entries[a]);
        lemma_key_index(after, key, na);
    }
}

/// The value of each entry under its key.
pub open spec fn entries_map<K, V>(entries: Seq<(K, V)>) -> Map<K, V> {
    Map::new(|key: K| has_key(entries, key), |key: K| entries[key_index(entries, key)].1)
}

/// A new value in the place of an old one is a new value under its key.
pub proof fn lemma_entries_map_update<K, V>(entries: Seq<(K, V)>, i: int, value: V)
    requires
        distinct_keys(entries),
        0 <= i < entries.len(),
    ensures
        entries_map(entries.update(i, (entries[i].0, value))) == entries_map(entries).insert(
            entries[i].0,
            value,
        ),
{
    let after = entries.update(i, (entries[i].0, value));
    lemma_update_value(entries, i, value);
    lemma_key_index(entries, entries[i].0, i);
    assert forall|key: K| has_key(entries, key) implies #[trigger] entries_map(after)[key]
        == entries_map(entries).insert(entries[i].0, value)[key] by {
        let k = key_index(entries, key);
        assert(key_index(after, key) == k);
        if k != i {
            assert(entries[k].0 != entries[i].0);
        }
    }
    assert(entries_map(after) =~= entries_map(entries).insert(entries[i].0, value));
}

/// An entry under a new key, put behind all others, is a value under a
/// new key.
pub proof fn lemma_entries_map_push<K, V>(entries: Seq<(K, V)>, key: K, value: V)
    requires
        distinct_keys(entries),
        !has_key(entries, key),
    ensures
        entries_map(entries.push((key, value))) == entries_map(entries).insert(key, value),
{
    let after = entries.push((key, value));
    lemma_push_new_key(entries, key, value);
    assert forall|other: K| has_key(after, other) implies #[trigger] entries_map(after)[other]
        == entries_map(entries).insert(key, value)[other] by {
        if other != key {
            let k = key_index(entries, other);
            assert(key_index(after, other) == k);
            assert(after[k] == entries[k]);
        }
    }
    assert(entries_map(after) =~= entries_map(entries).insert(key, value));
}

/// Taking out the entry at a place takes out its key.
pub proof fn lemma_entries_map_swap_remove<K, V>(entries: Seq<(K, V)>, i: int)
    requires
        distinct_keys(entries),
        0 <= i < entries.len(),
    ensures
        entries_map(swap_remove_at(entries, i)) == entries_map(entries).remove(entries[i].0),
{
    let after = swap_remove_at(entries, i);
    lemma_swap_remove(entries, i);
    assert forall|key: K| has_key(after, key) implies #[trigger] entries_map(after)[key]
        == entries_map(entries).remove(entries[i].0)[key] by {
        assert(key != entries[i].0);
        assert(has_key(entries, key));
        assert(value_of(after, key) == value_of(entries, key));
    }
    assert(entries_map(after) =~= entries_map(entries).remove(entries[i].0));
}

} // verus!
