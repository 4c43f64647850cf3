//! Association lists viewed as maps.
//!
//! Both registries of the library (seats to occupants, players to statuses)
//! are stored as vectors of key/value pairs with pairwise-distinct keys.
//! This module gives such a sequence its meaning as a `Map` and proves the
//! facts the registries need: what a key lookup yields, and what an
//! update-or-push insertion does to the map.
use vstd::prelude::*;

verus! {

/// The map that an association list denotes; a later entry for the same key
/// would win, though well-formed lists never hold one.
pub open spec fn assoc_map<K, V>(entries: Seq<(K, V)>) -> Map<K, V>
    decreases entries.len(),
{
    if entries.len() == 0 {
        Map::empty()
    } else {
        assoc_map(entries.drop_last()).insert(entries.last().0, entries.last().1)
    }
}

/// Keys are pairwise distinct.
pub open spec fn assoc_unique<K, V>(entries: Seq<(K, V)>) -> bool {
    forall|i: int, j: int|
        0 <= i < j < entries.len() ==> (#[trigger] entries[i]).0 != (#[trigger] entries[j]).0
}

/// The index of the entry holding `k`, where one exists.
pub open spec fn assoc_index_of<K, V>(entries: Seq<(K, V)>, k: K) -> int {
    choose|i: int| 0 <= i < entries.len() && (#[trigger] entries[i]).0 == k
}

/// Whether some entry holds `k`.
pub open spec fn assoc_has_key<K, V>(entries: Seq<(K, V)>, k: K) -> bool {
    exists|i: int| 0 <= i < entries.len() && (#[trigger] entries[i]).0 == k
}

/// Insertion as the executable registries perform it: overwrite the entry
/// holding the key in place, or append a fresh entry.
pub open spec fn assoc_insert<K, V>(entries: Seq<(K, V)>, k: K, v: V) -> Seq<(K, V)> {
    if assoc_has_key(entries, k) {
        entries.update(assoc_index_of(entries, k), (k, v))
    } else {
        entries.push((k, v))
    }
}

/// A key is in the denoted map exactly when some entry holds it.
pub proof fn lemma_assoc_contains<K, V>(entries: Seq<(K, V)>, k: K)
    ensures
        assoc_map(entries).contains_key(k) <==> assoc_has_key(entries, k),
    decreases entries.len(),
{
    if entries.len() > 0 {
        lemma_assoc_contains(entries.drop_last(), k);
        if entries.last().0 == k {
            assert(entries[entries.len() - 1].0 == k);
        } else if assoc_has_key(entries.drop_last(), k) {
            let i = choose|i: int|
                0 <= i < entries.drop_last().len() && (#[trigger] entries.drop_last()[i]).0 == k;
            assert(entries[i].0 == k);
        } else if assoc_has_key(entries, k) {
            let i = choose|i: int| 0 <= i < entries.len() && (#[trigger] entries[i]).0 == k;
            assert(entries.drop_last()[i].0 == k);
        }
    }
}

/// With distinct keys, the entry at any index gives the map's value at its key.
pub proof fn lemma_assoc_value_at<K, V>(entries: Seq<(K, V)>, i: int)
    requires
        assoc_unique(entries),
        0 <= i < entries.len(),
    ensures
        assoc_map(entries).contains_key(entries[i].0),
        assoc_map(entries)[entries[i].0] == entries[i].1,
    decreases entries.len(),
{
    if i == entries.len() - 1 {
    } else {
        assert(assoc_unique(entries.drop_last())) by {
            assert(forall|p: int, q: int|
                0 <= p < q < entries.drop_last().len() ==> (#[trigger] entries.drop_last()[p]).0
                    != (#[trigger] entries.drop_last()[q]).0) by {
                assert(forall|p: int|
                    0 <= p < entries.drop_last().len() ==> entries.drop_last()[p] == entries[p]);
            }
        }
        lemma_assoc_value_at(entries.drop_last(), i);
        assert(entries[i].0 != entries.last().0);
    }
}

/// A key no entry holds is absent from the denoted map.
pub proof fn lemma_assoc_absent<K, V>(entries: Seq<(K, V)>, k: K)
    requires
        forall|i: int| 0 <= i < entries.len() ==> (#[trigger] entries[i]).0 != k,
    ensures
        !assoc_map(entries).contains_key(k),
{
    lemma_assoc_contains(entries, k);
}

/// Overwriting the entry at `i` in place acts on the map as an insert at that
/// entry's key.
pub proof fn lemma_assoc_update<K, V>(entries: Seq<(K, V)>, i: int, v: V)
    requires
        assoc_unique(entries),
        0 <= i < entries.len(),
    ensures
        assoc_map(entries.update(i, (entries[i].0, v))) == assoc_map(entries).insert(
            entries[i].0,
            v,
        ),
        assoc_unique(entries.update(i, (entries[i].0, v))),
    decreases entries.len(),
{
    let k = entries[i].0;
    let updated = entries.update(i, (k, v));
    assert(assoc_unique(updated)) by {
        assert(forall|p: int| 0 <= p < entries.len() ==> (#[trigger] updated[p]).0 == entries[p].0);
    }
    if i == entries.len() - 1 {
        assert(updated.drop_last() =~= entries.drop_last());
        assert(assoc_map(updated) =~= assoc_map(entries).insert(k, v));
    } else {
        assert(assoc_unique(entries.drop_last())) by {
            assert(forall|p: int|
                0 <= p < entries.drop_last().len() ==> entries.drop_last()[p] == entries[p]);
        }
        assert(updated.drop_last() =~= entries.drop_last().update(i, (k, v)));
        lemma_assoc_update(entries.drop_last(), i, v);
        let last = entries.last();
        assert(updated.last() == last);
        assert(last.0 != k);
        assert(assoc_map(updated) =~= assoc_map(entries.drop_last()).insert(k, v).insert(
            last.0,
            last.1,
        ));
        assert(assoc_map(entries.drop_last()).insert(k, v).insert(last.0, last.1)
            =~= assoc_map(entries).insert(k, v));
    }
}

/// Appending an entry with a fresh key acts on the map as an insert.
pub proof fn lemma_assoc_push<K, V>(entries: Seq<(K, V)>, k: K, v: V)
    requires
        assoc_unique(entries),
        forall|i: int| 0 <= i < entries.len() ==> (#[trigger] entries[i]).0 != k,
    ensures
        assoc_map(entries.push((k, v))) == assoc_map(entries).insert(k, v),
        assoc_unique(entries.push((k, v))),
{
    let pushed = entries.push((k, v));
    assert(pushed.drop_last() =~= entries);
    assert(assoc_map(pushed) =~= assoc_map(entries).insert(k, v));
}

/// The denoted effect of `assoc_insert` is always a map insert, and it keeps
/// keys distinct.
pub proof fn lemma_assoc_insert<K, V>(entries: Seq<(K, V)>, k: K, v: V)
    requires
        assoc_unique(entries),
    ensures
        assoc_map(assoc_insert(entries, k, v)) == assoc_map(entries).insert(k, v),
        assoc_unique(assoc_insert(entries, k, v)),
{
    if assoc_has_key(entries, k) {
        let i = assoc_index_of(entries, k);
        assert(0 <= i < entries.len() && entries[i].0 == k);
        lemma_assoc_update(entries, i, v);
    } else {
        assert(forall|i: int| 0 <= i < entries.len() ==> (#[trigger] entries[i]).0 != k);
        lemma_assoc_push(entries, k, v);
    }
}

} // verus!
