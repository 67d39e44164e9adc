//! The entries of a registry, and the ways in which one sequence of entries
//! can follow from another.

use std::any::TypeId;
use vstd::prelude::*;
use crate::erased::ErasedPool;
use crate::identity::{names, type_id};
use crate::key::{key_of, TypeKey};

verus! {

/// One type that has a pool: its identifier and its pool.
pub struct Entry {
    pub id: TypeId,
    pub pool: ErasedPool,
}

/// Whether the entry is kept when empty pools are dropped.
pub open spec fn in_use(entry: Entry) -> bool {
    entry.pool.count() > 0
}

/// The entries that are kept when empty pools are dropped, in their order.
pub open spec fn occupied(entries: Seq<Entry>) -> Seq<Entry> {
    entries.filter(|entry: Entry| in_use(entry))
}

/// Whether the pool of `T` stands at `i` among `entries`.
pub open spec fn is_slot<T: 'static>(entries: Seq<Entry>, i: int) -> bool {
    0 <= i < entries.len() && entries[i].pool.holds::<T>()
}

/// Whether `entries` has a pool of `T`.
pub open spec fn has_pool<T: 'static>(entries: Seq<Entry>) -> bool {
    exists|i: int| is_slot::<T>(entries, i)
}

/// Where the pool of `T` stands among `entries`.
pub open spec fn slot_of<T: 'static>(entries: Seq<Entry>) -> int {
    choose|i: int| is_slot::<T>(entries, i)
}

/// The values that `entries` holds for `T`, in order; `None` if `T` has no
/// pool.
pub open spec fn values_of<T: 'static>(entries: Seq<Entry>) -> Option<Seq<T>> {
    if has_pool::<T>(entries) {
        Some(entries[slot_of::<T>(entries)].pool.values::<T>())
    } else {
        None
    }
}

/// Whether `id` is the identifier of one of `entries`.
pub open spec fn listed(entries: Seq<Entry>, id: TypeId) -> bool {
    exists|i: int| 0 <= i < entries.len() && entries[i].id == id
}

/// Whether one of `entries` is the pool of the type with this key.
pub open spec fn has_key(entries: Seq<Entry>, key: TypeKey) -> bool {
    exists|i: int| 0 <= i < entries.len() && entries[i].pool.key() == key
}

/// No two of `entries` are pools of one type, and each stands under the
/// identifier of the type it is a pool of, which is the identifier of no
/// other type.
pub open spec fn well_formed(entries: Seq<Entry>) -> bool {
    &&& forall|i: int, j: int|
        0 <= i < entries.len() && 0 <= j < entries.len() && i != j ==> entries[i].pool.key()
            != entries[j].pool.key()
    &&& forall|i: int| 0 <= i < entries.len() ==> names(entries[i].id, entries[i].pool.key())
}

/// Every entry that is not the pool of the type with this key is in `after`
/// if and only if it is in `before`.
pub open spec fn kept_but(before: Seq<Entry>, after: Seq<Entry>, key: TypeKey) -> bool {
    forall|entry: Entry|
        entry.pool.key() != key ==> (before.contains(entry) <==> after.contains(entry))
}

/// Every entry that is not the pool of `T` is in `after` if and only if it is
/// in `before`.
pub open spec fn others_kept<T: 'static>(before: Seq<Entry>, after: Seq<Entry>) -> bool {
    kept_but(before, after, key_of::<T>())
}

/// `after` is `before` with the entry at `i`, the pool of `T`, replaced by
/// another pool of `T`.
pub open spec fn pool_replaced<T: 'static>(before: Seq<Entry>, after: Seq<Entry>, i: int) -> bool {
    &&& is_slot::<T>(before, i)
    &&& is_slot::<T>(after, i)
    &&& after.len() == before.len()
    &&& after[i].id == before[i].id
    &&& forall|j: int| 0 <= j < before.len() && j != i ==> after[j] == before[j]
}

/// `after` is `before` followed by one more entry, a pool of `T`.
pub open spec fn pool_added<T: 'static>(before: Seq<Entry>, after: Seq<Entry>) -> bool {
    &&& after.len() == before.len() + 1
    &&& after.drop_last() == before
    &&& after.last().pool.holds::<T>()
    &&& names(after.last().id, key_of::<T>())
}

/// `entries` without the pool of `T`.
pub open spec fn without<T: 'static>(entries: Seq<Entry>) -> Seq<Entry> {
    if has_pool::<T>(entries) {
        entries.remove(slot_of::<T>(entries))
    } else {
        entries
    }
}

/// Among well-formed entries the pool of `T` stands at one place only.
pub proof fn lemma_one_slot<T: 'static>(entries: Seq<Entry>, i: int, j: int)
    requires
        well_formed(entries),
        is_slot::<T>(entries, i),
        is_slot::<T>(entries, j),
    ensures
        i == j,
{
}

/// Among well-formed entries no identifier occurs twice, and an identifier
/// is listed exactly when its type has a pool.
pub proof fn lemma_identifiers(entries: Seq<Entry>)
    requires
        well_formed(entries),
    ensures
        forall|i: int, j: int|
            0 <= i < entries.len() && 0 <= j < entries.len() && i != j ==> entries[i].id
                != entries[j].id,
        forall|key: TypeKey| listed(entries, type_id(key)) <==> has_key(entries, key),
{
    assert forall|key: TypeKey| listed(entries, type_id(key)) <==> has_key(entries, key) by {
        if listed(entries, type_id(key)) {
            let i = choose|i: int| 0 <= i < entries.len() && entries[i].id == type_id(key);
            assert(entries[i].pool.key() == key);
        }
        if has_key(entries, key) {
            let i = choose|i: int| 0 <= i < entries.len() && entries[i].pool.key() == key;
            assert(entries[i].id == type_id(key));
        }
    }
}

/// Among well-formed entries the pool of `T`, once found at `i`, is the
/// pool that the values for `T` are read from.
pub proof fn lemma_slot<T: 'static>(entries: Seq<Entry>, i: int)
    requires
        well_formed(entries),
        is_slot::<T>(entries, i),
    ensures
        has_pool::<T>(entries),
        slot_of::<T>(entries) == i,
        values_of::<T>(entries) == Some(entries[i].pool.values::<T>()),
{
}

/// Replacing the pool of `T` keeps the entries well formed and the other
/// entries in place.
pub proof fn lemma_pool_replaced<T: 'static>(before: Seq<Entry>, after: Seq<Entry>, i: int)
    requires
        well_formed(before),
        pool_replaced::<T>(before, after, i),
    ensures
        well_formed(after),
        others_kept::<T>(before, after),
        values_of::<T>(after) == Some(after[i].pool.values::<T>()),
{
    assert forall|entry: Entry| !entry.pool.holds::<T>() implies (before.contains(entry)
        <==> after.contains(entry)) by {
        if before.contains(entry) {
            let j = choose|j: int| 0 <= j < before.len() && before[j] == entry;
            assert(after[j] == entry);
        }
        if after.contains(entry) {
            let j = choose|j: int| 0 <= j < after.len() && after[j] == entry;
            assert(before[j] == entry);
        }
    }
    lemma_slot::<T>(after, i);
}

/// The same, of every sequence that `before` can become when the pool of
/// `T` at `i` is replaced.
pub proof fn lemma_pool_replaced_any<T: 'static>(before: Seq<Entry>, i: int)
    requires
        well_formed(before),
    ensures
        forall|after: Seq<Entry>| #[trigger]
            pool_replaced::<T>(before, after, i) ==> {
                &&& well_formed(after)
                &&& others_kept::<T>(before, after)
                &&& values_of::<T>(after) == Some(after[i].pool.values::<T>())
            },
{
    assert forall|after: Seq<Entry>| #[trigger] pool_replaced::<T>(before, after, i) implies {
        &&& well_formed(after)
        &&& others_kept::<T>(before, after)
        &&& values_of::<T>(after) == Some(after[i].pool.values::<T>())
    } by {
        lemma_pool_replaced::<T>(before, after, i);
    }
}

/// Adding a pool of `T` where there was none keeps the entries well formed
/// and the other entries in place.
pub proof fn lemma_pool_added<T: 'static>(before: Seq<Entry>, after: Seq<Entry>)
    requires
        well_formed(before),
        !has_pool::<T>(before),
        pool_added::<T>(before, after),
    ensures
        well_formed(after),
        others_kept::<T>(before, after),
        values_of::<T>(after) == Some(after.last().pool.values::<T>()),
{
    assert forall|a: int| 0 <= a < before.len() implies after[a] == before[a] && !is_slot::<T>(
        before,
        a,
    ) by {
        assert(after.drop_last()[a] == after[a]);
    }
    assert forall|entry: Entry| !entry.pool.holds::<T>() implies (before.contains(entry)
        <==> after.contains(entry)) by {
        if before.contains(entry) {
            let j = choose|j: int| 0 <= j < before.len() && before[j] == entry;
            assert(after[j] == entry);
        }
        if after.contains(entry) {
            let j = choose|j: int| 0 <= j < after.len() && after[j] == entry;
            assert(before[j] == entry);
        }
    }
    lemma_slot::<T>(after, after.len() - 1);
}

/// Taking the entry at `i` out keeps the entries well formed.
pub proof fn lemma_remove_well_formed(entries: Seq<Entry>, i: int)
    requires
        well_formed(entries),
        0 <= i < entries.len(),
    ensures
        well_formed(entries.remove(i)),
{
    let after = entries.remove(i);
    assert forall|a: int| 0 <= a < after.len() implies after[a] == entries[if a < i {
        a
    } else {
        a + 1
    }] by {}
}

/// Taking the pool of `T` out leaves no pool of `T` and keeps the other
/// entries.
pub proof fn lemma_pool_removed<T: 'static>(entries: Seq<Entry>, i: int)
    requires
        well_formed(entries),
        is_slot::<T>(entries, i),
    ensures
        without::<T>(entries) == entries.remove(i),
        well_formed(entries.remove(i)),
        !has_pool::<T>(entries.remove(i)),
        others_kept::<T>(entries, entries.remove(i)),
{
    let after = entries.remove(i);
    lemma_slot::<T>(entries, i);
    lemma_remove_well_formed(entries, i);
    assert forall|a: int| 0 <= a < after.len() implies after[a] == entries[if a < i {
        a
    } else {
        a + 1
    }] by {}
    assert forall|entry: Entry| !entry.pool.holds::<T>() implies (entries.contains(entry)
        <==> after.contains(entry)) by {
        if entries.contains(entry) {
            let j = choose|j: int| 0 <= j < entries.len() && entries[j] == entry;
            assert(after[if j < i { j } else { j - 1 }] == entry);
        }
        if after.contains(entry) {
            let j = choose|j: int| 0 <= j < after.len() && after[j] == entry;
            assert(entries[if j < i { j } else { j + 1 }] == entry);
        }
    }
}

/// Dropping the empty pools keeps entries that hold a value, all of them
/// entries from before.
pub proof fn lemma_occupied(entries: Seq<Entry>)
    ensures
        forall|j: int|
            0 <= j < occupied(entries).len() ==> in_use(#[trigger] occupied(entries)[j])
                && entries.contains(occupied(entries)[j]),
{
    let keep = |entry: Entry| in_use(entry);
    assert forall|j: int| 0 <= j < occupied(entries).len() implies in_use(
        #[trigger] occupied(entries)[j],
    ) && entries.contains(occupied(entries)[j]) by {
        entries.lemma_filter_pred(keep, j);
        entries.lemma_filter_contains_rev(keep, occupied(entries)[j]);
    }
}

/// Dropping the empty pools takes the identifier of each of them off the
/// list.
pub proof fn lemma_pruned_unlisted(entries: Seq<Entry>)
    requires
        well_formed(entries),
    ensures
        forall|i: int|
            0 <= i < entries.len() && !in_use(entries[i]) ==> !listed(
                occupied(entries),
                #[trigger] entries[i].id,
            ),
{
    lemma_occupied(entries);
    lemma_identifiers(entries);
    let kept = occupied(entries);
    assert forall|i: int| 0 <= i < entries.len() && !in_use(entries[i]) implies !listed(
        kept,
        #[trigger] entries[i].id,
    ) by {
        if listed(kept, entries[i].id) {
            let j = choose|j: int| 0 <= j < kept.len() && kept[j].id == entries[i].id;
            let k = choose|k: int| 0 <= k < entries.len() && entries[k] == kept[j];
            assert(k == i);
        }
    }
}

} // verus!
