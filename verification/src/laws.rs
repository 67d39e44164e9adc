//! What holds of a registry across its operations.
//!
//! Each law takes the registries before and after the operations it speaks
//! of, and asks of them what the operations' contracts promise.

use vstd::prelude::*;
use crate::entry::{
    in_use, is_slot, kept_but, lemma_occupied, lemma_one_slot, lemma_pool_removed, lemma_slot,
    occupied, others_kept, without, Entry,
};
use crate::key::{key_of, TypeKey};
use crate::pools::{held, last_value, pushed, value_at, TypePools};

verus! {

/// Per-type isolation: an operation on the pool of `T` keeps every other
/// entry, so the pool of any other type `U` is afterwards what it was
/// before.
pub proof fn lemma_isolation<T: 'static, U: 'static>(before: &TypePools, after: &TypePools)
    requires
        before.wf(),
        after.wf(),
        others_kept::<T>(before@, after@),
        key_of::<T>() != key_of::<U>(),
    ensures
        after.pool::<U>() == before.pool::<U>(),
{
    lemma_isolation_by_key::<U>(before, after, key_of::<T>());
}

/// The same, with the type that the operation was on given by its key.
pub proof fn lemma_isolation_by_key<U: 'static>(
    before: &TypePools,
    after: &TypePools,
    key: TypeKey,
)
    requires
        before.wf(),
        after.wf(),
        kept_but(before@, after@, key),
        key != key_of::<U>(),
    ensures
        after.pool::<U>() == before.pool::<U>(),
{
    if before.tracks::<U>() {
        let i = before.slot::<U>();
        let entry = before@[i];
        assert(before@.contains(entry));
        let j = choose|j: int| 0 <= j < after@.len() && after@[j] == entry;
        lemma_slot::<U>(before@, i);
        lemma_slot::<U>(after@, j);
    } else if after.tracks::<U>() {
        let j = after.slot::<U>();
        let entry = after@[j];
        assert(after@.contains(entry));
        let i = choose|i: int| 0 <= i < before@.len() && before@[i] == entry;
        assert(is_slot::<U>(before@, i));
    }
}

/// Insertion order: after the values of `values` are pushed one by one, the
/// pool of `T` holds what it held before, followed by `values` in the order
/// in which they were pushed. `states[k]` is the registry after `k` pushes.
pub proof fn lemma_insertion_order<T: 'static>(states: Seq<TypePools>, values: Seq<T>)
    requires
        states.len() == values.len() + 1,
        forall|k: int|
            1 <= k <= values.len() ==> (#[trigger] states[k]).pool::<T>() == Some(
                pushed(states[k - 1].pool::<T>(), values[k - 1]),
            ),
    ensures
        held(states.last().pool::<T>()) == held(states[0].pool::<T>()) + values,
        values.len() > 0 ==> states.last().pool::<T>() is Some,
        forall|i: int|
            0 <= i < values.len() ==> value_at(
                states.last().pool::<T>(),
                held(states[0].pool::<T>()).len() + i,
            ) == Some(#[trigger] values[i]),
    decreases values.len(),
{
    if values.len() > 0 {
        let n = values.len() as int;
        let earlier = states.drop_last();
        assert forall|k: int| 1 <= k <= n - 1 implies (#[trigger] earlier[k]).pool::<T>() == Some(
            pushed(earlier[k - 1].pool::<T>(), values.drop_last()[k - 1]),
        ) by {
            assert(earlier[k] == states[k]);
        }
        lemma_insertion_order::<T>(earlier, values.drop_last());
        assert(states.last() == states[n]);
    }
}

/// Round trip: the value pushed last is the value popped next, and the pool
/// then holds what it held before the push. The pool is still there: a pool
/// that was missing or empty before is empty afterwards, not missing.
pub proof fn lemma_push_pop<T: 'static>(
    before: &TypePools,
    between: &TypePools,
    after: &TypePools,
    value: T,
    popped: Option<T>,
)
    requires
        between.pool::<T>() == Some(pushed(before.pool::<T>(), value)),
        popped == last_value(between.pool::<T>()),
        popped is Some ==> after.pool::<T>() == Some(between.pool::<T>().unwrap().drop_last()),
        popped is None ==> after@ == between@,
    ensures
        popped == Some(value),
        after.pool::<T>() == Some(held(before.pool::<T>())),
{
}

/// A registry without entries has no pool of any type.
pub proof fn lemma_fresh_has_no_pool<T: 'static>(fresh: &TypePools)
    requires
        fresh@.len() == 0,
    ensures
        fresh.pool::<T>() is None,
{
}

/// A push never leaves an empty pool behind: a pool is empty only once its
/// values have been taken out again.
pub proof fn lemma_push_leaves_values<T: 'static>(
    before: &TypePools,
    after: &TypePools,
    value: T,
)
    requires
        after.pool::<T>() == Some(pushed(before.pool::<T>(), value)),
    ensures
        after.pool::<T>() is Some,
        after.pool::<T>().unwrap().len() == held(before.pool::<T>()).len() + 1,
{
}

/// Order-preserving removal: once the value at `idx` is taken out of the
/// pool of `T`, the values before it stand where they stood, and each value
/// behind it stands one place nearer to the front.
pub proof fn lemma_remove_keeps_order<T: 'static>(before: &TypePools, after: &TypePools, idx: int)
    requires
        value_at(before.pool::<T>(), idx) is Some,
        after.pool::<T>() == Some(before.pool::<T>().unwrap().remove(idx)),
    ensures
        after.pool::<T>().unwrap().len() == before.pool::<T>().unwrap().len() - 1,
        forall|i: int|
            0 <= i < idx ==> value_at(after.pool::<T>(), i) == value_at(before.pool::<T>(), i),
        forall|i: int|
            idx <= i ==> value_at(after.pool::<T>(), i) == value_at(before.pool::<T>(), i + 1),
{
}

/// Where the entry at `i` is the only one without a value, dropping the
/// empty pools takes out that entry alone.
proof fn lemma_occupied_but_one(entries: Seq<Entry>, i: int)
    requires
        0 <= i < entries.len(),
        !in_use(entries[i]),
        forall|j: int| 0 <= j < entries.len() && j != i ==> in_use(entries[j]),
    ensures
        occupied(entries) == entries.remove(i),
    decreases entries.len(),
{
    reveal_with_fuel(Seq::filter, 2);
    let front = entries.drop_last();
    if i == entries.len() - 1 {
        lemma_occupied_all(front);
    } else {
        lemma_occupied_but_one(front, i);
    }
}

/// Where every entry holds a value, dropping the empty pools changes
/// nothing.
proof fn lemma_occupied_all(entries: Seq<Entry>)
    requires
        forall|j: int| 0 <= j < entries.len() ==> in_use(entries[j]),
    ensures
        occupied(entries) == entries,
    decreases entries.len(),
{
    reveal_with_fuel(Seq::filter, 2);
    if entries.len() > 0 {
        lemma_occupied_all(entries.drop_last());
    }
}

/// Pruning: once the pool of `T` is empty, dropping the empty pools leaves
/// `T` without a pool. If it was the only empty pool, exactly that entry
/// goes, and the number of types goes down by one.
pub proof fn lemma_pruning<T: 'static>(before: &TypePools, after: &TypePools)
    requires
        before.wf(),
        before.pool::<T>() == Some(Seq::<T>::empty()),
        after@ == occupied(before@),
    ensures
        after.pool::<T>() is None,
        (forall|i: int| 0 <= i < before@.len() && i != before.slot::<T>() ==> in_use(before@[i]))
            ==> after@ == before@.remove(before.slot::<T>()) && after@.len() == before@.len() - 1,
{
    let slot = before.slot::<T>();
    before@[slot].pool.lemma_values_count::<T>();
    lemma_occupied(before@);
    assert forall|j: int| !is_slot::<T>(after@, j) by {
        if is_slot::<T>(after@, j) {
            let entry = after@[j];
            let i = choose|i: int| 0 <= i < before@.len() && before@[i] == entry;
            lemma_one_slot::<T>(before@, i, slot);
        }
    }
    if forall|i: int| 0 <= i < before@.len() && i != slot ==> in_use(before@[i]) {
        lemma_occupied_but_one(before@, slot);
    }
}

/// Dropping the empty pools leaves every pool that holds a value as it
/// was.
pub proof fn lemma_pruning_keeps_values<T: 'static>(before: &TypePools, after: &TypePools)
    requires
        before.wf(),
        after.wf(),
        after@ == occupied(before@),
        before.pool::<T>() is Some,
        before.pool::<T>().unwrap().len() > 0,
    ensures
        after.pool::<T>() == before.pool::<T>(),
{
    let slot = before.slot::<T>();
    let entry = before@[slot];
    entry.pool.lemma_values_count::<T>();
    before@.lemma_filter_contains(|entry: Entry| in_use(entry), slot);
    let j = choose|j: int| 0 <= j < after@.len() && after@[j] == entry;
    lemma_slot::<T>(before@, slot);
    lemma_slot::<T>(after@, j);
}

/// Dropping the empty pools makes no pool appear.
pub proof fn lemma_pruning_adds_no_pool<T: 'static>(before: &TypePools, after: &TypePools)
    requires
        after@ == occupied(before@),
        after.pool::<T>() is Some,
    ensures
        before.pool::<T>() is Some,
{
    lemma_occupied(before@);
    let j = after.slot::<T>();
    let entry = after@[j];
    let i = choose|i: int| 0 <= i < before@.len() && before@[i] == entry;
    assert(is_slot::<T>(before@, i));
}

/// Removing a type is idempotent: removing it once more changes nothing,
/// and removing a type that has no pool changes nothing either.
pub proof fn lemma_remove_type_twice<T: 'static>(
    before: &TypePools,
    after: &TypePools,
    again: &TypePools,
)
    requires
        before.wf(),
        after@ == without::<T>(before@),
        again@ == without::<T>(after@),
    ensures
        again@ == after@,
        !before.tracks::<T>() ==> after@ == before@,
{
    if before.tracks::<T>() {
        let slot = before.slot::<T>();
        lemma_pool_removed::<T>(before@, slot);
    }
}

} // verus!
