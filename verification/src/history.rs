//! A registry over a whole run of operations, as the pool of one type sees
//! it.

use vstd::prelude::*;
use crate::entry::{kept_but, occupied};
use crate::key::{key_of, TypeKey};
use crate::laws::{
    lemma_fresh_has_no_pool, lemma_isolation_by_key, lemma_pruning, lemma_pruning_adds_no_pool,
    lemma_pruning_keeps_values,
};
use crate::pools::{held, last_value, pushed, value_at, TypePools};

verus! {

/// One operation on a registry, as the pool of `T` sees it.
pub enum Step<T> {
    /// `push::<T>(value)`.
    Push(T),
    /// `pop::<T>()`.
    Pop,
    /// `remove::<T>(idx)`.
    Remove(usize),
    /// `remove_type::<T>()`.
    RemoveType,
    /// `remove_empty()`.
    Prune,
    /// An operation on the pool of another type, the one with this key, or
    /// an operation that changes no entry.
    Other(TypeKey),
}

/// What the pool of `T` is after one step.
pub open spec fn after_step<T>(pool: Option<Seq<T>>, step: Step<T>) -> Option<Seq<T>> {
    match step {
        Step::Push(value) => Some(pushed(pool, value)),
        Step::Pop => if last_value(pool) is Some {
            Some(pool.unwrap().drop_last())
        } else {
            pool
        },
        Step::Remove(idx) => if value_at(pool, idx as int) is Some {
            Some(pool.unwrap().remove(idx as int))
        } else {
            pool
        },
        Step::RemoveType => None,
        Step::Prune => if held(pool).len() == 0 {
            None
        } else {
            pool
        },
        Step::Other(_) => pool,
    }
}

/// What the pool of `T` is after all of `steps`, in their order.
pub open spec fn replay<T>(pool: Option<Seq<T>>, steps: Seq<Step<T>>) -> Option<Seq<T>>
    decreases steps.len(),
{
    if steps.len() == 0 {
        pool
    } else {
        after_step(replay(pool, steps.drop_last()), steps.last())
    }
}

/// The values that `steps` push, in their order.
pub open spec fn pushes<T>(steps: Seq<Step<T>>) -> Seq<T>
    decreases steps.len(),
{
    if steps.len() == 0 {
        Seq::empty()
    } else {
        match steps.last() {
            Step::Push(value) => pushes(steps.drop_last()).push(value),
            _ => pushes(steps.drop_last()),
        }
    }
}

/// Whether `after` can be what the operation `step` makes of `before`: what
/// the contract of that operation says of the two.
pub open spec fn follows<T: 'static>(before: TypePools, after: TypePools, step: Step<T>) -> bool {
    match step {
        Step::Push(value) => after.pool::<T>() == Some(pushed(before.pool::<T>(), value)),
        Step::Pop => if last_value(before.pool::<T>()) is Some {
            after.pool::<T>() == Some(before.pool::<T>().unwrap().drop_last())
        } else {
            after@ == before@
        },
        Step::Remove(idx) => if value_at(before.pool::<T>(), idx as int) is Some {
            after.pool::<T>() == Some(before.pool::<T>().unwrap().remove(idx as int))
        } else {
            after@ == before@
        },
        Step::RemoveType => after.pool::<T>() is None,
        Step::Prune => after@ == occupied(before@),
        Step::Other(key) => key != key_of::<T>() && kept_but(before@, after@, key),
    }
}

/// Whether `states` are the registries of a run of `steps`: `states[k]` is
/// the registry after `k` steps, each is well formed, and each follows from
/// the one before it.
pub open spec fn is_run<T: 'static>(states: Seq<TypePools>, steps: Seq<Step<T>>) -> bool {
    &&& states.len() == steps.len() + 1
    &&& forall|k: int| 0 <= k < states.len() ==> (#[trigger] states[k]).wf()
    &&& forall|k: int|
        1 <= k < states.len() ==> follows(states[k - 1], #[trigger] states[k], steps[k - 1])
}

/// One step does to the pool of `T` what `after_step` says.
pub proof fn lemma_step<T: 'static>(before: TypePools, after: TypePools, step: Step<T>)
    requires
        before.wf(),
        after.wf(),
        follows(before, after, step),
    ensures
        after.pool::<T>() == after_step(before.pool::<T>(), step),
{
    match step {
        Step::Prune => {
            if before.pool::<T>() is Some {
                if before.pool::<T>().unwrap().len() == 0 {
                    assert(before.pool::<T>().unwrap() =~= Seq::<T>::empty());
                    lemma_pruning::<T>(&before, &after);
                } else {
                    lemma_pruning_keeps_values::<T>(&before, &after);
                }
            } else if after.pool::<T>() is Some {
                lemma_pruning_adds_no_pool::<T>(&before, &after);
            }
        },
        Step::Other(key) => {
            lemma_isolation_by_key::<T>(&before, &after, key);
        },
        _ => {},
    }
}

/// A run does to the pool of `T` what `replay` says, at every step of it.
pub proof fn lemma_run<T: 'static>(states: Seq<TypePools>, steps: Seq<Step<T>>)
    requires
        is_run(states, steps),
    ensures
        forall|m: int|
            0 <= m <= steps.len() ==> (#[trigger] states[m]).pool::<T>() == replay(
                states[0].pool::<T>(),
                steps.take(m),
            ),
        states.last().pool::<T>() == replay(states[0].pool::<T>(), steps),
    decreases steps.len(),
{
    let first = states[0].pool::<T>();
    if steps.len() > 0 {
        let n = steps.len() as int;
        lemma_run::<T>(states.drop_last(), steps.drop_last());
        lemma_step::<T>(states[n - 1], states[n], steps[n - 1]);
        assert(steps.take(n) =~= steps);
        assert forall|m: int| 0 <= m <= n implies (#[trigger] states[m]).pool::<T>() == replay(
            first,
            steps.take(m),
        ) by {
            if m < n {
                assert(states.drop_last()[m] == states[m]);
                assert(steps.drop_last().take(m) =~= steps.take(m));
            } else {
                assert(states.drop_last()[n - 1] == states[n - 1]);
                assert(steps.drop_last().take(n - 1) =~= steps.drop_last());
            }
        }
    } else {
        assert(steps.take(0) =~= steps);
    }
}

/// Insertion order, with operations on other types in between: after a run
/// of pushes of `T` and of operations on other types, the pool of `T` holds
/// what it held before, followed by the values pushed, in the order in
/// which they were pushed.
pub proof fn lemma_insertion_order_among_others<T: 'static>(
    states: Seq<TypePools>,
    steps: Seq<Step<T>>,
)
    requires
        is_run(states, steps),
        forall|k: int| 0 <= k < steps.len() ==> steps[k] is Push || steps[k] is Other,
    ensures
        held(states.last().pool::<T>()) == held(states[0].pool::<T>()) + pushes(steps),
        forall|i: int|
            0 <= i < pushes(steps).len() ==> value_at(
                states.last().pool::<T>(),
                held(states[0].pool::<T>()).len() + i,
            ) == Some(#[trigger] pushes(steps)[i]),
{
    lemma_run::<T>(states, steps);
    lemma_replay_pushes::<T>(states[0].pool::<T>(), steps);
}

/// The same of `replay` alone.
proof fn lemma_replay_pushes<T>(pool: Option<Seq<T>>, steps: Seq<Step<T>>)
    requires
        forall|k: int| 0 <= k < steps.len() ==> steps[k] is Push || steps[k] is Other,
    ensures
        held(replay(pool, steps)) == held(pool) + pushes(steps),
        pushes(steps).len() > 0 ==> replay(pool, steps) is Some,
    decreases steps.len(),
{
    if steps.len() > 0 {
        lemma_replay_pushes::<T>(pool, steps.drop_last());
        assert(held(replay(pool, steps)) =~= held(pool) + pushes(steps));
    } else {
        assert(held(pool) + pushes(steps) =~= held(pool));
    }
}

/// The length of a pool over the whole life of a registry that began
/// without entries. At the end of a run:
/// - `T` has a pool exactly when there was a push of `T` after which the
///   pool was never missing;
/// - the pool of `T` went missing only by `remove_type` or by pruning;
/// - if the pool of `T` is empty, a `pop` or a `remove` came before.
#[verifier::rlimit(40)]
pub proof fn lemma_len_over_history<T: 'static>(states: Seq<TypePools>, steps: Seq<Step<T>>)
    requires
        is_run(states, steps),
        states[0]@.len() == 0,
    ensures
        states.last().pool::<T>() is Some <==> exists|k: int|
            0 <= k < steps.len() && steps[k] is Push && forall|m: int|
                k < m <= steps.len() ==> (#[trigger] states[m]).pool::<T>() is Some,
        forall|m: int|
            1 <= m <= steps.len() && states[m - 1].pool::<T>() is Some && (
            #[trigger] states[m]).pool::<T>() is None ==> steps[m - 1] is RemoveType || steps[m
                - 1] is Prune,
        states.last().pool::<T>() is Some && states.last().pool::<T>().unwrap().len() == 0
            ==> exists|k: int| 0 <= k < steps.len() && (steps[k] is Pop || steps[k] is Remove),
    decreases steps.len(),
{
    let n = steps.len() as int;
    lemma_fresh_has_no_pool::<T>(&states[0]);
    assert forall|m: int|
        1 <= m <= n && states[m - 1].pool::<T>() is Some && (#[trigger] states[m]).pool::<T>()
            is None implies steps[m - 1] is RemoveType || steps[m - 1] is Prune by {
        lemma_step::<T>(states[m - 1], states[m], steps[m - 1]);
    }
    if n > 0 {
        let earlier = states.drop_last();
        let before = steps.drop_last();
        assert(earlier[0] == states[0]);
        assert forall|k: int| 0 <= k < earlier.len() implies earlier[k] == states[k] by {}
        lemma_len_over_history::<T>(earlier, before);
        lemma_step::<T>(states[n - 1], states[n], steps[n - 1]);
        assert(earlier.last() == states[n - 1]);
        assert(states.last() == states[n]);
        if states[n].pool::<T>() is Some {
            if states[n - 1].pool::<T>() is Some {
                let k = choose|k: int|
                    0 <= k < before.len() && before[k] is Push && forall|m: int|
                        k < m <= before.len() ==> (#[trigger] earlier[m]).pool::<T>() is Some;
                assert(steps[k] is Push);
                assert forall|m: int| k < m <= n implies (#[trigger] states[m]).pool::<T>()
                    is Some by {
                    if m < n {
                        assert(earlier[m].pool::<T>() is Some);
                    }
                }
            } else {
                assert(steps[n - 1] is Push);
            }
            if states[n].pool::<T>().unwrap().len() == 0 {
                if !(steps[n - 1] is Pop || steps[n - 1] is Remove) {
                    let k = choose|k: int|
                        0 <= k < before.len() && (before[k] is Pop || before[k] is Remove);
                    assert(steps[k] is Pop || steps[k] is Remove);
                }
            }
        }
    }
}

/// A type that was never pushed has no pool.
pub proof fn lemma_never_pushed<T: 'static>(states: Seq<TypePools>, steps: Seq<Step<T>>)
    requires
        is_run(states, steps),
        states[0]@.len() == 0,
        forall|k: int| 0 <= k < steps.len() ==> !(steps[k] is Push),
    ensures
        states.last().pool::<T>() is None,
{
    lemma_len_over_history::<T>(states, steps);
}

} // verus!
