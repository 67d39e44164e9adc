//! The registry: one pool per element type, made on first use.

use std::any::TypeId;
use vstd::prelude::*;
use crate::element::Element;
use crate::entry::{
    has_key, has_pool, in_use, is_slot, lemma_identifiers, lemma_pool_added, lemma_pool_removed,
    lemma_pool_replaced, lemma_pool_replaced_any, lemma_pruned_unlisted,
    lemma_remove_well_formed, lemma_slot, listed,
    occupied, others_kept, pool_added, pool_replaced, slot_of, values_of, well_formed, without,
    Entry,
};
use crate::erased::{downcast_mut_in_place, ErasedPool};
use crate::identity::{identifier, type_id};
use crate::key::{key_of, TypeKey};
use crate::pool::TypePool;

verus! {

/// `Vec::shrink_to_fit`: it gives spare capacity back and leaves the
/// elements as they are.
#[verifier::external_body]
fn shrink<E>(entries: &mut Vec<E>)
    ensures
        final(entries)@ == old(entries)@,
{
    entries.shrink_to_fit()
}

/// The values of a pool; a missing pool counts as an empty one.
pub open spec fn held<T>(pool: Option<Seq<T>>) -> Seq<T> {
    match pool {
        Some(values) => values,
        None => Seq::empty(),
    }
}

/// The values of a pool after `value` is pushed.
pub open spec fn pushed<T>(pool: Option<Seq<T>>, value: T) -> Seq<T> {
    held(pool).push(value)
}

/// The value at `idx` in a pool, if the pool exists and is that long.
pub open spec fn value_at<T>(pool: Option<Seq<T>>, idx: int) -> Option<T> {
    match pool {
        Some(values) => if 0 <= idx < values.len() {
            Some(values[idx])
        } else {
            None
        },
        None => None,
    }
}

/// The last value of a pool, if the pool exists and is not empty.
pub open spec fn last_value<T>(pool: Option<Seq<T>>) -> Option<T> {
    match pool {
        Some(values) => value_at(pool, values.len() - 1),
        None => None,
    }
}

/// The place of the pool of `T` among `entries`, if there is one.
fn find<T: Element>(entries: &Vec<Entry>) -> (r: Option<usize>)
    ensures
        match r {
            Some(i) => is_slot::<T>(entries@, i as int),
            None => !has_pool::<T>(entries@),
        },
{
    let mut i: usize = 0;
    while i < entries.len()
        invariant
            0 <= i <= entries@.len(),
            forall|j: int| 0 <= j < i ==> !is_slot::<T>(entries@, j),
        decreases entries@.len() - i,
    {
        if entries[i].pool.downcast_ref::<T>().is_some() {
            return Some(i);
        }
        i += 1;
    }
    None
}

/// The pool at `i`, the pool of `T`, under its own type.
fn typed<T: Element>(entries: &Vec<Entry>, i: usize) -> (typed: &TypePool<T>)
    requires
        is_slot::<T>(entries@, i as int),
    ensures
        typed@ == entries@[i as int].pool.values::<T>(),
{
    entries[i].pool.downcast_ref::<T>().unwrap()
}

/// The pool at `i`, the pool of `T`, under its own type and to be changed
/// in place; it is never `None`. Whatever is done to the pool, the entry
/// stays the pool of `T` under the same identifier, and the other entries
/// stay as they are.
fn typed_mut<T: Element>(entries: &mut Vec<Entry>, i: usize) -> (r: Option<&mut TypePool<T>>)
    requires
        is_slot::<T>(old(entries)@, i as int),
    ensures
        pool_replaced::<T>(old(entries)@, final(entries)@, i as int),
        match r {
            Some(typed) => {
                &&& typed@ == old(entries)@[i as int].pool.values::<T>()
                &&& final(typed)@ == final(entries)@[i as int].pool.values::<T>()
            },
            None => false,
        },
{
    entries[i].pool.downcast_mut::<T>()
}

/// The same, as a step that does not unwind: for a borrow that is handed
/// out of the registry.
fn typed_mut_in_place<T: Element>(entries: &mut Vec<Entry>, i: usize) -> (r: Option<
    &mut TypePool<T>,
>)
    requires
        is_slot::<T>(old(entries)@, i as int),
    ensures
        pool_replaced::<T>(old(entries)@, final(entries)@, i as int),
        match r {
            Some(typed) => {
                &&& typed@ == old(entries)@[i as int].pool.values::<T>()
                &&& final(typed)@ == final(entries)@[i as int].pool.values::<T>()
            },
            None => false,
        },
    no_unwind
{
    downcast_mut_in_place::<T>(&mut entries[i].pool)
}

/// A collection of pools, each holding the values of one type.
pub struct TypePools {
    entries: Vec<Entry>,
}

impl View for TypePools {
    type V = Seq<Entry>;

    closed spec fn view(&self) -> Seq<Entry> {
        self.entries@
    }
}

impl TypePools {
    /// Every type has at most one pool, and each pool stands under the
    /// identifier of its type. A registry that a program holds is always
    /// well formed.
    #[verifier::type_invariant]
    pub open spec fn wf(&self) -> bool {
        well_formed(self@)
    }

    /// Whether a pool of `T` exists.
    pub open spec fn tracks<T: 'static>(&self) -> bool {
        has_pool::<T>(self@)
    }

    /// Where the pool of `T` stands among the entries.
    pub open spec fn slot<T: 'static>(&self) -> int {
        slot_of::<T>(self@)
    }

    /// The values held for `T`, in order; `None` if `T` has no pool.
    pub open spec fn pool<T: 'static>(&self) -> Option<Seq<T>> {
        values_of::<T>(self@)
    }

    /// Takes the entries out, to be changed and put back.
    fn take_entries(&mut self) -> (entries: Vec<Entry>)
        ensures
            entries@ == old(self)@,
            well_formed(entries@),
    {
        proof {
            use_type_invariant(&*self);
        }
        let mut entries: Vec<Entry> = Vec::new();
        std::mem::swap(&mut self.entries, &mut entries);
        entries
    }

    /// Puts `entries` in the place of what the registry holds.
    fn put_entries(&mut self, entries: Vec<Entry>)
        requires
            well_formed(entries@),
        ensures
            final(self).wf(),
            final(self)@ == entries@,
    {
        self.entries = entries;
    }

    /// An empty registry.
    pub fn new() -> (r: Self)
        ensures
            r.wf(),
            r@ == Seq::<Entry>::empty(),
    {
        TypePools { entries: Vec::new() }
    }

    /// The pool of `T`.
    pub fn type_pool<T: Element>(&self) -> (r: Option<&TypePool<T>>)
        ensures
            match r {
                Some(typed) => self.pool::<T>() == Some(typed@),
                None => self.pool::<T>() is None,
            },
    {
        proof {
            use_type_invariant(self);
        }
        match find::<T>(&self.entries) {
            Some(i) => {
                proof {
                    lemma_slot::<T>(self.entries@, i as int);
                }
                Some(typed::<T>(&self.entries, i))
            },
            None => None,
        }
    }

    /// The pool of `T`, to be changed in place. What the caller leaves in it
    /// is what the registry holds for `T` afterwards.
    pub fn type_pool_mut<T: Element>(&mut self) -> (r: Option<&mut TypePool<T>>)
        ensures
            final(self).wf(),
            others_kept::<T>(old(self)@, final(self)@),
            match r {
                Some(typed) => {
                    &&& old(self).pool::<T>() == Some(typed@)
                    &&& final(self).pool::<T>() == Some(final(typed)@)
                    &&& pool_replaced::<T>(old(self)@, final(self)@, old(self).slot::<T>())
                },
                None => old(self).pool::<T>() is None && final(self)@ == old(self)@,
            },
    {
        proof {
            use_type_invariant(&*self);
        }
        match find::<T>(&self.entries) {
            Some(i) => {
                proof {
                    lemma_slot::<T>(self.entries@, i as int);
                    lemma_pool_replaced_any::<T>(self.entries@, i as int);
                }
                typed_mut_in_place::<T>(&mut self.entries, i)
            },
            None => None,
        }
    }

    /// Adds `value` at the end of the pool of `T`. The pool is made first if
    /// there is none.
    pub fn push<T: Element>(&mut self, value: T)
        ensures
            final(self).wf(),
            others_kept::<T>(old(self)@, final(self)@),
            final(self).pool::<T>() == Some(pushed(old(self).pool::<T>(), value)),
            old(self).tracks::<T>() ==> pool_replaced::<T>(
                old(self)@,
                final(self)@,
                old(self).slot::<T>(),
            ),
            !old(self).tracks::<T>() ==> pool_added::<T>(old(self)@, final(self)@),
    {
        proof {
            use_type_invariant(&*self);
        }
        let found = find::<T>(&self.entries);
        let mut entries = self.take_entries();
        let i = match found {
            Some(i) => {
                proof {
                    lemma_slot::<T>(entries@, i as int);
                }
                i
            },
            None => {
                entries.push(Entry { id: identifier::<T>(), pool: ErasedPool::new::<T>() });
                proof {
                    assert(entries@.drop_last() =~= old(self)@);
                    lemma_pool_added::<T>(old(self)@, entries@);
                }
                entries.len() - 1
            },
        };
        let ghost before = entries@;
        if let Some(typed) = typed_mut::<T>(&mut entries, i) {
            typed.append(value);
        }
        proof {
            lemma_pool_replaced::<T>(before, entries@, i as int);
            if !old(self).tracks::<T>() {
                assert(entries@.drop_last() =~= old(self)@);
                lemma_pool_added::<T>(old(self)@, entries@);
            }
        }
        self.put_entries(entries);
    }

    /// Takes the last value out of the pool of `T`. Where `T` has no pool or
    /// an empty one, nothing changes.
    pub fn pop<T: Element>(&mut self) -> (r: Option<T>)
        ensures
            final(self).wf(),
            others_kept::<T>(old(self)@, final(self)@),
            r == last_value(old(self).pool::<T>()),
            match r {
                Some(_) => {
                    &&& final(self).pool::<T>() == Some(old(self).pool::<T>().unwrap().drop_last())
                    &&& pool_replaced::<T>(old(self)@, final(self)@, old(self).slot::<T>())
                },
                None => final(self)@ == old(self)@,
            },
    {
        proof {
            use_type_invariant(&*self);
        }
        match find::<T>(&self.entries) {
            Some(i) => {
                proof {
                    lemma_slot::<T>(self.entries@, i as int);
                    lemma_pool_replaced_any::<T>(self.entries@, i as int);
                }
                if typed::<T>(&self.entries, i).is_empty() {
                    return None;
                }
                let mut entries = self.take_entries();
                let r = match typed_mut::<T>(&mut entries, i) {
                    Some(typed) => typed.pop_last(),
                    None => None,
                };
                self.put_entries(entries);
                r
            },
            None => None,
        }
    }

    /// Takes the value at `idx` out of the pool of `T`; the values behind it
    /// move one place to the front. Where `T` has no pool or the pool is not
    /// that long, nothing changes.
    pub fn remove<T: Element>(&mut self, idx: usize) -> (r: Option<T>)
        ensures
            final(self).wf(),
            others_kept::<T>(old(self)@, final(self)@),
            r == value_at(old(self).pool::<T>(), idx as int),
            match r {
                Some(_) => {
                    &&& final(self).pool::<T>() == Some(
                        old(self).pool::<T>().unwrap().remove(idx as int),
                    )
                    &&& pool_replaced::<T>(old(self)@, final(self)@, old(self).slot::<T>())
                },
                None => final(self)@ == old(self)@,
            },
    {
        proof {
            use_type_invariant(&*self);
        }
        match find::<T>(&self.entries) {
            Some(i) => {
                proof {
                    lemma_slot::<T>(self.entries@, i as int);
                    lemma_pool_replaced_any::<T>(self.entries@, i as int);
                }
                if idx >= typed::<T>(&self.entries, i).length() {
                    return None;
                }
                let mut entries = self.take_entries();
                let r = match typed_mut::<T>(&mut entries, i) {
                    Some(typed) => typed.remove_at(idx),
                    None => None,
                };
                self.put_entries(entries);
                r
            },
            None => None,
        }
    }

    /// The value at `idx` in the pool of `T`.
    pub fn get<T: Element>(&self, idx: usize) -> (r: Option<&T>)
        ensures
            r is Some <==> value_at(self.pool::<T>(), idx as int) is Some,
            r is Some ==> *r.unwrap() == value_at(self.pool::<T>(), idx as int).unwrap(),
    {
        match self.type_pool::<T>() {
            Some(typed) => typed.get(idx),
            None => None,
        }
    }

    /// The value at `idx` in the pool of `T`, to be changed in place. Where
    /// there is no such value, nothing changes.
    pub fn get_mut<T: Element>(&mut self, idx: usize) -> (r: Option<&mut T>)
        ensures
            final(self).wf(),
            others_kept::<T>(old(self)@, final(self)@),
            match r {
                Some(value) => {
                    &&& value_at(old(self).pool::<T>(), idx as int) == Some(*value)
                    &&& final(self).pool::<T>() == Some(
                        old(self).pool::<T>().unwrap().update(idx as int, *final(value)),
                    )
                    &&& pool_replaced::<T>(old(self)@, final(self)@, old(self).slot::<T>())
                },
                None => value_at(old(self).pool::<T>(), idx as int) is None && final(self)@ == old(
                    self,
                )@,
            },
    {
        proof {
            use_type_invariant(&*self);
        }
        match find::<T>(&self.entries) {
            Some(i) => {
                proof {
                    lemma_slot::<T>(self.entries@, i as int);
                    lemma_pool_replaced_any::<T>(self.entries@, i as int);
                }
                if idx >= typed::<T>(&self.entries, i).length() {
                    return None;
                }
                match typed_mut_in_place::<T>(&mut self.entries, i) {
                    Some(typed) => typed.get_mut(idx),
                    None => None,
                }
            },
            None => None,
        }
    }

    /// How many values the pool of `T` holds; `None` if `T` has no pool.
    pub fn len<T: Element>(&self) -> (r: Option<usize>)
        ensures
            r is Some <==> self.pool::<T>() is Some,
            r is Some ==> r.unwrap() == self.pool::<T>().unwrap().len(),
    {
        match self.type_pool::<T>() {
            Some(typed) => Some(typed.length()),
            None => None,
        }
    }

    /// The number of types that have a pool.
    pub fn types_count(&self) -> (r: usize)
        ensures
            r == self@.len(),
    {
        self.entries.len()
    }

    /// The identifiers of the types that have a pool, in the order of the
    /// entries.
    pub fn types(&self) -> (r: Vec<&TypeId>)
        ensures
            r@.len() == self@.len(),
            forall|i: int| 0 <= i < r@.len() ==> *r@[i] == self@[i].id,
            forall|i: int, j: int|
                0 <= i < r@.len() && 0 <= j < r@.len() && i != j ==> *r@[i] != *r@[j],
            forall|key: TypeKey|
                (exists|i: int| 0 <= i < r@.len() && *r@[i] == type_id(key)) <==> has_key(
                    self@,
                    key,
                ),
    {
        proof {
            use_type_invariant(self);
            lemma_identifiers(self.entries@);
        }
        let mut ids: Vec<&TypeId> = Vec::new();
        let mut i: usize = 0;
        while i < self.entries.len()
            invariant
                0 <= i <= self.entries@.len(),
                ids@.len() == i,
                forall|j: int| 0 <= j < i ==> *ids@[j] == self.entries@[j].id,
            decreases self.entries@.len() - i,
        {
            ids.push(&self.entries[i].id);
            i += 1;
        }
        proof {
            assert forall|key: TypeKey|
                (exists|i: int| 0 <= i < ids@.len() && *ids@[i] == type_id(key)) <==> has_key(
                    self@,
                    key,
                ) by {
                if exists|i: int| 0 <= i < ids@.len() && *ids@[i] == type_id(key) {
                    let i = choose|i: int| 0 <= i < ids@.len() && *ids@[i] == type_id(key);
                    assert(self@[i].id == type_id(key));
                    assert(listed(self@, type_id(key)));
                }
                if has_key(self@, key) {
                    assert(listed(self@, type_id(key)));
                    let i = choose|i: int| 0 <= i < self@.len() && self@[i].id == type_id(key);
                    assert(*ids@[i] == type_id(key));
                }
            }
        }
        ids
    }

    /// Drops the pool of `T` with all its values. Where `T` has no pool,
    /// nothing changes.
    pub fn remove_type<T: Element>(&mut self)
        ensures
            final(self).wf(),
            others_kept::<T>(old(self)@, final(self)@),
            final(self).pool::<T>() is None,
            !listed(final(self)@, type_id(key_of::<T>())),
            final(self)@ == without::<T>(old(self)@),
    {
        proof {
            use_type_invariant(&*self);
        }
        match find::<T>(&self.entries) {
            Some(i) => {
                let mut entries = self.take_entries();
                entries.remove(i);
                proof {
                    lemma_pool_removed::<T>(old(self)@, i as int);
                }
                self.put_entries(entries);
            },
            None => {},
        }
        proof {
            lemma_identifiers(self@);
            if listed(self@, type_id(key_of::<T>())) {
                let i = choose|i: int| 0 <= i < self@.len() && self@[i].pool.key() == key_of::<T>();
                assert(is_slot::<T>(self@, i));
            }
        }
    }

    /// Drops every pool that holds no value, and keeps the others in their
    /// order.
    pub fn remove_empty(&mut self)
        ensures
            final(self).wf(),
            final(self)@ == occupied(old(self)@),
            forall|i: int|
                0 <= i < old(self)@.len() && !in_use(old(self)@[i]) ==> !listed(
                    final(self)@,
                    #[trigger] old(self)@[i].id,
                ),
    {
        let mut entries = self.take_entries();
        proof {
            lemma_pruned_unlisted(entries@);
        }
        let ghost before = entries@;
        let total: usize = entries.len();
        // `entries` holds what is kept of the first `seen` entries, `kept` of
        // them, and behind these the entries not yet looked at.
        let mut seen: usize = 0;
        let mut kept: usize = 0;
        proof {
            reveal_with_fuel(Seq::filter, 1);
        }
        while seen < total
            invariant
                total == before.len(),
                0 <= seen <= total,
                kept == occupied(before.subrange(0, seen as int)).len(),
                entries@ == occupied(before.subrange(0, seen as int)) + before.subrange(
                    seen as int,
                    total as int,
                ),
                well_formed(entries@),
            decreases total - seen,
        {
            let ghost next = before.subrange(0, seen as int + 1);
            proof {
                reveal_with_fuel(Seq::filter, 2);
                assert(next.drop_last() =~= before.subrange(0, seen as int));
            }
            if entries[kept].pool.is_empty() {
                proof {
                    lemma_remove_well_formed(entries@, kept as int);
                }
                entries.remove(kept);
            } else {
                kept += 1;
            }
            seen += 1;
        }
        self.put_entries(entries);
    }

    /// Gives back the spare capacity of the list of pools. The pools
    /// themselves keep theirs.
    pub fn shrink_to_fit(&mut self)
        ensures
            final(self).wf(),
            final(self)@ == old(self)@,
    {
        let mut entries = self.take_entries();
        shrink(&mut entries);
        self.put_entries(entries);
    }
}

} // verus!
