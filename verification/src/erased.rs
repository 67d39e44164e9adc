//! A pool behind a handle that does not name its element type, and the two
//! ways back from the handle to the pool: borrowed as `dyn Any`, the pool is
//! had back under its own type.

use std::any::Any;
use vstd::prelude::*;
use crate::element::Element;
use crate::key::{key_of, read_all, ErasedValue, TypeKey};
use crate::pool::{TypePool, TypePoolTrait};

verus! {

/// A shared borrow of a pool as `dyn Any`. Verus does not look inside.
#[verifier::external_body]
pub struct AnyRef<'a> {
    inner: &'a dyn Any,
}

/// The pool that `any` borrows: the key of its element type, and its values
/// in order, each with its type hidden.
pub uninterp spec fn behind(any: AnyRef) -> (TypeKey, Seq<ErasedValue>);

/// A mutable borrow of a pool as `dyn Any`. Verus does not look inside.
#[verifier::external_body]
pub struct AnyMut<'a> {
    inner: &'a mut dyn Any,
}

/// The pool that `any` borrows, as it is when the borrow is made: the key of
/// its element type, and its values in order, each with its type hidden.
pub uninterp spec fn lent(any: AnyMut) -> (TypeKey, Seq<ErasedValue>);

/// The values of the pool that `any` borrows, as they are when the borrow
/// ends.
pub uninterp spec fn given_back(any: AnyMut) -> Seq<ErasedValue>;

/// Borrows `pool` as `dyn Any`, the form in which `<dyn Any>::downcast_ref`
/// takes it. What the result borrows is `pool`.
#[verifier::external_body]
pub(crate) fn any_ref<T: Element>(pool: &TypePool<T>) -> (any: AnyRef<'_>)
    ensures
        behind(any) == (pool.key(), pool.items()),
{
    AnyRef { inner: pool }
}

/// Borrows `pool` mutably as `dyn Any`, the form in which
/// `<dyn Any>::downcast_mut` takes it. What the result borrows is `pool`,
/// and what it holds when the borrow ends is what `pool` holds then.
#[verifier::external_body]
pub(crate) fn any_mut<T: Element>(pool: &mut TypePool<T>) -> (any: AnyMut<'_>)
    ensures
        lent(any) == (old(pool).key(), old(pool).items()),
        given_back(any) == final(pool).items(),
{
    AnyMut { inner: pool }
}

/// A pool whose element type is not named.
pub struct ErasedPool {
    inner: Box<dyn TypePoolTrait>,
}

impl ErasedPool {
    /// The key of the element type.
    pub closed spec fn key(&self) -> TypeKey {
        self.inner.key()
    }

    /// The values held, in order, each with its type hidden.
    pub closed spec fn items(&self) -> Seq<ErasedValue> {
        self.inner.items()
    }

    /// How many values the pool holds.
    pub open spec fn count(&self) -> nat {
        self.items().len()
    }

    /// Whether this is a pool of `T`.
    pub open spec fn holds<T: 'static>(&self) -> bool {
        self.key() == key_of::<T>()
    }

    /// The values held, read as values of `T`. Meant for a pool that
    /// [`holds`](Self::holds) `T`.
    pub open spec fn values<T: 'static>(&self) -> Seq<T> {
        read_all::<T>(self.items())
    }

    /// A pool holds as many values, read as values of any type, as it holds
    /// values at all.
    pub proof fn lemma_values_count<T: 'static>(&self)
        ensures
            self.values::<T>().len() == self.count(),
    {
    }

    /// An empty pool of `T`.
    pub fn new<T: Element>() -> (r: Self)
        ensures
            r.holds::<T>(),
            r.values::<T>() == Seq::<T>::empty(),
    {
        ErasedPool { inner: Box::new(TypePool::<T>::new()) }
    }

    /// Whether the pool holds no value.
    pub fn is_empty(&self) -> (r: bool)
        ensures
            r == (self.count() == 0),
    {
        self.inner.is_empty()
    }

    /// The pool under its own type and to be changed in place, if that type
    /// is `TypePool<T>`. What the caller leaves in it is what `self` holds
    /// afterwards, still as a pool of the same element type.
    pub(crate) fn downcast_mut<T: Element>(&mut self) -> (r: Option<&mut TypePool<T>>)
        ensures
            r is Some <==> old(self).holds::<T>(),
            final(self).key() == old(self).key(),
            match r {
                Some(typed) => {
                    &&& typed@ == old(self).values::<T>()
                    &&& final(self).values::<T>() == final(typed)@
                },
                None => final(self).items() == old(self).items(),
            },
    {
        cast_mut::<T>(self.inner.as_any_mut())
    }

    /// The pool under its own type, if that is `TypePool<T>`.
    pub(crate) fn downcast_ref<T: Element>(&self) -> (r: Option<&TypePool<T>>)
        ensures
            r is Some <==> self.holds::<T>(),
            r is Some ==> r.unwrap()@ == self.values::<T>(),
    {
        cast_ref::<T>(self.inner.as_any())
    }
}

/// `<dyn Any>::downcast_ref`, for an element type: `Some` exactly when the
/// pool that `any` borrows is a `TypePool<T>`, and then that pool, borrowed
/// under its own type. The contract states the first over the key of the
/// pool, which element types have one each. It states the second over the
/// values that `any` holds, read as `T`: the values of the pool handed back
/// are the values that were hidden, which takes a hidden value read under
/// its own type to be that value.
#[verifier::external_body]
pub(crate) fn cast_ref<'a, T: Element>(any: AnyRef<'a>) -> (r: Option<&'a TypePool<T>>)
    ensures
        r is Some <==> behind(any).0 == key_of::<T>(),
        r is Some ==> r.unwrap()@ == read_all::<T>(behind(any).1),
{
    any.inner.downcast_ref::<TypePool<T>>()
}

/// `<dyn Any>::downcast_mut`, for an element type: `Some` exactly when the
/// pool that `any` borrows is a `TypePool<T>`, and then that pool, borrowed
/// mutably under its own type. What the borrow holds in the end is what the
/// pool holds when `any` ends; where there is no borrow, the pool keeps its
/// values. Keys and values are read as in [`cast_ref`].
#[verifier::external_body]
pub(crate) fn cast_mut<'a, T: Element>(any: AnyMut<'a>) -> (r: Option<&'a mut TypePool<T>>)
    ensures
        r is Some <==> lent(any).0 == key_of::<T>(),
        match r {
            Some(typed) => {
                &&& typed@ == read_all::<T>(lent(any).1)
                &&& final(typed)@ == read_all::<T>(given_back(any))
            },
            None => given_back(any) == lent(any).1,
        },
{
    any.inner.downcast_mut::<TypePool<T>>()
}

/// `<dyn Any>::downcast_mut` on the pool behind `pool`, reached through
/// `as_any_mut`, as one step that does not unwind. It is for handing a
/// borrow out of a registry, which a step that may unwind cannot do; what
/// it states is what [`ErasedPool::downcast_mut`] proves.
#[verifier::external_body]
pub(crate) fn downcast_mut_in_place<T: Element>(pool: &mut ErasedPool) -> (r: Option<
    &mut TypePool<T>,
>)
    ensures
        r is Some <==> old(pool).holds::<T>(),
        final(pool).key() == old(pool).key(),
        match r {
            Some(typed) => {
                &&& typed@ == old(pool).values::<T>()
                &&& final(pool).values::<T>() == final(typed)@
            },
            None => final(pool).items() == old(pool).items(),
        },
    no_unwind
{
    pool.inner.as_any_mut().inner.downcast_mut::<TypePool<T>>()
}

} // verus!
