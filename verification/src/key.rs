//! Types and values with their type hidden, for use in contracts.
//!
//! A pool is kept behind a handle that does not name its element type. To
//! say what such a handle holds, the contracts need a value that stands
//! for a type, and one that stands for a value of any type. Both are made
//! here from trait objects. Verus proves nothing of them but that the same
//! type, or the same value, gives the same result. That two element types
//! have two keys, and that a value read back is the value that was hidden,
//! is taken from how the program runs: the contracts of the functions that
//! reach a pool through `dyn Any` say so, and nothing here does.

use std::marker::PhantomData;
use vstd::prelude::*;

verus! {

/// What can stand behind a [`TypeKey`] or an [`ErasedValue`].
pub(crate) trait Tagged {

}

/// Stands for the type `T`; it holds no value.
pub(crate) struct Tag<T> {
    pub marker: PhantomData<T>,
}

/// Holds one value of `T`.
pub(crate) struct Boxed<T> {
    pub value: T,
}

impl<T: 'static> Tagged for Tag<T> {

}

impl<T: 'static> Tagged for Boxed<T> {

}

/// The identity of a type, as a value that does not name the type.
pub struct TypeKey {
    tag: Box<dyn Tagged>,
}

/// A value of some type, as a value that does not name the type.
pub struct ErasedValue {
    value: Box<dyn Tagged>,
}

/// The key of the type `T`. It is made from `T` without its lifetimes, so
/// it tells apart exactly the types that differ in more than a lifetime;
/// of element types ([`crate::element::Element`]) these are all.
pub closed spec fn key_of<T: 'static>() -> TypeKey {
    TypeKey { tag: Box::new(Tag::<T> { marker: PhantomData }) }
}

/// `value` with its type hidden.
pub closed spec fn erase_value<T: 'static>(value: T) -> ErasedValue {
    ErasedValue { value: Box::new(Boxed { value }) }
}

impl ErasedValue {
    /// The value of type `T` that `self` was made from. It says nothing
    /// where `self` was made from a value of another type. That it gives
    /// back the very value that was hidden is not proved here.
    pub closed spec fn read<T: 'static>(self) -> T {
        choose|value: T| erase_value(value) == self
    }
}

/// `items` read as values of `T`, one by one.
pub open spec fn read_all<T: 'static>(items: Seq<ErasedValue>) -> Seq<T> {
    Seq::new(items.len(), |i: int| items[i].read::<T>())
}

} // verus!
