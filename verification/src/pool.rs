//! The pool of one element type, and what every pool offers whatever its
//! element type is.

use vstd::prelude::*;
use crate::element::Element;
use crate::erased::{any_mut, any_ref, behind, given_back, lent, AnyMut, AnyRef};
use crate::key::{erase_value, key_of, ErasedValue, TypeKey};

verus! {

/// What a pool offers without its element type being known.
pub(crate) trait TypePoolTrait {
    /// The key of the element type.
    spec fn key(&self) -> TypeKey;

    /// The values held, in order, each with its type hidden.
    spec fn items(&self) -> Seq<ErasedValue>;

    /// The pool as `dyn Any`, from where it can be had back under its own
    /// type.
    fn as_any(&self) -> (any: AnyRef<'_>)
        ensures
            behind(any) == (self.key(), self.items()),
    ;

    /// The pool as `dyn Any`, from where it can be had back under its own
    /// type, to be changed. The pool keeps its element type; its values are
    /// in the end what the borrow holds then.
    fn as_any_mut(&mut self) -> (any: AnyMut<'_>)
        ensures
            lent(any) == (old(self).key(), old(self).items()),
            given_back(any) == final(self).items(),
            final(self).key() == old(self).key(),
    ;

    /// Whether the pool holds no value.
    fn is_empty(&self) -> (r: bool)
        ensures
            r == (self.items().len() == 0),
    ;
}

/// A growable, ordered sequence of values of one type.
pub struct TypePool<T> {
    pub values: Vec<T>,
}

impl<T> View for TypePool<T> {
    type V = Seq<T>;

    open spec fn view(&self) -> Seq<T> {
        self.values@
    }
}

impl<T: 'static> TypePool<T> {
    /// An empty pool.
    pub fn new() -> (r: Self)
        ensures
            r@ == Seq::<T>::empty(),
    {
        Self { values: Vec::new() }
    }

    /// Adds `value` at the end.
    pub fn append(&mut self, value: T)
        ensures
            final(self)@ == old(self)@.push(value),
    {
        self.values.push(value);
    }

    /// Takes the last value out, if there is one.
    pub fn pop_last(&mut self) -> (r: Option<T>)
        ensures
            r == if old(self)@.len() > 0 {
                Some(old(self)@.last())
            } else {
                None
            },
            final(self)@ == if old(self)@.len() > 0 {
                old(self)@.drop_last()
            } else {
                old(self)@
            },
    {
        self.values.pop()
    }

    /// Takes the value at `index` out, if there is one; the values behind it
    /// move one place to the front.
    pub fn remove_at(&mut self, index: usize) -> (r: Option<T>)
        ensures
            r == if index < old(self)@.len() {
                Some(old(self)@[index as int])
            } else {
                None
            },
            final(self)@ == if index < old(self)@.len() {
                old(self)@.remove(index as int)
            } else {
                old(self)@
            },
    {
        if index < self.values.len() {
            Some(self.values.remove(index))
        } else {
            None
        }
    }

    /// The value at `index`, if there is one.
    pub fn get(&self, index: usize) -> (r: Option<&T>)
        ensures
            match r {
                Some(value) => index < self@.len() && *value == self@[index as int],
                None => index >= self@.len(),
            },
    {
        if index < self.values.len() {
            Some(&self.values[index])
        } else {
            None
        }
    }

    /// The value at `index`, to be changed in place, if there is one.
    pub fn get_mut(&mut self, index: usize) -> (r: Option<&mut T>)
        ensures
            match r {
                Some(value) => {
                    &&& index < old(self)@.len()
                    &&& *value == old(self)@[index as int]
                    &&& final(self)@ == old(self)@.update(index as int, *final(value))
                },
                None => index >= old(self)@.len() && final(self)@ == old(self)@,
            },
    {
        if index < self.values.len() {
            Some(&mut self.values[index])
        } else {
            None
        }
    }

    /// How many values the pool holds.
    pub fn length(&self) -> (r: usize)
        ensures
            r == self@.len(),
    {
        self.values.len()
    }

    /// Whether the pool holds no value.
    pub fn is_empty(&self) -> (r: bool)
        ensures
            r == (self@.len() == 0),
    {
        self.values.is_empty()
    }
}

impl<T: Element> TypePoolTrait for TypePool<T> {
    open spec fn key(&self) -> TypeKey {
        key_of::<T>()
    }

    open spec fn items(&self) -> Seq<ErasedValue> {
        Seq::new(self.values@.len(), |i: int| erase_value(self.values@[i]))
    }

    fn as_any(&self) -> (any: AnyRef<'_>) {
        any_ref(self)
    }

    fn as_any_mut(&mut self) -> (any: AnyMut<'_>) {
        any_mut(self)
    }

    fn is_empty(&self) -> (r: bool) {
        self.values.is_empty()
    }
}

} // verus!
