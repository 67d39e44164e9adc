//! The identifiers that the runtime gives to types.

use std::any::TypeId;
use vstd::prelude::*;
use crate::element::Element;
use crate::key::{key_of, TypeKey};

verus! {

/// `std::any::TypeId`, the identifier that the runtime gives to a type.
/// Verus does not look inside.
#[verifier::external_type_specification]
#[verifier::external_body]
pub struct ExTypeId(TypeId);

/// The identifier that the runtime gives to the element type with this key.
pub uninterp spec fn type_id(key: TypeKey) -> TypeId;

/// Whether `id` is the identifier of the type with this key, and of no
/// type with another key.
pub open spec fn names(id: TypeId, key: TypeKey) -> bool {
    &&& id == type_id(key)
    &&& forall|other: TypeKey| type_id(other) == id ==> other == key
}

/// `TypeId::of`, for an element type: the identifier of `T`. It depends on
/// `T` alone, so every call for one type returns the same identifier, and
/// it is unique, so no type with another key has it.
#[verifier::external_body]
fn type_id_of<T: Element>() -> (id: TypeId)
    ensures
        id == type_id(key_of::<T>()),
        forall|other: TypeKey| type_id(other) == id ==> other == key_of::<T>(),
{
    TypeId::of::<T>()
}

/// `==` on `TypeId`: whether the two identifiers are the same.
#[verifier::external_body]
fn same_id(a: &TypeId, b: &TypeId) -> (same: bool)
    ensures
        same == (*a == *b),
{
    a == b
}

/// The identifier of `T`.
pub fn identifier<T: Element>() -> (id: TypeId)
    ensures
        names(id, key_of::<T>()),
{
    type_id_of::<T>()
}

/// Whether `T` and `U` are one type. A caller that gets `false` knows that
/// the keys of `T` and `U` differ, and so that the pool of one is not the
/// pool of the other.
pub fn same_type<T: Element, U: Element>() -> (same: bool)
    ensures
        same == (key_of::<T>() == key_of::<U>()),
{
    let t = type_id_of::<T>();
    let u = type_id_of::<U>();
    same_id(&t, &u)
}

} // verus!
