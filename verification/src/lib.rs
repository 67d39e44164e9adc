//! A registry of growable pools, one per element type.
//!
//! A [`TypePools`] holds any number of [`TypePool`]s, each for values of one
//! type, without the caller declaring the types up front. A pool is made the
//! first time a value of its type is pushed, and is reached again through the
//! type alone: `pools.get::<u32>(0)`.
//!
//! The contracts are stated over [`TypePools::pool`], the sequence of values
//! held for a type, and over the view of the registry, the sequence of its
//! entries. No type ever has two pools: that is the invariant of the
//! registry, [`TypePools::wf`].
//!
//! The element types are the types that implement [`Element`]. They are
//! told apart by their keys ([`key::key_of`]): two element types have one
//! key only when they are one type. Verus does not decide whether two keys
//! differ; [`same_type`] finds it out when the program runs.

pub mod element;
pub mod entry;
pub mod erased;
pub mod history;
pub mod identity;
pub mod key;
pub mod laws;
pub mod pool;
pub mod pools;

pub use crate::element::Element;
pub use crate::identity::same_type;
pub use crate::pool::TypePool;
pub use crate::pools::TypePools;
