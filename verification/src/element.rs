//! The types whose values a registry can hold.

use vstd::prelude::*;

verus! {

/// A type that can be the element type of a pool.
///
/// Element types are told apart by their keys, and a key is made from a type
/// without its lifetimes. To implement `Element` for a type is to promise
/// that the type names no lifetime but `'static` and binds none (no
/// `for<'a>`), and that its type arguments are element types in turn. Two
/// element types then have one key only when they are one type, which is
/// what the contracts of a registry rest on.
pub trait Element: 'static {

}

impl Element for () {

}

impl Element for bool {

}

impl Element for char {

}

impl Element for u8 {

}

impl Element for u16 {

}

impl Element for u32 {

}

impl Element for u64 {

}

impl Element for u128 {

}

impl Element for usize {

}

impl Element for i8 {

}

impl Element for i16 {

}

impl Element for i32 {

}

impl Element for i64 {

}

impl Element for i128 {

}

impl Element for isize {

}

impl Element for String {

}

impl Element for &'static str {

}

impl<T: Element> Element for &'static T {

}

impl<T: Element> Element for Box<T> {

}

impl<T: Element> Element for Option<T> {

}

impl<T: Element> Element for Vec<T> {

}

impl<T: Element, const N: usize> Element for [T; N] {

}

impl<A: Element, B: Element> Element for (A, B) {

}

impl<A: Element, B: Element, C: Element> Element for (A, B, C) {

}

} // verus!
