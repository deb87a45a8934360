//! Marker types and marker traits selecting the type parameter to map over.
use vstd::prelude::*;

verus! {

/// Marker type specifying one of multiple type parameters to map over.
///
/// The const generic `N` is the zero-based index of the type parameter, not
/// counting lifetime parameters, but counting const generics. For example,
/// for a type `Foo<'a, S, T>`, `TypeParam<0>` refers to `S` and
/// `TypeParam<1>` refers to `T`.
///
/// This is a pure marker type: its only variant holds a [`NoValue`], which
/// cannot be constructed outside this crate, and this crate never constructs
/// one.
#[derive(Copy, Clone, Debug, Eq, Hash, Ord, PartialEq, PartialOrd)]
pub enum TypeParam<const N: usize> {
    /// The only variant, which cannot be constructed outside this crate.
    Unconstructible(NoValue),
}

/// A type without public constructor, making [`TypeParam`] uninhabited
/// outside this crate.
#[derive(Copy, Clone, Debug, Eq, Hash, Ord, PartialEq, PartialOrd)]
pub struct NoValue {
    no_values: (),
}

/// Supertrait of [`FuncMarker`], implemented only for the marker types
/// [`TypeParam<N>`], which keeps [`FuncMarker`] closed to other types.
pub trait Sealed<P> {}

impl<const N: usize> Sealed<TypeParam<N>> for TypeParam<N> {}

/// Marker trait for marker types specifying what to map over.
///
/// This is only implemented by the marker types [`TypeParam<N>`]. For every
/// implementation, `P` is the implementing type itself, so from
/// `Q: FuncMarker<P>` it follows that `Q` and `P` are the same type.
pub trait FuncMarker<P>: Sealed<P> {}

impl<const N: usize> FuncMarker<TypeParam<N>> for TypeParam<N> {}

/// Marker trait that a derived `FuncMap` implementation also implements for
/// the deriving type, so that deriving for a type implementing `Drop` is
/// reported as a conflict.
#[allow(non_camel_case_types)]
pub trait FuncMap_cannot_be_derived_for_types_implementing_Drop {}

/// Marker trait that a derived `TryFuncMap` implementation also implements for
/// the deriving type, so that deriving for a type implementing `Drop` is
/// reported as a conflict.
#[allow(non_camel_case_types)]
pub trait TryFuncMap_cannot_be_derived_for_types_implementing_Drop {}

} // verus!
