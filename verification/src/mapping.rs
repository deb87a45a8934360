//! The [`FuncMap`] and [`TryFuncMap`] traits and the relations their
//! contracts are stated in.
use vstd::prelude::*;

use crate::marker::{FuncMarker, TypeParam};

verus! {

/// `ys` is obtained from `xs` by relating each item to the item at the same
/// position through `rel`.
pub open spec fn seq_maps_to<A, B>(xs: Seq<A>, rel: spec_fn(A, B) -> bool, ys: Seq<B>) -> bool {
    &&& xs.len() == ys.len()
    &&& forall|i: int| 0 <= i < xs.len() ==> #[trigger] rel(xs[i], ys[i])
}

/// The relation between an input item and an output item that a mapping
/// closure `f` can produce.
pub open spec fn produced_by<A, B, F: FnMut(A) -> B>(f: F) -> spec_fn(A, B) -> bool {
    |a: A, b: B| call_ensures(f, (a,), b)
}

/// The relation between an input item and an output item that a fallible
/// mapping closure `f` can produce successfully.
pub open spec fn produced_ok_by<A, B, E, F: FnMut(A) -> Result<B, E>>(f: F) -> spec_fn(A, B) -> bool {
    |a: A, b: B| call_ensures(f, (a,), Ok::<B, E>(b))
}

/// The outcomes that a fallible mapping closure `f` can produce.
pub open spec fn outcome_of<A, B, E, F: FnMut(A) -> Result<B, E>>(f: F) -> spec_fn(A, Result<B, E>) -> bool {
    |a: A, r: Result<B, E>| call_ensures(f, (a,), r)
}

/// `outcome` can map `a` successfully.
pub open spec fn can_succeed<A, B, E>(outcome: spec_fn(A, Result<B, E>) -> bool, a: A) -> bool {
    exists|b: B| #[trigger] outcome(a, Ok(b))
}

/// `e` is the first error when mapping `items` in order with `outcome`: every
/// item before it is mapped successfully and the item at its position fails
/// with `e`.
pub open spec fn first_error<A, B, E>(items: Seq<A>, outcome: spec_fn(A, Result<B, E>) -> bool, e: E) -> bool {
    exists|i: int|
        0 <= i < items.len() && #[trigger] outcome(items[i], Err(e))
            && forall|j: int| 0 <= j < i ==> #[trigger] can_succeed(outcome, items[j])
}

/// When the items before position `done.len()` were mapped successfully to
/// `done` and the item at that position failed with `e`, then `e` is the
/// first error.
pub proof fn lemma_first_error_at<A, B, E>(
    items: Seq<A>,
    outcome: spec_fn(A, Result<B, E>) -> bool,
    done: Seq<B>,
    e: E,
)
    requires
        done.len() < items.len(),
        forall|j: int| 0 <= j < done.len() ==> #[trigger] outcome(items[j], Ok(done[j])),
        outcome(items[done.len() as int], Err(e)),
    ensures
        first_error(items, outcome, e),
{
    assert forall|j: int| 0 <= j < done.len() implies #[trigger] can_succeed(outcome, items[j]) by {
        assert(outcome(items[j], Ok(done[j])));
    }
}

/// Functorial mapping of a generic type over any of its type parameters.
///
/// If `Self` is `Foo<A>` (with `A` at the position selected by `P`), then
/// `Output` is `Foo<B>`, and [`func_map`](FuncMap::func_map) applies the
/// closure to every occurrence of `A`, keeping everything else.
pub trait FuncMap<A, B, P = TypeParam<0>>: Sized where P: FuncMarker<P> {
    /// The output type of the functorial mapping.
    type Output;

    /// `out` is `self` with every occurrence of `A` replaced by a value
    /// related to it through `rel`, everything else unchanged.
    spec fn maps_to(self, rel: spec_fn(A, B) -> bool, out: Self::Output) -> bool;

    /// Applies the closure `f` to `self` in a functorial way.
    fn func_map<F>(self, f: F) -> (out: Self::Output) where F: FnMut(A) -> B
        requires
            forall|a: A| call_requires(f, (a,)),
        ensures
            Self::maps_to(self, produced_by(f), out),
    ;

    /// Does exactly what [`func_map`](FuncMap::func_map) does, with the marker
    /// type `P` named explicitly by `Q`.
    fn func_map_over<Q, F>(self, f: F) -> (out: Self::Output) where
        F: FnMut(A) -> B,
        Q: FuncMarker<P>,
        requires
            forall|a: A| call_requires(f, (a,)),
        ensures
            Self::maps_to(self, produced_by(f), out),
    {
        self.func_map(f)
    }
}

/// Fallible functorial mapping of a generic type over any of its type
/// parameters.
pub trait TryFuncMap<A, B, P = TypeParam<0>>: Sized where P: FuncMarker<P> {
    /// The output type of the functorial mapping.
    type Output;

    /// `out` is `self` with every occurrence of `A` replaced by a value
    /// related to it through `rel`, everything else unchanged.
    spec fn maps_to(self, rel: spec_fn(A, B) -> bool, out: Self::Output) -> bool;

    /// The occurrences of `A` in `self`, in the order of the fields.
    spec fn items(self) -> Seq<A>;

    /// Tries to apply the closure `f` to `self` in a functorial way.
    ///
    /// Fails if and only if `f` fails, returning the first error according to
    /// the order of the fields.
    fn try_func_map<E, F>(self, f: F) -> (res: Result<Self::Output, E>) where
        F: FnMut(A) -> Result<B, E>,
        requires
            forall|a: A| call_requires(f, (a,)),
        ensures
            res matches Ok(out) ==> Self::maps_to(self, produced_ok_by(f), out),
            res matches Err(e) ==> first_error(Self::items(self), outcome_of(f), e),
    ;

    /// Does exactly what [`try_func_map`](TryFuncMap::try_func_map) does, with
    /// the marker type `P` named explicitly by `Q`.
    fn try_func_map_over<Q, E, F>(self, f: F) -> (res: Result<Self::Output, E>) where
        F: FnMut(A) -> Result<B, E>,
        Q: FuncMarker<P>,
        requires
            forall|a: A| call_requires(f, (a,)),
        ensures
            res matches Ok(out) ==> Self::maps_to(self, produced_ok_by(f), out),
            res matches Err(e) ==> first_error(Self::items(self), outcome_of(f), e),
    {
        self.try_func_map(f)
    }
}

} // verus!
