//! Mapping over arrays, including the fallible mapping that the standard
//! library does not offer on stable Rust.
use vstd::prelude::*;

use crate::mapping::{
    FuncMap, TryFuncMap, first_error, outcome_of, produced_by, produced_ok_by, seq_maps_to,
};

verus! {

/// Moves the items of an array into a vector.
///
/// Calls `<Vec<A> as From<[A; N]>>::from`; the contract claims that the
/// vector holds the items of the array in the same order.
#[verifier::external_body]
fn array_into_vec<A, const N: usize>(array: [A; N]) -> (v: Vec<A>)
    ensures
        v@ == array@,
{
    Vec::from(array)
}

/// Moves the items of a vector into an array of length `N`.
///
/// Calls `<[B; N] as TryFrom<Vec<B>>>::try_from`; the contract claims that it
/// succeeds exactly when the vector has length `N`, keeping the items in
/// order, and hands the vector back unchanged otherwise.
#[verifier::external_body]
fn vec_into_array<B, const N: usize>(v: Vec<B>) -> (res: Result<[B; N], Vec<B>>)
    ensures
        res is Ok <==> v@.len() == N,
        res matches Ok(a) ==> a@ == v@,
        res matches Err(w) ==> w@ == v@,
{
    <[B; N]>::try_from(v)
}

/// Tries to apply a given closure to every element of a given array,
/// producing a new array of the same length.
///
/// Fails if and only if `f` fails, returning the first error according to the
/// order of the elements in `array`.
pub fn try_map<A, B, E, F, const N: usize>(array: [A; N], f: F) -> (res: Result<[B; N], E>) where
    F: FnMut(A) -> Result<B, E>,
    requires
        forall|a: A| call_requires(f, (a,)),
    ensures
        res matches Ok(out) ==> seq_maps_to(array@, produced_ok_by(f), out@),
        res matches Err(e) ==> first_error(array@, outcome_of(f), e),
{
    let items = array_into_vec(array);
    match items.try_func_map(f) {
        Ok(mapped) => match vec_into_array::<B, N>(mapped) {
            Ok(out) => Ok(out),
            Err(_) => unreached(),
        },
        Err(e) => Err(e),
    }
}

impl<A, B, const N: usize> FuncMap<A, B> for [A; N] {
    type Output = [B; N];

    open spec fn maps_to(self, rel: spec_fn(A, B) -> bool, out: [B; N]) -> bool {
        seq_maps_to(self@, rel, out@)
    }

    fn func_map<F>(self, f: F) -> (out: [B; N]) where F: FnMut(A) -> B {
        let items = array_into_vec(self);
        let mapped = items.func_map(f);
        match vec_into_array::<B, N>(mapped) {
            Ok(out) => out,
            Err(_) => unreached(),
        }
    }
}

impl<A, B, const N: usize> TryFuncMap<A, B> for [A; N] {
    type Output = [B; N];

    open spec fn maps_to(self, rel: spec_fn(A, B) -> bool, out: [B; N]) -> bool {
        seq_maps_to(self@, rel, out@)
    }

    open spec fn items(self) -> Seq<A> {
        self@
    }

    fn try_func_map<E, F>(self, f: F) -> (res: Result<[B; N], E>) where
        F: FnMut(A) -> Result<B, E>,
    {
        try_map(self, f)
    }
}

} // verus!
