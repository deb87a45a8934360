//! Laws of the library: the functor laws of the mappings, the independence
//! of mappings over different type parameters, and the guarantees of the
//! derive logic that span several of its operations.
use vstd::prelude::*;

use std::ops::ControlFlow;

use std::ops::{Bound, Range, RangeFrom, RangeInclusive, RangeTo, RangeToInclusive};
use std::task::Poll;

use crate::impls_core::{
    bound_maps_to, break_maps_to, continue_maps_to, option_maps_to, poll_maps_to, range_inclusive_maps_to,
    range_maps_to, result_err_maps_to, result_ok_maps_to,
};
use crate::impls_core::{break_items, continue_items, result_err_items, result_ok_items};
use crate::mapping::{first_error, outcome_of, produced_ok_by, FuncMap};
use crate::mapping::seq_maps_to;
use crate::predicates::{
    add_all_unique, add_lifetime_entry, add_predicate, add_predicates, add_type_entry, add_unique, distinct,
    keys_distinct, no_predicates, PredicatesV,
};
use crate::generics::WherePredV;
use crate::impls_btree::{items_come_from, items_map_to, items_reach, keys_come_from, keys_map_to, keys_reach, values_map_to};

verus! {

/// `rel` relates every value to itself alone: it is what the identity
/// function produces.
pub open spec fn is_identity<A>(rel: spec_fn(A, A) -> bool) -> bool {
    forall|a: A, b: A| #[trigger] rel(a, b) ==> a == b
}

/// `rel` relates every value to at most one value: it is what a
/// deterministic function produces.
pub open spec fn is_functional<A, B>(rel: spec_fn(A, B) -> bool) -> bool {
    forall|a: A, b1: B, b2: B| #[trigger] rel(a, b1) && #[trigger] rel(a, b2) ==> b1 == b2
}

/// The relation of first mapping by `r1`, then by `r2`.
pub open spec fn compose<A, B, C>(r1: spec_fn(A, B) -> bool, r2: spec_fn(B, C) -> bool) -> spec_fn(A, C) -> bool {
    |a: A, c: C| exists|b: B| #[trigger] r1(a, b) && r2(b, c)
}

/// Mapping a sequence (the items of a `Vec`, a `VecDeque` or an array) by
/// the identity gives the same sequence.
pub proof fn law_seq_identity<A>(xs: Seq<A>, rel: spec_fn(A, A) -> bool, ys: Seq<A>)
    requires
        is_identity(rel),
        seq_maps_to(xs, rel, ys),
    ensures
        ys == xs,
{
    assert forall|i: int| 0 <= i < xs.len() implies ys[i] == xs[i] by {
        assert(rel(xs[i], ys[i]));
    }
    assert(ys =~= xs);
}

/// Mapping a sequence by `r1` and the result by `r2` is mapping it by their
/// composition.
pub proof fn law_seq_composition<A, B, C>(
    xs: Seq<A>,
    r1: spec_fn(A, B) -> bool,
    ys: Seq<B>,
    r2: spec_fn(B, C) -> bool,
    zs: Seq<C>,
)
    requires
        seq_maps_to(xs, r1, ys),
        seq_maps_to(ys, r2, zs),
    ensures
        seq_maps_to(xs, compose(r1, r2), zs),
{
    assert forall|i: int| 0 <= i < xs.len() implies #[trigger] compose(r1, r2)(xs[i], zs[i]) by {
        assert(r1(xs[i], ys[i]) && r2(ys[i], zs[i]));
    }
}

/// Mapping the values of a map (a `BTreeMap` or a `HashMap`) by the identity
/// gives the same map.
pub proof fn law_map_values_identity<K, A>(m: Map<K, A>, rel: spec_fn(A, A) -> bool, out: Map<K, A>)
    requires
        is_identity(rel),
        values_map_to(m, rel, out),
    ensures
        out == m,
{
    assert forall|k: K| #[trigger] m.contains_key(k) implies out[k] == m[k] by {
        assert(rel(m[k], out[k]));
    }
    assert(out =~= m);
}

/// Mapping the values of a map by `r1` and those of the result by `r2` is
/// mapping them by their composition.
pub proof fn law_map_values_composition<K, A, B, C>(
    m: Map<K, A>,
    r1: spec_fn(A, B) -> bool,
    mid: Map<K, B>,
    r2: spec_fn(B, C) -> bool,
    out: Map<K, C>,
)
    requires
        values_map_to(m, r1, mid),
        values_map_to(mid, r2, out),
    ensures
        values_map_to(m, compose(r1, r2), out),
{
    assert forall|k: K| #[trigger] m.contains_key(k) implies compose(r1, r2)(m[k], out[k]) by {
        assert(mid.contains_key(k));
        assert(r1(m[k], mid[k]) && r2(mid[k], out[k]));
    }
}

/// Mapping the keys of a map by the identity gives the same map.
pub proof fn law_map_keys_identity<A, V>(m: Map<A, V>, rel: spec_fn(A, A) -> bool, out: Map<A, V>)
    requires
        is_identity(rel),
        keys_map_to(m, rel, out),
    ensures
        out == m,
{
    reveal(keys_reach);
    reveal(keys_come_from);
    assert forall|a: A| #[trigger] m.contains_key(a) implies out.contains_key(a) by {
        let b = choose|b: A| out.contains_key(b) && rel(a, b);
    }
    assert forall|b: A| #[trigger] out.contains_key(b) implies m.contains_key(b) && out[b] == m[b] by {
        let a = choose|a: A| m.contains_key(a) && rel(a, b) && out[b] == m[a];
    }
    assert(out =~= m);
}

/// Mapping the keys of a map by `r1` and those of the result by `r2` is
/// mapping them by their composition.
pub proof fn law_map_keys_composition<A, B, C, V>(
    m: Map<A, V>,
    r1: spec_fn(A, B) -> bool,
    mid: Map<B, V>,
    r2: spec_fn(B, C) -> bool,
    out: Map<C, V>,
)
    requires
        keys_map_to(m, r1, mid),
        keys_map_to(mid, r2, out),
    ensures
        keys_map_to(m, compose(r1, r2), out),
{
    assert(keys_reach(m, compose(r1, r2), out)) by {
        reveal(keys_reach);
        assert forall|a: A| #[trigger] m.contains_key(a) implies exists|c: C| out.contains_key(c) && compose(r1, r2)(a, c) by {
            let b = choose|b: B| mid.contains_key(b) && r1(a, b);
            let c = choose|c: C| out.contains_key(c) && r2(b, c);
            assert(compose(r1, r2)(a, c));
        }
    }
    assert(keys_come_from(m, compose(r1, r2), out)) by {
        reveal(keys_come_from);
        assert forall|c: C| #[trigger] out.contains_key(c) implies exists|a: A| m.contains_key(a) && compose(r1, r2)(a, c) && out[c] == m[a] by {
            let b = choose|b: B| mid.contains_key(b) && r2(b, c) && out[c] == mid[b];
            let a = choose|a: A| m.contains_key(a) && r1(a, b) && mid[b] == m[a];
            assert(compose(r1, r2)(a, c));
        }
    }
}

/// Mapping the items of a set (a `BTreeSet` or a `HashSet`) by the identity
/// gives the same set.
pub proof fn law_set_identity<A>(s: Set<A>, rel: spec_fn(A, A) -> bool, out: Set<A>)
    requires
        is_identity(rel),
        items_map_to(s, rel, out),
    ensures
        out == s,
{
    reveal(items_reach);
    reveal(items_come_from);
    assert forall|a: A| #[trigger] s.contains(a) implies out.contains(a) by {
        let b = choose|b: A| out.contains(b) && rel(a, b);
    }
    assert forall|b: A| #[trigger] out.contains(b) implies s.contains(b) by {
        let a = choose|a: A| s.contains(a) && rel(a, b);
    }
    assert(out =~= s);
}

/// Mapping the items of a set by `r1` and those of the result by `r2` is
/// mapping them by their composition.
pub proof fn law_set_composition<A, B, C>(
    s: Set<A>,
    r1: spec_fn(A, B) -> bool,
    mid: Set<B>,
    r2: spec_fn(B, C) -> bool,
    out: Set<C>,
)
    requires
        items_map_to(s, r1, mid),
        items_map_to(mid, r2, out),
    ensures
        items_map_to(s, compose(r1, r2), out),
{
    assert(items_reach(s, compose(r1, r2), out)) by {
        reveal(items_reach);
        assert forall|a: A| #[trigger] s.contains(a) implies exists|c: C| out.contains(c) && compose(r1, r2)(a, c) by {
            let b = choose|b: B| mid.contains(b) && r1(a, b);
            let c = choose|c: C| out.contains(c) && r2(b, c);
            assert(compose(r1, r2)(a, c));
        }
    }
    assert(items_come_from(s, compose(r1, r2), out)) by {
        reveal(items_come_from);
        assert forall|c: C| #[trigger] out.contains(c) implies exists|a: A| s.contains(a) && compose(r1, r2)(a, c) by {
            let b = choose|b: B| mid.contains(b) && r2(b, c);
            let a = choose|a: A| s.contains(a) && r1(a, b);
            assert(compose(r1, r2)(a, c));
        }
    }
}

/// Mapping an `Option` by the identity gives the same `Option`.
pub proof fn law_option_identity<A>(x: Option<A>, rel: spec_fn(A, A) -> bool, y: Option<A>)
    requires
        is_identity(rel),
        option_maps_to(x, rel, y),
    ensures
        y == x,
{
    if let Some(a) = x {
        assert(rel(a, y->Some_0));
    }
}

/// Mapping an `Option` by `r1` and the result by `r2` is mapping it by their
/// composition.
pub proof fn law_option_composition<A, B, C>(
    x: Option<A>,
    r1: spec_fn(A, B) -> bool,
    y: Option<B>,
    r2: spec_fn(B, C) -> bool,
    z: Option<C>,
)
    requires
        option_maps_to(x, r1, y),
        option_maps_to(y, r2, z),
    ensures
        option_maps_to(x, compose(r1, r2), z),
{
    if let Some(a) = x {
        assert(r1(a, y->Some_0) && r2(y->Some_0, z->Some_0));
    }
}

/// Mapping a `Result` over its value type and over its error type gives
/// the same result in either order.
pub proof fn law_result_params_commute<T, E, U, F>(
    x: Result<T, E>,
    r1: spec_fn(T, U) -> bool,
    r2: spec_fn(E, F) -> bool,
    y1: Result<U, E>,
    z1: Result<U, F>,
    y2: Result<T, F>,
    z2: Result<U, F>,
)
    requires
        is_functional(r1),
        is_functional(r2),
        result_ok_maps_to(x, r1, y1),
        result_err_maps_to(y1, r2, z1),
        result_err_maps_to(x, r2, y2),
        result_ok_maps_to(y2, r1, z2),
    ensures
        z1 == z2,
{
    match x {
        Ok(t) => {
            assert(r1(t, y1->Ok_0) && r1(t, z2->Ok_0));
        },
        Err(e) => {
            assert(r2(e, z1->Err_0) && r2(e, y2->Err_0));
        },
    }
}

/// Mapping a `ControlFlow` over its break type and over its continue type
/// gives the same result in either order.
pub proof fn law_control_flow_params_commute<B, C, B2, C2>(
    x: ControlFlow<B, C>,
    r1: spec_fn(B, B2) -> bool,
    r2: spec_fn(C, C2) -> bool,
    y1: ControlFlow<B2, C>,
    z1: ControlFlow<B2, C2>,
    y2: ControlFlow<B, C2>,
    z2: ControlFlow<B2, C2>,
)
    requires
        is_functional(r1),
        is_functional(r2),
        break_maps_to(x, r1, y1),
        continue_maps_to(y1, r2, z1),
        continue_maps_to(x, r2, y2),
        break_maps_to(y2, r1, z2),
    ensures
        z1 == z2,
{
    match (x, y1, z1, y2, z2) {
        (ControlFlow::Break(b), ControlFlow::Break(b1), _, _, ControlFlow::Break(b2)) => {
            assert(r1(b, b1) && r1(b, b2));
        },
        (ControlFlow::Continue(c), _, ControlFlow::Continue(c1), ControlFlow::Continue(c2), _) => {
            assert(r2(c, c1) && r2(c, c2));
        },
        _ => {},
    }
}

// ---------------------------------------------------------------------------
// Functor laws of the remaining implementations for types of `core`

/// Mapping a `Result` over its value type by the identity gives the same
/// `Result`.
pub proof fn law_result_ok_identity<T, E>(x: Result<T, E>, rel: spec_fn(T, T) -> bool, y: Result<T, E>)
    requires
        is_identity(rel),
        result_ok_maps_to(x, rel, y),
    ensures
        y == x,
{
    if let Ok(t) = x {
        assert(rel(t, y->Ok_0));
    }
}

/// Mapping a `Result` over its value type by `r1` and then by `r2` is
/// mapping it by their composition.
pub proof fn law_result_ok_composition<T, U, V, E>(
    x: Result<T, E>,
    r1: spec_fn(T, U) -> bool,
    y: Result<U, E>,
    r2: spec_fn(U, V) -> bool,
    z: Result<V, E>,
)
    requires
        result_ok_maps_to(x, r1, y),
        result_ok_maps_to(y, r2, z),
    ensures
        result_ok_maps_to(x, compose(r1, r2), z),
{
    if let Ok(t) = x {
        assert(r1(t, y->Ok_0) && r2(y->Ok_0, z->Ok_0));
    }
}

/// Mapping a `Result` over its error type by the identity gives the same
/// `Result`.
pub proof fn law_result_err_identity<T, E>(x: Result<T, E>, rel: spec_fn(E, E) -> bool, y: Result<T, E>)
    requires
        is_identity(rel),
        result_err_maps_to(x, rel, y),
    ensures
        y == x,
{
    if let Err(e) = x {
        assert(rel(e, y->Err_0));
    }
}

/// Mapping a `Result` over its error type by `r1` and then by `r2` is
/// mapping it by their composition.
pub proof fn law_result_err_composition<T, E, F, G>(
    x: Result<T, E>,
    r1: spec_fn(E, F) -> bool,
    y: Result<T, F>,
    r2: spec_fn(F, G) -> bool,
    z: Result<T, G>,
)
    requires
        result_err_maps_to(x, r1, y),
        result_err_maps_to(y, r2, z),
    ensures
        result_err_maps_to(x, compose(r1, r2), z),
{
    if let Err(e) = x {
        assert(r1(e, y->Err_0) && r2(y->Err_0, z->Err_0));
    }
}

/// Mapping a `ControlFlow` over its break type by the identity gives the
/// same value.
pub proof fn law_break_identity<B, C>(x: ControlFlow<B, C>, rel: spec_fn(B, B) -> bool, y: ControlFlow<B, C>)
    requires
        is_identity(rel),
        break_maps_to(x, rel, y),
    ensures
        y == x,
{
    if let (ControlFlow::Break(b), ControlFlow::Break(b2)) = (x, y) {
        assert(rel(b, b2));
    }
}

/// Mapping a `ControlFlow` over its break type by `r1` and then by `r2` is
/// mapping it by their composition.
pub proof fn law_break_composition<B1, B2, B3, C>(
    x: ControlFlow<B1, C>,
    r1: spec_fn(B1, B2) -> bool,
    y: ControlFlow<B2, C>,
    r2: spec_fn(B2, B3) -> bool,
    z: ControlFlow<B3, C>,
)
    requires
        break_maps_to(x, r1, y),
        break_maps_to(y, r2, z),
    ensures
        break_maps_to(x, compose(r1, r2), z),
{
    if let (ControlFlow::Break(b), ControlFlow::Break(b2), ControlFlow::Break(b3)) = (x, y, z) {
        assert(r1(b, b2) && r2(b2, b3));
    }
}

/// Mapping a `ControlFlow` over its continue type by the identity gives the
/// same value.
pub proof fn law_continue_identity<B, C>(x: ControlFlow<B, C>, rel: spec_fn(C, C) -> bool, y: ControlFlow<B, C>)
    requires
        is_identity(rel),
        continue_maps_to(x, rel, y),
    ensures
        y == x,
{
    if let (ControlFlow::Continue(c), ControlFlow::Continue(c2)) = (x, y) {
        assert(rel(c, c2));
    }
}

/// Mapping a `ControlFlow` over its continue type by `r1` and then by `r2`
/// is mapping it by their composition.
pub proof fn law_continue_composition<B, C1, C2, C3>(
    x: ControlFlow<B, C1>,
    r1: spec_fn(C1, C2) -> bool,
    y: ControlFlow<B, C2>,
    r2: spec_fn(C2, C3) -> bool,
    z: ControlFlow<B, C3>,
)
    requires
        continue_maps_to(x, r1, y),
        continue_maps_to(y, r2, z),
    ensures
        continue_maps_to(x, compose(r1, r2), z),
{
    if let (ControlFlow::Continue(c), ControlFlow::Continue(c2), ControlFlow::Continue(c3)) = (x, y, z) {
        assert(r1(c, c2) && r2(c2, c3));
    }
}

/// Mapping a `Bound` by the identity gives the same `Bound`.
pub proof fn law_bound_identity<A>(x: Bound<A>, rel: spec_fn(A, A) -> bool, y: Bound<A>)
    requires
        is_identity(rel),
        bound_maps_to(x, rel, y),
    ensures
        y == x,
{
    match (x, y) {
        (Bound::Included(a), Bound::Included(b)) => assert(rel(a, b)),
        (Bound::Excluded(a), Bound::Excluded(b)) => assert(rel(a, b)),
        _ => {},
    }
}

/// Mapping a `Bound` by `r1` and then by `r2` is mapping it by their
/// composition.
pub proof fn law_bound_composition<A, B, C>(
    x: Bound<A>,
    r1: spec_fn(A, B) -> bool,
    y: Bound<B>,
    r2: spec_fn(B, C) -> bool,
    z: Bound<C>,
)
    requires
        bound_maps_to(x, r1, y),
        bound_maps_to(y, r2, z),
    ensures
        bound_maps_to(x, compose(r1, r2), z),
{
    match (x, y, z) {
        (Bound::Included(a), Bound::Included(b), Bound::Included(c)) => assert(r1(a, b) && r2(b, c)),
        (Bound::Excluded(a), Bound::Excluded(b), Bound::Excluded(c)) => assert(r1(a, b) && r2(b, c)),
        _ => {},
    }
}

/// Mapping a `Poll` by the identity gives the same `Poll`.
pub proof fn law_poll_identity<A>(x: Poll<A>, rel: spec_fn(A, A) -> bool, y: Poll<A>)
    requires
        is_identity(rel),
        poll_maps_to(x, rel, y),
    ensures
        y == x,
{
    if let (Poll::Ready(a), Poll::Ready(b)) = (x, y) {
        assert(rel(a, b));
    }
}

/// Mapping a `Poll` by `r1` and then by `r2` is mapping it by their
/// composition.
pub proof fn law_poll_composition<A, B, C>(
    x: Poll<A>,
    r1: spec_fn(A, B) -> bool,
    y: Poll<B>,
    r2: spec_fn(B, C) -> bool,
    z: Poll<C>,
)
    requires
        poll_maps_to(x, r1, y),
        poll_maps_to(y, r2, z),
    ensures
        poll_maps_to(x, compose(r1, r2), z),
{
    if let (Poll::Ready(a), Poll::Ready(b), Poll::Ready(c)) = (x, y, z) {
        assert(r1(a, b) && r2(b, c));
    }
}

/// Mapping a `Range` by the identity gives the same `Range`.
pub proof fn law_range_identity<A>(x: Range<A>, rel: spec_fn(A, A) -> bool, y: Range<A>)
    requires
        is_identity(rel),
        range_maps_to(x, rel, y),
    ensures
        y == x,
{
    assert(rel(x.start, y.start) && rel(x.end, y.end));
}

/// Mapping a `Range` by `r1` and then by `r2` is mapping it by their
/// composition.
pub proof fn law_range_composition<A, B, C>(
    x: Range<A>,
    r1: spec_fn(A, B) -> bool,
    y: Range<B>,
    r2: spec_fn(B, C) -> bool,
    z: Range<C>,
)
    requires
        range_maps_to(x, r1, y),
        range_maps_to(y, r2, z),
    ensures
        range_maps_to(x, compose(r1, r2), z),
{
    assert(r1(x.start, y.start) && r2(y.start, z.start));
    assert(r1(x.end, y.end) && r2(y.end, z.end));
}

/// Mapping a `RangeInclusive` that has not been exhausted by iteration by
/// the identity gives the same range; the mapped range is never exhausted.
pub proof fn law_range_inclusive_identity<A>(x: RangeInclusive<A>, rel: spec_fn(A, A) -> bool, y: RangeInclusive<A>)
    requires
        is_identity(rel),
        range_inclusive_maps_to(x, rel, y),
        !x@.exhausted,
    ensures
        y@ == x@,
{
    assert(rel(x@.start, y@.start) && rel(x@.end, y@.end));
}

/// Mapping a `RangeInclusive` by `r1` and then by `r2` is mapping it by
/// their composition.
pub proof fn law_range_inclusive_composition<A, B, C>(
    x: RangeInclusive<A>,
    r1: spec_fn(A, B) -> bool,
    y: RangeInclusive<B>,
    r2: spec_fn(B, C) -> bool,
    z: RangeInclusive<C>,
)
    requires
        range_inclusive_maps_to(x, r1, y),
        range_inclusive_maps_to(y, r2, z),
    ensures
        range_inclusive_maps_to(x, compose(r1, r2), z),
{
    assert(r1(x@.start, y@.start) && r2(y@.start, z@.start));
    assert(r1(x@.end, y@.end) && r2(y@.end, z@.end));
}

/// Mapping a `RangeFrom`, a `RangeTo`, a `RangeToInclusive` or a `Box` by
/// the identity gives the same value.
pub proof fn law_single_item_identity<A>(
    from: (RangeFrom<A>, RangeFrom<A>),
    to: (RangeTo<A>, RangeTo<A>),
    to_inclusive: (RangeToInclusive<A>, RangeToInclusive<A>),
    boxed: (Box<A>, Box<A>),
    rel: spec_fn(A, A) -> bool,
)
    requires
        is_identity(rel),
        from.0.maps_to(rel, from.1),
        to.0.maps_to(rel, to.1),
        to_inclusive.0.maps_to(rel, to_inclusive.1),
        boxed.0.maps_to(rel, boxed.1),
    ensures
        from.1 == from.0,
        to.1 == to.0,
        to_inclusive.1 == to_inclusive.0,
        boxed.1 == boxed.0,
{
    assert(rel(from.0.start, from.1.start));
    assert(rel(to.0.end, to.1.end));
    assert(rel(to_inclusive.0.end, to_inclusive.1.end));
    assert(rel(*boxed.0, *boxed.1));
}

/// What the contract of `try_func_map` over the value type of a `Result`
/// says of its outcome `res` when mapping `x` with `f`.
pub open spec fn try_ok_step<T, U, E, X, F: FnMut(T) -> Result<U, X>>(
    x: Result<T, E>,
    f: F,
    res: Result<Result<U, E>, X>,
) -> bool {
    &&& res matches Ok(y) ==> result_ok_maps_to(x, produced_ok_by(f), y)
    &&& res matches Err(e) ==> first_error(result_ok_items(x), outcome_of(f), e)
}

/// What the contract of `try_func_map` over the error type of a `Result`
/// says of its outcome `res` when mapping `x` with `g`.
pub open spec fn try_err_step<T, E, E2, X, G: FnMut(E) -> Result<E2, X>>(
    x: Result<T, E>,
    g: G,
    res: Result<Result<T, E2>, X>,
) -> bool {
    &&& res matches Ok(y) ==> result_err_maps_to(x, produced_ok_by(g), y)
    &&& res matches Err(e) ==> first_error(result_err_items(x), outcome_of(g), e)
}

/// The outcome of a fallible mapping followed, if it succeeded, by a second
/// one whose outcome is `second`.
pub open spec fn and_then<Y, Z, X>(first: Result<Y, X>, second: Result<Z, X>) -> Result<Z, X> {
    match first {
        Ok(_) => second,
        Err(e) => Err(e),
    }
}

/// Fallibly mapping a `Result` over its value type and over its error type
/// gives the same outcome in either order, when each closure has a single
/// possible outcome for each input.
pub proof fn law_result_try_params_commute<T, U, E, E2, X, F: FnMut(T) -> Result<U, X>, G: FnMut(E) -> Result<E2, X>>(
    x: Result<T, E>,
    f: F,
    g: G,
    s1: Result<Result<U, E>, X>,
    t1: Result<Result<U, E2>, X>,
    s2: Result<Result<T, E2>, X>,
    t2: Result<Result<U, E2>, X>,
)
    requires
        is_functional(outcome_of(f)),
        is_functional(outcome_of(g)),
        try_ok_step(x, f, s1),
        s1 matches Ok(y1) ==> try_err_step(y1, g, t1),
        try_err_step(x, g, s2),
        s2 matches Ok(y2) ==> try_ok_step(y2, f, t2),
    ensures
        and_then(s1, t1) == and_then(s2, t2),
{
    let of = outcome_of(f);
    let og = outcome_of(g);
    match x {
        Ok(t) => {
            assert(result_err_items(x) =~= Seq::<E>::empty());
            assert(s2 == Ok::<Result<T, E2>, X>(Ok(t)));
            let y2 = Ok::<T, E2>(t);
            let r1: Result<U, X> = match s1 {
                Ok(y1) => Ok(y1->Ok_0),
                Err(e) => Err(e),
            };
            let r2: Result<U, X> = match t2 {
                Ok(z2) => Ok(z2->Ok_0),
                Err(e) => Err(e),
            };
            assert(of(t, r1));
            assert(of(t, r2));
            assert(r1 == r2);
            if let Ok(y1) = s1 {
                assert(result_err_items(y1) =~= Seq::<E>::empty());
            }
        },
        Err(e) => {
            assert(result_ok_items(x) =~= Seq::<T>::empty());
            assert(s1 == Ok::<Result<U, E>, X>(Err(e)));
            let r1: Result<E2, X> = match t1 {
                Ok(z1) => Ok(z1->Err_0),
                Err(x1) => Err(x1),
            };
            let r2: Result<E2, X> = match s2 {
                Ok(y2) => Ok(y2->Err_0),
                Err(x2) => Err(x2),
            };
            assert(og(e, r1));
            assert(og(e, r2));
            assert(r1 == r2);
            if let Ok(y2) = s2 {
                assert(result_ok_items(y2) =~= Seq::<T>::empty());
            }
        },
    }
}

/// What the contract of `try_func_map` over the break type of a
/// `ControlFlow` says of its outcome `res` when mapping `x` with `f`.
pub open spec fn try_break_step<B, B2, C, X, F: FnMut(B) -> Result<B2, X>>(
    x: ControlFlow<B, C>,
    f: F,
    res: Result<ControlFlow<B2, C>, X>,
) -> bool {
    &&& res matches Ok(y) ==> break_maps_to(x, produced_ok_by(f), y)
    &&& res matches Err(e) ==> first_error(break_items(x), outcome_of(f), e)
}

/// What the contract of `try_func_map` over the continue type of a
/// `ControlFlow` says of its outcome `res` when mapping `x` with `g`.
pub open spec fn try_continue_step<B, C, C2, X, G: FnMut(C) -> Result<C2, X>>(
    x: ControlFlow<B, C>,
    g: G,
    res: Result<ControlFlow<B, C2>, X>,
) -> bool {
    &&& res matches Ok(y) ==> continue_maps_to(x, produced_ok_by(g), y)
    &&& res matches Err(e) ==> first_error(continue_items(x), outcome_of(g), e)
}

/// Fallibly mapping a `ControlFlow` over its break type and over its
/// continue type gives the same outcome in either order, when each closure
/// has a single possible outcome for each input.
pub proof fn law_control_flow_try_params_commute<B, B2, C, C2, X, F: FnMut(B) -> Result<B2, X>, G: FnMut(C) -> Result<C2, X>>(
    x: ControlFlow<B, C>,
    f: F,
    g: G,
    s1: Result<ControlFlow<B2, C>, X>,
    t1: Result<ControlFlow<B2, C2>, X>,
    s2: Result<ControlFlow<B, C2>, X>,
    t2: Result<ControlFlow<B2, C2>, X>,
)
    requires
        is_functional(outcome_of(f)),
        is_functional(outcome_of(g)),
        try_break_step(x, f, s1),
        s1 matches Ok(y1) ==> try_continue_step(y1, g, t1),
        try_continue_step(x, g, s2),
        s2 matches Ok(y2) ==> try_break_step(y2, f, t2),
    ensures
        and_then(s1, t1) == and_then(s2, t2),
{
    let of = outcome_of(f);
    let og = outcome_of(g);
    match x {
        ControlFlow::Break(b) => {
            assert(continue_items(x) =~= Seq::<C>::empty());
            assert(s2 == Ok::<ControlFlow<B, C2>, X>(ControlFlow::Break(b)));
            let r1: Result<B2, X> = match s1 {
                Ok(ControlFlow::Break(b1)) => Ok(b1),
                Ok(ControlFlow::Continue(_)) => Err(arbitrary()),
                Err(e) => Err(e),
            };
            let r2: Result<B2, X> = match t2 {
                Ok(ControlFlow::Break(b2)) => Ok(b2),
                Ok(ControlFlow::Continue(_)) => Err(arbitrary()),
                Err(e) => Err(e),
            };
            assert(of(b, r1));
            assert(of(b, r2));
            assert(r1 == r2);
            if let Ok(y1) = s1 {
                assert(continue_items(y1) =~= Seq::<C>::empty());
            }
        },
        ControlFlow::Continue(c) => {
            assert(break_items(x) =~= Seq::<B>::empty());
            assert(s1 == Ok::<ControlFlow<B2, C>, X>(ControlFlow::Continue(c)));
            let r1: Result<C2, X> = match t1 {
                Ok(ControlFlow::Continue(c1)) => Ok(c1),
                Ok(ControlFlow::Break(_)) => Err(arbitrary()),
                Err(e) => Err(e),
            };
            let r2: Result<C2, X> = match s2 {
                Ok(ControlFlow::Continue(c2)) => Ok(c2),
                Ok(ControlFlow::Break(_)) => Err(arbitrary()),
                Err(e) => Err(e),
            };
            assert(og(c, r1));
            assert(og(c, r2));
            assert(r1 == r2);
            if let Ok(y2) = s2 {
                assert(break_items(y2) =~= Seq::<B>::empty());
            }
        },
    }
}

// ---------------------------------------------------------------------------
// Sets of bounds and predicates

/// Adding values to a sequence without duplicates leaves it without
/// duplicates, and it then holds exactly the values it held and those
/// added.
pub proof fn law_add_all_unique<T>(s: Seq<T>, xs: Seq<T>)
    requires
        distinct(s),
    ensures
        distinct(add_all_unique(s, xs)),
        forall|x: T| add_all_unique(s, xs).contains(x) <==> (s.contains(x) || xs.contains(x)),
    decreases xs.len(),
{
    if xs.len() > 0 {
        let prev = add_all_unique(s, xs.drop_last());
        law_add_all_unique(s, xs.drop_last());
        let last = xs.last();
        assert forall|x: T| add_unique(prev, last).contains(x) <==> (s.contains(x) || xs.contains(x)) by {
            if xs.drop_last().contains(x) {
                let i = choose|i: int| 0 <= i < xs.drop_last().len() && xs.drop_last()[i] == x;
                assert(xs[i] == x);
            }
            if xs.contains(x) {
                let i = choose|i: int| 0 <= i < xs.len() && xs[i] == x;
                if i < xs.len() - 1 {
                    assert(xs.drop_last()[i] == x);
                }
            }
            if !prev.contains(last) {
                assert(prev.push(last)[prev.len() as int] == last);
                if prev.push(last).contains(x) {
                    let i = choose|i: int| 0 <= i < prev.push(last).len() && prev.push(last)[i] == x;
                    if i < prev.len() {
                        assert(prev[i] == x);
                    }
                }
                if prev.contains(x) {
                    let i = choose|i: int| 0 <= i < prev.len() && prev[i] == x;
                    assert(prev.push(last)[i] == x);
                }
            }
        }
        if !prev.contains(last) {
            assert forall|i: int, j: int| 0 <= i < j < prev.push(last).len() implies prev.push(last)[i] != prev.push(last)[j] by {
                if j == prev.len() {
                    assert(prev[i] != last);
                }
            }
        }
    }
}

/// A set of bounds built by adding bounds holds no bound twice, and holds
/// exactly the bounds added.
pub proof fn law_unique_bounds<T>(xs: Seq<T>)
    ensures
        distinct(add_all_unique(Seq::empty(), xs)),
        forall|x: T| add_all_unique(Seq::empty(), xs).contains(x) <==> xs.contains(x),
{
    law_add_all_unique(Seq::<T>::empty(), xs);
}

/// Adding a predicate to a set of predicates keeps its left-hand sides
/// distinct.
pub proof fn law_add_predicate_keeps_keys_distinct(p: PredicatesV, pred: WherePredV)
    requires
        keys_distinct(p),
    ensures
        keys_distinct(add_predicate(p, pred)),
{
    match pred {
        WherePredV::Type { lifetimes, bounded_ty, bounds } => {
            let ts = add_type_entry(p.types, lifetimes, bounded_ty, bounds);
            if !(exists|i: int| 0 <= i < p.types.len() && p.types[i].lifetimes == lifetimes && p.types[i].bounded_ty == bounded_ty) {
                assert forall|i: int, j: int| 0 <= i < j < ts.len() implies !(#[trigger] ts[i].lifetimes == #[trigger] ts[j].lifetimes
                    && ts[i].bounded_ty == ts[j].bounded_ty) by {
                    if j < p.types.len() {
                        assert(ts[i] == p.types[i] && ts[j] == p.types[j]);
                    } else {
                        assert(ts[i] == p.types[i]);
                    }
                }
            } else {
                let k = choose|i: int| 0 <= i < p.types.len() && p.types[i].lifetimes == lifetimes && p.types[i].bounded_ty == bounded_ty;
                assert forall|i: int, j: int| 0 <= i < j < ts.len() implies !(#[trigger] ts[i].lifetimes == #[trigger] ts[j].lifetimes
                    && ts[i].bounded_ty == ts[j].bounded_ty) by {
                    assert(p.types[i].lifetimes == p.types[i].lifetimes);
                    assert(p.types[j].lifetimes == p.types[j].lifetimes);
                }
            }
        },
        WherePredV::Lifetime { lifetime, bounds } => {
            let ls = add_lifetime_entry(p.lifetimes, lifetime, bounds);
            if !(exists|i: int| 0 <= i < p.lifetimes.len() && p.lifetimes[i].lifetime == lifetime) {
                assert forall|i: int, j: int| 0 <= i < j < ls.len() implies #[trigger] ls[i].lifetime != #[trigger] ls[j].lifetime by {
                    if j < p.lifetimes.len() {
                        assert(ls[i] == p.lifetimes[i] && ls[j] == p.lifetimes[j]);
                    } else {
                        assert(ls[i] == p.lifetimes[i]);
                    }
                }
            } else {
                assert forall|i: int, j: int| 0 <= i < j < ls.len() implies #[trigger] ls[i].lifetime != #[trigger] ls[j].lifetime by {
                    assert(p.lifetimes[i].lifetime == p.lifetimes[i].lifetime);
                    assert(p.lifetimes[j].lifetime == p.lifetimes[j].lifetime);
                }
            }
        },
        WherePredV::Eq => {},
    }
}

/// A set of predicates built by adding predicates never holds two entries
/// with the same left-hand side.
pub proof fn law_predicates_keys_distinct(preds: Seq<WherePredV>)
    ensures
        keys_distinct(add_predicates(no_predicates(), preds)),
    decreases preds.len(),
{
    if preds.len() > 0 {
        law_predicates_keys_distinct(preds.drop_last());
        law_add_predicate_keeps_keys_distinct(add_predicates(no_predicates(), preds.drop_last()), preds.last());
    }
}

} // verus!
