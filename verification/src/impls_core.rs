//! Implementations of [`FuncMap`] and [`TryFuncMap`] for types in `core`.
use vstd::prelude::*;

use core::marker::PhantomData;
use core::ops::{Bound, ControlFlow, Range, RangeFrom, RangeInclusive, RangeTo, RangeToInclusive};
use core::task::Poll;

use crate::mapping::{
    FuncMap, TryFuncMap, lemma_first_error_at, outcome_of, produced_by, produced_ok_by,
};
use crate::marker::TypeParam;

verus! {

/// The item held by an option, if any.
pub open spec fn option_items<A>(x: Option<A>) -> Seq<A> {
    match x {
        Some(a) => seq![a],
        None => seq![],
    }
}

/// `y` is `x` with its item (if any) related through `rel`.
pub open spec fn option_maps_to<A, B>(x: Option<A>, rel: spec_fn(A, B) -> bool, y: Option<B>) -> bool {
    match x {
        Some(a) => y matches Some(b) && rel(a, b),
        None => y is None,
    }
}

impl<A, B> FuncMap<A, B> for Option<A> {
    type Output = Option<B>;

    open spec fn maps_to(self, rel: spec_fn(A, B) -> bool, out: Option<B>) -> bool {
        option_maps_to(self, rel, out)
    }

    fn func_map<F>(self, mut f: F) -> (out: Option<B>) where F: FnMut(A) -> B {
        match self {
            Some(a) => Some(f(a)),
            None => None,
        }
    }
}

impl<A, B> TryFuncMap<A, B> for Option<A> {
    type Output = Option<B>;

    open spec fn maps_to(self, rel: spec_fn(A, B) -> bool, out: Option<B>) -> bool {
        option_maps_to(self, rel, out)
    }

    open spec fn items(self) -> Seq<A> {
        option_items(self)
    }

    fn try_func_map<E, F>(self, mut f: F) -> (res: Result<Option<B>, E>) where
        F: FnMut(A) -> Result<B, E>,
    {
        match self {
            Some(a) => match f(a) {
                Ok(b) => Ok(Some(b)),
                Err(e) => {
                    proof { lemma_first_error_at(option_items(self), outcome_of(f), seq![], e); }
                    Err(e)
                },
            },
            None => Ok(None),
        }
    }
}


/// The item held by the `Ok` side of a result, if any.
pub open spec fn result_ok_items<A, U>(x: Result<A, U>) -> Seq<A> {
    match x {
        Ok(a) => seq![a],
        Err(_) => seq![],
    }
}

/// `y` is `x` with its `Ok` value (if any) related through `rel` and its
/// `Err` value (if any) unchanged.
pub open spec fn result_ok_maps_to<A, B, U>(x: Result<A, U>, rel: spec_fn(A, B) -> bool, y: Result<B, U>) -> bool {
    match x {
        Ok(a) => y matches Ok(b) && rel(a, b),
        Err(u) => y == Err::<B, U>(u),
    }
}

/// The item held by the `Err` side of a result, if any.
pub open spec fn result_err_items<T, A>(x: Result<T, A>) -> Seq<A> {
    match x {
        Ok(_) => seq![],
        Err(a) => seq![a],
    }
}

/// `y` is `x` with its `Err` value (if any) related through `rel` and its
/// `Ok` value (if any) unchanged.
pub open spec fn result_err_maps_to<T, A, B>(x: Result<T, A>, rel: spec_fn(A, B) -> bool, y: Result<T, B>) -> bool {
    match x {
        Ok(t) => y == Ok::<T, B>(t),
        Err(a) => y matches Err(b) && rel(a, b),
    }
}

impl<A, B, U> FuncMap<A, B, TypeParam<0>> for Result<A, U> {
    type Output = Result<B, U>;

    open spec fn maps_to(self, rel: spec_fn(A, B) -> bool, out: Result<B, U>) -> bool {
        result_ok_maps_to(self, rel, out)
    }

    fn func_map<F>(self, mut f: F) -> (out: Result<B, U>) where F: FnMut(A) -> B {
        match self {
            Ok(value) => Ok(f(value)),
            Err(err) => Err(err),
        }
    }
}

impl<A, B, U> TryFuncMap<A, B, TypeParam<0>> for Result<A, U> {
    type Output = Result<B, U>;

    open spec fn maps_to(self, rel: spec_fn(A, B) -> bool, out: Result<B, U>) -> bool {
        result_ok_maps_to(self, rel, out)
    }

    open spec fn items(self) -> Seq<A> {
        result_ok_items(self)
    }

    fn try_func_map<E, F>(self, mut f: F) -> (res: Result<Result<B, U>, E>) where
        F: FnMut(A) -> Result<B, E>,
    {
        match self {
            Ok(value) => match f(value) {
                Ok(b) => Ok(Ok(b)),
                Err(e) => {
                    proof { lemma_first_error_at(result_ok_items(self), outcome_of(f), seq![], e); }
                    Err(e)
                },
            },
            Err(err) => Ok(Err(err)),
        }
    }
}

impl<T, A, B> FuncMap<A, B, TypeParam<1>> for Result<T, A> {
    type Output = Result<T, B>;

    open spec fn maps_to(self, rel: spec_fn(A, B) -> bool, out: Result<T, B>) -> bool {
        result_err_maps_to(self, rel, out)
    }

    fn func_map<F>(self, mut f: F) -> (out: Result<T, B>) where F: FnMut(A) -> B {
        match self {
            Ok(value) => Ok(value),
            Err(err) => Err(f(err)),
        }
    }
}

impl<T, A, B> TryFuncMap<A, B, TypeParam<1>> for Result<T, A> {
    type Output = Result<T, B>;

    open spec fn maps_to(self, rel: spec_fn(A, B) -> bool, out: Result<T, B>) -> bool {
        result_err_maps_to(self, rel, out)
    }

    open spec fn items(self) -> Seq<A> {
        result_err_items(self)
    }

    fn try_func_map<E, F>(self, mut f: F) -> (res: Result<Result<T, B>, E>) where
        F: FnMut(A) -> Result<B, E>,
    {
        match self {
            Ok(value) => Ok(Ok(value)),
            Err(err) => match f(err) {
                Ok(b) => Ok(Err(b)),
                Err(e) => {
                    proof { lemma_first_error_at(result_err_items(self), outcome_of(f), seq![], e); }
                    Err(e)
                },
            },
        }
    }
}

/// The item held by the `Break` side of a control flow value, if any.
pub open spec fn break_items<A, C>(x: ControlFlow<A, C>) -> Seq<A> {
    match x {
        ControlFlow::Break(a) => seq![a],
        ControlFlow::Continue(_) => seq![],
    }
}

/// `y` is `x` with its `Break` value (if any) related through `rel` and its
/// `Continue` value (if any) unchanged.
pub open spec fn break_maps_to<A, B, C>(x: ControlFlow<A, C>, rel: spec_fn(A, B) -> bool, y: ControlFlow<B, C>) -> bool {
    match x {
        ControlFlow::Break(a) => y matches ControlFlow::Break(b) && rel(a, b),
        ControlFlow::Continue(c) => y == ControlFlow::<B, C>::Continue(c),
    }
}

/// The item held by the `Continue` side of a control flow value, if any.
pub open spec fn continue_items<D, A>(x: ControlFlow<D, A>) -> Seq<A> {
    match x {
        ControlFlow::Break(_) => seq![],
        ControlFlow::Continue(a) => seq![a],
    }
}

/// `y` is `x` with its `Continue` value (if any) related through `rel` and
/// its `Break` value (if any) unchanged.
pub open spec fn continue_maps_to<D, A, B>(x: ControlFlow<D, A>, rel: spec_fn(A, B) -> bool, y: ControlFlow<D, B>) -> bool {
    match x {
        ControlFlow::Break(d) => y == ControlFlow::<D, B>::Break(d),
        ControlFlow::Continue(a) => y matches ControlFlow::Continue(b) && rel(a, b),
    }
}

impl<T, U, C> FuncMap<T, U, TypeParam<0>> for ControlFlow<T, C> {
    type Output = ControlFlow<U, C>;

    open spec fn maps_to(self, rel: spec_fn(T, U) -> bool, out: ControlFlow<U, C>) -> bool {
        break_maps_to(self, rel, out)
    }

    fn func_map<F>(self, mut f: F) -> (out: ControlFlow<U, C>) where F: FnMut(T) -> U {
        match self {
            ControlFlow::Break(value) => ControlFlow::Break(f(value)),
            ControlFlow::Continue(value) => ControlFlow::Continue(value),
        }
    }
}

impl<T, U, C> TryFuncMap<T, U, TypeParam<0>> for ControlFlow<T, C> {
    type Output = ControlFlow<U, C>;

    open spec fn maps_to(self, rel: spec_fn(T, U) -> bool, out: ControlFlow<U, C>) -> bool {
        break_maps_to(self, rel, out)
    }

    open spec fn items(self) -> Seq<T> {
        break_items(self)
    }

    fn try_func_map<E, F>(self, mut f: F) -> (res: Result<ControlFlow<U, C>, E>) where
        F: FnMut(T) -> Result<U, E>,
    {
        match self {
            ControlFlow::Break(value) => match f(value) {
                Ok(u) => Ok(ControlFlow::Break(u)),
                Err(e) => {
                    proof { lemma_first_error_at(break_items(self), outcome_of(f), seq![], e); }
                    Err(e)
                },
            },
            ControlFlow::Continue(value) => Ok(ControlFlow::Continue(value)),
        }
    }
}

impl<D, T, U> FuncMap<T, U, TypeParam<1>> for ControlFlow<D, T> {
    type Output = ControlFlow<D, U>;

    open spec fn maps_to(self, rel: spec_fn(T, U) -> bool, out: ControlFlow<D, U>) -> bool {
        continue_maps_to(self, rel, out)
    }

    fn func_map<F>(self, mut f: F) -> (out: ControlFlow<D, U>) where F: FnMut(T) -> U {
        match self {
            ControlFlow::Break(value) => ControlFlow::Break(value),
            ControlFlow::Continue(value) => ControlFlow::Continue(f(value)),
        }
    }
}

impl<D, T, U> TryFuncMap<T, U, TypeParam<1>> for ControlFlow<D, T> {
    type Output = ControlFlow<D, U>;

    open spec fn maps_to(self, rel: spec_fn(T, U) -> bool, out: ControlFlow<D, U>) -> bool {
        continue_maps_to(self, rel, out)
    }

    open spec fn items(self) -> Seq<T> {
        continue_items(self)
    }

    fn try_func_map<E, F>(self, mut f: F) -> (res: Result<ControlFlow<D, U>, E>) where
        F: FnMut(T) -> Result<U, E>,
    {
        match self {
            ControlFlow::Break(value) => Ok(ControlFlow::Break(value)),
            ControlFlow::Continue(value) => match f(value) {
                Ok(u) => Ok(ControlFlow::Continue(u)),
                Err(e) => {
                    proof { lemma_first_error_at(continue_items(self), outcome_of(f), seq![], e); }
                    Err(e)
                },
            },
        }
    }
}

impl<A, B> FuncMap<A, B> for PhantomData<A> {
    type Output = PhantomData<B>;

    open spec fn maps_to(self, rel: spec_fn(A, B) -> bool, out: PhantomData<B>) -> bool {
        true
    }

    fn func_map<F>(self, f: F) -> (out: PhantomData<B>) where F: FnMut(A) -> B
        ensures
            out == PhantomData::<B>,
    {
        PhantomData
    }
}

impl<A, B> TryFuncMap<A, B> for PhantomData<A> {
    type Output = PhantomData<B>;

    open spec fn maps_to(self, rel: spec_fn(A, B) -> bool, out: PhantomData<B>) -> bool {
        true
    }

    open spec fn items(self) -> Seq<A> {
        seq![]
    }

    fn try_func_map<E, F>(self, f: F) -> (res: Result<PhantomData<B>, E>) where
        F: FnMut(A) -> Result<B, E>,
        ensures
            res == Ok::<PhantomData<B>, E>(PhantomData),
    {
        Ok(PhantomData)
    }
}

/// The two bounds of a range, start first.
pub open spec fn range_items<A>(x: Range<A>) -> Seq<A> {
    seq![x.start, x.end]
}

/// `y` has the bounds of `x`, each related through `rel`.
pub open spec fn range_maps_to<A, B>(x: Range<A>, rel: spec_fn(A, B) -> bool, y: Range<B>) -> bool {
    rel(x.start, y.start) && rel(x.end, y.end)
}

impl<A, B> FuncMap<A, B> for Range<A> {
    type Output = Range<B>;

    open spec fn maps_to(self, rel: spec_fn(A, B) -> bool, out: Range<B>) -> bool {
        range_maps_to(self, rel, out)
    }

    fn func_map<F>(self, mut f: F) -> (out: Range<B>) where F: FnMut(A) -> B {
        let start = f(self.start);
        let end = f(self.end);
        Range { start, end }
    }
}

impl<A, B> TryFuncMap<A, B> for Range<A> {
    type Output = Range<B>;

    open spec fn maps_to(self, rel: spec_fn(A, B) -> bool, out: Range<B>) -> bool {
        range_maps_to(self, rel, out)
    }

    open spec fn items(self) -> Seq<A> {
        range_items(self)
    }

    fn try_func_map<E, F>(self, mut f: F) -> (res: Result<Range<B>, E>) where
        F: FnMut(A) -> Result<B, E>,
    {
        let ghost items = range_items(self);
        let start = match f(self.start) {
            Ok(b) => b,
            Err(e) => {
                proof { lemma_first_error_at(items, outcome_of(f), seq![], e); }
                return Err(e);
            },
        };
        let end = match f(self.end) {
            Ok(b) => b,
            Err(e) => {
                proof { lemma_first_error_at(items, outcome_of(f), seq![start], e); }
                return Err(e);
            },
        };
        Ok(Range { start, end })
    }
}

/// Destructures an inclusive range into its lower and upper bound.
///
/// Calls `RangeInclusive::into_inner`; the contract claims that it returns the
/// bounds the range was built with, lower bound first.
#[verifier::external_body]
fn range_inclusive_bounds<A>(range: RangeInclusive<A>) -> (bounds: (A, A))
    ensures
        bounds.0 == range@.start,
        bounds.1 == range@.end,
{
    range.into_inner()
}

/// The two bounds of an inclusive range, lower bound first.
pub open spec fn range_inclusive_items<A>(x: RangeInclusive<A>) -> Seq<A> {
    seq![x@.start, x@.end]
}

/// `y` is a fresh (not exhausted) range whose bounds are those of `x`, each
/// related through `rel`.
pub open spec fn range_inclusive_maps_to<A, B>(
    x: RangeInclusive<A>,
    rel: spec_fn(A, B) -> bool,
    y: RangeInclusive<B>,
) -> bool {
    rel(x@.start, y@.start) && rel(x@.end, y@.end) && !y@.exhausted
}

impl<A, B> FuncMap<A, B> for RangeInclusive<A> {
    type Output = RangeInclusive<B>;

    open spec fn maps_to(self, rel: spec_fn(A, B) -> bool, out: RangeInclusive<B>) -> bool {
        range_inclusive_maps_to(self, rel, out)
    }

    fn func_map<F>(self, mut f: F) -> (out: RangeInclusive<B>) where F: FnMut(A) -> B {
        let (start, end) = range_inclusive_bounds(self);
        let start = f(start);
        let end = f(end);
        RangeInclusive::new(start, end)
    }
}

impl<A, B> TryFuncMap<A, B> for RangeInclusive<A> {
    type Output = RangeInclusive<B>;

    open spec fn maps_to(self, rel: spec_fn(A, B) -> bool, out: RangeInclusive<B>) -> bool {
        range_inclusive_maps_to(self, rel, out)
    }

    open spec fn items(self) -> Seq<A> {
        range_inclusive_items(self)
    }

    fn try_func_map<E, F>(self, mut f: F) -> (res: Result<RangeInclusive<B>, E>) where
        F: FnMut(A) -> Result<B, E>,
    {
        let ghost items = range_inclusive_items(self);
        let (start, end) = range_inclusive_bounds(self);
        let start = match f(start) {
            Ok(b) => b,
            Err(e) => {
                proof { lemma_first_error_at(items, outcome_of(f), seq![], e); }
                return Err(e);
            },
        };
        let end = match f(end) {
            Ok(b) => b,
            Err(e) => {
                proof { lemma_first_error_at(items, outcome_of(f), seq![start], e); }
                return Err(e);
            },
        };
        Ok(RangeInclusive::new(start, end))
    }
}


#[verifier::external_type_specification]
#[verifier::reject_recursive_types(T)]
pub struct ExBound<T>(Bound<T>);

#[verifier::external_type_specification]
#[verifier::reject_recursive_types(T)]
pub struct ExPoll<T>(Poll<T>);

#[verifier::external_type_specification]
#[verifier::reject_recursive_types(Idx)]
pub struct ExRangeFrom<Idx>(RangeFrom<Idx>);

#[verifier::external_type_specification]
#[verifier::reject_recursive_types(Idx)]
pub struct ExRangeTo<Idx>(RangeTo<Idx>);

#[verifier::external_type_specification]
#[verifier::reject_recursive_types(Idx)]
pub struct ExRangeToInclusive<Idx>(RangeToInclusive<Idx>);

/// The value held by a bound, if it is not unbounded.
pub open spec fn bound_items<A>(x: Bound<A>) -> Seq<A> {
    match x {
        Bound::Included(a) => seq![a],
        Bound::Excluded(a) => seq![a],
        Bound::Unbounded => seq![],
    }
}

/// `y` is the same kind of bound as `x`, with its value (if any) related
/// through `rel`.
pub open spec fn bound_maps_to<A, B>(x: Bound<A>, rel: spec_fn(A, B) -> bool, y: Bound<B>) -> bool {
    match x {
        Bound::Included(a) => y matches Bound::Included(b) && rel(a, b),
        Bound::Excluded(a) => y matches Bound::Excluded(b) && rel(a, b),
        Bound::Unbounded => y is Unbounded,
    }
}

impl<A, B> FuncMap<A, B> for Bound<A> {
    type Output = Bound<B>;

    open spec fn maps_to(self, rel: spec_fn(A, B) -> bool, out: Bound<B>) -> bool {
        bound_maps_to(self, rel, out)
    }

    fn func_map<F>(self, mut f: F) -> (out: Bound<B>) where F: FnMut(A) -> B {
        match self {
            Bound::Included(bound) => Bound::Included(f(bound)),
            Bound::Excluded(bound) => Bound::Excluded(f(bound)),
            Bound::Unbounded => Bound::Unbounded,
        }
    }
}

impl<A, B> TryFuncMap<A, B> for Bound<A> {
    type Output = Bound<B>;

    open spec fn maps_to(self, rel: spec_fn(A, B) -> bool, out: Bound<B>) -> bool {
        bound_maps_to(self, rel, out)
    }

    open spec fn items(self) -> Seq<A> {
        bound_items(self)
    }

    fn try_func_map<E, F>(self, mut f: F) -> (res: Result<Bound<B>, E>) where
        F: FnMut(A) -> Result<B, E>,
    {
        match self {
            Bound::Included(bound) => match f(bound) {
                Ok(b) => Ok(Bound::Included(b)),
                Err(e) => {
                    proof { lemma_first_error_at(bound_items(self), outcome_of(f), seq![], e); }
                    Err(e)
                },
            },
            Bound::Excluded(bound) => match f(bound) {
                Ok(b) => Ok(Bound::Excluded(b)),
                Err(e) => {
                    proof { lemma_first_error_at(bound_items(self), outcome_of(f), seq![], e); }
                    Err(e)
                },
            },
            Bound::Unbounded => Ok(Bound::Unbounded),
        }
    }
}

/// The value of a ready poll, if any.
pub open spec fn poll_items<A>(x: Poll<A>) -> Seq<A> {
    match x {
        Poll::Ready(a) => seq![a],
        Poll::Pending => seq![],
    }
}

/// `y` is ready exactly when `x` is, with its value related through `rel`.
pub open spec fn poll_maps_to<A, B>(x: Poll<A>, rel: spec_fn(A, B) -> bool, y: Poll<B>) -> bool {
    match x {
        Poll::Ready(a) => y matches Poll::Ready(b) && rel(a, b),
        Poll::Pending => y is Pending,
    }
}

impl<A, B> FuncMap<A, B> for Poll<A> {
    type Output = Poll<B>;

    open spec fn maps_to(self, rel: spec_fn(A, B) -> bool, out: Poll<B>) -> bool {
        poll_maps_to(self, rel, out)
    }

    fn func_map<F>(self, mut f: F) -> (out: Poll<B>) where F: FnMut(A) -> B {
        match self {
            Poll::Ready(value) => Poll::Ready(f(value)),
            Poll::Pending => Poll::Pending,
        }
    }
}

impl<A, B> TryFuncMap<A, B> for Poll<A> {
    type Output = Poll<B>;

    open spec fn maps_to(self, rel: spec_fn(A, B) -> bool, out: Poll<B>) -> bool {
        poll_maps_to(self, rel, out)
    }

    open spec fn items(self) -> Seq<A> {
        poll_items(self)
    }

    fn try_func_map<E, F>(self, mut f: F) -> (res: Result<Poll<B>, E>) where
        F: FnMut(A) -> Result<B, E>,
    {
        match self {
            Poll::Ready(value) => match f(value) {
                Ok(b) => Ok(Poll::Ready(b)),
                Err(e) => {
                    proof { lemma_first_error_at(poll_items(self), outcome_of(f), seq![], e); }
                    Err(e)
                },
            },
            Poll::Pending => Ok(Poll::Pending),
        }
    }
}

impl<A, B> FuncMap<A, B> for RangeFrom<A> {
    type Output = RangeFrom<B>;

    open spec fn maps_to(self, rel: spec_fn(A, B) -> bool, out: RangeFrom<B>) -> bool {
        rel(self.start, out.start)
    }

    fn func_map<F>(self, mut f: F) -> (out: RangeFrom<B>) where F: FnMut(A) -> B {
        RangeFrom { start: f(self.start) }
    }
}

impl<A, B> TryFuncMap<A, B> for RangeFrom<A> {
    type Output = RangeFrom<B>;

    open spec fn maps_to(self, rel: spec_fn(A, B) -> bool, out: RangeFrom<B>) -> bool {
        rel(self.start, out.start)
    }

    open spec fn items(self) -> Seq<A> {
        seq![self.start]
    }

    fn try_func_map<E, F>(self, mut f: F) -> (res: Result<RangeFrom<B>, E>) where
        F: FnMut(A) -> Result<B, E>,
    {
        let ghost items = seq![self.start];
        match f(self.start) {
            Ok(start) => Ok(RangeFrom { start }),
            Err(e) => {
                proof { lemma_first_error_at(items, outcome_of(f), seq![], e); }
                Err(e)
            },
        }
    }
}

impl<A, B> FuncMap<A, B> for RangeTo<A> {
    type Output = RangeTo<B>;

    open spec fn maps_to(self, rel: spec_fn(A, B) -> bool, out: RangeTo<B>) -> bool {
        rel(self.end, out.end)
    }

    fn func_map<F>(self, mut f: F) -> (out: RangeTo<B>) where F: FnMut(A) -> B {
        RangeTo { end: f(self.end) }
    }
}

impl<A, B> TryFuncMap<A, B> for RangeTo<A> {
    type Output = RangeTo<B>;

    open spec fn maps_to(self, rel: spec_fn(A, B) -> bool, out: RangeTo<B>) -> bool {
        rel(self.end, out.end)
    }

    open spec fn items(self) -> Seq<A> {
        seq![self.end]
    }

    fn try_func_map<E, F>(self, mut f: F) -> (res: Result<RangeTo<B>, E>) where
        F: FnMut(A) -> Result<B, E>,
    {
        let ghost items = seq![self.end];
        match f(self.end) {
            Ok(end) => Ok(RangeTo { end }),
            Err(e) => {
                proof { lemma_first_error_at(items, outcome_of(f), seq![], e); }
                Err(e)
            },
        }
    }
}

impl<A, B> FuncMap<A, B> for RangeToInclusive<A> {
    type Output = RangeToInclusive<B>;

    open spec fn maps_to(self, rel: spec_fn(A, B) -> bool, out: RangeToInclusive<B>) -> bool {
        rel(self.end, out.end)
    }

    fn func_map<F>(self, mut f: F) -> (out: RangeToInclusive<B>) where F: FnMut(A) -> B {
        RangeToInclusive { end: f(self.end) }
    }
}

impl<A, B> TryFuncMap<A, B> for RangeToInclusive<A> {
    type Output = RangeToInclusive<B>;

    open spec fn maps_to(self, rel: spec_fn(A, B) -> bool, out: RangeToInclusive<B>) -> bool {
        rel(self.end, out.end)
    }

    open spec fn items(self) -> Seq<A> {
        seq![self.end]
    }

    fn try_func_map<E, F>(self, mut f: F) -> (res: Result<RangeToInclusive<B>, E>) where
        F: FnMut(A) -> Result<B, E>,
    {
        let ghost items = seq![self.end];
        match f(self.end) {
            Ok(end) => Ok(RangeToInclusive { end }),
            Err(e) => {
                proof { lemma_first_error_at(items, outcome_of(f), seq![], e); }
                Err(e)
            },
        }
    }
}

} // verus!
