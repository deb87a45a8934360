//! Implementations of [`FuncMap`] and [`TryFuncMap`] for types in `alloc`.
use vstd::prelude::*;

use std::collections::VecDeque;

use crate::mapping::{
    FuncMap, TryFuncMap, lemma_first_error_at, outcome_of, seq_maps_to,
};

verus! {

impl<A, B> FuncMap<A, B> for Box<A> {
    type Output = Box<B>;

    open spec fn maps_to(self, rel: spec_fn(A, B) -> bool, out: Box<B>) -> bool {
        rel(*self, *out)
    }

    fn func_map<F>(self, mut f: F) -> (out: Box<B>) where F: FnMut(A) -> B {
        Box::new(f(*self))
    }
}

impl<A, B> TryFuncMap<A, B> for Box<A> {
    type Output = Box<B>;

    open spec fn maps_to(self, rel: spec_fn(A, B) -> bool, out: Box<B>) -> bool {
        rel(*self, *out)
    }

    open spec fn items(self) -> Seq<A> {
        seq![*self]
    }

    fn try_func_map<E, F>(self, mut f: F) -> (res: Result<Box<B>, E>) where
        F: FnMut(A) -> Result<B, E>,
    {
        match f(*self) {
            Ok(b) => Ok(Box::new(b)),
            Err(e) => {
                proof { lemma_first_error_at(seq![*self], outcome_of(f), seq![], e); }
                Err(e)
            },
        }
    }
}

impl<A, B> FuncMap<A, B> for Vec<A> {
    type Output = Vec<B>;

    open spec fn maps_to(self, rel: spec_fn(A, B) -> bool, out: Vec<B>) -> bool {
        seq_maps_to(self@, rel, out@)
    }

    fn func_map<F>(self, f: F) -> (out: Vec<B>) where F: FnMut(A) -> B {
        let mut g = f;
        let ghost xs = self@;
        let mut out: Vec<B> = Vec::new();
        for a in it: self
            invariant
                xs == it.seq(),
                forall|a: A| call_requires(f, (a,)),
                g == f,
                out@.len() == it.index(),
                forall|j: int| 0 <= j < it.index() ==> #[trigger] call_ensures(f, (xs[j],), out@[j]),
        {
            out.push(g(a));
        }
        out
    }
}

impl<A, B> TryFuncMap<A, B> for Vec<A> {
    type Output = Vec<B>;

    open spec fn maps_to(self, rel: spec_fn(A, B) -> bool, out: Vec<B>) -> bool {
        seq_maps_to(self@, rel, out@)
    }

    open spec fn items(self) -> Seq<A> {
        self@
    }

    fn try_func_map<E, F>(self, f: F) -> (res: Result<Vec<B>, E>) where
        F: FnMut(A) -> Result<B, E>,
    {
        let mut g = f;
        let ghost xs = self@;
        let mut out: Vec<B> = Vec::new();
        for a in it: self
            invariant
                xs == it.seq(),
                forall|a: A| call_requires(f, (a,)),
                g == f,
                out@.len() == it.index(),
                forall|j: int| 0 <= j < it.index() ==> #[trigger] call_ensures(f, (xs[j],), Ok::<B, E>(out@[j])),
        {
            match g(a) {
                Ok(b) => {
                    out.push(b);
                },
                Err(e) => {
                    proof {
                        assert forall|j: int| 0 <= j < out@.len() implies #[trigger] outcome_of(f)(xs[j], Ok(out@[j])) by {
                            assert(call_ensures(f, (xs[j],), Ok::<B, E>(out@[j])));
                        }
                        lemma_first_error_at(xs, outcome_of(f), out@, e);
                    }
                    return Err(e);
                },
            }
        }
        Ok(out)
    }
}

impl<A, B> FuncMap<A, B> for VecDeque<A> {
    type Output = VecDeque<B>;

    open spec fn maps_to(self, rel: spec_fn(A, B) -> bool, out: VecDeque<B>) -> bool {
        seq_maps_to(self@, rel, out@)
    }

    fn func_map<F>(self, f: F) -> (out: VecDeque<B>) where F: FnMut(A) -> B {
        let mut g = f;
        let ghost xs = self@;
        let mut rest = self;
        let mut out: VecDeque<B> = VecDeque::new();
        while rest.len() > 0
            invariant
                forall|a: A| call_requires(f, (a,)),
                g == f,
                xs == self@,
                out@.len() + rest@.len() == xs.len(),
                rest@ == xs.subrange(out@.len() as int, xs.len() as int),
                forall|j: int| 0 <= j < out@.len() ==> #[trigger] call_ensures(f, (xs[j],), out@[j]),
            decreases rest@.len(),
        {
            let a = match rest.pop_front() {
                Some(a) => a,
                None => unreached(),
            };
            assert(a == xs[out@.len() as int]);
            out.push_back(g(a));
        }
        out
    }
}

impl<A, B> TryFuncMap<A, B> for VecDeque<A> {
    type Output = VecDeque<B>;

    open spec fn maps_to(self, rel: spec_fn(A, B) -> bool, out: VecDeque<B>) -> bool {
        seq_maps_to(self@, rel, out@)
    }

    open spec fn items(self) -> Seq<A> {
        self@
    }

    fn try_func_map<E, F>(self, f: F) -> (res: Result<VecDeque<B>, E>) where
        F: FnMut(A) -> Result<B, E>,
    {
        let mut g = f;
        let ghost xs = self@;
        let mut rest = self;
        let mut out: VecDeque<B> = VecDeque::new();
        while rest.len() > 0
            invariant
                forall|a: A| call_requires(f, (a,)),
                g == f,
                xs == self@,
                out@.len() + rest@.len() == xs.len(),
                rest@ == xs.subrange(out@.len() as int, xs.len() as int),
                forall|j: int| 0 <= j < out@.len() ==> #[trigger] call_ensures(f, (xs[j],), Ok::<B, E>(out@[j])),
            decreases rest@.len(),
        {
            let a = match rest.pop_front() {
                Some(a) => a,
                None => unreached(),
            };
            assert(a == xs[out@.len() as int]);
            match g(a) {
                Ok(b) => {
                    out.push_back(b);
                },
                Err(e) => {
                    proof {
                        assert forall|j: int| 0 <= j < out@.len() implies #[trigger] outcome_of(f)(xs[j], Ok(out@[j])) by {
                            assert(call_ensures(f, (xs[j],), Ok::<B, E>(out@[j])));
                        }
                        assert(outcome_of(f)(xs[out@.len() as int], Err(e)));
                        lemma_first_error_at(xs, outcome_of(f), out@, e);
                    }
                    return Err(e);
                },
            }
        }
        Ok(out)
    }
}

} // verus!
