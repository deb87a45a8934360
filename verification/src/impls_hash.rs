//! Implementations of [`FuncMap`] for the hashed collections of `std`.
//!
//! What `vstd` states of `HashMap` and `HashSet` holds where their keys obey
//! its model of `Eq` and `Hash` and their hash builders build valid hashers;
//! the mappings state what they do under that condition. Both collections
//! visit their items in an order that their documentation leaves open, so
//! the fallible mappings, whose first error depends on that order, are not
//! provided here.
use vstd::prelude::*;

use std::collections::{HashMap, HashSet};
use std::hash::{Hash, RandomState};
use vstd::std_specs::hash::{builds_valid_hashers, obeys_key_model};

use crate::impls_btree::{items_come_from, items_map_to, items_reach, keys_come_from, keys_map_to, keys_reach, values_map_to};
use crate::marker::TypeParam;
use crate::mapping::FuncMap;

verus! {

broadcast use vstd::std_specs::hash::group_hash_axioms;

/// Keys of type `K` in a table whose hash builder has type `S` obey the
/// model of `vstd`.
pub open spec fn keyed_by_model<K, S>() -> bool {
    obeys_key_model::<K>() && builds_valid_hashers::<S>()
}

/// The entries of a map, each key once.
///
/// Calls `Vec::from_iter` on the map, which visits it through its owning
/// iterator; the documentation of `HashMap::into_iter` says that this
/// iterator visits every entry, in an arbitrary order. The contract claims,
/// where the keys obey the model, that the entries are those of the map and
/// that no key comes twice; it states nothing of their order.
#[verifier::external_body]
fn hash_map_entries<K, V, S>(map: HashMap<K, V, S>) -> (entries: Vec<(K, V)>)
    ensures
        obeys_key_model::<K>() && builds_valid_hashers::<S>() ==> {
            &&& forall|i: int| 0 <= i < entries@.len() ==>
                map@.contains_key(#[trigger] entries@[i].0) && map@[entries@[i].0] == entries@[i].1
            &&& forall|i: int, j: int| 0 <= i < j < entries@.len() ==> entries@[i].0 != entries@[j].0
            &&& forall|k: K| #[trigger] map@.contains_key(k) ==> exists|i: int| 0 <= i < entries@.len() && entries@[i].0 == k
        },
{
    Vec::from_iter(map)
}

/// The items of a set.
///
/// Calls `Vec::from_iter` on the set, which visits it through its owning
/// iterator; the documentation of `HashSet::into_iter` says that this
/// iterator visits every item, in an arbitrary order. The contract claims,
/// where the items obey the model, that the items are those of the set; it
/// states nothing of their order.
#[verifier::external_body]
fn hash_set_items<T, S>(set: HashSet<T, S>) -> (items: Vec<T>)
    ensures
        obeys_key_model::<T>() && builds_valid_hashers::<S>() ==> {
            &&& forall|i: int| 0 <= i < items@.len() ==> set@.contains(#[trigger] items@[i])
            &&& forall|t: T| #[trigger] set@.contains(t) ==> exists|i: int| 0 <= i < items@.len() && items@[i] == t
        },
{
    Vec::from_iter(set)
}

impl<K: Eq + Hash, A, B, S> FuncMap<A, B, TypeParam<1>> for HashMap<K, A, S> {
    type Output = HashMap<K, B>;

    open spec fn maps_to(self, rel: spec_fn(A, B) -> bool, out: HashMap<K, B>) -> bool {
        keyed_by_model::<K, S>() ==> values_map_to(self@, rel, out@)
    }

    fn func_map<F>(self, f: F) -> (out: HashMap<K, B>) where F: FnMut(A) -> B {
        let mut g = f;
        let ghost m = self@;
        let entries = hash_map_entries(self);
        let ghost es = entries@;
        let mut out: HashMap<K, B> = HashMap::new();
        for e in it: entries
            invariant
                es == it.seq(),
                g == f,
                forall|a: A| call_requires(f, (a,)),
                keyed_by_model::<K, S>() ==> {
                    &&& forall|i: int| 0 <= i < es.len() ==> m.contains_key(#[trigger] es[i].0) && m[es[i].0] == es[i].1
                    &&& forall|i: int, j: int| 0 <= i < j < es.len() ==> es[i].0 != es[j].0
                    &&& forall|k: K| #[trigger] out@.contains_key(k) <==> exists|j: int| 0 <= j < it.index() && es[j].0 == k
                    &&& forall|j: int| 0 <= j < it.index() ==> #[trigger] call_ensures(f, (es[j].1,), out@[es[j].0])
                },
        {
            let ghost n = it.index();
            let (k, a) = e;
            let b = g(a);
            let ghost before = out@;
            out.insert(k, b);
            proof {
                if keyed_by_model::<K, S>() {
                    assert(es[n] == (k, a));
                    assert forall|j: int| 0 <= j < n + 1 implies #[trigger] call_ensures(f, (es[j].1,), out@[es[j].0]) by {
                        if j < n {
                            assert(es[j].0 != es[n].0);
                        }
                    }
                    assert forall|k2: K| #[trigger] out@.contains_key(k2) <==> exists|j: int| 0 <= j < n + 1 && es[j].0 == k2 by {
                        if out@.contains_key(k2) && k2 != es[n].0 {
                            assert(before.contains_key(k2));
                        }
                        if k2 == es[n].0 {
                            assert(es[n].0 == k2);
                        }
                    }
                }
            }
        }
        proof {
            if keyed_by_model::<K, S>() {
                assert forall|k: K| #[trigger] m.contains_key(k) implies call_ensures(f, (m[k],), out@[k]) by {
                    let i = choose|i: int| 0 <= i < es.len() && es[i].0 == k;
                    assert(call_ensures(f, (es[i].1,), out@[es[i].0]));
                }
                assert(out@.dom() =~= m.dom());
            }
        }
        out
    }
}

impl<A, B: Eq + Hash, V, S> FuncMap<A, B, TypeParam<0>> for HashMap<A, V, S> {
    type Output = HashMap<B, V>;

    open spec fn maps_to(self, rel: spec_fn(A, B) -> bool, out: HashMap<B, V>) -> bool {
        keyed_by_model::<A, S>() && keyed_by_model::<B, RandomState>() ==> keys_map_to(self@, rel, out@)
    }

    fn func_map<F>(self, f: F) -> (out: HashMap<B, V>) where F: FnMut(A) -> B {
        let mut g = f;
        let ghost m = self@;
        let entries = hash_map_entries(self);
        let ghost es = entries@;
        let ghost mut ys: Seq<B> = Seq::empty();
        let mut out: HashMap<B, V> = HashMap::new();
        for e in it: entries
            invariant
                es == it.seq(),
                g == f,
                forall|a: A| call_requires(f, (a,)),
                ys.len() == it.index(),
                forall|j: int| 0 <= j < it.index() ==> #[trigger] call_ensures(f, (es[j].0,), ys[j]),
                keyed_by_model::<B, RandomState>() ==> forall|j: int| 0 <= j < it.index() ==> out@.contains_key(#[trigger] ys[j]),
                keyed_by_model::<B, RandomState>() ==> forall|b: B| #[trigger] out@.contains_key(b) ==>
                    exists|j: int| 0 <= j < it.index() && ys[j] == b && out@[b] == es[j].1,
        {
            let ghost n = it.index();
            let (a, v) = e;
            let b = g(a);
            let ghost before = out@;
            let ghost old_ys = ys;
            proof {
                ys = ys.push(b);
            }
            out.insert(b, v);
            proof {
                if keyed_by_model::<B, RandomState>() {
                    assert(es[n] == (a, v));
                    assert forall|j: int| 0 <= j < n + 1 implies out@.contains_key(#[trigger] ys[j]) by {
                        if j < n {
                            assert(old_ys[j] == ys[j]);
                        }
                    }
                    assert forall|b2: B| #[trigger] out@.contains_key(b2) implies
                        exists|j: int| 0 <= j < n + 1 && ys[j] == b2 && out@[b2] == es[j].1 by {
                        if b2 != b {
                            assert(before.contains_key(b2));
                            let j = choose|j: int| 0 <= j < n && old_ys[j] == b2 && before[b2] == es[j].1;
                            assert(ys[j] == b2);
                        } else {
                            assert(ys[n] == b2);
                        }
                    }
                }
            }
        }
        proof {
            reveal(keys_reach);
            reveal(keys_come_from);
            reveal(items_reach);
            reveal(items_come_from);
            if keyed_by_model::<A, S>() && keyed_by_model::<B, RandomState>() {
                assert forall|a: A| #[trigger] m.contains_key(a) implies exists|b: B| out@.contains_key(b) && call_ensures(f, (a,), b) by {
                    let i = choose|i: int| 0 <= i < es.len() && es[i].0 == a;
                    assert(out@.contains_key(ys[i]));
                }
                assert forall|b: B| #[trigger] out@.contains_key(b) implies
                    exists|a: A| m.contains_key(a) && call_ensures(f, (a,), b) && out@[b] == m[a] by {
                    let j = choose|j: int| 0 <= j < es.len() && ys[j] == b && out@[b] == es[j].1;
                    assert(m.contains_key(es[j].0));
                }
            }
        }
        out
    }
}

impl<A, B: Eq + Hash, S> FuncMap<A, B> for HashSet<A, S> {
    type Output = HashSet<B>;

    open spec fn maps_to(self, rel: spec_fn(A, B) -> bool, out: HashSet<B>) -> bool {
        keyed_by_model::<A, S>() && keyed_by_model::<B, RandomState>() ==> items_map_to(self@, rel, out@)
    }

    fn func_map<F>(self, f: F) -> (out: HashSet<B>) where F: FnMut(A) -> B {
        let mut g = f;
        let ghost s = self@;
        let items = hash_set_items(self);
        let ghost xs = items@;
        let ghost mut ys: Seq<B> = Seq::empty();
        let mut out: HashSet<B> = HashSet::new();
        for a in it: items
            invariant
                xs == it.seq(),
                g == f,
                forall|a: A| call_requires(f, (a,)),
                ys.len() == it.index(),
                forall|j: int| 0 <= j < it.index() ==> #[trigger] call_ensures(f, (xs[j],), ys[j]),
                keyed_by_model::<B, RandomState>() ==> forall|b: B| #[trigger] out@.contains(b) <==> exists|j: int| 0 <= j < it.index() && ys[j] == b,
        {
            let ghost n = it.index();
            let b = g(a);
            let ghost before = out@;
            let ghost old_ys = ys;
            proof {
                ys = ys.push(b);
            }
            out.insert(b);
            proof {
                if keyed_by_model::<B, RandomState>() {
                    assert forall|b2: B| #[trigger] out@.contains(b2) <==> exists|j: int| 0 <= j < n + 1 && ys[j] == b2 by {
                        if out@.contains(b2) && b2 != ys[n] {
                            assert(before.contains(b2));
                            let j = choose|j: int| 0 <= j < n && old_ys[j] == b2;
                            assert(ys[j] == b2);
                        }
                        if exists|j: int| 0 <= j < n + 1 && ys[j] == b2 {
                            let j = choose|j: int| 0 <= j < n + 1 && ys[j] == b2;
                            if j < n {
                                assert(old_ys[j] == b2);
                            }
                        }
                    }
                }
            }
        }
        proof {
            reveal(keys_reach);
            reveal(keys_come_from);
            reveal(items_reach);
            reveal(items_come_from);
            if keyed_by_model::<A, S>() && keyed_by_model::<B, RandomState>() {
                assert forall|a: A| #[trigger] s.contains(a) implies exists|b: B| out@.contains(b) && call_ensures(f, (a,), b) by {
                    let i = choose|i: int| 0 <= i < xs.len() && xs[i] == a;
                    assert(out@.contains(ys[i]));
                }
                assert forall|b: B| #[trigger] out@.contains(b) implies exists|a: A| s.contains(a) && call_ensures(f, (a,), b) by {
                    let j = choose|j: int| 0 <= j < xs.len() && ys[j] == b;
                    assert(s.contains(xs[j]));
                }
            }
        }
        out
    }
}

} // verus!
