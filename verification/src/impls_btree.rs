//! Implementations of [`FuncMap`] for the ordered collections of `alloc`.
//!
//! What `vstd` states of `BTreeMap` and `BTreeSet` holds where their keys
//! obey its model of `Ord`; the mappings state what they do under that
//! condition.
use vstd::prelude::*;

use std::collections::{BTreeMap, BTreeSet};
use vstd::std_specs::btree::{into_iter_btree_keys, key_obeys_cmp_spec, spec_btree_keys_iter, spec_btree_map_iter};

use crate::marker::TypeParam;
use crate::mapping::{FuncMap, TryFuncMap, lemma_first_error_at, outcome_of};

verus! {

broadcast use vstd::std_specs::btree::group_btree_axioms;

/// The entries of a map, each key once.
///
/// Calls `Vec::from_iter` on the map, which visits it through its owning
/// iterator; the documentation of `BTreeMap::into_iter` says that this
/// iterator yields every entry, sorted by key. The contract claims, where the
/// keys obey the model of `Ord`, that the entries are those of the map and
/// that no key comes twice; and in any case that they come in the order in
/// which `BTreeMap::iter` yields them, sorted by key as well.
#[verifier::external_body]
fn btree_map_entries<K, V>(map: BTreeMap<K, V>) -> (entries: Vec<(K, V)>)
    ensures
        entries@.len() == vstd::std_specs::btree::into_iter(spec_btree_map_iter(&map)).len(),
        forall|i: int| 0 <= i < entries@.len() ==> #[trigger] entries@[i].0 == vstd::std_specs::btree::into_iter(spec_btree_map_iter(&map))[i].0
            && entries@[i].1 == vstd::std_specs::btree::into_iter(spec_btree_map_iter(&map))[i].1,
        key_obeys_cmp_spec::<K>() ==> {
            &&& forall|i: int| 0 <= i < entries@.len() ==>
                map@.contains_key(#[trigger] entries@[i].0) && map@[entries@[i].0] == entries@[i].1
            &&& forall|i: int, j: int| 0 <= i < j < entries@.len() ==> entries@[i].0 != entries@[j].0
            &&& forall|k: K| #[trigger] map@.contains_key(k) ==> exists|i: int| 0 <= i < entries@.len() && entries@[i].0 == k
        },
{
    Vec::from_iter(map)
}

/// The items of a set.
///
/// Calls `Vec::from_iter` on the set, which visits it through its owning
/// iterator; the documentation of `BTreeSet::into_iter` says that this
/// iterator yields every item, in ascending order. The contract claims, where
/// the items obey the model of `Ord`, that the items are those of the set;
/// and in any case that they come in the order in which `BTreeSet::iter`
/// yields them, ascending as well.
#[verifier::external_body]
fn btree_set_items<T>(set: BTreeSet<T>) -> (items: Vec<T>)
    ensures
        items@.len() == into_iter_btree_keys(spec_btree_keys_iter(&set)).len(),
        forall|i: int| 0 <= i < items@.len() ==> #[trigger] items@[i] == into_iter_btree_keys(spec_btree_keys_iter(&set))[i],
        key_obeys_cmp_spec::<T>() ==> {
            &&& forall|i: int| 0 <= i < items@.len() ==> set@.contains(#[trigger] items@[i])
            &&& forall|t: T| #[trigger] set@.contains(t) ==> exists|i: int| 0 <= i < items@.len() && items@[i] == t
        },
{
    Vec::from_iter(set)
}

/// The values of a map, in the order in which `BTreeMap::iter` yields them.
pub open spec fn values_in_order<K, V>(m: BTreeMap<K, V>) -> Seq<V> {
    vstd::std_specs::btree::into_iter(spec_btree_map_iter(&m)).map_values(|kv: (K, V)| kv.1)
}

/// The keys of a map, in the order in which `BTreeMap::iter` yields them.
pub open spec fn keys_in_order<K, V>(m: BTreeMap<K, V>) -> Seq<K> {
    vstd::std_specs::btree::into_iter(spec_btree_map_iter(&m)).map_values(|kv: (K, V)| kv.0)
}

/// `out` has the keys of `m`, each with a value related through `rel` to the
/// value of `m` for it.
pub open spec fn values_map_to<K, A, B>(m: Map<K, A>, rel: spec_fn(A, B) -> bool, out: Map<K, B>) -> bool {
    &&& out.dom() == m.dom()
    &&& forall|k: K| #[trigger] m.contains_key(k) ==> rel(m[k], out[k])
}

/// Every key of `m` is related through `rel` to a key of `out`.
#[verifier::opaque]
pub open spec fn keys_reach<A, B, V>(m: Map<A, V>, rel: spec_fn(A, B) -> bool, out: Map<B, V>) -> bool {
    forall|a: A| #[trigger] m.contains_key(a) ==> exists|b: B| out.contains_key(b) && rel(a, b)
}

/// Every key of `out` is related through `rel` from a key of `m` whose value
/// it has.
#[verifier::opaque]
pub open spec fn keys_come_from<A, B, V>(m: Map<A, V>, rel: spec_fn(A, B) -> bool, out: Map<B, V>) -> bool {
    forall|b: B| #[trigger] out.contains_key(b) ==> exists|a: A| m.contains_key(a) && rel(a, b) && out[b] == m[a]
}

/// Every key of `m` is related through `rel` to a key of `out`, and every key
/// of `out` is related to it from a key of `m` whose value it has.
pub open spec fn keys_map_to<A, B, V>(m: Map<A, V>, rel: spec_fn(A, B) -> bool, out: Map<B, V>) -> bool {
    keys_reach(m, rel, out) && keys_come_from(m, rel, out)
}

/// Every item of `s` is related through `rel` to an item of `out`.
#[verifier::opaque]
pub open spec fn items_reach<A, B>(s: Set<A>, rel: spec_fn(A, B) -> bool, out: Set<B>) -> bool {
    forall|a: A| #[trigger] s.contains(a) ==> exists|b: B| out.contains(b) && rel(a, b)
}

/// Every item of `out` is related through `rel` from an item of `s`.
#[verifier::opaque]
pub open spec fn items_come_from<A, B>(s: Set<A>, rel: spec_fn(A, B) -> bool, out: Set<B>) -> bool {
    forall|b: B| #[trigger] out.contains(b) ==> exists|a: A| s.contains(a) && rel(a, b)
}

/// Every item of `s` is related through `rel` to an item of `out`, and every
/// item of `out` is related to it from an item of `s`.
pub open spec fn items_map_to<A, B>(s: Set<A>, rel: spec_fn(A, B) -> bool, out: Set<B>) -> bool {
    items_reach(s, rel, out) && items_come_from(s, rel, out)
}

impl<K: Ord, A, B> FuncMap<A, B, TypeParam<1>> for BTreeMap<K, A> {
    type Output = BTreeMap<K, B>;

    open spec fn maps_to(self, rel: spec_fn(A, B) -> bool, out: BTreeMap<K, B>) -> bool {
        key_obeys_cmp_spec::<K>() ==> values_map_to(self@, rel, out@)
    }

    fn func_map<F>(self, f: F) -> (out: BTreeMap<K, B>) where F: FnMut(A) -> B {
        let mut g = f;
        let ghost m = self@;
        let entries = btree_map_entries(self);
        let ghost es = entries@;
        let mut out: BTreeMap<K, B> = BTreeMap::new();
        for e in it: entries
            invariant
                es == it.seq(),
                g == f,
                forall|a: A| call_requires(f, (a,)),
                key_obeys_cmp_spec::<K>() ==> {
                    &&& forall|i: int| 0 <= i < es.len() ==> m.contains_key(#[trigger] es[i].0) && m[es[i].0] == es[i].1
                    &&& forall|i: int, j: int| 0 <= i < j < es.len() ==> es[i].0 != es[j].0
                    &&& forall|k: K| #[trigger] out@.contains_key(k) <==> exists|j: int| 0 <= j < it.index() && es[j].0 == k
                    &&& forall|j: int| 0 <= j < it.index() ==> #[trigger] call_ensures(f, (es[j].1,), out@[es[j].0])
                },
        {
            let ghost n = it.index();
            let (k, a) = e;
            let b = g(a);
            let ghost before = out@;
            out.insert(k, b);
            proof {
                if key_obeys_cmp_spec::<K>() {
                    assert(es[n] == (k, a));
                    assert forall|j: int| 0 <= j < n + 1 implies #[trigger] call_ensures(f, (es[j].1,), out@[es[j].0]) by {
                        if j < n {
                            assert(es[j].0 != es[n].0);
                        }
                    }
                    assert forall|k2: K| #[trigger] out@.contains_key(k2) <==> exists|j: int| 0 <= j < n + 1 && es[j].0 == k2 by {
                        if out@.contains_key(k2) && k2 != es[n].0 {
                            assert(before.contains_key(k2));
                        }
                        if k2 == es[n].0 {
                            assert(es[n].0 == k2);
                        }
                    }
                }
            }
        }
        proof {
            if key_obeys_cmp_spec::<K>() {
                assert forall|k: K| #[trigger] m.contains_key(k) implies call_ensures(f, (m[k],), out@[k]) by {
                    let i = choose|i: int| 0 <= i < es.len() && es[i].0 == k;
                    assert(call_ensures(f, (es[i].1,), out@[es[i].0]));
                }
                assert(out@.dom() =~= m.dom());
            }
        }
        out
    }
}

impl<A, B: Ord> FuncMap<A, B> for BTreeSet<A> {
    type Output = BTreeSet<B>;

    open spec fn maps_to(self, rel: spec_fn(A, B) -> bool, out: BTreeSet<B>) -> bool {
        key_obeys_cmp_spec::<A>() && key_obeys_cmp_spec::<B>() ==> items_map_to(self@, rel, out@)
    }

    fn func_map<F>(self, f: F) -> (out: BTreeSet<B>) where F: FnMut(A) -> B {
        let mut g = f;
        let ghost s = self@;
        let items = btree_set_items(self);
        let ghost xs = items@;
        let ghost mut ys: Seq<B> = Seq::empty();
        let mut out: BTreeSet<B> = BTreeSet::new();
        for a in it: items
            invariant
                xs == it.seq(),
                g == f,
                forall|a: A| call_requires(f, (a,)),
                ys.len() == it.index(),
                forall|j: int| 0 <= j < it.index() ==> #[trigger] call_ensures(f, (xs[j],), ys[j]),
                key_obeys_cmp_spec::<B>() ==> forall|b: B| #[trigger] out@.contains(b) <==> exists|j: int| 0 <= j < it.index() && ys[j] == b,
        {
            let ghost n = it.index();
            let b = g(a);
            let ghost before = out@;
            let ghost old_ys = ys;
            proof {
                ys = ys.push(b);
            }
            out.insert(b);
            proof {
                if key_obeys_cmp_spec::<B>() {
                    assert forall|b2: B| #[trigger] out@.contains(b2) <==> exists|j: int| 0 <= j < n + 1 && ys[j] == b2 by {
                        if out@.contains(b2) && b2 != ys[n] {
                            assert(before.contains(b2));
                            let j = choose|j: int| 0 <= j < n && old_ys[j] == b2;
                            assert(ys[j] == b2);
                        }
                        if exists|j: int| 0 <= j < n + 1 && ys[j] == b2 {
                            let j = choose|j: int| 0 <= j < n + 1 && ys[j] == b2;
                            if j < n {
                                assert(old_ys[j] == b2);
                            }
                        }
                    }
                }
            }
        }
        proof {
            reveal(keys_reach);
            reveal(keys_come_from);
            reveal(items_reach);
            reveal(items_come_from);
            if key_obeys_cmp_spec::<A>() && key_obeys_cmp_spec::<B>() {
                assert forall|a: A| #[trigger] s.contains(a) implies exists|b: B| out@.contains(b) && call_ensures(f, (a,), b) by {
                    let i = choose|i: int| 0 <= i < xs.len() && xs[i] == a;
                    assert(out@.contains(ys[i]));
                }
                assert forall|b: B| #[trigger] out@.contains(b) implies exists|a: A| s.contains(a) && call_ensures(f, (a,), b) by {
                    let j = choose|j: int| 0 <= j < xs.len() && ys[j] == b;
                    assert(s.contains(xs[j]));
                }
            }
        }
        out
    }
}

impl<A, B: Ord, V> FuncMap<A, B, TypeParam<0>> for BTreeMap<A, V> {
    type Output = BTreeMap<B, V>;

    open spec fn maps_to(self, rel: spec_fn(A, B) -> bool, out: BTreeMap<B, V>) -> bool {
        key_obeys_cmp_spec::<A>() && key_obeys_cmp_spec::<B>() ==> keys_map_to(self@, rel, out@)
    }

    fn func_map<F>(self, f: F) -> (out: BTreeMap<B, V>) where F: FnMut(A) -> B {
        let mut g = f;
        let ghost m = self@;
        let entries = btree_map_entries(self);
        let ghost es = entries@;
        let ghost mut ys: Seq<B> = Seq::empty();
        let mut out: BTreeMap<B, V> = BTreeMap::new();
        for e in it: entries
            invariant
                es == it.seq(),
                g == f,
                forall|a: A| call_requires(f, (a,)),
                ys.len() == it.index(),
                forall|j: int| 0 <= j < it.index() ==> #[trigger] call_ensures(f, (es[j].0,), ys[j]),
                key_obeys_cmp_spec::<B>() ==> forall|j: int| 0 <= j < it.index() ==> out@.contains_key(#[trigger] ys[j]),
                key_obeys_cmp_spec::<B>() ==> forall|b: B| #[trigger] out@.contains_key(b) ==>
                    exists|j: int| 0 <= j < it.index() && ys[j] == b && out@[b] == es[j].1,
        {
            let ghost n = it.index();
            let (a, v) = e;
            let b = g(a);
            let ghost before = out@;
            let ghost old_ys = ys;
            proof {
                ys = ys.push(b);
            }
            out.insert(b, v);
            proof {
                if key_obeys_cmp_spec::<B>() {
                    assert(es[n] == (a, v));
                    assert forall|j: int| 0 <= j < n + 1 implies out@.contains_key(#[trigger] ys[j]) by {
                        if j < n {
                            assert(old_ys[j] == ys[j]);
                        }
                    }
                    assert forall|b2: B| #[trigger] out@.contains_key(b2) implies
                        exists|j: int| 0 <= j < n + 1 && ys[j] == b2 && out@[b2] == es[j].1 by {
                        if b2 != b {
                            assert(before.contains_key(b2));
                            let j = choose|j: int| 0 <= j < n && old_ys[j] == b2 && before[b2] == es[j].1;
                            assert(ys[j] == b2);
                        } else {
                            assert(ys[n] == b2);
                        }
                    }
                }
            }
        }
        proof {
            reveal(keys_reach);
            reveal(keys_come_from);
            reveal(items_reach);
            reveal(items_come_from);
            if key_obeys_cmp_spec::<A>() && key_obeys_cmp_spec::<B>() {
                assert forall|a: A| #[trigger] m.contains_key(a) implies exists|b: B| out@.contains_key(b) && call_ensures(f, (a,), b) by {
                    let i = choose|i: int| 0 <= i < es.len() && es[i].0 == a;
                    assert(out@.contains_key(ys[i]));
                }
                assert forall|b: B| #[trigger] out@.contains_key(b) implies
                    exists|a: A| m.contains_key(a) && call_ensures(f, (a,), b) && out@[b] == m[a] by {
                    let j = choose|j: int| 0 <= j < es.len() && ys[j] == b && out@[b] == es[j].1;
                    assert(m.contains_key(es[j].0));
                }
            }
        }
        out
    }
}

impl<K: Ord, A, B> TryFuncMap<A, B, TypeParam<1>> for BTreeMap<K, A> {
    type Output = BTreeMap<K, B>;

    open spec fn maps_to(self, rel: spec_fn(A, B) -> bool, out: BTreeMap<K, B>) -> bool {
        key_obeys_cmp_spec::<K>() ==> values_map_to(self@, rel, out@)
    }

    open spec fn items(self) -> Seq<A> {
        values_in_order(self)
    }

    fn try_func_map<E, F>(self, f: F) -> (res: Result<BTreeMap<K, B>, E>) where F: FnMut(A) -> Result<B, E> {
        let mut g = f;
        let ghost m = self@;
        let ghost vs = TryFuncMap::<A, B, TypeParam<1>>::items(self);
        let entries = btree_map_entries(self);
        let ghost es = entries@;
        let ghost mut done: Seq<B> = Seq::empty();
        let mut out: BTreeMap<K, B> = BTreeMap::new();
        assert forall|i: int| 0 <= i < es.len() implies #[trigger] vs[i] == es[i].1 by {
            assert(es[i].0 == vstd::std_specs::btree::into_iter(spec_btree_map_iter(&self))[i].0);
        }
        for e in it: entries
            invariant
                es == it.seq(),
                g == f,
                forall|a: A| call_requires(f, (a,)),
                vs == TryFuncMap::<A, B, TypeParam<1>>::items(self),
                vs.len() == es.len(),
                forall|i: int| 0 <= i < es.len() ==> #[trigger] vs[i] == es[i].1,
                done.len() == it.index(),
                forall|j: int| 0 <= j < it.index() ==> #[trigger] call_ensures(f, (es[j].1,), Ok::<B, E>(done[j])),
                key_obeys_cmp_spec::<K>() ==> {
                    &&& forall|i: int| 0 <= i < es.len() ==> m.contains_key(#[trigger] es[i].0) && m[es[i].0] == es[i].1
                    &&& forall|i: int, j: int| 0 <= i < j < es.len() ==> es[i].0 != es[j].0
                    &&& forall|k: K| #[trigger] out@.contains_key(k) <==> exists|j: int| 0 <= j < it.index() && es[j].0 == k
                    &&& forall|j: int| 0 <= j < it.index() ==> out@[#[trigger] es[j].0] == done[j]
                },
        {
            let ghost n = it.index();
            let (k, a) = e;
            assert(es[n] == (k, a));
            match g(a) {
                Ok(b) => {
                    let ghost before = out@;
                    let ghost old_done = done;
                    out.insert(k, b);
                    proof {
                        done = done.push(b);
                        assert forall|j: int| 0 <= j < n + 1 implies #[trigger] call_ensures(f, (es[j].1,), Ok::<B, E>(done[j])) by {
                            if j < n {
                                assert(old_done[j] == done[j]);
                            }
                        }
                        if key_obeys_cmp_spec::<K>() {
                            assert forall|j: int| 0 <= j < n + 1 implies out@[#[trigger] es[j].0] == done[j] by {
                                if j < n {
                                    assert(es[j].0 != es[n].0);
                                    assert(old_done[j] == done[j]);
                                }
                            }
                            assert forall|k2: K| #[trigger] out@.contains_key(k2) <==> exists|j: int| 0 <= j < n + 1 && es[j].0 == k2 by {
                                if out@.contains_key(k2) && k2 != es[n].0 {
                                    assert(before.contains_key(k2));
                                }
                                if k2 == es[n].0 {
                                    assert(es[n].0 == k2);
                                }
                            }
                        }
                    }
                },
                Err(err) => {
                    proof {
                        assert forall|j: int| 0 <= j < done.len() implies #[trigger] outcome_of(f)(vs[j], Ok(done[j])) by {
                            assert(call_ensures(f, (es[j].1,), Ok::<B, E>(done[j])));
                        }
                        lemma_first_error_at(vs, outcome_of(f), done, err);
                    }
                    return Err(err);
                },
            }
        }
        proof {
            if key_obeys_cmp_spec::<K>() {
                assert forall|k: K| #[trigger] m.contains_key(k) implies call_ensures(f, (m[k],), Ok::<B, E>(out@[k])) by {
                    let i = choose|i: int| 0 <= i < es.len() && es[i].0 == k;
                    assert(out@[es[i].0] == done[i]);
                    assert(call_ensures(f, (es[i].1,), Ok::<B, E>(done[i])));
                }
                assert(out@.dom() =~= m.dom());
            }
        }
        Ok(out)
    }
}

impl<A, B: Ord, V> TryFuncMap<A, B, TypeParam<0>> for BTreeMap<A, V> {
    type Output = BTreeMap<B, V>;

    open spec fn maps_to(self, rel: spec_fn(A, B) -> bool, out: BTreeMap<B, V>) -> bool {
        key_obeys_cmp_spec::<A>() && key_obeys_cmp_spec::<B>() ==> keys_map_to(self@, rel, out@)
    }

    open spec fn items(self) -> Seq<A> {
        keys_in_order(self)
    }

    fn try_func_map<E, F>(self, f: F) -> (res: Result<BTreeMap<B, V>, E>) where F: FnMut(A) -> Result<B, E> {
        let mut g = f;
        let ghost m = self@;
        let ghost ks = TryFuncMap::<A, B, TypeParam<0>>::items(self);
        let entries = btree_map_entries(self);
        let ghost es = entries@;
        let ghost mut ys: Seq<B> = Seq::empty();
        let mut out: BTreeMap<B, V> = BTreeMap::new();
        assert forall|i: int| 0 <= i < es.len() implies #[trigger] ks[i] == es[i].0 by {
            assert(es[i].0 == vstd::std_specs::btree::into_iter(spec_btree_map_iter(&self))[i].0);
        }
        for e in it: entries
            invariant
                es == it.seq(),
                g == f,
                forall|a: A| call_requires(f, (a,)),
                ks == TryFuncMap::<A, B, TypeParam<0>>::items(self),
                ks.len() == es.len(),
                forall|i: int| 0 <= i < es.len() ==> #[trigger] ks[i] == es[i].0,
                ys.len() == it.index(),
                forall|j: int| 0 <= j < it.index() ==> #[trigger] call_ensures(f, (es[j].0,), Ok::<B, E>(ys[j])),
                key_obeys_cmp_spec::<B>() ==> forall|j: int| 0 <= j < it.index() ==> out@.contains_key(#[trigger] ys[j]),
                key_obeys_cmp_spec::<B>() ==> forall|b: B| #[trigger] out@.contains_key(b) ==>
                    exists|j: int| 0 <= j < it.index() && ys[j] == b && out@[b] == es[j].1,
        {
            let ghost n = it.index();
            let (a, v) = e;
            assert(es[n] == (a, v));
            match g(a) {
                Ok(b) => {
                    let ghost before = out@;
                    let ghost old_ys = ys;
                    out.insert(b, v);
                    proof {
                        ys = ys.push(b);
                        assert forall|j: int| 0 <= j < n + 1 implies #[trigger] call_ensures(f, (es[j].0,), Ok::<B, E>(ys[j])) by {
                            if j < n {
                                assert(old_ys[j] == ys[j]);
                            }
                        }
                        if key_obeys_cmp_spec::<B>() {
                            assert forall|j: int| 0 <= j < n + 1 implies out@.contains_key(#[trigger] ys[j]) by {
                                if j < n {
                                    assert(old_ys[j] == ys[j]);
                                }
                            }
                            assert forall|b2: B| #[trigger] out@.contains_key(b2) implies
                                exists|j: int| 0 <= j < n + 1 && ys[j] == b2 && out@[b2] == es[j].1 by {
                                if b2 != b {
                                    assert(before.contains_key(b2));
                                    let j = choose|j: int| 0 <= j < n && old_ys[j] == b2 && before[b2] == es[j].1;
                                    assert(ys[j] == b2);
                                } else {
                                    assert(ys[n] == b2);
                                }
                            }
                        }
                    }
                },
                Err(err) => {
                    proof {
                        assert forall|j: int| 0 <= j < ys.len() implies #[trigger] outcome_of(f)(ks[j], Ok(ys[j])) by {
                            assert(call_ensures(f, (es[j].0,), Ok::<B, E>(ys[j])));
                        }
                        lemma_first_error_at(ks, outcome_of(f), ys, err);
                    }
                    return Err(err);
                },
            }
        }
        proof {
            reveal(keys_reach);
            reveal(keys_come_from);
            reveal(items_reach);
            reveal(items_come_from);
            if key_obeys_cmp_spec::<A>() && key_obeys_cmp_spec::<B>() {
                assert forall|a: A| #[trigger] m.contains_key(a) implies exists|b: B| out@.contains_key(b) && call_ensures(f, (a,), Ok::<B, E>(b)) by {
                    let i = choose|i: int| 0 <= i < es.len() && es[i].0 == a;
                    assert(out@.contains_key(ys[i]));
                }
                assert forall|b: B| #[trigger] out@.contains_key(b) implies
                    exists|a: A| m.contains_key(a) && call_ensures(f, (a,), Ok::<B, E>(b)) && out@[b] == m[a] by {
                    let j = choose|j: int| 0 <= j < es.len() && ys[j] == b && out@[b] == es[j].1;
                    assert(m.contains_key(es[j].0));
                }
            }
        }
        Ok(out)
    }
}

impl<A, B: Ord> TryFuncMap<A, B> for BTreeSet<A> {
    type Output = BTreeSet<B>;

    open spec fn maps_to(self, rel: spec_fn(A, B) -> bool, out: BTreeSet<B>) -> bool {
        key_obeys_cmp_spec::<A>() && key_obeys_cmp_spec::<B>() ==> items_map_to(self@, rel, out@)
    }

    open spec fn items(self) -> Seq<A> {
        into_iter_btree_keys(spec_btree_keys_iter(&self))
    }

    fn try_func_map<E, F>(self, f: F) -> (res: Result<BTreeSet<B>, E>) where F: FnMut(A) -> Result<B, E> {
        let mut g = f;
        let ghost s = self@;
        let ghost its = TryFuncMap::<A, B, TypeParam<0>>::items(self);
        let items = btree_set_items(self);
        let ghost xs = items@;
        let ghost mut ys: Seq<B> = Seq::empty();
        let mut out: BTreeSet<B> = BTreeSet::new();
        for a in it: items
            invariant
                xs == it.seq(),
                g == f,
                forall|a: A| call_requires(f, (a,)),
                its == TryFuncMap::<A, B, TypeParam<0>>::items(self),
                its.len() == xs.len(),
                forall|i: int| 0 <= i < xs.len() ==> #[trigger] its[i] == xs[i],
                ys.len() == it.index(),
                forall|j: int| 0 <= j < it.index() ==> #[trigger] call_ensures(f, (xs[j],), Ok::<B, E>(ys[j])),
                key_obeys_cmp_spec::<B>() ==> forall|b: B| #[trigger] out@.contains(b) <==> exists|j: int| 0 <= j < it.index() && ys[j] == b,
        {
            let ghost n = it.index();
            match g(a) {
                Ok(b) => {
                    let ghost before = out@;
                    let ghost old_ys = ys;
                    out.insert(b);
                    proof {
                        ys = ys.push(b);
                        assert forall|j: int| 0 <= j < n + 1 implies #[trigger] call_ensures(f, (xs[j],), Ok::<B, E>(ys[j])) by {
                            if j < n {
                                assert(old_ys[j] == ys[j]);
                            }
                        }
                        if key_obeys_cmp_spec::<B>() {
                            assert forall|b2: B| #[trigger] out@.contains(b2) <==> exists|j: int| 0 <= j < n + 1 && ys[j] == b2 by {
                                if out@.contains(b2) && b2 != ys[n] {
                                    assert(before.contains(b2));
                                    let j = choose|j: int| 0 <= j < n && old_ys[j] == b2;
                                    assert(ys[j] == b2);
                                }
                                if exists|j: int| 0 <= j < n + 1 && ys[j] == b2 {
                                    let j = choose|j: int| 0 <= j < n + 1 && ys[j] == b2;
                                    if j < n {
                                        assert(old_ys[j] == b2);
                                    }
                                }
                            }
                        }
                    }
                },
                Err(err) => {
                    proof {
                        assert forall|j: int| 0 <= j < ys.len() implies #[trigger] outcome_of(f)(its[j], Ok(ys[j])) by {
                            assert(call_ensures(f, (xs[j],), Ok::<B, E>(ys[j])));
                        }
                        lemma_first_error_at(its, outcome_of(f), ys, err);
                    }
                    return Err(err);
                },
            }
        }
        proof {
            reveal(keys_reach);
            reveal(keys_come_from);
            reveal(items_reach);
            reveal(items_come_from);
            if key_obeys_cmp_spec::<A>() && key_obeys_cmp_spec::<B>() {
                assert forall|a: A| #[trigger] s.contains(a) implies exists|b: B| out@.contains(b) && call_ensures(f, (a,), Ok::<B, E>(b)) by {
                    let i = choose|i: int| 0 <= i < xs.len() && xs[i] == a;
                    assert(out@.contains(ys[i]));
                }
                assert forall|b: B| #[trigger] out@.contains(b) implies exists|a: A| s.contains(a) && call_ensures(f, (a,), Ok::<B, E>(b)) by {
                    let j = choose|j: int| 0 <= j < xs.len() && ys[j] == b;
                    assert(s.contains(xs[j]));
                }
            }
        }
        Ok(out)
    }
}

} // verus!
