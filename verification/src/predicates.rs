//! Sets of bounds and of `where` predicates that keep the order in which
//! they were first added and never hold the same bound or predicate twice.
use vstd::prelude::*;

use proc_macro2::TokenStream;

use crate::diagnostic::new_spanned_syn_error;
use crate::generics::{names_v, WherePred, WherePredV};
use crate::result::DeriveError;
use crate::syntax::{
    bound_same, bounds_v, clone_tokens, copy_bound, opt_text, opt_tokens_same, ty_same, Name, Ty,
    TyV, TypeBound, TypeBoundV,
};

verus! {

/// `s` with `x` appended unless `s` already holds it.
pub open spec fn add_unique<T>(s: Seq<T>, x: T) -> Seq<T> {
    if s.contains(x) {
        s
    } else {
        s.push(x)
    }
}

/// `s` with each of `xs` added in turn by [`add_unique`].
pub open spec fn add_all_unique<T>(s: Seq<T>, xs: Seq<T>) -> Seq<T>
    decreases xs.len(),
{
    if xs.len() == 0 {
        s
    } else {
        add_unique(add_all_unique(s, xs.drop_last()), xs.last())
    }
}

/// No element occurs twice in `s`.
pub open spec fn distinct<T>(s: Seq<T>) -> bool {
    forall|i: int, j: int| 0 <= i < j < s.len() ==> s[i] != s[j]
}

/// A set of type bounds, in the order in which they were first added.
#[derive(Debug)]
pub struct UniqueTypeBounds {
    bounds: Vec<TypeBound>,
}

impl View for UniqueTypeBounds {
    type V = Seq<TypeBoundV>;

    closed spec fn view(&self) -> Seq<TypeBoundV> {
        bounds_v(self.bounds@)
    }
}

impl UniqueTypeBounds {
    /// Creates an empty set of bounds.
    pub fn new() -> (set: UniqueTypeBounds)
        ensures
            set@ == Seq::<TypeBoundV>::empty(),
    {
        let set = UniqueTypeBounds { bounds: Vec::new() };
        assert(set@ =~= Seq::<TypeBoundV>::empty());
        set
    }

    /// Adds `bound` unless the set holds the same bound already (spans
    /// aside).
    pub fn add(&mut self, bound: TypeBound)
        ensures
            final(self)@ == add_unique(old(self)@, bound@),
    {
        let ghost before = self@;
        let mut i: usize = 0;
        while i < self.bounds.len()
            invariant
                i <= self.bounds.len(),
                self@ == before,
                forall|j: int| 0 <= j < i ==> before[j] != bound@,
            decreases self.bounds.len() - i,
        {
            if bound_same(&self.bounds[i], &bound) {
                assert(before[i as int] == bound@);
                return;
            }
            i += 1;
        }
        assert(!before.contains(bound@));
        self.bounds.push(bound);
        assert(self@ =~= before.push(bound@));
    }

    /// Adds each of `bounds` in turn.
    pub fn extend(&mut self, bounds: Vec<TypeBound>)
        ensures
            final(self)@ == add_all_unique(old(self)@, bounds_v(bounds@)),
    {
        let ghost before = self@;
        let ghost xs = bounds@;
        for b in it: bounds
            invariant
                xs == it.seq(),
                self@ == add_all_unique(before, bounds_v(xs.take(it.index() as int))),
        {
            let ghost i = it.index() as int;
            proof {
                assert(bounds_v(xs.take(i + 1)).drop_last() =~= bounds_v(xs.take(i)));
                assert(xs[i] == b);
            }
            self.add(b);
        }
        proof {
            assert(xs.take(xs.len() as int) =~= xs);
        }
    }

    /// The bounds, in the order in which they were first added.
    pub fn into_bounds(self) -> (bounds: Vec<TypeBound>)
        ensures
            bounds_v(bounds@) == self@,
    {
        self.bounds
    }
}

/// An entry of a set of type predicates: the left-hand side and its bounds.
pub struct TypeEntryV {
    pub lifetimes: Option<Seq<char>>,
    pub bounded_ty: TyV,
    pub bounds: Seq<TypeBoundV>,
}

/// An entry of a set of lifetime predicates: the lifetime and its bounds.
pub struct LifetimeEntryV {
    pub lifetime: Seq<char>,
    pub bounds: Seq<Seq<char>>,
}

/// The view of a set of predicates: type predicates and lifetime
/// predicates, each keyed by its left-hand side, in order of first addition.
pub struct PredicatesV {
    pub types: Seq<TypeEntryV>,
    pub lifetimes: Seq<LifetimeEntryV>,
}

#[derive(Debug)]
struct TypeEntry {
    lifetimes: Option<TokenStream>,
    bounded_ty: Ty,
    bounds: UniqueTypeBounds,
}

#[derive(Debug)]
struct LifetimeEntry {
    lifetime: Name,
    bounds: Vec<Name>,
}

/// A set of type and lifetime predicates.
///
/// Predicates with the same left-hand side are merged into one, whose bounds
/// are those of all of them, each once; the same comparison applies to
/// left-hand sides and bounds: spans aside.
#[derive(Debug)]
pub struct UniquePredicates {
    types: Vec<TypeEntry>,
    lifetimes: Vec<LifetimeEntry>,
}

spec fn type_entry_v(e: TypeEntry) -> TypeEntryV {
    TypeEntryV { lifetimes: opt_text(e.lifetimes), bounded_ty: e.bounded_ty@, bounds: e.bounds@ }
}

spec fn lifetime_entry_v(e: LifetimeEntry) -> LifetimeEntryV {
    LifetimeEntryV { lifetime: e.lifetime@, bounds: names_v(e.bounds@) }
}

impl View for UniquePredicates {
    type V = PredicatesV;

    closed spec fn view(&self) -> PredicatesV {
        PredicatesV {
            types: self.types@.map_values(|e: TypeEntry| type_entry_v(e)),
            lifetimes: self.lifetimes@.map_values(|e: LifetimeEntry| lifetime_entry_v(e)),
        }
    }
}

/// The type entries have distinct left-hand sides and the lifetime entries
/// distinct lifetimes.
pub open spec fn keys_distinct(p: PredicatesV) -> bool {
    &&& forall|i: int, j: int| 0 <= i < j < p.types.len() ==> !(#[trigger] p.types[i].lifetimes == #[trigger] p.types[j].lifetimes
        && p.types[i].bounded_ty == p.types[j].bounded_ty)
    &&& forall|i: int, j: int| 0 <= i < j < p.lifetimes.len() ==> #[trigger] p.lifetimes[i].lifetime != #[trigger] p.lifetimes[j].lifetime
}

/// `types` with the bounds of the type predicate `for<lifetimes> ty:
/// bounds` merged in.
pub open spec fn add_type_entry(
    types: Seq<TypeEntryV>,
    lifetimes: Option<Seq<char>>,
    ty: TyV,
    bounds: Seq<TypeBoundV>,
) -> Seq<TypeEntryV> {
    if exists|i: int| 0 <= i < types.len() && types[i].lifetimes == lifetimes && types[i].bounded_ty == ty {
        let i = choose|i: int| 0 <= i < types.len() && types[i].lifetimes == lifetimes && types[i].bounded_ty == ty;
        types.update(i, TypeEntryV { bounds: add_all_unique(types[i].bounds, bounds), ..types[i] })
    } else {
        types.push(TypeEntryV { lifetimes, bounded_ty: ty, bounds: add_all_unique(Seq::empty(), bounds) })
    }
}

/// `lifetimes` with the bounds of the lifetime predicate `lifetime: bounds`
/// merged in.
pub open spec fn add_lifetime_entry(
    lifetimes: Seq<LifetimeEntryV>,
    lifetime: Seq<char>,
    bounds: Seq<Seq<char>>,
) -> Seq<LifetimeEntryV> {
    if exists|i: int| 0 <= i < lifetimes.len() && lifetimes[i].lifetime == lifetime {
        let i = choose|i: int| 0 <= i < lifetimes.len() && lifetimes[i].lifetime == lifetime;
        lifetimes.update(i, LifetimeEntryV { bounds: add_all_unique(lifetimes[i].bounds, bounds), ..lifetimes[i] })
    } else {
        lifetimes.push(LifetimeEntryV { lifetime, bounds: add_all_unique(Seq::empty(), bounds) })
    }
}

/// `p` with the predicate `pred` merged in; an equality predicate changes
/// nothing.
pub open spec fn add_predicate(p: PredicatesV, pred: WherePredV) -> PredicatesV {
    match pred {
        WherePredV::Type { lifetimes, bounded_ty, bounds } => PredicatesV {
            types: add_type_entry(p.types, lifetimes, bounded_ty, bounds),
            ..p
        },
        WherePredV::Lifetime { lifetime, bounds } => PredicatesV {
            lifetimes: add_lifetime_entry(p.lifetimes, lifetime, bounds),
            ..p
        },
        WherePredV::Eq => p,
    }
}

/// `p` with each of `preds` merged in turn.
pub open spec fn add_predicates(p: PredicatesV, preds: Seq<WherePredV>) -> PredicatesV
    decreases preds.len(),
{
    if preds.len() == 0 {
        p
    } else {
        add_predicate(add_predicates(p, preds.drop_last()), preds.last())
    }
}

/// The empty set of predicates.
pub open spec fn no_predicates() -> PredicatesV {
    PredicatesV { types: Seq::empty(), lifetimes: Seq::empty() }
}

/// The message of the error for an equality predicate.
pub open spec fn eq_predicate_message() -> Seq<char> {
    "equality constraints in `where` clauses are not supported"@
}

/// The predicates of the lifetime entries `es` that have bounds, in order.
pub open spec fn lifetime_predicates(es: Seq<LifetimeEntryV>) -> Seq<WherePredV>
    decreases es.len(),
{
    if es.len() == 0 {
        Seq::empty()
    } else {
        let rest = lifetime_predicates(es.drop_last());
        let e = es.last();
        if e.bounds.len() > 0 {
            rest.push(WherePredV::Lifetime { lifetime: e.lifetime, bounds: e.bounds })
        } else {
            rest
        }
    }
}

/// The predicates of the type entries `es` that have bounds, in order.
pub open spec fn type_predicates(es: Seq<TypeEntryV>) -> Seq<WherePredV>
    decreases es.len(),
{
    if es.len() == 0 {
        Seq::empty()
    } else {
        let rest = type_predicates(es.drop_last());
        let e = es.last();
        if e.bounds.len() > 0 {
            rest.push(WherePredV::Type { lifetimes: e.lifetimes, bounded_ty: e.bounded_ty, bounds: e.bounds })
        } else {
            rest
        }
    }
}

/// The predicates of `p`: lifetime predicates first, then type predicates,
/// each in order of first addition, leaving out those without bounds.
pub open spec fn predicates_of(p: PredicatesV) -> Seq<WherePredV> {
    lifetime_predicates(p.lifetimes) + type_predicates(p.types)
}


/// Adds `name` to `names` unless a name with the same text is there.
fn add_name(names: &mut Vec<Name>, name: Name)
    ensures
        names_v(final(names)@) == add_unique(names_v(old(names)@), name@),
{
    let ghost before = names_v(names@);
    let mut i: usize = 0;
    while i < names.len()
        invariant
            i <= names.len(),
            names_v(names@) == before,
            forall|j: int| 0 <= j < i ==> before[j] != name@,
        decreases names.len() - i,
    {
        if names[i].text == name.text {
            assert(before[i as int] == name@);
            return;
        }
        i += 1;
    }
    assert(!before.contains(name@));
    names.push(name);
    assert(names_v(names@) =~= before.push(name@));
}

/// Adds each of `added` to `names` in turn.
fn add_names(names: &mut Vec<Name>, added: Vec<Name>)
    ensures
        names_v(final(names)@) == add_all_unique(names_v(old(names)@), names_v(added@)),
{
    let ghost before = names_v(names@);
    let ghost xs = added@;
    for n in it: added
        invariant
            xs == it.seq(),
            names_v(names@) == add_all_unique(before, names_v(xs.take(it.index() as int))),
    {
        let ghost i = it.index() as int;
        proof {
            assert(names_v(xs.take(i + 1)).drop_last() =~= names_v(xs.take(i)));
            assert(xs[i] == n);
        }
        add_name(names, n);
    }
    proof {
        assert(xs.take(xs.len() as int) =~= xs);
    }
}

impl UniquePredicates {
    /// Creates an empty set of predicates.
    pub fn new() -> (set: UniquePredicates)
        ensures
            set@ == no_predicates(),
            keys_distinct(set@),
    {
        let set = UniquePredicates { types: Vec::new(), lifetimes: Vec::new() };
        assert(set@.types =~= Seq::<TypeEntryV>::empty());
        assert(set@.lifetimes =~= Seq::<LifetimeEntryV>::empty());
        set
    }

    /// Adds the predicate `pred`, merging its bounds into those of a
    /// predicate with the same left-hand side.
    ///
    /// # Errors
    /// Fails, changing nothing, if `pred` is an equality predicate.
    pub fn add(&mut self, pred: WherePred) -> (res: Result<(), DeriveError>)
        requires
            keys_distinct(old(self)@),
        ensures
            keys_distinct(final(self)@),
            final(self)@ == add_predicate(old(self)@, pred@),
            res is Ok <==> !(pred@ is Eq),
            res matches Err(e) ==> e.messages() == seq![eq_predicate_message()],
    {
        let ghost before = self@;
        match pred {
            WherePred::Type { lifetimes, bounded_ty, bounds } => {
                let ghost key_l = opt_text(lifetimes);
                let ghost key_t = bounded_ty@;
                let mut i: usize = 0;
                #[verifier::loop_isolation(false)]
                while i < self.types.len()
                    invariant
                        i <= self.types.len(),
                        self@ == before,
                        keys_distinct(before),
                        key_l == opt_text(lifetimes),
                        key_t == bounded_ty@,
                        forall|j: int| 0 <= j < i ==> !(before.types[j].lifetimes == key_l && before.types[j].bounded_ty == key_t),
                    decreases self.types.len() - i,
                {
                    assert(before.types[i as int] == type_entry_v(self.types@[i as int]));
                    if opt_tokens_same(&self.types[i].lifetimes, &lifetimes) && ty_same(&self.types[i].bounded_ty, &bounded_ty) {
                        let ghost idx = i as int;
                        proof {
                            assert(before.types[idx].lifetimes == key_l && before.types[idx].bounded_ty == key_t);
                            let c = choose|k: int| 0 <= k < before.types.len() && before.types[k].lifetimes == key_l
                                && before.types[k].bounded_ty == key_t;
                            if c != idx {
                                assert(before.types[c].lifetimes == before.types[idx].lifetimes);
                                assert(before.types[c].bounded_ty == before.types[idx].bounded_ty);
                                assert(false);
                            }
                        }
                        self.types[i].bounds.extend(bounds);
                        assert(self@.types =~= add_type_entry(before.types, key_l, key_t, bounds_v(bounds@)));
                        assert(self@.lifetimes =~= before.lifetimes);
                        return Ok(());
                    }
                    i += 1;
                }
                let mut set = UniqueTypeBounds::new();
                set.extend(bounds);
                self.types.push(TypeEntry { lifetimes, bounded_ty, bounds: set });
                assert(self@.types =~= add_type_entry(before.types, key_l, key_t, bounds_v(bounds@)));
                assert(self@.lifetimes =~= before.lifetimes);
                Ok(())
            },
            WherePred::Lifetime { lifetime, bounds } => {
                let ghost key = lifetime@;
                let mut i: usize = 0;
                #[verifier::loop_isolation(false)]
                while i < self.lifetimes.len()
                    invariant
                        i <= self.lifetimes.len(),
                        self@ == before,
                        keys_distinct(before),
                        key == lifetime@,
                        forall|j: int| 0 <= j < i ==> before.lifetimes[j].lifetime != key,
                    decreases self.lifetimes.len() - i,
                {
                    assert(before.lifetimes[i as int] == lifetime_entry_v(self.lifetimes@[i as int]));
                    if self.lifetimes[i].lifetime.text == lifetime.text {
                        let ghost idx = i as int;
                        proof {
                            assert(before.lifetimes[idx].lifetime == key);
                            let c = choose|k: int| 0 <= k < before.lifetimes.len() && before.lifetimes[k].lifetime == key;
                            if c != idx {
                                assert(before.lifetimes[c].lifetime == before.lifetimes[idx].lifetime);
                                assert(false);
                            }
                        }
                        add_names(&mut self.lifetimes[i].bounds, bounds);
                        assert(self@.lifetimes =~= add_lifetime_entry(before.lifetimes, key, names_v(bounds@)));
                        assert(self@.types =~= before.types);
                        return Ok(());
                    }
                    i += 1;
                }
                let mut names: Vec<Name> = Vec::new();
                assert(names_v(names@) =~= Seq::<Seq<char>>::empty());
                add_names(&mut names, bounds);
                self.lifetimes.push(LifetimeEntry { lifetime, bounds: names });
                assert(self@.lifetimes =~= add_lifetime_entry(before.lifetimes, key, names_v(bounds@)));
                assert(self@.types =~= before.types);
                Ok(())
            },
            WherePred::Eq { eq_token } => {
                let err = new_spanned_syn_error(&eq_token, "equality constraints in `where` clauses are not supported");
                proof {
                    reveal_strlit("equality constraints in `where` clauses are not supported");
                }
                Err(DeriveError::from(err))
            },
        }
    }

    /// The predicates: lifetime predicates first, then type predicates, each
    /// in order of first addition; left-hand sides without bounds are left
    /// out.
    pub fn into_predicates(self) -> (preds: Vec<WherePred>)
        ensures
            preds@.map_values(|p: WherePred| p@) == predicates_of(self@),
    {
        let ghost me = self@;
        let mut preds: Vec<WherePred> = Vec::new();
        let ghost ls = self.lifetimes@;
        for e in it: self.lifetimes
            invariant
                ls == it.seq(),
                me.lifetimes == ls.map_values(|e: LifetimeEntry| lifetime_entry_v(e)),
                preds@.map_values(|p: WherePred| p@) == lifetime_predicates(me.lifetimes.take(it.index() as int)),
        {
            let ghost i = it.index() as int;
            let ghost before = preds@;
            proof {
                assert(me.lifetimes.take(i + 1).drop_last() =~= me.lifetimes.take(i));
                assert(me.lifetimes[i] == lifetime_entry_v(e));
            }
            if e.bounds.len() > 0 {
                preds.push(WherePred::Lifetime { lifetime: e.lifetime, bounds: e.bounds });
                assert(preds@.map_values(|p: WherePred| p@) =~= before.map_values(|p: WherePred| p@).push(
                    WherePredV::Lifetime { lifetime: me.lifetimes[i].lifetime, bounds: me.lifetimes[i].bounds },
                ));
            }
        }
        proof {
            assert(me.lifetimes.take(me.lifetimes.len() as int) =~= me.lifetimes);
        }
        let ghost lifetime_part = preds@.map_values(|p: WherePred| p@);
        let ghost ts = self.types@;
        for e in it: self.types
            invariant
                ts == it.seq(),
                me.types == ts.map_values(|e: TypeEntry| type_entry_v(e)),
                lifetime_part == lifetime_predicates(me.lifetimes),
                preds@.map_values(|p: WherePred| p@) == lifetime_part + type_predicates(me.types.take(it.index() as int)),
        {
            let ghost i = it.index() as int;
            let ghost before = preds@;
            proof {
                assert(me.types.take(i + 1).drop_last() =~= me.types.take(i));
                assert(me.types[i] == type_entry_v(e));
            }
            let bounds = e.bounds.into_bounds();
            if bounds.len() > 0 {
                preds.push(WherePred::Type { lifetimes: e.lifetimes, bounded_ty: e.bounded_ty, bounds });
                assert(preds@.map_values(|p: WherePred| p@) =~= before.map_values(|p: WherePred| p@).push(
                    WherePredV::Type {
                        lifetimes: me.types[i].lifetimes,
                        bounded_ty: me.types[i].bounded_ty,
                        bounds: me.types[i].bounds,
                    },
                ));
            }
        }
        proof {
            assert(me.types.take(me.types.len() as int) =~= me.types);
        }
        preds
    }
}


/// Adding two lists one after the other adds their concatenation.
pub proof fn lemma_add_all_unique_concat<T>(s: Seq<T>, a: Seq<T>, b: Seq<T>)
    ensures
        add_all_unique(add_all_unique(s, a), b) == add_all_unique(s, a + b),
    decreases b.len(),
{
    if b.len() == 0 {
        assert(a + b =~= a);
    } else {
        lemma_add_all_unique_concat(s, a, b.drop_last());
        assert((a + b).drop_last() =~= a + b.drop_last());
        assert((a + b).last() == b.last());
    }
}

} // verus!
