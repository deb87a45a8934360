//! The core derive logic: from the prepared input to the implementations of
//! `FuncMap` or `TryFuncMap`, one per mapped type parameter.
use vstd::prelude::*;

use crate::generics::{
    ident_ty, into_type, param_arg, subst_pred, without_attrs_v, without_default_v, without_maybe,
    without_maybe_bounds, GenParam, GenericParamV, WherePred, WherePredV,
};
use crate::input::{params_v, preds_v, MappedTypeParam, MappedTypeParamV};
use crate::predicates::{
    add_all_unique, add_predicate, add_unique, eq_predicate_message, keys_distinct,
    lemma_add_all_unique_concat, PredicatesV, UniquePredicates, UniqueTypeBounds,
};
use crate::ident_collector::{decimal, push_decimal};
use crate::input::{fieldish_v, opt_name_v, structish_v, Fieldish, Structish, StructishV, FieldishV};
use crate::map::{map_v, MapExpr, MapExprV, MapOutcome, Mapping, MappingV};
use crate::predicates::{add_predicates, no_predicates, predicates_of};
use crate::derivable::Derivable;
use crate::ident_collector::{fresh_name, lemma_fresh_name};
use crate::input::{input_errors, input_read, prepared, ParsedItem, ParsedItemV, FuncMapInput, FuncMapInputV};
use crate::opts::{attrs_fit, opts_of, LexOutcome};
use crate::parse::{parse_derive_input, parsed_item};
use proc_macro2::TokenStream;
use crate::result::{Builder, DeriveError};
use crate::syntax::{PathV, TyPath};
use crate::syntax::{
    bounds_v, copy_bound, gen_arg_v, subs_bound, subst_bound, ty_same, GenArg, GenArgV, Name, TypeBound,
    TypeBoundV,
};

verus! {

/// The bounds `bounds` with the type `from` renamed to each of `subs` in
/// turn in every trait bound; other bounds are kept as they are.
pub open spec fn expanded_bounds(bounds: Seq<TypeBoundV>, from: Seq<char>, subs: Seq<Seq<char>>) -> Seq<TypeBoundV>
    decreases bounds.len(),
{
    if bounds.len() == 0 {
        Seq::empty()
    } else {
        expanded_bounds(bounds.drop_last(), from, subs) + match bounds.last() {
            TypeBoundV::Trait { .. } => Seq::new(subs.len(), |i: int| subst_bound(bounds.last(), from, subs[i])),
            b => seq![b],
        }
    }
}

/// [`expanded_bounds`] without duplicates, in order of first occurrence.
pub open spec fn subs_in_bounds_v(bounds: Seq<TypeBoundV>, from: Seq<char>, subs: Seq<Seq<char>>) -> Seq<TypeBoundV> {
    add_all_unique(Seq::empty(), expanded_bounds(bounds, from, subs))
}

/// Substitutes the type named `type_ident` with each of `subs_idents` within
/// each of `bounds`, returning the bounds without duplicates.
pub fn subs_type_in_bounds(bounds: &Vec<TypeBound>, type_ident: &String, subs_idents: &Vec<Name>) -> (subs: Vec<TypeBound>)
    ensures
        bounds_v(subs@) == subs_in_bounds_v(bounds_v(bounds@), type_ident@, crate::generics::names_v(subs_idents@)),
{
    let ghost bv = bounds_v(bounds@);
    let ghost sv = crate::generics::names_v(subs_idents@);
    let mut unique = UniqueTypeBounds::new();
    let mut i: usize = 0;
    while i < bounds.len()
        invariant
            i <= bounds.len(),
            bv == bounds_v(bounds@),
            sv == crate::generics::names_v(subs_idents@),
            unique@ == add_all_unique(Seq::empty(), expanded_bounds(bv.take(i as int), type_ident@, sv)),
        decreases bounds.len() - i,
    {
        let ghost done = expanded_bounds(bv.take(i as int), type_ident@, sv);
        proof {
            assert(bv.take(i + 1).drop_last() =~= bv.take(i as int));
            assert(bv.take(i + 1).last() == bv[i as int]);
        }
        match &bounds[i] {
            TypeBound::Trait { .. } => {
                let ghost b = bv[i as int];
                let mut j: usize = 0;
                while j < subs_idents.len()
                    invariant
                        j <= subs_idents.len(),
                        i < bounds.len(),
                        sv == crate::generics::names_v(subs_idents@),
                        b == bounds@[i as int]@,
                        unique@ == add_all_unique(
                            add_all_unique(Seq::empty(), done),
                            Seq::new(j as nat, |k: int| subst_bound(b, type_ident@, sv[k])),
                        ),
                    decreases subs_idents.len() - j,
                {
                    let ghost before = Seq::new(j as nat, |k: int| subst_bound(b, type_ident@, sv[k]));
                    unique.add(subs_bound(&bounds[i], type_ident, &subs_idents[j]));
                    proof {
                        let after = Seq::new((j + 1) as nat, |k: int| subst_bound(b, type_ident@, sv[k]));
                        assert(after.drop_last() =~= before);
                    }
                    j += 1;
                }
                proof {
                    let added = Seq::new(sv.len(), |k: int| subst_bound(b, type_ident@, sv[k]));
                    assert(unique@ == add_all_unique(add_all_unique(Seq::empty(), done), added));
                    assert(Seq::new(j as nat, |k: int| subst_bound(b, type_ident@, sv[k])) =~= added);
                    lemma_add_all_unique_concat(Seq::empty(), done, added);
                    assert(expanded_bounds(bv.take(i + 1), type_ident@, sv) =~= done + added);
                }
            },
            TypeBound::Other(_) => {
                let ghost b = bv[i as int];
                unique.add(copy_bound(&bounds[i]));
                proof {
                    assert(seq![b].drop_last() =~= Seq::<TypeBoundV>::empty());
                    let prev = add_all_unique(Seq::<TypeBoundV>::empty(), done);
                    assert(add_all_unique(prev, Seq::<TypeBoundV>::empty()) == prev);
                    assert(add_all_unique(prev, seq![b]) == add_unique(prev, b));
                    lemma_add_all_unique_concat(Seq::empty(), done, seq![b]);
                    assert(expanded_bounds(bv.take(i + 1), type_ident@, sv) =~= done + seq![b]);
                }
            },
        }
        assert(unique@ == add_all_unique(Seq::empty(), expanded_bounds(bv.take(i + 1), type_ident@, sv)));
        i += 1;
    }
    proof {
        assert(bv.take(i as int) =~= bv);
    }
    unique.into_bounds()
}

/// The type parameter that takes the place of the mapped parameter `mp`
/// under the name `name`: its bounds renamed, without maybe bounds.
pub open spec fn mapped_param_v(mp: MappedTypeParamV, name: Seq<char>) -> GenericParamV {
    GenericParamV::Type {
        attrs: Seq::empty(),
        ident: name,
        bounds: without_maybe(subs_in_bounds_v(mp.bounds, mp.ident, seq![name])),
        default: None,
    }
}

/// The parameters of an implementation that stand for the parameter `p` of
/// the type: the mapped parameter is replaced by the source and the
/// destination type parameters; other type parameters keep their bounds,
/// with the mapped parameter renamed to both; all lose attributes and
/// defaults.
pub open spec fn impl_param_v(p: GenericParamV, is_mapped: bool, mp: MappedTypeParamV, src: Seq<char>, dst: Seq<char>) -> Seq<GenericParamV> {
    if is_mapped {
        seq![mapped_param_v(mp, src), mapped_param_v(mp, dst)]
    } else {
        seq![match p {
            GenericParamV::Type { attrs, ident, bounds, default } => GenericParamV::Type {
                attrs: Seq::empty(),
                ident,
                bounds: subs_in_bounds_v(bounds, mp.ident, seq![src, dst]),
                default: None,
            },
            GenericParamV::Const { .. } => without_default_v(without_attrs_v(p)),
            GenericParamV::Lifetime { .. } => without_attrs_v(p),
        }]
    }
}

/// The parameters of the implementation for the mapped parameter `mp`.
pub open spec fn impl_params_v(params: Seq<GenericParamV>, mp: MappedTypeParamV, src: Seq<char>, dst: Seq<char>) -> Seq<GenericParamV>
    decreases params.len(),
{
    if params.len() == 0 {
        Seq::empty()
    } else {
        impl_params_v(params.drop_last(), mp, src, dst) + impl_param_v(
            params.last(),
            params.len() - 1 == mp.param_idx,
            mp,
            src,
            dst,
        )
    }
}

/// The arguments naming the parameters `params`, with the mapped parameter
/// replaced by the type `name`.
pub open spec fn type_args_v(params: Seq<GenericParamV>, mp: MappedTypeParamV, name: Seq<char>) -> Seq<GenArgV> {
    Seq::new(
        params.len(),
        |i: int| if i == mp.param_idx { GenArgV::Type(ident_ty(name)) } else { param_arg(params[i]) },
    )
}

/// The parameter standing for the mapped parameter `mp` under `name`.
fn mapped_param(mp: &MappedTypeParam, name: &Name) -> (p: GenParam)
    ensures
        p@ == mapped_param_v(mp@, name@),
{
    let mut subs: Vec<Name> = Vec::new();
    subs.push(name.copy());
    proof {
        assert(crate::generics::names_v(subs@) =~= seq![name@]);
    }
    let bounds = without_maybe_bounds(subs_type_in_bounds(&mp.bounds, &mp.ident.text, &subs));
    let none: Vec<proc_macro2::TokenStream> = Vec::new();
    assert(crate::generics::texts_v(none@) =~= Seq::empty());
    GenParam::Type { attrs: none, ident: name.copy(), bounds, default: None }
}

/// The parameters of the implementation for the mapped parameter `mp`.
pub fn impl_params(params: &Vec<GenParam>, mp: &MappedTypeParam, src: &Name, dst: &Name) -> (ps: Vec<GenParam>)
    ensures
        params_v(ps@) == impl_params_v(params_v(params@), mp@, src@, dst@),
{
    let ghost pv = params_v(params@);
    let mut out: Vec<GenParam> = Vec::new();
    let mut i: usize = 0;
    while i < params.len()
        invariant
            i <= params.len(),
            pv == params_v(params@),
            params_v(out@) == impl_params_v(pv.take(i as int), mp@, src@, dst@),
        decreases params.len() - i,
    {
        let ghost before = params_v(out@);
        proof {
            assert(pv.take(i + 1).drop_last() =~= pv.take(i as int));
            assert(pv.take(i + 1).last() == pv[i as int]);
            assert(pv[i as int] == params@[i as int]@);
        }
        if i == mp.param_idx {
            let a = mapped_param(mp, src);
            let b = mapped_param(mp, dst);
            let ghost (av, bv) = (a@, b@);
            out.push(a);
            out.push(b);
            assert(params_v(out@) =~= before + seq![av, bv]);
        } else {
            let p = match &params[i] {
                GenParam::Type { attrs, ident, bounds, default } => {
                    let mut subs: Vec<Name> = Vec::new();
                    subs.push(src.copy());
                    subs.push(dst.copy());
                    proof {
                        assert(crate::generics::names_v(subs@) =~= seq![src@, dst@]);
                    }
                    let none: Vec<proc_macro2::TokenStream> = Vec::new();
                    assert(crate::generics::texts_v(none@) =~= Seq::empty());
                    GenParam::Type {
                        attrs: none,
                        ident: ident.copy(),
                        bounds: subs_type_in_bounds(bounds, &mp.ident.text, &subs),
                        default: None,
                    }
                },
                GenParam::Const { .. } => params[i].copy().without_attrs().without_default(),
                GenParam::Lifetime { .. } => params[i].copy().without_attrs(),
            };
            let ghost v = p@;
            out.push(p);
            assert(params_v(out@) =~= before + seq![v]);
        }
        i += 1;
    }
    proof {
        assert(pv.take(i as int) =~= pv);
    }
    out
}

/// The arguments naming the parameters `params`, with the mapped parameter
/// replaced by the type `name`.
pub fn type_args(params: &Vec<GenParam>, mp: &MappedTypeParam, name: &Name) -> (args: Vec<GenArg>)
    ensures
        args@.map_values(|a: GenArg| gen_arg_v(a)) == type_args_v(params_v(params@), mp@, name@),
{
    let ghost pv = params_v(params@);
    let mut out: Vec<GenArg> = Vec::new();
    let mut i: usize = 0;
    while i < params.len()
        invariant
            i <= params.len(),
            pv == params_v(params@),
            out@.len() == i,
            forall|k: int| 0 <= k < i ==> #[trigger] gen_arg_v(out@[k]) == type_args_v(pv, mp@, name@)[k],
        decreases params.len() - i,
    {
        if i == mp.param_idx {
            out.push(GenArg::Type(into_type(name.copy())));
        } else {
            assert(pv[i as int] == params@[i as int]@);
            out.push(params[i].copy().into_generic_argument());
        }
        i += 1;
    }
    assert(out@.map_values(|a: GenArg| gen_arg_v(a)) =~= type_args_v(pv, mp@, name@));
    out
}


// ---------------------------------------------------------------------------
// The predicates and match arms of an implementation

/// What building an implementation has gathered so far: the predicates of
/// its `where` clause and the messages of the errors.
pub struct ImplAcc {
    pub preds: PredicatesV,
    pub errors: Seq<Seq<char>>,
}

/// `acc` with the predicate `p` added; an equality predicate is refused
/// with an error.
pub open spec fn add_reporting(acc: ImplAcc, p: WherePredV) -> ImplAcc {
    ImplAcc {
        preds: add_predicate(acc.preds, p),
        errors: if p is Eq { acc.errors.push(eq_predicate_message()) } else { acc.errors },
    }
}

/// `acc` with each of `ps` added in turn by [`add_reporting`].
pub open spec fn add_all_reporting(acc: ImplAcc, ps: Seq<WherePredV>) -> ImplAcc
    decreases ps.len(),
{
    if ps.len() == 0 {
        acc
    } else {
        add_reporting(add_all_reporting(acc, ps.drop_last()), ps.last())
    }
}

/// The predicate `p` of the `where` clause as the implementation for `mp`
/// takes it over: a predicate bounding the mapped parameter itself loses its
/// maybe bounds.
pub open spec fn adjust_pred(p: WherePredV, mp: MappedTypeParamV) -> WherePredV {
    match p {
        WherePredV::Type { lifetimes, bounded_ty, bounds } => if bounded_ty == ident_ty(mp.ident) {
            WherePredV::Type { lifetimes, bounded_ty, bounds: without_maybe(bounds) }
        } else {
            p
        },
        _ => p,
    }
}

/// `acc` with the predicates `preds` of the `where` clause added, each with
/// the mapped parameter renamed to the source type and then to the
/// destination type.
pub open spec fn where_acc(acc: ImplAcc, preds: Seq<WherePredV>, mp: MappedTypeParamV, src: Seq<char>, dst: Seq<char>) -> ImplAcc
    decreases preds.len(),
{
    if preds.len() == 0 {
        acc
    } else {
        let a = where_acc(acc, preds.drop_last(), mp, src, dst);
        let q = adjust_pred(preds.last(), mp);
        add_reporting(add_reporting(a, subst_pred(q, mp.ident, src)), subst_pred(q, mp.ident, dst))
    }
}

/// The predicates of an optional `where` clause.
pub open spec fn where_preds(w: Option<Seq<WherePredV>>) -> Seq<WherePredV> {
    match w {
        Some(ps) => ps,
        None => Seq::empty(),
    }
}

/// Adds `pred` to `unique`, recording an error in `builder` if it is
/// refused.
fn add_reporting_exec(unique: &mut UniquePredicates, builder: &mut Builder, pred: WherePred)
    requires
        keys_distinct(old(unique)@),
        old(builder).has_error() == (old(builder).messages().len() > 0),
    ensures
        keys_distinct(final(unique)@),
        final(builder).has_error() == (final(builder).messages().len() > 0),
        (ImplAcc { preds: final(unique)@, errors: final(builder).messages() }) == add_reporting(
            ImplAcc { preds: old(unique)@, errors: old(builder).messages() },
            pred@,
        ),
{
    let ghost pv = pred@;
    match unique.add(pred) {
        Ok(()) => {},
        Err(e) => {
            builder.add_error(e);
            assert(builder.messages() =~= old(builder).messages().push(eq_predicate_message()));
        },
    }
}

/// Adds the predicates of the `where` clause for the implementation for
/// `mp`.
fn add_where_predicates(
    unique: &mut UniquePredicates,
    builder: &mut Builder,
    where_clause: &Option<Vec<WherePred>>,
    mp: &MappedTypeParam,
    src: &Name,
    dst: &Name,
)
    requires
        keys_distinct(old(unique)@),
        old(builder).has_error() == (old(builder).messages().len() > 0),
    ensures
        keys_distinct(final(unique)@),
        final(builder).has_error() == (final(builder).messages().len() > 0),
        (ImplAcc { preds: final(unique)@, errors: final(builder).messages() }) == where_acc(
            ImplAcc { preds: old(unique)@, errors: old(builder).messages() },
            where_preds(match *where_clause {
                Some(w) => Some(preds_v(w@)),
                None => None,
            }),
            mp@,
            src@,
            dst@,
        ),
{
    let ghost acc0 = ImplAcc { preds: unique@, errors: builder.messages() };
    match where_clause {
        None => {},
        Some(preds) => {
            let ghost pv = preds_v(preds@);
            let mut i: usize = 0;
            while i < preds.len()
                invariant
                    i <= preds.len(),
                    pv == preds_v(preds@),
                    keys_distinct(unique@),
                    builder.has_error() == (builder.messages().len() > 0),
                    (ImplAcc { preds: unique@, errors: builder.messages() }) == where_acc(acc0, pv.take(i as int), mp@, src@, dst@),
                decreases preds.len() - i,
            {
                proof {
                    assert(pv.take(i + 1).drop_last() =~= pv.take(i as int));
                    assert(pv.take(i + 1).last() == preds@[i as int]@);
                }
                let param_ty = into_type(mp.ident.copy());
                let q = match &preds[i] {
                    WherePred::Type { bounded_ty, .. } => {
                        if ty_same(bounded_ty, &param_ty) {
                            preds[i].copy().without_maybe_bounds()
                        } else {
                            preds[i].copy()
                        }
                    },
                    _ => preds[i].copy(),
                };
                assert(q@ == adjust_pred(preds@[i as int]@, mp@));
                let for_src = q.subs_type(&mp.ident.text, src);
                let for_dst = q.subs_type(&mp.ident.text, dst);
                add_reporting_exec(unique, builder, for_src);
                add_reporting_exec(unique, builder, for_dst);
                i += 1;
            }
            proof {
                assert(pv.take(i as int) =~= pv);
            }
        },
    }
}


/// How a field is named in a pattern or a struct expression.
#[derive(Debug)]
pub enum Member {
    Named(Name),
    Unnamed(usize),
}

/// The view of a member.
pub enum MemberV {
    Named(Seq<char>),
    Unnamed(usize),
}

/// A field of a match arm: its member, the identifier to which the pattern
/// binds it, and the expression that maps it.
#[derive(Debug)]
pub struct ArmField {
    pub member: Member,
    pub binding: Name,
    pub expr: MapExpr,
}

/// The view of a field of a match arm.
pub struct ArmFieldV {
    pub member: MemberV,
    pub binding: Seq<char>,
    pub expr: MapExprV,
}

/// A match arm of the mapping method: the variant (none for a struct) and
/// its fields, which the arm maps into the same variant of the output.
#[derive(Debug)]
pub struct Arm {
    pub variant_ident: Option<Name>,
    pub fields: Vec<ArmField>,
}

/// The view of a match arm.
pub struct ArmV {
    pub variant_ident: Option<Seq<char>>,
    pub fields: Seq<ArmFieldV>,
}

pub open spec fn member_v(m: Member) -> MemberV {
    match m {
        Member::Named(n) => MemberV::Named(n@),
        Member::Unnamed(i) => MemberV::Unnamed(i),
    }
}

pub open spec fn arm_field_v(f: ArmField) -> ArmFieldV {
    ArmFieldV { member: member_v(f.member), binding: f.binding@, expr: f.expr@ }
}

pub open spec fn arm_v(a: Arm) -> ArmV {
    ArmV {
        variant_ident: opt_name_v(a.variant_ident),
        fields: a.fields@.map_values(|f: ArmField| arm_field_v(f)),
    }
}

/// The identifier to which the pattern binds the field with the given
/// identifier, or with the given index if it has none.
pub open spec fn binding_text(ident: Option<Seq<char>>, idx: int) -> Seq<char> {
    match ident {
        Some(n) => "field_"@ + unraw(n),
        None => "field_"@ + decimal(idx as nat),
    }
}

/// The identifier `n` without the `r#` prefix of a raw identifier.
pub open spec fn unraw(n: Seq<char>) -> Seq<char> {
    if n.len() >= 2 && n[0] == 'r' && n[1] == '#' {
        n.skip(2)
    } else {
        n
    }
}

/// The member naming the field with the given identifier, or with the given
/// index if it has none.
pub open spec fn field_member(ident: Option<Seq<char>>, idx: int) -> MemberV {
    match ident {
        Some(n) => MemberV::Named(n),
        None => MemberV::Unnamed(idx as usize),
    }
}

/// `acc` with the predicates `ps` added in turn as a [`UniquePredicates`]
/// hands them out.
pub open spec fn add_mapped(acc: ImplAcc, preds: Seq<WherePredV>) -> ImplAcc {
    add_all_reporting(acc, predicates_of(add_predicates(no_predicates(), preds)))
}

/// `acc` after mapping the fields `fields` by the mapping `m`, with the
/// fields of the arm: each field that can be mapped adds its predicates and
/// its arm field, each other one an error.
pub open spec fn fields_acc(acc: ImplAcc, m: MappingV, fields: Seq<FieldishV>) -> (ImplAcc, Seq<ArmFieldV>)
    decreases fields.len(),
{
    if fields.len() == 0 {
        (acc, Seq::empty())
    } else {
        let (a, fs) = fields_acc(acc, m, fields.drop_last());
        let idx = fields.len() - 1;
        let f = fields.last();
        match map_v(m, MapExprV::Binding(idx as usize), f.ty) {
            MapOutcome::Done { expr, preds } => (
                add_mapped(a, preds),
                fs.push(ArmFieldV { member: field_member(f.ident, idx), binding: binding_text(f.ident, idx), expr }),
            ),
            MapOutcome::Refused { message } => (ImplAcc { errors: a.errors.push(message), ..a }, fs),
        }
    }
}

/// `acc` after mapping the fields of the variants `variants`, with the arms.
pub open spec fn arms_acc(acc: ImplAcc, m: MappingV, variants: Seq<StructishV>) -> (ImplAcc, Seq<ArmV>)
    decreases variants.len(),
{
    if variants.len() == 0 {
        (acc, Seq::empty())
    } else {
        let (a, arms) = arms_acc(acc, m, variants.drop_last());
        let (b, fs) = fields_acc(a, m, variants.last().fields);
        (b, arms.push(ArmV { variant_ident: variants.last().variant_ident, fields: fs }))
    }
}

/// The identifier to which the pattern binds a field.
fn binding_name(ident: &Option<Name>, idx: usize, span: proc_macro2::Span) -> (name: Name)
    ensures
        name@ == binding_text(opt_name_v(*ident), idx as int),
{
    let mut text = "field_".to_owned();
    match ident {
        Some(n) => {
            let s = n.text.as_str();
            let len = s.unicode_len();
            if len >= 2 && s.get_char(0) == 'r' && s.get_char(1) == '#' {
                text.append(s.substring_char(2, len));
            } else {
                text.append(s);
            }
        },
        None => push_decimal(&mut text, idx),
    }
    proof {
        reveal_strlit("field_");
    }
    Name { text, span }
}

/// Adds each of `preds` to `unique`, recording errors in `builder`.
fn add_all_reporting_exec(unique: &mut UniquePredicates, builder: &mut Builder, preds: Vec<WherePred>)
    requires
        keys_distinct(old(unique)@),
        old(builder).has_error() == (old(builder).messages().len() > 0),
    ensures
        keys_distinct(final(unique)@),
        final(builder).has_error() == (final(builder).messages().len() > 0),
        (ImplAcc { preds: final(unique)@, errors: final(builder).messages() }) == add_all_reporting(
            ImplAcc { preds: old(unique)@, errors: old(builder).messages() },
            preds_v(preds@),
        ),
{
    let ghost acc0 = ImplAcc { preds: unique@, errors: builder.messages() };
    let ghost xs = preds@;
    for p in it: preds
        invariant
            xs == it.seq(),
            keys_distinct(unique@),
            builder.has_error() == (builder.messages().len() > 0),
            (ImplAcc { preds: unique@, errors: builder.messages() }) == add_all_reporting(acc0, preds_v(xs.take(it.index() as int))),
    {
        proof {
            let i = it.index() as int;
            assert(preds_v(xs.take(i + 1)).drop_last() =~= preds_v(xs.take(i)));
            assert(preds_v(xs.take(i + 1)).last() == p@);
        }
        add_reporting_exec(unique, builder, p);
    }
    proof {
        assert(xs.take(xs.len() as int) =~= xs);
    }
}

/// Maps the fields `fields` by `mapping`, adding the predicates that the
/// mappings require to `unique` and their errors to `builder`.
fn map_fields(unique: &mut UniquePredicates, builder: &mut Builder, mapping: Mapping, fields: &Vec<Fieldish>) -> (arm_fields: Vec<ArmField>)
    requires
        keys_distinct(old(unique)@),
        old(builder).has_error() == (old(builder).messages().len() > 0),
    ensures
        keys_distinct(final(unique)@),
        final(builder).has_error() == (final(builder).messages().len() > 0),
        ({
            let (acc, fs) = fields_acc(
                ImplAcc { preds: old(unique)@, errors: old(builder).messages() },
                mapping@,
                fields@.map_values(|f: Fieldish| fieldish_v(f)),
            );
            &&& acc == (ImplAcc { preds: final(unique)@, errors: final(builder).messages() })
            &&& fs == arm_fields@.map_values(|f: ArmField| arm_field_v(f))
        }),
{
    let ghost acc0 = ImplAcc { preds: unique@, errors: builder.messages() };
    let ghost fv = fields@.map_values(|f: Fieldish| fieldish_v(f));
    let mut out: Vec<ArmField> = Vec::new();
    let mut i: usize = 0;
    while i < fields.len()
        invariant
            i <= fields.len(),
            fv == fields@.map_values(|f: Fieldish| fieldish_v(f)),
            keys_distinct(unique@),
            builder.has_error() == (builder.messages().len() > 0),
            fields_acc(acc0, mapping@, fv.take(i as int)) == (
                ImplAcc { preds: unique@, errors: builder.messages() },
                out@.map_values(|f: ArmField| arm_field_v(f)),
            ),
        decreases fields.len() - i,
    {
        proof {
            assert(fv.take(i + 1).drop_last() =~= fv.take(i as int));
            assert(fv.take(i + 1).last() == fieldish_v(fields@[i as int]));
        }
        let field = &fields[i];
        match mapping.map(MapExpr::Binding(i), &field.ty) {
            Ok(mapped) => {
                let ghost before_out = out@.map_values(|f: ArmField| arm_field_v(f));
                let ghost mpv = mapped.predicates@;
                let preds = mapped.predicates.into_predicates();
                assert(preds_v(preds@) =~= preds@.map_values(|p: WherePred| p@));
                add_all_reporting_exec(unique, builder, preds);
                let member = match &field.ident {
                    Some(n) => Member::Named(n.copy()),
                    None => Member::Unnamed(i),
                };
                let binding = binding_name(&field.ident, i, mapping.span);
                out.push(ArmField { member, binding, expr: mapped.expr });
                proof {
                    assert(out@.map_values(|f: ArmField| arm_field_v(f)) =~= before_out.push(arm_field_v(out@.last())));
                }
            },
            Err(e) => {
                let ghost before = builder.messages();
                let ghost em = e.messages();
                builder.add_error(e);
                assert(before + em =~= before.push(em[0]));
            },
        }
        i += 1;
    }
    proof {
        assert(fv.take(i as int) =~= fv);
    }
    out
}

/// Maps the fields of all variants by `mapping` into match arms.
fn map_arms(unique: &mut UniquePredicates, builder: &mut Builder, mapping: Mapping, variants: &Vec<Structish>) -> (arms: Vec<Arm>)
    requires
        keys_distinct(old(unique)@),
        old(builder).has_error() == (old(builder).messages().len() > 0),
    ensures
        keys_distinct(final(unique)@),
        final(builder).has_error() == (final(builder).messages().len() > 0),
        ({
            let (acc, arms_v) = arms_acc(
                ImplAcc { preds: old(unique)@, errors: old(builder).messages() },
                mapping@,
                variants@.map_values(|s: Structish| structish_v(s)),
            );
            &&& acc == (ImplAcc { preds: final(unique)@, errors: final(builder).messages() })
            &&& arms_v == arms@.map_values(|a: Arm| arm_v(a))
        }),
{
    let ghost acc0 = ImplAcc { preds: unique@, errors: builder.messages() };
    let ghost vv = variants@.map_values(|s: Structish| structish_v(s));
    let mut out: Vec<Arm> = Vec::new();
    let mut i: usize = 0;
    while i < variants.len()
        invariant
            i <= variants.len(),
            vv == variants@.map_values(|s: Structish| structish_v(s)),
            keys_distinct(unique@),
            builder.has_error() == (builder.messages().len() > 0),
            arms_acc(acc0, mapping@, vv.take(i as int)) == (
                ImplAcc { preds: unique@, errors: builder.messages() },
                out@.map_values(|a: Arm| arm_v(a)),
            ),
        decreases variants.len() - i,
    {
        proof {
            assert(vv.take(i + 1).drop_last() =~= vv.take(i as int));
            assert(vv.take(i + 1).last() == structish_v(variants@[i as int]));
        }
        let ghost before_out = out@.map_values(|a: Arm| arm_v(a));
        let fields = map_fields(unique, builder, mapping, &variants[i].fields);
        let variant_ident = match &variants[i].variant_ident {
            Some(n) => Some(n.copy()),
            None => None,
        };
        out.push(Arm { variant_ident, fields });
        proof {
            assert(out@.map_values(|a: Arm| arm_v(a)) =~= before_out.push(arm_v(out@.last())));
        }
        i += 1;
    }
    proof {
        assert(vv.take(i as int) =~= vv);
    }
    out
}


// ---------------------------------------------------------------------------
// The implementations

/// An implementation of the derived trait for one mapped type parameter:
/// its generic parameters, the marker index of the mapped parameter, the
/// arguments of the source and destination types, its `where` clause and
/// the arms of its mapping method.
#[derive(Debug)]
pub struct MapImpl {
    pub params: Vec<GenParam>,
    pub marker_idx: usize,
    pub src_args: Vec<GenArg>,
    pub dst_args: Vec<GenArg>,
    pub where_clause: Vec<WherePred>,
    pub arms: Vec<Arm>,
}

/// The view of an implementation.
pub struct MapImplV {
    pub params: Seq<GenericParamV>,
    pub marker_idx: usize,
    pub src_args: Seq<GenArgV>,
    pub dst_args: Seq<GenArgV>,
    pub where_clause: Seq<WherePredV>,
    pub arms: Seq<ArmV>,
}

pub open spec fn args_view(args: Seq<GenArg>) -> Seq<GenArgV> {
    args.map_values(|a: GenArg| gen_arg_v(a))
}

pub open spec fn map_impl_v(i: MapImpl) -> MapImplV {
    MapImplV {
        params: params_v(i.params@),
        marker_idx: i.marker_idx,
        src_args: args_view(i.src_args@),
        dst_args: args_view(i.dst_args@),
        where_clause: preds_v(i.where_clause@),
        arms: i.arms@.map_values(|a: Arm| arm_v(a)),
    }
}

/// The implementation for the mapped parameter `mp`, with the source and
/// destination types named `src` and `dst`, and the messages of the errors
/// after those in `errors`.
pub open spec fn impl_for(
    input: FuncMapInputV,
    d: Derivable,
    mp: MappedTypeParamV,
    src: Seq<char>,
    dst: Seq<char>,
    errors: Seq<Seq<char>>,
) -> (MapImplV, Seq<Seq<char>>) {
    let acc0 = ImplAcc { preds: no_predicates(), errors };
    let acc1 = where_acc(acc0, where_preds(input.generics.where_clause), mp, src, dst);
    let m = MappingV { param: mp.ident, src, dst, crate_path: input.crate_path, derivable: d };
    let (acc2, arms) = arms_acc(acc1, m, input.variants);
    (
        MapImplV {
            params: impl_params_v(input.generics.params, mp, src, dst),
            marker_idx: mp.marker_idx,
            src_args: type_args_v(input.generics.params, mp, src),
            dst_args: type_args_v(input.generics.params, mp, dst),
            where_clause: predicates_of(acc2.preds),
            arms,
        },
        acc2.errors,
    )
}

/// The implementations for the mapped parameters `mps`, in order, and the
/// messages of all errors.
pub open spec fn impls_for(
    input: FuncMapInputV,
    d: Derivable,
    mps: Seq<MappedTypeParamV>,
    src: Seq<char>,
    dst: Seq<char>,
) -> (Seq<MapImplV>, Seq<Seq<char>>)
    decreases mps.len(),
{
    if mps.len() == 0 {
        (Seq::empty(), Seq::empty())
    } else {
        let (impls, errors) = impls_for(input, d, mps.drop_last(), src, dst);
        let (i, errors2) = impl_for(input, d, mps.last(), src, dst, errors);
        (impls.push(i), errors2)
    }
}

/// Builds the implementation for the mapped parameter `mp`.
fn build_impl(
    input: &FuncMapInput,
    derivable: Derivable,
    mp: &MappedTypeParam,
    src: &Name,
    dst: &Name,
    builder: &mut Builder,
) -> (map_impl: MapImpl)
    requires
        old(builder).has_error() == (old(builder).messages().len() > 0),
    ensures
        final(builder).has_error() == (final(builder).messages().len() > 0),
        (map_impl_v(map_impl), final(builder).messages()) == impl_for(
            input@,
            derivable,
            mp@,
            src@,
            dst@,
            old(builder).messages(),
        ),
{
    let params = impl_params(&input.generics.params, mp, src, dst);
    let src_args = type_args(&input.generics.params, mp, src);
    let dst_args = type_args(&input.generics.params, mp, dst);
    let mut unique = UniquePredicates::new();
    add_where_predicates(&mut unique, builder, &input.generics.where_clause, mp, src, dst);
    let mapping = Mapping {
        type_param: &mp.ident,
        src_type_ident: src,
        dst_type_ident: dst,
        crate_path: &input.meta.crate_path,
        derivable,
        span: crate::ident::call_site(),
    };
    let arms = map_arms(&mut unique, builder, mapping, &input.variants);
    let where_clause = unique.into_predicates();
    assert(preds_v(where_clause@) =~= where_clause@.map_values(|p: WherePred| p@));
    MapImpl { params, marker_idx: mp.marker_idx, src_args, dst_args, where_clause, arms }
}

/// The output of a derive macro: the implementation asserting that the type
/// does not implement `Drop` and one implementation of the derived trait per
/// mapped type parameter, with what they share.
#[derive(Debug)]
pub struct DeriveOutput {
    /// Trait being derived.
    pub derivable: Derivable,
    /// Path to the crate that defines the derivable traits.
    pub crate_path: TyPath,
    /// Identifier of the type.
    pub ident: Name,
    /// Name of the source type parameter.
    pub src_type_ident: Name,
    /// Name of the destination type parameter.
    pub dst_type_ident: Name,
    /// Name of the type parameter of the mapping function.
    pub fn_type_ident: Name,
    /// Name of the type parameter of the error, in fallible implementations.
    pub err_type_ident: Name,
    /// Parameters of the implementation of the "no drop" marker trait.
    pub no_drop_params: Vec<GenParam>,
    /// Arguments of the type in the implementation of the "no drop" marker
    /// trait.
    pub no_drop_args: Vec<GenArg>,
    /// The `where` clause of the type.
    pub where_clause: Option<Vec<WherePred>>,
    /// The implementations of the derived trait.
    pub impls: Vec<MapImpl>,
}

/// The view of the output.
pub struct DeriveOutputV {
    pub derivable: Derivable,
    pub crate_path: PathV,
    pub ident: Seq<char>,
    pub src_type_ident: Seq<char>,
    pub dst_type_ident: Seq<char>,
    pub fn_type_ident: Seq<char>,
    pub err_type_ident: Seq<char>,
    pub no_drop_params: Seq<GenericParamV>,
    pub no_drop_args: Seq<GenArgV>,
    pub where_clause: Option<Seq<WherePredV>>,
    pub impls: Seq<MapImplV>,
}

impl View for DeriveOutput {
    type V = DeriveOutputV;

    open spec fn view(&self) -> DeriveOutputV {
        DeriveOutputV {
            derivable: self.derivable,
            crate_path: self.crate_path@,
            ident: self.ident@,
            src_type_ident: self.src_type_ident@,
            dst_type_ident: self.dst_type_ident@,
            fn_type_ident: self.fn_type_ident@,
            err_type_ident: self.err_type_ident@,
            no_drop_params: params_v(self.no_drop_params@),
            no_drop_args: args_view(self.no_drop_args@),
            where_clause: match self.where_clause {
                Some(w) => Some(preds_v(w@)),
                None => None,
            },
            impls: self.impls@.map_values(|i: MapImpl| map_impl_v(i)),
        }
    }
}

/// The identifiers that the implementations introduce, in the order in which
/// they are reserved: for the source type `A`, the destination type `B`,
/// the mapping function `F` and the error `E`, each the first candidate
/// that the input and the identifiers reserved before leave free.
pub open spec fn reserved_names(reserved: Set<Seq<char>>) -> (Seq<char>, Seq<char>, Seq<char>, Seq<char>) {
    let a = fresh_name(reserved, 'A');
    let b = fresh_name(reserved.insert(a), 'B');
    let f = fresh_name(reserved.insert(a).insert(b), 'F');
    let e = fresh_name(reserved.insert(a).insert(b).insert(f), 'E');
    (a, b, f, e)
}

/// The output of deriving `d` for the prepared input `input`, with the
/// identifiers `names`.
pub open spec fn output_v(input: FuncMapInputV, d: Derivable, names: (Seq<char>, Seq<char>, Seq<char>, Seq<char>)) -> DeriveOutputV {
    let params = input.generics.params;
    DeriveOutputV {
        derivable: d,
        crate_path: input.crate_path,
        ident: input.ident,
        src_type_ident: names.0,
        dst_type_ident: names.1,
        fn_type_ident: names.2,
        err_type_ident: names.3,
        no_drop_params: Seq::new(params.len(), |i: int| without_default_v(without_attrs_v(params[i]))),
        no_drop_args: Seq::new(params.len(), |i: int| param_arg(params[i])),
        where_clause: input.generics.where_clause,
        impls: impls_for(input, d, input.mapped_type_params, names.0, names.1).0,
    }
}

/// The messages of the errors of deriving `d` for the prepared input
/// `input` with the identifiers `names`.
pub open spec fn derive_errors(input: FuncMapInputV, d: Derivable, names: (Seq<char>, Seq<char>, Seq<char>, Seq<char>)) -> Seq<Seq<char>> {
    impls_for(input, d, input.mapped_type_params, names.0, names.1).1
}

/// Generates the implementations of the derivable trait `derivable` for the
/// prepared input `input`.
///
/// # Errors
/// Fails if the `where` clause holds an equality predicate or any of the
/// fields has a type that cannot be mapped; the error holds all messages.
pub fn derive_from_input(input: FuncMapInput, derivable: Derivable) -> (res: Result<DeriveOutput, DeriveError>)
    ensures
        ({
            let names = reserved_names(input.meta.ident_collector.reserved());
            let errors = derive_errors(input@, derivable, names);
            &&& res is Ok <==> errors.len() == 0
            &&& res matches Ok(out) ==> out@ == output_v(input@, derivable, names)
            &&& res matches Err(e) ==> e.messages() == errors
        }),
{
    let ghost iv = input@;
    let ghost r0 = input.meta.ident_collector.reserved();
    let mut input = input;
    let span = crate::ident::mixed_site();
    let src = input.meta.ident_collector.reserve_uppercase_letter('A', span);
    let dst = input.meta.ident_collector.reserve_uppercase_letter('B', span);
    let fn_type = input.meta.ident_collector.reserve_uppercase_letter('F', span);
    let err_type = input.meta.ident_collector.reserve_uppercase_letter('E', span);
    let ghost names = reserved_names(r0);
    proof {
        lemma_fresh_name(r0, 'A', src@);
        lemma_fresh_name(r0.insert(src@), 'B', dst@);
        lemma_fresh_name(r0.insert(src@).insert(dst@), 'F', fn_type@);
        lemma_fresh_name(r0.insert(src@).insert(dst@).insert(fn_type@), 'E', err_type@);
    }
    assert(input@ == iv);
    let mut builder = Builder::new();
    let mut impls: Vec<MapImpl> = Vec::new();
    let mut i: usize = 0;
    let ghost mps = iv.mapped_type_params;
    while i < input.mapped_type_params.len()
        invariant
            i <= input.mapped_type_params.len(),
            input@ == iv,
            mps == iv.mapped_type_params,
            builder.has_error() == (builder.messages().len() > 0),
            impls_for(iv, derivable, mps.take(i as int), src@, dst@) == (
                impls@.map_values(|x: MapImpl| map_impl_v(x)),
                builder.messages(),
            ),
        decreases input.mapped_type_params.len() - i,
    {
        proof {
            assert(mps.take(i + 1).drop_last() =~= mps.take(i as int));
            assert(mps.take(i + 1).last() == input.mapped_type_params@[i as int]@);
        }
        let ghost before = impls@.map_values(|x: MapImpl| map_impl_v(x));
        let im = build_impl(&input, derivable, &input.mapped_type_params[i], &src, &dst, &mut builder);
        impls.push(im);
        proof {
            assert(impls@.map_values(|x: MapImpl| map_impl_v(x)) =~= before.push(map_impl_v(impls@.last())));
        }
        i += 1;
    }
    proof {
        assert(mps.take(i as int) =~= mps);
    }
    let no_drop_params = no_drop_params(&input.generics.params);
    let no_drop_args = no_drop_args(&input.generics.params);
    proof {
        let ov = output_v(iv, derivable, names);
        assert(params_v(no_drop_params@) =~= ov.no_drop_params);
        assert(args_view(no_drop_args@) =~= ov.no_drop_args);
        assert(names.0 == src@ && names.1 == dst@ && names.2 == fn_type@ && names.3 == err_type@);
    }
    let out = DeriveOutput {
        derivable,
        crate_path: input.meta.crate_path,
        ident: input.ident,
        src_type_ident: src,
        dst_type_ident: dst,
        fn_type_ident: fn_type,
        err_type_ident: err_type,
        no_drop_params,
        no_drop_args,
        where_clause: input.generics.where_clause,
        impls,
    };
    builder.err_or(out)
}

/// The parameters of the implementation of the "no drop" marker trait: all
/// parameters without attributes and defaults.
fn no_drop_params(params: &Vec<GenParam>) -> (ps: Vec<GenParam>)
    ensures
        params_v(ps@) == Seq::new(params@.len(), |i: int| without_default_v(without_attrs_v(params@[i]@))),
{
    let mut out: Vec<GenParam> = Vec::new();
    let mut i: usize = 0;
    while i < params.len()
        invariant
            i <= params.len(),
            out@.len() == i,
            forall|k: int| 0 <= k < i ==> (#[trigger] out@[k])@ == without_default_v(without_attrs_v(params@[k]@)),
        decreases params.len() - i,
    {
        out.push(params[i].copy().without_attrs().without_default());
        i += 1;
    }
    assert(params_v(out@) =~= Seq::new(params@.len(), |i: int| without_default_v(without_attrs_v(params@[i]@))));
    out
}

/// The arguments naming all parameters.
fn no_drop_args(params: &Vec<GenParam>) -> (args: Vec<GenArg>)
    ensures
        args_view(args@) == Seq::new(params@.len(), |i: int| param_arg(params@[i]@)),
{
    let mut out: Vec<GenArg> = Vec::new();
    let mut i: usize = 0;
    while i < params.len()
        invariant
            i <= params.len(),
            out@.len() == i,
            forall|k: int| 0 <= k < i ==> gen_arg_v(#[trigger] out@[k]) == param_arg(params@[k]@),
        decreases params.len() - i,
    {
        out.push(params[i].copy().into_generic_argument());
        i += 1;
    }
    assert(args_view(out@) =~= Seq::new(params@.len(), |i: int| param_arg(params@[i]@)));
    out
}


/// Tries to generate the implementations of the derivable trait `derivable`
/// for the item whose tokens are `item`.
///
/// # Errors
/// Fails if `item` cannot be parsed as a struct, enum or union, with the
/// messages of the parse error; otherwise as [`derive_item`] does.
pub fn try_derive(item: TokenStream, derivable: Derivable) -> (res: Result<DeriveOutput, DeriveError>)
    ensures
        match parsed_item(item) {
            Err(msgs) => res matches Err(e) && e.messages() == msgs,
            Ok(di) => exists|lex: spec_fn(int, int) -> LexOutcome|
                derived(di, derivable, lex, res) && #[trigger] attrs_fit(di.attrs, lex),
        },
{
    match parse_derive_input(item) {
        Ok(parsed) => derive_item(parsed, derivable),
        Err(e) => Err(DeriveError::from(e)),
    }
}

/// Tries to generate the implementations of the derivable trait `derivable`
/// for the parsed item `item`.
///
/// # Errors
/// Fails if the options of `item` cannot be read, if `item` cannot be
/// prepared for deriving mappings, or if the implementations cannot be
/// generated; in each case with the messages of all errors of that stage.
pub fn derive_item(item: ParsedItem, derivable: Derivable) -> (res: Result<DeriveOutput, DeriveError>)
    ensures
        exists|lex: spec_fn(int, int) -> LexOutcome|
            derived(item@, derivable, lex, res) && #[trigger] attrs_fit(item@.attrs, lex),
{
    let ghost di = item@;
    let prepared_res = FuncMapInput::try_from(item);
    let ghost lex = choose|lex: spec_fn(int, int) -> LexOutcome| input_read(di, lex, prepared_res) && #[trigger] attrs_fit(di.attrs, lex);
    let res = match prepared_res {
        Ok(input) => derive_from_input(input, derivable),
        Err(e) => Err(e),
    };
    assert(derived(di, derivable, lex, res));
    assert(attrs_fit(di.attrs, lex));
    res
}

/// `res` is what deriving `derivable` for the item `di` gives, where lexing
/// the literal of a crate path at position `p` of the tokens of attribute `k`
/// has the outcome `lex(k, p)`.
pub open spec fn derived(di: ParsedItemV, derivable: Derivable, lex: spec_fn(int, int) -> LexOutcome, res: Result<DeriveOutput, DeriveError>) -> bool {
    let opts = opts_of(di.attrs, lex);
    if opts.failed {
        res matches Err(e) && e.messages() == opts.errors
    } else if input_errors(di, lex).len() > 0 {
        res matches Err(e) && e.messages() == input_errors(di, lex)
    } else {
        let input = prepared(di, lex);
        let names = reserved_names(di.idents.to_set());
        let errors = derive_errors(input, derivable, names);
        &&& res is Ok <==> errors.len() == 0
        &&& res matches Ok(out) ==> out@ == output_v(input, derivable, names)
        &&& res matches Err(e) ==> e.messages() == errors
    }
}

} // verus!
