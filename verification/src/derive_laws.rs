//! Laws of the derive logic: what reading the options, preparing the input,
//! mapping field types and gathering the `where` clause of an
//! implementation guarantee, stated over their inputs and results.
use vstd::prelude::*;

use crate::derive::{
    add_all_reporting, add_mapped, add_reporting, adjust_pred, arms_acc, fields_acc, impl_for, where_acc, where_preds,
    ImplAcc,
};
use crate::generics::{subst_pred, GenericParamV, WherePredV};
use crate::input::{FieldishV, FuncMapInputV, MappedTypeParamV, StructishV};
use crate::predicates::{
    add_all_unique, add_predicate, lifetime_predicates, predicates_of, type_predicates, LifetimeEntryV, PredicatesV,
    TypeEntryV,
};
use crate::syntax::TypeBoundV;
use crate::derivable::Derivable;
use crate::map::{count_typish, map_args_v, map_tuple_v, map_v, trait_pred, MapExprV, MappingV};
use crate::syntax::{ty_depends, GenArgV, PathV, TyV};
use crate::input::{count_typish_params, mapped_params};
use crate::opts::{add_attrs, opts_of, AttributeV, LexOutcome, MetaV, OptsAcc};
use crate::syntax::ArgsV;

verus! {

// ---------------------------------------------------------------------------
// Helper attributes

/// `attr` is not written `#[funcmap...]`: its path is not the single
/// identifier `funcmap`.
pub open spec fn not_funcmap_attr(attr: AttributeV) -> bool {
    attr.path.segments.len() != 1 || attr.path.segments[0].ident != "funcmap"@
}

/// An attribute whose path is not `funcmap` (such as `#[repr(C)]` or a doc
/// comment) changes nothing of what the attributes before it set.
pub proof fn law_other_attribute_is_ignored(
    acc: OptsAcc,
    attrs: Seq<AttributeV>,
    attr: AttributeV,
    lex: spec_fn(int, int) -> LexOutcome,
)
    requires
        not_funcmap_attr(attr),
    ensures
        add_attrs(acc, attrs.push(attr), lex) == add_attrs(acc, attrs, lex),
{
    reveal_strlit("funcmap");
    assert(attrs.push(attr).drop_last() =~= attrs);
}

/// An item all of whose attributes have paths other than `funcmap` has the
/// options of an item without attributes: no crate path, no parameters and
/// no error.
pub proof fn law_only_other_attributes_set_nothing(attrs: Seq<AttributeV>, lex: spec_fn(int, int) -> LexOutcome)
    requires
        forall|k: int| 0 <= k < attrs.len() ==> not_funcmap_attr(#[trigger] attrs[k]),
    ensures
        opts_of(attrs, lex) == opts_of(Seq::empty(), lex),
    decreases attrs.len(),
{
    if attrs.len() > 0 {
        let init = attrs.drop_last();
        assert forall|k: int| 0 <= k < init.len() implies not_funcmap_attr(#[trigger] init[k]) by {
            assert(init[k] == attrs[k]);
        }
        law_only_other_attributes_set_nothing(init, lex);
        assert(not_funcmap_attr(attrs[attrs.len() - 1]));
        law_other_attribute_is_ignored(
            OptsAcc { crate_path: None, params: Seq::empty(), failed: false, errors: Seq::empty() },
            init,
            attrs.last(),
            lex,
        );
        assert(init.push(attrs.last()) =~= attrs);
    }
}

/// A `#[funcmap]` attribute without a parenthesized list of arguments (the
/// bare path, or `#[funcmap = ...]`) is read, and is an error.
pub proof fn law_funcmap_attribute_without_list_fails(
    acc: OptsAcc,
    attrs: Seq<AttributeV>,
    attr: AttributeV,
    lex: spec_fn(int, int) -> LexOutcome,
)
    requires
        attr.path.qself is None,
        !attr.path.leading_colon,
        attr.path.segments.len() == 1,
        attr.path.segments[0].ident == "funcmap"@,
        attr.path.segments[0].args == ArgsV::Plain,
        !(attr.meta is List),
    ensures
        add_attrs(acc, attrs.push(attr), lex).failed,
        add_attrs(acc, attrs.push(attr), lex).errors.len() > add_attrs(acc, attrs, lex).errors.len(),
{
    reveal_strlit("funcmap");
    assert(attrs.push(attr).drop_last() =~= attrs);
    assert(attrs.push(attr).last() == attr);
}

// ---------------------------------------------------------------------------
// Mapped type parameters

/// `g` is a type or const parameter.
pub open spec fn is_typish_param(g: GenericParamV) -> bool {
    !(g is Lifetime)
}

/// `count_typish_params` counts the type and const parameters.
proof fn lemma_count_typish_params(ps: Seq<GenericParamV>, pred: spec_fn(GenericParamV) -> bool)
    requires
        forall|g: GenericParamV| #[trigger] pred(g) == is_typish_param(g),
    ensures
        count_typish_params(ps) == ps.filter(pred).len(),
    decreases ps.len(),
{
    reveal_with_fuel(Seq::filter, 1);
    if ps.len() > 0 {
        lemma_count_typish_params(ps.drop_last(), pred);
    }
}

/// Every mapped type parameter points at itself in the item's parameter
/// list: its `param_idx` is its position among all parameters (lifetimes
/// and const generics included), the parameter there is a type parameter
/// with its identifier, and its `marker_idx` is the number of type and const
/// parameters before it. The mapped parameters come in the order of the
/// list. (The parameters of an item fit in memory, so their number fits in
/// `usize`.)
pub proof fn law_mapped_params_positions(params: Seq<GenericParamV>, selected: Seq<Seq<char>>)
    requires
        params.len() <= usize::MAX,
    ensures
        forall|i: int| #![trigger mapped_params(params, selected)[i]]
            0 <= i < mapped_params(params, selected).len() ==> {
                let mp = mapped_params(params, selected)[i];
                &&& mp.param_idx < params.len()
                &&& params[mp.param_idx as int] is Type
                &&& params[mp.param_idx as int]->Type_ident == mp.ident
                &&& mp.marker_idx == params.take(mp.param_idx as int).filter(|g: GenericParamV| !(g is Lifetime)).len()
            },
        forall|i: int, j: int| 0 <= i < j < mapped_params(params, selected).len()
            ==> mapped_params(params, selected)[i].param_idx < mapped_params(params, selected)[j].param_idx,
    decreases params.len(),
{
    let pred = |g: GenericParamV| !(g is Lifetime);
    if params.len() > 0 {
        let init = params.drop_last();
        let n = params.len() - 1;
        law_mapped_params_positions(init, selected);
        let rest = mapped_params(init, selected);
        let all = mapped_params(params, selected);
        assert forall|i: int| 0 <= i < rest.len() implies {
            let mp = #[trigger] rest[i];
            &&& mp.param_idx < init.len()
            &&& params[mp.param_idx as int] == init[mp.param_idx as int]
            &&& params.take(mp.param_idx as int) == init.take(mp.param_idx as int)
        } by {
            let mp = rest[i];
            assert(rest[i] == mapped_params(init, selected)[i]);
            assert(params.take(mp.param_idx as int) =~= init.take(mp.param_idx as int));
        }
        if all.len() > rest.len() {
            lemma_count_typish_params(init, pred);
            assert(params.take(n) =~= init);
            assert(all == rest.push(all.last()));
            let last = all.last();
            assert(last.param_idx == n);
            assert(params[n] is Type);
            assert forall|i: int| 0 <= i < all.len() implies {
                let mp = #[trigger] all[i];
                &&& mp.param_idx < params.len()
                &&& params[mp.param_idx as int] is Type
                &&& params[mp.param_idx as int]->Type_ident == mp.ident
                &&& mp.marker_idx == params.take(mp.param_idx as int).filter(|g: GenericParamV| !(g is Lifetime)).len()
            } by {
                if i < rest.len() {
                    assert(all[i] == rest[i]);
                    assert(mapped_params(init, selected)[i] == rest[i]);
                }
            }
            assert forall|i: int, j: int| 0 <= i < j < all.len() implies all[i].param_idx < all[j].param_idx by {
                if j < rest.len() {
                    assert(all[i] == rest[i] && all[j] == rest[j]);
                } else {
                    assert(all[i] == rest[i]);
                    assert(rest[i] == mapped_params(init, selected)[i]);
                }
            }
        } else {
            assert(all == rest);
            assert forall|i: int| 0 <= i < all.len() implies {
                let mp = #[trigger] all[i];
                &&& mp.param_idx < params.len()
                &&& params[mp.param_idx as int] is Type
                &&& params[mp.param_idx as int]->Type_ident == mp.ident
                &&& mp.marker_idx == params.take(mp.param_idx as int).filter(|g: GenericParamV| !(g is Lifetime)).len()
            } by {
                assert(mapped_params(init, selected)[i] == rest[i]);
            }
        }
    }
}

/// The mapped parameters are exactly the type parameters that are
/// selected (all of them when none is selected): each mapped one is a
/// selected type parameter, and each selected type parameter is mapped.
pub proof fn law_mapped_params_are_the_selected_type_params(params: Seq<GenericParamV>, selected: Seq<Seq<char>>)
    requires
        params.len() <= usize::MAX,
    ensures
        forall|i: int| 0 <= i < mapped_params(params, selected).len()
            ==> selected.len() == 0 || selected.contains(#[trigger] mapped_params(params, selected)[i].ident),
        forall|j: int| 0 <= j < params.len() && #[trigger] params[j] is Type
            && (selected.len() == 0 || selected.contains(params[j]->Type_ident))
            ==> exists|i: int| 0 <= i < mapped_params(params, selected).len() && mapped_params(params, selected)[i].param_idx == j,
    decreases params.len(),
{
    if params.len() > 0 {
        let init = params.drop_last();
        law_mapped_params_are_the_selected_type_params(init, selected);
        let rest = mapped_params(init, selected);
        let all = mapped_params(params, selected);
        let n = params.len() - 1;
        if all.len() > rest.len() {
            assert(all == rest.push(all.last()));
        } else {
            assert(all == rest);
        }
        assert forall|i: int| 0 <= i < all.len()
            implies selected.len() == 0 || selected.contains(#[trigger] all[i].ident) by {
            if i < rest.len() {
                assert(all[i] == rest[i]);
                assert(mapped_params(init, selected)[i] == rest[i]);
            }
        }
        assert forall|j: int| 0 <= j < params.len() && #[trigger] params[j] is Type
            && (selected.len() == 0 || selected.contains(params[j]->Type_ident))
            implies exists|i: int| 0 <= i < all.len() && all[i].param_idx == j by {
            if j < n {
                assert(init[j] == params[j]);
                let i = choose|i: int| 0 <= i < rest.len() && mapped_params(init, selected)[i].param_idx == j;
                assert(all[i] == rest[i]);
            } else {
                assert(all[rest.len() as int].param_idx == j);
            }
        }
    }
}

// ---------------------------------------------------------------------------
// Markers of nested mappings

/// `count_typish` counts the type and const arguments.
proof fn lemma_count_typish(args: Seq<GenArgV>, pred: spec_fn(GenArgV) -> bool)
    requires
        forall|a: GenArgV| #[trigger] pred(a) == (a is Type || a is Const),
    ensures
        count_typish(args) == args.filter(pred).len(),
    decreases args.len(),
{
    reveal_with_fuel(Seq::filter, 1);
    if args.len() > 0 {
        lemma_count_typish(args.drop_last(), pred);
    }
}

/// The number that markers are counted by is the number of type and const
/// arguments, lifetime arguments left out.
pub proof fn law_count_typish_counts_type_and_const_arguments(args: Seq<GenArgV>)
    ensures
        count_typish(args) == args.filter(|a: GenArgV| a is Type || a is Const).len(),
{
    lemma_count_typish(args, |a: GenArgV| a is Type || a is Const);
}

/// The marker of the outermost call of the derived trait in `e`, in
/// implementations of a derivable trait whose calls are bound by `d`.
pub open spec fn outer_marker(e: MapExprV) -> Option<usize> {
    match e {
        MapExprV::CallTrait { marker, .. } => marker,
        MapExprV::Try(inner) => match *inner {
            MapExprV::CallTrait { marker, .. } => marker,
            _ => None,
        },
        _ => None,
    }
}

/// Mapping a value of a path type over a type argument that depends on the
/// parameter calls the derived trait with the marker of that argument: the
/// number of type and const arguments before it, lifetime arguments left
/// out; the predicates that the mapping requires include the trait bound
/// with that marker.
pub proof fn law_marker_counts_type_and_const_arguments(
    m: MappingV,
    e: MapExprV,
    p: PathV,
    colon2: bool,
    all: Seq<GenArgV>,
    done: Seq<GenArgV>,
)
    requires
        done.len() > 0,
        done.last() is Type,
        ty_depends(done.last()->Type_0, m.param),
        map_args_v(m, e, p, colon2, all, done) is Done,
        done.len() <= usize::MAX,
    ensures
        ({
            let k = done.drop_last().filter(|a: GenArgV| a is Type || a is Const).len() as usize;
            &&& outer_marker(map_args_v(m, e, p, colon2, all, done)->Done_expr) == Some(k)
            &&& exists|s: TyV, inner_src: TyV, inner_dst: TyV, d: TyV|
                map_args_v(m, e, p, colon2, all, done)->Done_preds.contains(#[trigger] trait_pred(m, s, inner_src, inner_dst, k, d))
        }),
{
    let pred = |a: GenArgV| a is Type || a is Const;
    lemma_count_typish(done.drop_last(), pred);
    let k = count_typish(done.drop_last());
    assert(k <= done.drop_last().len()) by {
        reveal_with_fuel(Seq::filter, 1);
        done.drop_last().lemma_filter_len(pred);
    }
    let prev = map_args_v(m, e, p, colon2, all, done.drop_last());
    let out = map_args_v(m, e, p, colon2, all, done);
    assert(prev is Done);
    let t = done.last()->Type_0;
    let pr = trait_pred(
        m,
        crate::map::mapped_path_ty(m, p, colon2, all, k),
        crate::syntax::subst_ty(t, m.param, m.src),
        crate::syntax::subst_ty(t, m.param, m.dst),
        k as usize,
        crate::map::mapped_path_ty(m, p, colon2, all, k + 1),
    );
    let ps = prev->Done_preds;
    let q = crate::map::map_v(m, MapExprV::Value, t)->Done_preds;
    assert(out->Done_preds == ps.push(pr) + q);
    assert(out->Done_preds[ps.len() as int] == pr);
}

// ---------------------------------------------------------------------------
// Closures of fallible mappings

/// Every closure in `e` has a body of the form `Ok(..)`, so that it returns
/// a `Result`, as the closure handed to a fallible mapping must.
pub open spec fn closures_return_ok(e: MapExprV) -> bool
    decreases e,
{
    match e {
        MapExprV::Binding(_) => true,
        MapExprV::Value => true,
        MapExprV::TupleField { base, .. } => closures_return_ok(*base),
        MapExprV::CallFn { arg } => closures_return_ok(*arg),
        MapExprV::CallTrait { arg, closure, .. } => closures_return_ok(*arg) && closures_return_ok(*closure),
        MapExprV::Closure { body } => *body is WrapOk && closures_return_ok(*body),
        MapExprV::Try(x) => closures_return_ok(*x),
        MapExprV::WrapOk(x) => closures_return_ok(*x),
        MapExprV::Tuple(es) => forall|i: int| 0 <= i < es.len() ==> closures_return_ok(#[trigger] es[i]),
    }
}

/// In a fallible derive, mapping an expression whose closures return `Ok`
/// gives an expression whose closures all return `Ok`: every closure that
/// the mapping of a type creates wraps its body in `Ok(..)`.
pub proof fn law_fallible_closures_return_ok(m: MappingV, e: MapExprV, t: TyV)
    requires
        m.derivable == Derivable::Fallible,
        closures_return_ok(e),
        map_v(m, e, t) is Done,
    ensures
        closures_return_ok(map_v(m, e, t)->Done_expr),
    decreases t,
{
    if t matches TyV::Other { kind: crate::syntax::OtherKind::Macro, .. } {
    } else if !ty_depends(t, m.param) {
    } else {
        match t {
            TyV::Array { elem, len } => {
                law_fallible_closures_return_ok(m, MapExprV::Value, *elem);
                let r = map_v(m, MapExprV::Value, *elem)->Done_expr;
                let cl = crate::map::closure_v(m, r);
                assert(closures_return_ok(MapExprV::WrapOk(Box::new(r))));
                assert(closures_return_ok(cl));
                let call = MapExprV::CallTrait { marker: None, arg: Box::new(e), closure: Box::new(cl) };
                assert(closures_return_ok(call));
                assert(closures_return_ok(MapExprV::Try(Box::new(call))));
            },
            TyV::Paren { elem } => {
                law_fallible_closures_return_ok(m, e, *elem);
            },
            TyV::Tuple { elems } => {
                law_fallible_tuple_closures_return_ok(m, e, elems);
            },
            TyV::Path(p) => {
                if p.qself matches Some(q) && ty_depends(*q.ty, m.param) {
                } else if p.segments.len() == 0 {
                } else if p.trailing_colon {
                } else if crate::syntax::path_depends(crate::map::prefix_v(p), m.param, true) {
                } else {
                    match p.segments.last().args {
                        crate::syntax::ArgsV::Angle { colon2, args } => {
                            law_fallible_args_closures_return_ok(m, e, p, colon2, args, args);
                        },
                        crate::syntax::ArgsV::Plain => {
                            let call = MapExprV::CallFn { arg: Box::new(e) };
                            assert(closures_return_ok(call));
                            assert(closures_return_ok(MapExprV::Try(Box::new(call))));
                        },
                        _ => {},
                    }
                }
            },
            _ => {},
        }
    }
}

/// [`law_fallible_closures_return_ok`] for the elements of a tuple; the
/// mapping of a tuple is a tuple.
pub proof fn law_fallible_tuple_closures_return_ok(m: MappingV, e: MapExprV, elems: Seq<TyV>)
    requires
        m.derivable == Derivable::Fallible,
        closures_return_ok(e),
        map_tuple_v(m, e, elems) is Done,
    ensures
        map_tuple_v(m, e, elems)->Done_expr is Tuple,
        closures_return_ok(map_tuple_v(m, e, elems)->Done_expr),
    decreases elems,
{
    if elems.len() > 0 {
        law_fallible_tuple_closures_return_ok(m, e, elems.drop_last());
        let prev = map_tuple_v(m, e, elems.drop_last())->Done_expr->Tuple_0;
        let field = MapExprV::TupleField { base: Box::new(e), index: (elems.len() - 1) as usize };
        law_fallible_closures_return_ok(m, field, elems.last());
        let x = map_v(m, field, elems.last())->Done_expr;
        let es = prev.push(x);
        assert forall|i: int| 0 <= i < es.len() implies closures_return_ok(#[trigger] es[i]) by {
            if i < prev.len() {
                assert(es[i] == prev[i]);
            }
        }
    }
}

/// [`law_fallible_closures_return_ok`] for the type arguments `done` of a
/// path type.
pub proof fn law_fallible_args_closures_return_ok(
    m: MappingV,
    e: MapExprV,
    p: PathV,
    colon2: bool,
    all: Seq<GenArgV>,
    done: Seq<GenArgV>,
)
    requires
        m.derivable == Derivable::Fallible,
        closures_return_ok(e),
        map_args_v(m, e, p, colon2, all, done) is Done,
    ensures
        closures_return_ok(map_args_v(m, e, p, colon2, all, done)->Done_expr),
    decreases done,
{
    if done.len() > 0 {
        law_fallible_args_closures_return_ok(m, e, p, colon2, all, done.drop_last());
        match done.last() {
            GenArgV::Type(t) => {
                if ty_depends(t, m.param) {
                    law_fallible_closures_return_ok(m, MapExprV::Value, t);
                    let prev = map_args_v(m, e, p, colon2, all, done.drop_last())->Done_expr;
                    let k = count_typish(done.drop_last());
                    let r = map_v(m, MapExprV::Value, t)->Done_expr;
                    let cl = crate::map::closure_v(m, r);
                    assert(closures_return_ok(MapExprV::WrapOk(Box::new(r))));
                    assert(closures_return_ok(cl));
                    let call = MapExprV::CallTrait { marker: Some(k as usize), arg: Box::new(prev), closure: Box::new(cl) };
                    assert(closures_return_ok(call));
                    assert(closures_return_ok(MapExprV::Try(Box::new(call))));
                }
            },
            _ => {},
        }
    }
}

/// `e` neither wraps in `Ok(..)` nor unwraps with `?`: nothing in it
/// handles a `Result`, as nothing may in an infallible mapping.
pub open spec fn free_of_results(e: MapExprV) -> bool
    decreases e,
{
    match e {
        MapExprV::Binding(_) => true,
        MapExprV::Value => true,
        MapExprV::TupleField { base, .. } => free_of_results(*base),
        MapExprV::CallFn { arg } => free_of_results(*arg),
        MapExprV::CallTrait { arg, closure, .. } => free_of_results(*arg) && free_of_results(*closure),
        MapExprV::Closure { body } => free_of_results(*body),
        MapExprV::Try(x) => false,
        MapExprV::WrapOk(x) => false,
        MapExprV::Tuple(es) => forall|i: int| 0 <= i < es.len() ==> free_of_results(#[trigger] es[i]),
    }
}

/// In a standard derive, mapping an expression free of `Ok(..)` and `?`
/// gives an expression free of them: neither the calls nor the closures
/// that the mapping of a type creates handle a `Result`.
pub proof fn law_standard_free_of_results(m: MappingV, e: MapExprV, t: TyV)
    requires
        m.derivable == Derivable::Standard,
        free_of_results(e),
        map_v(m, e, t) is Done,
    ensures
        free_of_results(map_v(m, e, t)->Done_expr),
    decreases t,
{
    if t matches TyV::Other { kind: crate::syntax::OtherKind::Macro, .. } {
    } else if !ty_depends(t, m.param) {
    } else {
        match t {
            TyV::Array { elem, len } => {
                law_standard_free_of_results(m, MapExprV::Value, *elem);
                let r = map_v(m, MapExprV::Value, *elem)->Done_expr;
                let cl = crate::map::closure_v(m, r);
                assert(free_of_results(cl));
                let call = MapExprV::CallTrait { marker: None, arg: Box::new(e), closure: Box::new(cl) };
                assert(free_of_results(call));
            },
            TyV::Paren { elem } => {
                law_standard_free_of_results(m, e, *elem);
            },
            TyV::Tuple { elems } => {
                law_standard_tuple_free_of_results(m, e, elems);
            },
            TyV::Path(p) => {
                if p.qself matches Some(q) && ty_depends(*q.ty, m.param) {
                } else if p.segments.len() == 0 {
                } else if p.trailing_colon {
                } else if crate::syntax::path_depends(crate::map::prefix_v(p), m.param, true) {
                } else {
                    match p.segments.last().args {
                        crate::syntax::ArgsV::Angle { colon2, args } => {
                            law_standard_args_free_of_results(m, e, p, colon2, args, args);
                        },
                        crate::syntax::ArgsV::Plain => {
                            let call = MapExprV::CallFn { arg: Box::new(e) };
                            assert(free_of_results(call));
                                    },
                        _ => {},
                    }
                }
            },
            _ => {},
        }
    }
}

/// [`law_standard_free_of_results`] for the elements of a tuple; the
/// mapping of a tuple is a tuple.
pub proof fn law_standard_tuple_free_of_results(m: MappingV, e: MapExprV, elems: Seq<TyV>)
    requires
        m.derivable == Derivable::Standard,
        free_of_results(e),
        map_tuple_v(m, e, elems) is Done,
    ensures
        map_tuple_v(m, e, elems)->Done_expr is Tuple,
        free_of_results(map_tuple_v(m, e, elems)->Done_expr),
    decreases elems,
{
    if elems.len() > 0 {
        law_standard_tuple_free_of_results(m, e, elems.drop_last());
        let prev = map_tuple_v(m, e, elems.drop_last())->Done_expr->Tuple_0;
        let field = MapExprV::TupleField { base: Box::new(e), index: (elems.len() - 1) as usize };
        law_standard_free_of_results(m, field, elems.last());
        let x = map_v(m, field, elems.last())->Done_expr;
        let es = prev.push(x);
        assert forall|i: int| 0 <= i < es.len() implies free_of_results(#[trigger] es[i]) by {
            if i < prev.len() {
                assert(es[i] == prev[i]);
            }
        }
    }
}

/// [`law_standard_free_of_results`] for the type arguments `done` of a
/// path type.
pub proof fn law_standard_args_free_of_results(
    m: MappingV,
    e: MapExprV,
    p: PathV,
    colon2: bool,
    all: Seq<GenArgV>,
    done: Seq<GenArgV>,
)
    requires
        m.derivable == Derivable::Standard,
        free_of_results(e),
        map_args_v(m, e, p, colon2, all, done) is Done,
    ensures
        free_of_results(map_args_v(m, e, p, colon2, all, done)->Done_expr),
    decreases done,
{
    if done.len() > 0 {
        law_standard_args_free_of_results(m, e, p, colon2, all, done.drop_last());
        match done.last() {
            GenArgV::Type(t) => {
                if ty_depends(t, m.param) {
                    law_standard_free_of_results(m, MapExprV::Value, t);
                    let prev = map_args_v(m, e, p, colon2, all, done.drop_last())->Done_expr;
                    let k = count_typish(done.drop_last());
                    let r = map_v(m, MapExprV::Value, t)->Done_expr;
                    let cl = crate::map::closure_v(m, r);
                        assert(free_of_results(cl));
                    let call = MapExprV::CallTrait { marker: Some(k as usize), arg: Box::new(prev), closure: Box::new(cl) };
                    assert(free_of_results(call));
                    }
            },
            _ => {},
        }
    }
}

// ---------------------------------------------------------------------------
// The `where` clause of an implementation

/// The type entry `e` has the left-hand side `for<lifetimes> ty` and holds
/// every one of `bounds`.
pub open spec fn type_entry_holds(e: TypeEntryV, lifetimes: Option<Seq<char>>, ty: TyV, bounds: Seq<TypeBoundV>) -> bool {
    &&& e.lifetimes == lifetimes
    &&& e.bounded_ty == ty
    &&& forall|b: TypeBoundV| bounds.contains(b) ==> e.bounds.contains(b)
}

/// The lifetime entry `e` is for `lifetime` and holds every one of `bounds`.
pub open spec fn lifetime_entry_holds(e: LifetimeEntryV, lifetime: Seq<char>, bounds: Seq<Seq<char>>) -> bool {
    &&& e.lifetime == lifetime
    &&& forall|b: Seq<char>| bounds.contains(b) ==> e.bounds.contains(b)
}

/// The set of predicates `ps` requires at least what `pred` requires: an
/// entry with the left-hand side of `pred` holds all of its bounds.
pub open spec fn entails(ps: PredicatesV, pred: WherePredV) -> bool {
    match pred {
        WherePredV::Type { lifetimes, bounded_ty, bounds } =>
            exists|i: int| 0 <= i < ps.types.len() && #[trigger] type_entry_holds(ps.types[i], lifetimes, bounded_ty, bounds),
        WherePredV::Lifetime { lifetime, bounds } =>
            exists|i: int| 0 <= i < ps.lifetimes.len() && #[trigger] lifetime_entry_holds(ps.lifetimes[i], lifetime, bounds),
        WherePredV::Eq => true,
    }
}

/// The predicate `w` of a `where` clause has the left-hand side of `pred`
/// and all of its bounds.
pub open spec fn pred_holds(w: WherePredV, pred: WherePredV) -> bool {
    match pred {
        WherePredV::Type { lifetimes, bounded_ty, bounds } => w matches WherePredV::Type { lifetimes: l, bounded_ty: t, bounds: bs }
            && l == lifetimes && t == bounded_ty && forall|b: TypeBoundV| bounds.contains(b) ==> bs.contains(b),
        WherePredV::Lifetime { lifetime, bounds } => w matches WherePredV::Lifetime { lifetime: l, bounds: bs }
            && l == lifetime && forall|b: Seq<char>| bounds.contains(b) ==> bs.contains(b),
        WherePredV::Eq => true,
    }
}

/// The `where` clause `ws` requires at least what `pred` requires: `pred`
/// has no bounds, or a predicate of `ws` has its left-hand side and all of
/// its bounds.
pub open spec fn clause_requires(ws: Seq<WherePredV>, pred: WherePredV) -> bool {
    match pred {
        WherePredV::Type { bounds, .. } => bounds.len() == 0 || exists|j: int| 0 <= j < ws.len() && #[trigger] pred_holds(ws[j], pred),
        WherePredV::Lifetime { bounds, .. } => bounds.len() == 0 || exists|j: int| 0 <= j < ws.len() && #[trigger] pred_holds(ws[j], pred),
        WherePredV::Eq => true,
    }
}

/// Adding items keeps those there and holds the added ones.
proof fn lemma_add_all_unique_holds<T>(s: Seq<T>, xs: Seq<T>)
    ensures
        forall|x: T| s.contains(x) ==> #[trigger] add_all_unique(s, xs).contains(x),
        forall|x: T| xs.contains(x) ==> #[trigger] add_all_unique(s, xs).contains(x),
    decreases xs.len(),
{
    if xs.len() > 0 {
        lemma_add_all_unique_holds(s, xs.drop_last());
        let prev = add_all_unique(s, xs.drop_last());
        let last = xs.last();
        let r = add_all_unique(s, xs);
        assert(r == crate::predicates::add_unique(prev, last));
        if !prev.contains(last) {
            assert(r == prev.push(last));
            assert(prev.push(last)[prev.len() as int] == last);
            assert forall|x: T| prev.contains(x) implies prev.push(last).contains(x) by {
                let i = choose|i: int| 0 <= i < prev.len() && prev[i] == x;
                assert(prev.push(last)[i] == x);
            }
        }
        assert(r.contains(last));
        assert(forall|x: T| prev.contains(x) ==> r.contains(x));
        assert forall|x: T| xs.contains(x) implies #[trigger] r.contains(x) by {
            let i = choose|i: int| 0 <= i < xs.len() && xs[i] == x;
            if i < xs.len() - 1 {
                assert(xs.drop_last()[i] == x);
                assert(xs.drop_last().contains(x));
                assert(prev.contains(x));
            }
        }
    }
}

/// A set of predicates with `pred` added requires what `pred` requires.
proof fn lemma_added_predicate_entailed(ps: PredicatesV, pred: WherePredV)
    ensures
        entails(add_predicate(ps, pred), pred),
{
    match pred {
        WherePredV::Type { lifetimes, bounded_ty, bounds } => {
            let ts = add_predicate(ps, pred).types;
            if exists|i: int| 0 <= i < ps.types.len() && ps.types[i].lifetimes == lifetimes && ps.types[i].bounded_ty == bounded_ty {
                let i = choose|i: int| 0 <= i < ps.types.len() && ps.types[i].lifetimes == lifetimes && ps.types[i].bounded_ty == bounded_ty;
                lemma_add_all_unique_holds(ps.types[i].bounds, bounds);
                assert(type_entry_holds(ts[i], lifetimes, bounded_ty, bounds));
            } else {
                lemma_add_all_unique_holds(Seq::<TypeBoundV>::empty(), bounds);
                assert(type_entry_holds(ts[ps.types.len() as int], lifetimes, bounded_ty, bounds));
            }
        },
        WherePredV::Lifetime { lifetime, bounds } => {
            let ls = add_predicate(ps, pred).lifetimes;
            if exists|i: int| 0 <= i < ps.lifetimes.len() && ps.lifetimes[i].lifetime == lifetime {
                let i = choose|i: int| 0 <= i < ps.lifetimes.len() && ps.lifetimes[i].lifetime == lifetime;
                lemma_add_all_unique_holds(ps.lifetimes[i].bounds, bounds);
                assert(lifetime_entry_holds(ls[i], lifetime, bounds));
            } else {
                lemma_add_all_unique_holds(Seq::<Seq<char>>::empty(), bounds);
                assert(lifetime_entry_holds(ls[ps.lifetimes.len() as int], lifetime, bounds));
            }
        },
        WherePredV::Eq => {},
    }
}

/// Adding a predicate keeps what a set of predicates requires.
proof fn lemma_add_predicate_keeps(ps: PredicatesV, pred: WherePredV, q: WherePredV)
    requires
        entails(ps, q),
    ensures
        entails(add_predicate(ps, pred), q),
{
    let out = add_predicate(ps, pred);
    match q {
        WherePredV::Type { lifetimes, bounded_ty, bounds } => {
            let i = choose|i: int| 0 <= i < ps.types.len() && #[trigger] type_entry_holds(ps.types[i], lifetimes, bounded_ty, bounds);
            match pred {
                WherePredV::Type { lifetimes: l2, bounded_ty: t2, bounds: b2 } => {
                    if exists|c: int| 0 <= c < ps.types.len() && ps.types[c].lifetimes == l2 && ps.types[c].bounded_ty == t2 {
                        let c = choose|c: int| 0 <= c < ps.types.len() && ps.types[c].lifetimes == l2 && ps.types[c].bounded_ty == t2;
                        lemma_add_all_unique_holds(ps.types[c].bounds, b2);
                        assert(type_entry_holds(out.types[i], lifetimes, bounded_ty, bounds));
                    } else {
                        assert(out.types[i] == ps.types[i]);
                        assert(type_entry_holds(out.types[i], lifetimes, bounded_ty, bounds));
                    }
                },
                _ => {
                    assert(type_entry_holds(out.types[i], lifetimes, bounded_ty, bounds));
                },
            }
        },
        WherePredV::Lifetime { lifetime, bounds } => {
            let i = choose|i: int| 0 <= i < ps.lifetimes.len() && #[trigger] lifetime_entry_holds(ps.lifetimes[i], lifetime, bounds);
            match pred {
                WherePredV::Lifetime { lifetime: l2, bounds: b2 } => {
                    if exists|c: int| 0 <= c < ps.lifetimes.len() && ps.lifetimes[c].lifetime == l2 {
                        let c = choose|c: int| 0 <= c < ps.lifetimes.len() && ps.lifetimes[c].lifetime == l2;
                        lemma_add_all_unique_holds(ps.lifetimes[c].bounds, b2);
                        assert(lifetime_entry_holds(out.lifetimes[i], lifetime, bounds));
                    } else {
                        assert(out.lifetimes[i] == ps.lifetimes[i]);
                        assert(lifetime_entry_holds(out.lifetimes[i], lifetime, bounds));
                    }
                },
                _ => {
                    assert(lifetime_entry_holds(out.lifetimes[i], lifetime, bounds));
                },
            }
        },
        WherePredV::Eq => {},
    }
}

/// Adding predicates in turn keeps what a set of predicates requires.
proof fn lemma_add_all_reporting_keeps(acc: ImplAcc, ps: Seq<WherePredV>, q: WherePredV)
    requires
        entails(acc.preds, q),
    ensures
        entails(add_all_reporting(acc, ps).preds, q),
    decreases ps.len(),
{
    if ps.len() > 0 {
        lemma_add_all_reporting_keeps(acc, ps.drop_last(), q);
        lemma_add_predicate_keeps(add_all_reporting(acc, ps.drop_last()).preds, ps.last(), q);
    }
}

/// Mapping fields keeps what the predicates gathered so far require.
proof fn lemma_fields_acc_keeps(acc: ImplAcc, m: MappingV, fields: Seq<FieldishV>, q: WherePredV)
    requires
        entails(acc.preds, q),
    ensures
        entails(fields_acc(acc, m, fields).0.preds, q),
    decreases fields.len(),
{
    if fields.len() > 0 {
        lemma_fields_acc_keeps(acc, m, fields.drop_last(), q);
        let a = fields_acc(acc, m, fields.drop_last()).0;
        let idx = fields.len() - 1;
        match map_v(m, MapExprV::Binding(idx as usize), fields.last().ty) {
            crate::map::MapOutcome::Done { expr, preds } => {
                lemma_add_all_reporting_keeps(a, predicates_of(crate::predicates::add_predicates(crate::predicates::no_predicates(), preds)), q);
            },
            _ => {},
        }
    }
}

/// Mapping the fields of variants keeps what the predicates gathered so far
/// require.
proof fn lemma_arms_acc_keeps(acc: ImplAcc, m: MappingV, variants: Seq<StructishV>, q: WherePredV)
    requires
        entails(acc.preds, q),
    ensures
        entails(arms_acc(acc, m, variants).0.preds, q),
    decreases variants.len(),
{
    if variants.len() > 0 {
        lemma_arms_acc_keeps(acc, m, variants.drop_last(), q);
        lemma_fields_acc_keeps(arms_acc(acc, m, variants.drop_last()).0, m, variants.last().fields, q);
    }
}

/// Each predicate of the `where` clause, with the mapped parameter renamed
/// to the source type, and again renamed to the destination type, is
/// required by the predicates that `where_acc` gathers.
proof fn lemma_where_acc_entails(
    acc: ImplAcc,
    preds: Seq<WherePredV>,
    mp: MappedTypeParamV,
    src: Seq<char>,
    dst: Seq<char>,
    i: int,
)
    requires
        0 <= i < preds.len(),
    ensures
        entails(where_acc(acc, preds, mp, src, dst).preds, subst_pred(adjust_pred(preds[i], mp), mp.ident, src)),
        entails(where_acc(acc, preds, mp, src, dst).preds, subst_pred(adjust_pred(preds[i], mp), mp.ident, dst)),
    decreases preds.len(),
{
    let a = where_acc(acc, preds.drop_last(), mp, src, dst);
    let q = adjust_pred(preds.last(), mp);
    let qs = subst_pred(q, mp.ident, src);
    let qd = subst_pred(q, mp.ident, dst);
    let b = add_reporting(a, qs);
    let ws = subst_pred(adjust_pred(preds[i], mp), mp.ident, src);
    let wd = subst_pred(adjust_pred(preds[i], mp), mp.ident, dst);
    if i < preds.len() - 1 {
        lemma_where_acc_entails(acc, preds.drop_last(), mp, src, dst, i);
        assert(preds.drop_last()[i] == preds[i]);
        lemma_add_predicate_keeps(a.preds, qs, ws);
        lemma_add_predicate_keeps(b.preds, qd, ws);
        lemma_add_predicate_keeps(a.preds, qs, wd);
        lemma_add_predicate_keeps(b.preds, qd, wd);
    } else {
        lemma_added_predicate_entailed(a.preds, qs);
        lemma_add_predicate_keeps(b.preds, qd, qs);
        lemma_added_predicate_entailed(b.preds, qd);
    }
}

/// The type entries with bounds become predicates of the `where` clause.
proof fn lemma_type_predicates_hold(es: Seq<TypeEntryV>, i: int)
    requires
        0 <= i < es.len(),
        es[i].bounds.len() > 0,
    ensures
        type_predicates(es).contains(WherePredV::Type { lifetimes: es[i].lifetimes, bounded_ty: es[i].bounded_ty, bounds: es[i].bounds }),
    decreases es.len(),
{
    let rest = type_predicates(es.drop_last());
    if i < es.len() - 1 {
        lemma_type_predicates_hold(es.drop_last(), i);
        assert(es.drop_last()[i] == es[i]);
        let w = WherePredV::Type { lifetimes: es[i].lifetimes, bounded_ty: es[i].bounded_ty, bounds: es[i].bounds };
        let j = choose|j: int| 0 <= j < rest.len() && rest[j] == w;
        let e = es.last();
        if e.bounds.len() > 0 {
            let tail = WherePredV::Type { lifetimes: e.lifetimes, bounded_ty: e.bounded_ty, bounds: e.bounds };
            assert(type_predicates(es) == rest.push(tail));
            assert(rest.push(tail)[j] == w);
        } else {
            assert(type_predicates(es) == rest);
        }
    } else {
        let w = WherePredV::Type { lifetimes: es[i].lifetimes, bounded_ty: es[i].bounded_ty, bounds: es[i].bounds };
        assert(type_predicates(es) == rest.push(w));
        assert(rest.push(w)[rest.len() as int] == w);
    }
}

/// The lifetime entries with bounds become predicates of the `where`
/// clause.
proof fn lemma_lifetime_predicates_hold(es: Seq<LifetimeEntryV>, i: int)
    requires
        0 <= i < es.len(),
        es[i].bounds.len() > 0,
    ensures
        lifetime_predicates(es).contains(WherePredV::Lifetime { lifetime: es[i].lifetime, bounds: es[i].bounds }),
    decreases es.len(),
{
    let rest = lifetime_predicates(es.drop_last());
    if i < es.len() - 1 {
        lemma_lifetime_predicates_hold(es.drop_last(), i);
        assert(es.drop_last()[i] == es[i]);
        let w = WherePredV::Lifetime { lifetime: es[i].lifetime, bounds: es[i].bounds };
        let j = choose|j: int| 0 <= j < rest.len() && rest[j] == w;
        if es.last().bounds.len() > 0 {
            assert(lifetime_predicates(es)[j] == w);
        }
    } else {
        assert(lifetime_predicates(es)[rest.len() as int] == WherePredV::Lifetime { lifetime: es[i].lifetime, bounds: es[i].bounds });
    }
}

/// What a set of predicates requires, its `where` clause requires.
proof fn lemma_clause_requires(ps: PredicatesV, q: WherePredV)
    requires
        entails(ps, q),
    ensures
        clause_requires(predicates_of(ps), q),
{
    let ls = lifetime_predicates(ps.lifetimes);
    let ws = predicates_of(ps);
    match q {
        WherePredV::Type { lifetimes, bounded_ty, bounds } => {
            if bounds.len() > 0 {
                let i = choose|i: int| 0 <= i < ps.types.len() && #[trigger] type_entry_holds(ps.types[i], lifetimes, bounded_ty, bounds);
                let e = ps.types[i];
                assert(bounds.contains(bounds[0]));
                assert(e.bounds.len() > 0);
                lemma_type_predicates_hold(ps.types, i);
                let w = WherePredV::Type { lifetimes: e.lifetimes, bounded_ty: e.bounded_ty, bounds: e.bounds };
                let j = choose|j: int| 0 <= j < type_predicates(ps.types).len() && type_predicates(ps.types)[j] == w;
                assert(ws[ls.len() + j] == w);
                assert(pred_holds(ws[ls.len() + j], q));
            }
        },
        WherePredV::Lifetime { lifetime, bounds } => {
            if bounds.len() > 0 {
                let i = choose|i: int| 0 <= i < ps.lifetimes.len() && #[trigger] lifetime_entry_holds(ps.lifetimes[i], lifetime, bounds);
                let e = ps.lifetimes[i];
                assert(bounds.contains(bounds[0]));
                assert(e.bounds.len() > 0);
                lemma_lifetime_predicates_hold(ps.lifetimes, i);
                let w = WherePredV::Lifetime { lifetime: e.lifetime, bounds: e.bounds };
                let j = choose|j: int| 0 <= j < ls.len() && ls[j] == w;
                assert(ws[j] == w);
                assert(pred_holds(ws[j], q));
            }
        },
        WherePredV::Eq => {},
    }
}

/// Every predicate of the item's `where` clause is required by the `where`
/// clause of each implementation twice: with the mapped parameter renamed
/// to the source type and with it renamed to the destination type (a
/// predicate bounding the parameter itself without its `?` bounds), so that
/// both `Self` and the `Output` type are well-formed.
pub proof fn law_impl_keeps_where_predicates(
    input: FuncMapInputV,
    d: Derivable,
    mp: MappedTypeParamV,
    src: Seq<char>,
    dst: Seq<char>,
    errors: Seq<Seq<char>>,
    i: int,
)
    requires
        0 <= i < where_preds(input.generics.where_clause).len(),
    ensures
        clause_requires(
            impl_for(input, d, mp, src, dst, errors).0.where_clause,
            subst_pred(adjust_pred(where_preds(input.generics.where_clause)[i], mp), mp.ident, src),
        ),
        clause_requires(
            impl_for(input, d, mp, src, dst, errors).0.where_clause,
            subst_pred(adjust_pred(where_preds(input.generics.where_clause)[i], mp), mp.ident, dst),
        ),
{
    let preds = where_preds(input.generics.where_clause);
    let acc0 = ImplAcc { preds: crate::predicates::no_predicates(), errors };
    let acc1 = where_acc(acc0, preds, mp, src, dst);
    let m = MappingV { param: mp.ident, src, dst, crate_path: input.crate_path, derivable: d };
    let ws = subst_pred(adjust_pred(preds[i], mp), mp.ident, src);
    let wd = subst_pred(adjust_pred(preds[i], mp), mp.ident, dst);
    lemma_where_acc_entails(acc0, preds, mp, src, dst, i);
    lemma_arms_acc_keeps(acc1, m, input.variants, ws);
    lemma_arms_acc_keeps(acc1, m, input.variants, wd);
    let acc2 = arms_acc(acc1, m, input.variants).0;
    lemma_clause_requires(acc2.preds, ws);
    lemma_clause_requires(acc2.preds, wd);
}

} // verus!
