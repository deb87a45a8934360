//! Generic parameters and `where` predicates of the input, and the
//! operations that the derive logic performs on them.
use vstd::prelude::*;

use proc_macro2::TokenStream;

use crate::syntax::{
    args_v, segments_v, bound_v, bounds_v, gen_arg_v, opt_text, token_text, ArgsV, GenArg, Name, PathArgs, PathV, Segment, SegmentV,
    Ty, TyKind, TyPath, TyV, TypeBound, TypeBoundV, GenArgV,
};

verus! {

/// A generic parameter: a type parameter `T: Bounds = Default`, a lifetime
/// parameter `'a: 'b` or a const parameter `const N: Ty = Default`, each
/// with its attributes.
#[derive(Debug)]
pub enum GenParam {
    Type { attrs: Vec<TokenStream>, ident: Name, bounds: Vec<TypeBound>, default: Option<Ty> },
    Lifetime { attrs: Vec<TokenStream>, lifetime: Name, bounds: Vec<Name> },
    Const { attrs: Vec<TokenStream>, ident: Name, ty: Ty, default: Option<TokenStream> },
}

/// The view of a generic parameter.
pub enum GenericParamV {
    Type { attrs: Seq<Seq<char>>, ident: Seq<char>, bounds: Seq<TypeBoundV>, default: Option<TyV> },
    Lifetime { attrs: Seq<Seq<char>>, lifetime: Seq<char>, bounds: Seq<Seq<char>> },
    Const { attrs: Seq<Seq<char>>, ident: Seq<char>, ty: TyV, default: Option<Seq<char>> },
}

/// A predicate of a `where` clause: a type predicate
/// `for<'a> Ty: Bounds`, a lifetime predicate `'a: 'b + 'c`, or an equality
/// predicate, of which only its `=` token is kept.
#[derive(Debug)]
pub enum WherePred {
    Type { lifetimes: Option<TokenStream>, bounded_ty: Ty, bounds: Vec<TypeBound> },
    Lifetime { lifetime: Name, bounds: Vec<Name> },
    Eq { eq_token: TokenStream },
}

/// The view of a `where` predicate.
pub enum WherePredV {
    Type { lifetimes: Option<Seq<char>>, bounded_ty: TyV, bounds: Seq<TypeBoundV> },
    Lifetime { lifetime: Seq<char>, bounds: Seq<Seq<char>> },
    Eq,
}

pub open spec fn texts_v(ts: Seq<TokenStream>) -> Seq<Seq<char>> {
    ts.map_values(|t: TokenStream| token_text(t))
}

pub open spec fn names_v(ns: Seq<Name>) -> Seq<Seq<char>> {
    ns.map_values(|n: Name| n@)
}

pub open spec fn opt_ty_v(t: Option<Ty>) -> Option<TyV> {
    match t {
        Some(t) => Some(t@),
        None => None,
    }
}

impl View for GenParam {
    type V = GenericParamV;

    open spec fn view(&self) -> GenericParamV {
        match *self {
            GenParam::Type { attrs, ident, bounds, default } => GenericParamV::Type {
                attrs: texts_v(attrs@),
                ident: ident@,
                bounds: bounds_v(bounds@),
                default: opt_ty_v(default),
            },
            GenParam::Lifetime { attrs, lifetime, bounds } => GenericParamV::Lifetime {
                attrs: texts_v(attrs@),
                lifetime: lifetime@,
                bounds: names_v(bounds@),
            },
            GenParam::Const { attrs, ident, ty, default } => GenericParamV::Const {
                attrs: texts_v(attrs@),
                ident: ident@,
                ty: ty@,
                default: opt_text(default),
            },
        }
    }
}

impl View for WherePred {
    type V = WherePredV;

    open spec fn view(&self) -> WherePredV {
        match *self {
            WherePred::Type { lifetimes, bounded_ty, bounds } => WherePredV::Type {
                lifetimes: opt_text(lifetimes),
                bounded_ty: bounded_ty@,
                bounds: bounds_v(bounds@),
            },
            WherePred::Lifetime { lifetime, bounds } => WherePredV::Lifetime {
                lifetime: lifetime@,
                bounds: names_v(bounds@),
            },
            WherePred::Eq { eq_token } => WherePredV::Eq,
        }
    }
}

/// The type named by the single identifier `name`.
pub open spec fn ident_ty(name: Seq<char>) -> TyV {
    TyV::Path(PathV {
        qself: None,
        leading_colon: false,
        segments: seq![SegmentV { ident: name, args: ArgsV::Plain }],
        trailing_colon: false,
    })
}

/// The generic argument that names the parameter `p`: a type parameter or
/// const parameter is named as a type, a lifetime parameter as a lifetime.
pub open spec fn param_arg(p: GenericParamV) -> GenArgV {
    match p {
        GenericParamV::Type { ident, .. } => GenArgV::Type(ident_ty(ident)),
        GenericParamV::Lifetime { lifetime, .. } => GenArgV::Lifetime(lifetime),
        GenericParamV::Const { ident, .. } => GenArgV::Type(ident_ty(ident)),
    }
}


/// Copies a list of names.
pub fn copy_names(names: &Vec<Name>) -> (copy: Vec<Name>)
    ensures
        names_v(copy@) == names_v(names@),
{
    let mut copy: Vec<Name> = Vec::new();
    let mut i: usize = 0;
    while i < names.len()
        invariant
            i <= names.len(),
            copy@.len() == i,
            forall|k: int| 0 <= k < i ==> (#[trigger] copy@[k])@ == names@[k]@,
        decreases names.len() - i,
    {
        copy.push(names[i].copy());
        i += 1;
    }
    assert(names_v(copy@) =~= names_v(names@));
    copy
}

/// The type named by `ident` alone.
///
/// The tokens of the type are empty: it is made by the derive logic and
/// never located in the input.
pub fn into_type(ident: Name) -> (ty: Ty)
    ensures
        ty@ == ident_ty(ident@),
{
    let ghost text = ident@;
    let mut segments: Vec<Segment> = Vec::new();
    segments.push(Segment { ident, args: PathArgs::Plain });
    assert(args_v(PathArgs::Plain) == ArgsV::Plain);
    assert(segments_v(segments@)[0] == SegmentV { ident: text, args: ArgsV::Plain });
    let path = TyPath { qself: None, leading_colon: false, segments, trailing_colon: false };
    let ghost pv = path@;
    assert(pv.segments[0] == SegmentV { ident: text, args: ArgsV::Plain });
    assert(pv.segments =~= seq![SegmentV { ident: text, args: ArgsV::Plain }]);
    let ty = Ty { kind: TyKind::Path(path), tokens: crate::diagnostic::empty_token_stream() };
    assert(ty@ == TyV::Path(pv));
    ty
}

/// `g` is a type argument or a const argument, which may be syntactically
/// indistinguishable from a type.
pub open spec fn typish_arg(g: GenArgV) -> bool {
    g is Type || g is Const
}

/// `p` is a type parameter or a const parameter, which may be syntactically
/// indistinguishable from a type.
pub open spec fn typish_param(p: GenericParamV) -> bool {
    p is Type || p is Const
}

impl GenArg {
    /// Whether this argument is a type or may be syntactically
    /// indistinguishable from one (a const argument).
    pub fn is_typish(&self) -> (typish: bool)
        ensures
            typish == typish_arg(gen_arg_v(*self)),
    {
        match self {
            GenArg::Type(_) => true,
            GenArg::Const(_) => true,
            _ => false,
        }
    }
}

impl GenParam {
    /// Whether this parameter is a type parameter or may be syntactically
    /// indistinguishable from one (a const parameter).
    pub fn is_typish(&self) -> (typish: bool)
        ensures
            typish == typish_param(self@),
    {
        match self {
            GenParam::Type { .. } => true,
            GenParam::Const { .. } => true,
            _ => false,
        }
    }

    /// The generic argument naming this parameter.
    pub fn into_generic_argument(self) -> (arg: GenArg)
        ensures
            gen_arg_v(arg) == param_arg(self@),
    {
        match self {
            GenParam::Type { ident, .. } => GenArg::Type(into_type(ident)),
            GenParam::Lifetime { lifetime, .. } => GenArg::Lifetime(lifetime),
            GenParam::Const { ident, .. } => GenArg::Type(into_type(ident)),
        }
    }

    /// This parameter without its attributes.
    pub fn without_attrs(self) -> (p: GenParam)
        ensures
            p@ == without_attrs_v(self@),
    {
        let none: Vec<TokenStream> = Vec::new();
        assert(texts_v(none@) =~= Seq::empty());
        match self {
            GenParam::Type { attrs, ident, bounds, default } => GenParam::Type {
                attrs: none,
                ident,
                bounds,
                default,
            },
            GenParam::Lifetime { attrs, lifetime, bounds } => GenParam::Lifetime {
                attrs: none,
                lifetime,
                bounds,
            },
            GenParam::Const { attrs, ident, ty, default } => GenParam::Const {
                attrs: none,
                ident,
                ty,
                default,
            },
        }
    }

    /// This parameter without its default value.
    pub fn without_default(self) -> (p: GenParam)
        ensures
            p@ == without_default_v(self@),
    {
        match self {
            GenParam::Type { attrs, ident, bounds, default } => GenParam::Type {
                attrs,
                ident,
                bounds,
                default: None,
            },
            GenParam::Const { attrs, ident, ty, default } => GenParam::Const {
                attrs,
                ident,
                ty,
                default: None,
            },
            p => p,
        }
    }
}

/// `p` without its attributes.
pub open spec fn without_attrs_v(p: GenericParamV) -> GenericParamV {
    match p {
        GenericParamV::Type { attrs, ident, bounds, default } => GenericParamV::Type {
            attrs: Seq::empty(),
            ident,
            bounds,
            default,
        },
        GenericParamV::Lifetime { attrs, lifetime, bounds } => GenericParamV::Lifetime {
            attrs: Seq::empty(),
            lifetime,
            bounds,
        },
        GenericParamV::Const { attrs, ident, ty, default } => GenericParamV::Const {
            attrs: Seq::empty(),
            ident,
            ty,
            default,
        },
    }
}

/// `p` without its default value.
pub open spec fn without_default_v(p: GenericParamV) -> GenericParamV {
    match p {
        GenericParamV::Type { attrs, ident, bounds, default } => GenericParamV::Type {
            attrs,
            ident,
            bounds,
            default: None,
        },
        GenericParamV::Const { attrs, ident, ty, default } => GenericParamV::Const {
            attrs,
            ident,
            ty,
            default: None,
        },
        p => p,
    }
}

/// `b` is a maybe bound such as `?Sized`.
pub open spec fn is_maybe(b: TypeBoundV) -> bool {
    b matches TypeBoundV::Trait { maybe: true, .. }
}

/// The bounds without those that are maybe bounds, in order.
pub open spec fn without_maybe(bounds: Seq<TypeBoundV>) -> Seq<TypeBoundV>
    decreases bounds.len(),
{
    if bounds.len() == 0 {
        Seq::empty()
    } else {
        let rest = without_maybe(bounds.drop_last());
        if is_maybe(bounds.last()) {
            rest
        } else {
            rest.push(bounds.last())
        }
    }
}

/// The bounds `bounds` without the maybe bounds such as `?Sized`.
pub fn without_maybe_bounds(bounds: Vec<TypeBound>) -> (kept: Vec<TypeBound>)
    ensures
        bounds_v(kept@) == without_maybe(bounds_v(bounds@)),
{
    let ghost xs = bounds@;
    let mut kept: Vec<TypeBound> = Vec::new();
    for b in it: bounds
        invariant
            xs == it.seq(),
            bounds_v(kept@) == without_maybe(bounds_v(xs.take(it.index() as int))),
    {
        let ghost i = it.index() as int;
        let maybe = match &b {
            TypeBound::Trait { maybe, .. } => *maybe,
            TypeBound::Other(_) => false,
        };
        proof {
            assert(xs[i] == b);
            assert(bounds_v(xs.take(i + 1)).drop_last() =~= bounds_v(xs.take(i)));
            assert(bounds_v(xs.take(i + 1)).last() == bound_v(b));
        }
        if !maybe {
            kept.push(b);
            proof {
                assert(bounds_v(kept@) =~= bounds_v(kept@.drop_last()).push(bound_v(b)));
            }
        }
    }
    proof {
        assert(xs.take(xs.len() as int) =~= xs);
    }
    kept
}


/// Copies a list of token streams.
pub fn copy_token_list(ts: &Vec<TokenStream>) -> (copy: Vec<TokenStream>)
    ensures
        copy@ == ts@,
{
    let mut copy: Vec<TokenStream> = Vec::new();
    let mut i: usize = 0;
    while i < ts.len()
        invariant
            i <= ts.len(),
            copy@ == ts@.take(i as int),
        decreases ts.len() - i,
    {
        copy.push(crate::syntax::clone_tokens(&ts[i]));
        i += 1;
        assert(copy@ =~= ts@.take(i as int));
    }
    assert(ts@.take(i as int) =~= ts@);
    copy
}

/// Copies a list of bounds.
pub fn copy_bounds(bs: &Vec<TypeBound>) -> (copy: Vec<TypeBound>)
    ensures
        bounds_v(copy@) == bounds_v(bs@),
{
    let mut copy: Vec<TypeBound> = Vec::new();
    let mut i: usize = 0;
    while i < bs.len()
        invariant
            i <= bs.len(),
            copy@.len() == i,
            forall|k: int| 0 <= k < i ==> (#[trigger] copy@[k])@ == bs@[k]@,
        decreases bs.len() - i,
    {
        copy.push(crate::syntax::copy_bound(&bs[i]));
        i += 1;
    }
    assert(bounds_v(copy@) =~= bounds_v(bs@));
    copy
}

impl GenParam {
    /// Copies this parameter, spans included.
    pub fn copy(&self) -> (copy: GenParam)
        ensures
            copy@ == self@,
    {
        match self {
            GenParam::Type { attrs, ident, bounds, default } => GenParam::Type {
                attrs: copy_token_list(attrs),
                ident: ident.copy(),
                bounds: copy_bounds(bounds),
                default: match default {
                    Some(t) => Some(crate::syntax::copy_ty(t)),
                    None => None,
                },
            },
            GenParam::Lifetime { attrs, lifetime, bounds } => GenParam::Lifetime {
                attrs: copy_token_list(attrs),
                lifetime: lifetime.copy(),
                bounds: copy_names(bounds),
            },
            GenParam::Const { attrs, ident, ty, default } => GenParam::Const {
                attrs: copy_token_list(attrs),
                ident: ident.copy(),
                ty: crate::syntax::copy_ty(ty),
                default: match default {
                    Some(t) => Some(crate::syntax::clone_tokens(t)),
                    None => None,
                },
            },
        }
    }
}


/// The predicate `p` with the type named `from` renamed to `to`.
pub open spec fn subst_pred(p: WherePredV, from: Seq<char>, to: Seq<char>) -> WherePredV {
    match p {
        WherePredV::Type { lifetimes, bounded_ty, bounds } => WherePredV::Type {
            lifetimes,
            bounded_ty: crate::syntax::subst_ty(bounded_ty, from, to),
            bounds: Seq::new(bounds.len(), |i: int| crate::syntax::subst_bound(bounds[i], from, to)),
        },
        p => p,
    }
}

impl WherePred {
    /// Substitutes the type named `from` with `to` within this predicate.
    pub fn subs_type(&self, from: &String, to: &Name) -> (pred: WherePred)
        ensures
            pred@ == subst_pred(self@, from@, to@),
    {
        match self {
            WherePred::Type { lifetimes, bounded_ty, bounds } => {
                let mut bs: Vec<TypeBound> = Vec::new();
                let mut i: usize = 0;
                while i < bounds.len()
                    invariant
                        i <= bounds.len(),
                        bs@.len() == i,
                        forall|k: int| 0 <= k < i ==> (#[trigger] bs@[k])@ == crate::syntax::subst_bound(bounds@[k]@, from@, to@),
                    decreases bounds.len() - i,
                {
                    bs.push(crate::syntax::subs_bound(&bounds[i], from, to));
                    i += 1;
                }
                let ghost bv = bounds_v(bounds@);
                assert(bounds_v(bs@) =~= Seq::new(bv.len(), |k: int| crate::syntax::subst_bound(bv[k], from@, to@)));
                WherePred::Type {
                    lifetimes: match lifetimes {
                        Some(l) => Some(crate::syntax::clone_tokens(l)),
                        None => None,
                    },
                    bounded_ty: crate::syntax::subs_type(bounded_ty, from, to),
                    bounds: bs,
                }
            },
            WherePred::Lifetime { lifetime, bounds } => WherePred::Lifetime {
                lifetime: lifetime.copy(),
                bounds: copy_names(bounds),
            },
            WherePred::Eq { eq_token } => WherePred::Eq { eq_token: crate::syntax::clone_tokens(eq_token) },
        }
    }

    /// Copies this predicate, spans included.
    pub fn copy(&self) -> (copy: WherePred)
        ensures
            copy@ == self@,
    {
        match self {
            WherePred::Type { lifetimes, bounded_ty, bounds } => WherePred::Type {
                lifetimes: match lifetimes {
                    Some(l) => Some(crate::syntax::clone_tokens(l)),
                    None => None,
                },
                bounded_ty: crate::syntax::copy_ty(bounded_ty),
                bounds: copy_bounds(bounds),
            },
            WherePred::Lifetime { lifetime, bounds } => WherePred::Lifetime {
                lifetime: lifetime.copy(),
                bounds: copy_names(bounds),
            },
            WherePred::Eq { eq_token } => WherePred::Eq { eq_token: crate::syntax::clone_tokens(eq_token) },
        }
    }

    /// This predicate, if it is a type predicate, without the maybe bounds
    /// such as `?Sized`.
    pub fn without_maybe_bounds(self) -> (pred: WherePred)
        ensures
            pred@ == match self@ {
                WherePredV::Type { lifetimes, bounded_ty, bounds } => WherePredV::Type {
                    lifetimes,
                    bounded_ty,
                    bounds: without_maybe(bounds),
                },
                p => p,
            },
    {
        match self {
            WherePred::Type { lifetimes, bounded_ty, bounds } => WherePred::Type {
                lifetimes,
                bounded_ty,
                bounds: without_maybe_bounds(bounds),
            },
            p => p,
        }
    }
}

} // verus!
