//! The mapping of a value of a given type: the expression that maps it and
//! the predicates that the mapping requires.
use vstd::prelude::*;

use proc_macro2::{Span, TokenStream};

use crate::derivable::Derivable;
use crate::diagnostic::new_spanned_syn_error;
use crate::generics::{WherePred, WherePredV};
use crate::ident::{FALLIBLE_TRAIT_IDENT, MARKER_TYPE_IDENT, OUTPUT_TYPE_IDENT, TRAIT_IDENT};
use crate::ident_collector::decimal;
use crate::predicates::{add_predicate, add_predicates, keys_distinct, no_predicates, UniquePredicates};
use crate::result::DeriveError;
use crate::syntax::{
    args_v, copy_gen_arg, copy_ty, dependency_on_type, gen_arg_v, gen_args_v, path_dependency,
    path_depends, segments_v, subs_type, subst_ty, token_text, ty_depends, ArgsV, GenArg, GenArgV,
    Name, OtherKind, PathArgs, PathV, PieceV, QualifiedSelf, Segment, SegmentV, Ty, TyKind, TyPath, TyV,
    TypeBound, TypeBoundV, Piece,
};

verus! {

/// An expression of the generated code that maps a value.
#[derive(Debug)]
pub enum MapExpr {
    /// The binding of the field with the given index in the match arm.
    Binding(usize),
    /// The argument `value` of the closure in which the expression stands.
    Value,
    /// The field `index` of the tuple `base`: `base.index`.
    TupleField { base: Box<MapExpr>, index: usize },
    /// A call of the mapping function `f(arg)`.
    CallFn { arg: Box<MapExpr> },
    /// A call of the derived trait's method on `arg` with `closure`; with a
    /// marker, the call names the marker type:
    /// `crate::Trait::<_, _, crate::TypeParam::<marker>>::method(arg, closure)`,
    /// without one it does not: `crate::Trait::method(arg, closure)`.
    CallTrait { marker: Option<usize>, arg: Box<MapExpr>, closure: Box<MapExpr> },
    /// A closure `|value| body`.
    Closure { body: Box<MapExpr> },
    /// `expr?`.
    Try(Box<MapExpr>),
    /// `::core::result::Result::Ok(expr)`.
    WrapOk(Box<MapExpr>),
    /// A tuple `(elems, ...)`.
    Tuple(Vec<MapExpr>),
}

/// The view of a mapping expression.
pub enum MapExprV {
    Binding(usize),
    Value,
    TupleField { base: Box<MapExprV>, index: usize },
    CallFn { arg: Box<MapExprV> },
    CallTrait { marker: Option<usize>, arg: Box<MapExprV>, closure: Box<MapExprV> },
    Closure { body: Box<MapExprV> },
    Try(Box<MapExprV>),
    WrapOk(Box<MapExprV>),
    Tuple(Seq<MapExprV>),
}

pub open spec fn expr_v(e: MapExpr) -> MapExprV
    decreases e,
{
    match e {
        MapExpr::Binding(i) => MapExprV::Binding(i),
        MapExpr::Value => MapExprV::Value,
        MapExpr::TupleField { base, index } => MapExprV::TupleField { base: Box::new(expr_v(*base)), index },
        MapExpr::CallFn { arg } => MapExprV::CallFn { arg: Box::new(expr_v(*arg)) },
        MapExpr::CallTrait { marker, arg, closure } => MapExprV::CallTrait {
            marker,
            arg: Box::new(expr_v(*arg)),
            closure: Box::new(expr_v(*closure)),
        },
        MapExpr::Closure { body } => MapExprV::Closure { body: Box::new(expr_v(*body)) },
        MapExpr::Try(e) => MapExprV::Try(Box::new(expr_v(*e))),
        MapExpr::WrapOk(e) => MapExprV::WrapOk(Box::new(expr_v(*e))),
        MapExpr::Tuple(es) => MapExprV::Tuple(
            Seq::new(es@.len(), |i: int| if 0 <= i < es@.len() { expr_v(es@[i]) } else { MapExprV::Value }),
        ),
    }
}

impl View for MapExpr {
    type V = MapExprV;

    open spec fn view(&self) -> MapExprV {
        expr_v(*self)
    }
}

/// "Unwraps" an expression in implementations of the derivable trait `d`:
/// in fallible ones, `expr?`.
pub open spec fn bind_v(d: Derivable, e: MapExprV) -> MapExprV {
    match d {
        Derivable::Standard => e,
        Derivable::Fallible => MapExprV::Try(Box::new(e)),
    }
}

/// "Wraps" an expression in implementations of the derivable trait `d`: in
/// fallible ones, `Ok(expr)`.
pub open spec fn unit_v(d: Derivable, e: MapExprV) -> MapExprV {
    match d {
        Derivable::Standard => e,
        Derivable::Fallible => MapExprV::WrapOk(Box::new(e)),
    }
}

impl Derivable {
    /// "Unwraps" an expression in implementations of this derivable trait.
    ///
    /// This is named after the *bind* operation for monads.
    pub fn bind_expr(self, expr: MapExpr) -> (bound: MapExpr)
        ensures
            bound@ == bind_v(self, expr@),
    {
        match self {
            Derivable::Standard => expr,
            Derivable::Fallible => MapExpr::Try(Box::new(expr)),
        }
    }

    /// "Wraps" an expression in implementations of this derivable trait.
    ///
    /// This is named after the *unit* operation for monads.
    pub fn unit_expr(self, expr: MapExpr) -> (unit: MapExpr)
        ensures
            unit@ == unit_v(self, expr@),
    {
        match self {
            Derivable::Standard => expr,
            Derivable::Fallible => MapExpr::WrapOk(Box::new(expr)),
        }
    }
}

/// The name of the derivable trait `d`.
pub open spec fn trait_name(d: Derivable) -> Seq<char> {
    match d {
        Derivable::Standard => TRAIT_IDENT@,
        Derivable::Fallible => FALLIBLE_TRAIT_IDENT@,
    }
}

/// The view of a mapping: the type parameter to map over, the names of the
/// source and destination types, the path to the crate and the derived
/// trait.
pub struct MappingV {
    pub param: Seq<char>,
    pub src: Seq<char>,
    pub dst: Seq<char>,
    pub crate_path: PathV,
    pub derivable: Derivable,
}

/// The outcome of mapping: the expression and the predicates that it
/// requires, in the order in which they arise, or the message of the error.
pub enum MapOutcome {
    Done { expr: MapExprV, preds: Seq<WherePredV> },
    Refused { message: Seq<char> },
}

/// A segment without arguments.
pub open spec fn plain_segment(ident: Seq<char>) -> SegmentV {
    SegmentV { ident, args: ArgsV::Plain }
}

/// The predicate `ty: ::core::marker::Sized`.
pub open spec fn sized_pred(ty: TyV) -> WherePredV {
    WherePredV::Type {
        lifetimes: None,
        bounded_ty: ty,
        bounds: seq![TypeBoundV::Trait {
            paren: false,
            maybe: false,
            lifetimes: None,
            path: PathV {
                qself: None,
                leading_colon: true,
                segments: seq![plain_segment("core"@), plain_segment("marker"@), plain_segment("Sized"@)],
                trailing_colon: false,
            },
        }],
    }
}

/// The path to the item `ident` with arguments `args` of the crate.
pub open spec fn crate_item(m: MappingV, ident: Seq<char>, args: ArgsV) -> PathV {
    PathV {
        qself: None,
        leading_colon: m.crate_path.leading_colon,
        segments: m.crate_path.segments.push(SegmentV { ident, args }),
        trailing_colon: false,
    }
}

/// The text of the literal `k` with suffix `usize`.
pub open spec fn usize_text(k: usize) -> Seq<char> {
    decimal(k as nat) + "usize"@
}

/// The marker type `crate::TypeParam<k>`.
pub open spec fn marker_ty(m: MappingV, k: usize) -> TyV {
    TyV::Path(crate_item(
        m,
        MARKER_TYPE_IDENT@,
        ArgsV::Angle { colon2: false, args: seq![GenArgV::Const(seq![PieceV::Tokens(usize_text(k))])] },
    ))
}

/// The predicate `src: crate::Trait<inner_src, inner_dst,
/// crate::TypeParam<k>, Output = dst>`.
pub open spec fn trait_pred(m: MappingV, src: TyV, inner_src: TyV, inner_dst: TyV, k: usize, dst: TyV) -> WherePredV {
    WherePredV::Type {
        lifetimes: None,
        bounded_ty: src,
        bounds: seq![TypeBoundV::Trait {
            paren: false,
            maybe: false,
            lifetimes: None,
            path: crate_item(
                m,
                trait_name(m.derivable),
                ArgsV::Angle {
                    colon2: false,
                    args: seq![
                        GenArgV::Type(inner_src),
                        GenArgV::Type(inner_dst),
                        GenArgV::Type(marker_ty(m, k)),
                        GenArgV::AssocType { ident: OUTPUT_TYPE_IDENT@, ty: dst },
                    ],
                },
            ),
        }],
    }
}

/// The number of arguments among `args` that are types or consts.
pub open spec fn count_typish(args: Seq<GenArgV>) -> nat
    decreases args.len(),
{
    if args.len() == 0 {
        0
    } else {
        count_typish(args.drop_last()) + if args.last() is Type || args.last() is Const { 1nat } else { 0nat }
    }
}

/// The arguments `args` with the type named by the mapping's parameter
/// renamed in each type argument: to the destination type in the first `k`
/// type or const arguments, to the source type in the others.
pub open spec fn mapped_args(m: MappingV, args: Seq<GenArgV>, k: nat) -> Seq<GenArgV> {
    Seq::new(
        args.len(),
        |i: int| match args[i] {
            GenArgV::Type(t) => GenArgV::Type(
                if count_typish(args.take(i)) >= k {
                    subst_ty(t, m.param, m.src)
                } else {
                    subst_ty(t, m.param, m.dst)
                },
            ),
            a => a,
        },
    )
}

/// The path type `p`, whose last segment has the arguments `args` in angle
/// brackets, with these arguments replaced by [`mapped_args`].
pub open spec fn mapped_path_ty(m: MappingV, p: PathV, colon2: bool, args: Seq<GenArgV>, k: nat) -> TyV {
    TyV::Path(PathV {
        qself: p.qself,
        leading_colon: p.leading_colon,
        segments: p.segments.drop_last().push(SegmentV {
            ident: p.segments.last().ident,
            args: ArgsV::Angle { colon2, args: mapped_args(m, args, k) },
        }),
        trailing_colon: false,
    })
}

/// The path `p` without its last segment.
pub open spec fn prefix_v(p: PathV) -> PathV {
    PathV { segments: p.segments.drop_last(), ..p }
}

/// The closure `|value| body`, with the body wrapped for the derived trait.
pub open spec fn closure_v(m: MappingV, body: MapExprV) -> MapExprV {
    MapExprV::Closure { body: Box::new(unit_v(m.derivable, body)) }
}

pub open spec fn macro_message() -> Seq<char> {
    "`derive` cannot be used on items with type macros"@
}

pub open spec fn assoc_message() -> Seq<char> {
    "mapping over type with associated item is not supported"@
}

pub open spec fn trailing_message() -> Seq<char> {
    "mapping over type with trailing :: is not supported"@
}

pub open spec fn empty_message() -> Seq<char> {
    "mapping over empty type is not supported"@
}

pub open spec fn fn_message() -> Seq<char> {
    "mapping over function type is not supported"@
}

/// The message of the error for mapping over a type of the kind `kind`.
pub open spec fn other_message(kind: OtherKind) -> Seq<char> {
    match kind {
        OtherKind::BareFn => fn_message(),
        OtherKind::Ptr => "mapping over pointer type is not supported"@,
        OtherKind::Reference => "mapping over reference type is not supported"@,
        OtherKind::Slice => "mapping over slice type is not supported"@,
        OtherKind::TraitObject => "mapping over trait object type is not supported"@,
        _ => "mapping over this type is not supported"@,
    }
}

/// The mapping `m` applied to the expression `e` of type `t`.
///
/// A type that does not depend on the parameter is left as it is and only
/// required to be sized. The parameter itself is mapped by the mapping
/// function; arrays and path types with type arguments by the derived trait,
/// one argument after the other; tuples element by element.
pub open spec fn map_v(m: MappingV, e: MapExprV, t: TyV) -> MapOutcome
    decreases t,
{
    if t matches TyV::Other { kind: OtherKind::Macro, .. } {
        MapOutcome::Refused { message: macro_message() }
    } else if !ty_depends(t, m.param) {
        MapOutcome::Done { expr: e, preds: seq![sized_pred(t)] }
    } else {
        match t {
            TyV::Array { elem, len } => match map_v(m, MapExprV::Value, *elem) {
                MapOutcome::Done { expr, preds } => MapOutcome::Done {
                    expr: bind_v(
                        m.derivable,
                        MapExprV::CallTrait { marker: None, arg: Box::new(e), closure: Box::new(closure_v(m, expr)) },
                    ),
                    preds,
                },
                r => r,
            },
            TyV::Paren { elem } => map_v(m, e, *elem),
            TyV::Tuple { elems } => map_tuple_v(m, e, elems),
            TyV::Path(p) => {
                if p.qself matches Some(q) && ty_depends(*q.ty, m.param) {
                    MapOutcome::Refused { message: assoc_message() }
                } else if p.segments.len() == 0 {
                    MapOutcome::Refused { message: empty_message() }
                } else if p.trailing_colon {
                    MapOutcome::Refused { message: trailing_message() }
                } else if path_depends(prefix_v(p), m.param, true) {
                    MapOutcome::Refused { message: assoc_message() }
                } else {
                    match p.segments.last().args {
                        ArgsV::Plain => MapOutcome::Done {
                            expr: bind_v(m.derivable, MapExprV::CallFn { arg: Box::new(e) }),
                            preds: Seq::empty(),
                        },
                        ArgsV::Paren { pieces } => MapOutcome::Refused { message: fn_message() },
                        ArgsV::Angle { colon2, args } => map_args_v(m, e, p, colon2, args, args),
                    }
                }
            },
            TyV::Other { kind, pieces } => MapOutcome::Refused { message: other_message(kind) },
        }
    }
}

/// The mapping `m` applied to the elements `elems` of the tuple `e`.
pub open spec fn map_tuple_v(m: MappingV, e: MapExprV, elems: Seq<TyV>) -> MapOutcome
    decreases elems,
{
    if elems.len() == 0 {
        MapOutcome::Done { expr: MapExprV::Tuple(Seq::empty()), preds: Seq::empty() }
    } else {
        match map_tuple_v(m, e, elems.drop_last()) {
            MapOutcome::Done { expr, preds } => {
                let field = MapExprV::TupleField { base: Box::new(e), index: (elems.len() - 1) as usize };
                match map_v(m, field, elems.last()) {
                    MapOutcome::Done { expr: x, preds: q } => MapOutcome::Done {
                        expr: MapExprV::Tuple(expr->Tuple_0.push(x)),
                        preds: preds + q,
                    },
                    r => r,
                }
            },
            r => r,
        }
    }
}

/// The mapping `m` applied to `e` of the path type `p`, for the type
/// arguments among `done`, a prefix of the arguments `all` of the last
/// segment of `p`: each one that depends on the parameter is mapped by the
/// derived trait with the marker of its position among the type and const
/// arguments.
pub open spec fn map_args_v(
    m: MappingV,
    e: MapExprV,
    p: PathV,
    colon2: bool,
    all: Seq<GenArgV>,
    done: Seq<GenArgV>,
) -> MapOutcome
    decreases done,
{
    if done.len() == 0 {
        MapOutcome::Done { expr: e, preds: Seq::empty() }
    } else {
        match map_args_v(m, e, p, colon2, all, done.drop_last()) {
            MapOutcome::Done { expr, preds } => {
                let k = count_typish(done.drop_last());
                match done.last() {
                    GenArgV::Type(t) => if ty_depends(t, m.param) {
                        let pred = trait_pred(
                            m,
                            mapped_path_ty(m, p, colon2, all, k),
                            subst_ty(t, m.param, m.src),
                            subst_ty(t, m.param, m.dst),
                            k as usize,
                            mapped_path_ty(m, p, colon2, all, k + 1),
                        );
                        match map_v(m, MapExprV::Value, t) {
                            MapOutcome::Done { expr: c, preds: q } => MapOutcome::Done {
                                expr: bind_v(
                                    m.derivable,
                                    MapExprV::CallTrait {
                                        marker: Some(k as usize),
                                        arg: Box::new(expr),
                                        closure: Box::new(closure_v(m, c)),
                                    },
                                ),
                                preds: preds.push(pred) + q,
                            },
                            r => r,
                        }
                    } else {
                        MapOutcome::Done { expr, preds }
                    },
                    _ => MapOutcome::Done { expr, preds },
                }
            },
            r => r,
        }
    }
}


// ---------------------------------------------------------------------------
// Executable mapping

/// The literal `k` with suffix `usize`, as tokens.
///
/// Calls `proc_macro2::Literal::usize_suffixed`; the contract claims that
/// the tokens render as the decimal notation of `k` followed by `usize`, as
/// that function's documentation shows.
#[verifier::external_body]
fn usize_literal(k: usize) -> (lit: TokenStream)
    ensures
        token_text(lit) == usize_text(k),
{
    TokenStream::from(proc_macro2::TokenTree::Literal(proc_macro2::Literal::usize_suffixed(k)))
}

/// Configuration of a mapping for a given type.
#[derive(Debug, Clone, Copy)]
pub struct Mapping<'a> {
    /// Identifier of the type parameter to map over.
    pub type_param: &'a Name,
    /// Identifier of the source type of the mapping.
    pub src_type_ident: &'a Name,
    /// Identifier of the destination type of the mapping.
    pub dst_type_ident: &'a Name,
    /// Path to the crate that defines the derivable traits.
    pub crate_path: &'a TyPath,
    /// Trait being derived.
    pub derivable: Derivable,
    /// Span of the identifiers that the mapping generates.
    pub span: Span,
}

impl View for Mapping<'_> {
    type V = MappingV;

    open spec fn view(&self) -> MappingV {
        MappingV {
            param: self.type_param@,
            src: self.src_type_ident@,
            dst: self.dst_type_ident@,
            crate_path: self.crate_path@,
            derivable: self.derivable,
        }
    }
}

/// Result of a mapping.
#[derive(Debug)]
pub struct Mapped {
    /// The expression that maps the value.
    pub expr: MapExpr,
    /// Predicates required by the mapping.
    pub predicates: UniquePredicates,
}

/// `res` is what `outcome` describes, and the predicates went from
/// `before` to `after` by adding those of the outcome in turn.
pub open spec fn mapped_as(
    outcome: MapOutcome,
    before: crate::predicates::PredicatesV,
    after: crate::predicates::PredicatesV,
    res: Result<MapExpr, DeriveError>,
) -> bool {
    match outcome {
        MapOutcome::Done { expr, preds } => res matches Ok(x) && x@ == expr && after == add_predicates(before, preds)
            && keys_distinct(after),
        MapOutcome::Refused { message } => res matches Err(e) && e.messages() == seq![message],
    }
}

/// Adding predicates one list after another adds their concatenation.
pub proof fn lemma_add_predicates_concat(
    p: crate::predicates::PredicatesV,
    a: Seq<WherePredV>,
    b: Seq<WherePredV>,
)
    ensures
        add_predicates(add_predicates(p, a), b) == add_predicates(p, a + b),
    decreases b.len(),
{
    if b.len() == 0 {
        assert(a + b =~= a);
    } else {
        lemma_add_predicates_concat(p, a, b.drop_last());
        assert((a + b).drop_last() =~= a + b.drop_last());
        assert((a + b).last() == b.last());
    }
}

/// Once mapping the elements of a tuple fails, mapping more of them fails
/// with the same message.
proof fn lemma_tuple_refused_stays(m: MappingV, e: MapExprV, elems: Seq<TyV>, i: int)
    requires
        0 <= i <= elems.len(),
        map_tuple_v(m, e, elems.take(i)) is Refused,
    ensures
        map_tuple_v(m, e, elems) == map_tuple_v(m, e, elems.take(i)),
    decreases elems.len() - i,
{
    if i < elems.len() {
        assert(elems.take(i + 1).drop_last() =~= elems.take(i));
        lemma_tuple_refused_stays(m, e, elems, i + 1);
    } else {
        assert(elems.take(i) =~= elems);
    }
}

/// Once mapping the arguments of a path type fails, mapping more of them
/// fails with the same message.
proof fn lemma_args_refused_stays(m: MappingV, e: MapExprV, p: PathV, colon2: bool, all: Seq<GenArgV>, i: int)
    requires
        0 <= i <= all.len(),
        map_args_v(m, e, p, colon2, all, all.take(i)) is Refused,
    ensures
        map_args_v(m, e, p, colon2, all, all) == map_args_v(m, e, p, colon2, all, all.take(i)),
    decreases all.len() - i,
{
    if i < all.len() {
        assert(all.take(i + 1).drop_last() =~= all.take(i));
        lemma_args_refused_stays(m, e, p, colon2, all, i + 1);
    } else {
        assert(all.take(i) =~= all);
    }
}

/// The predicate `ty: ::core::marker::Sized`, with the given span on the
/// identifiers it adds.
fn sized_predicate(ty: Ty, span: Span) -> (pred: WherePred)
    ensures
        pred@ == sized_pred(ty@),
{
    let mut segments: Vec<Segment> = Vec::new();
    segments.push(Segment { ident: Name::new("core", span), args: PathArgs::Plain });
    segments.push(Segment { ident: Name::new("marker", span), args: PathArgs::Plain });
    segments.push(Segment { ident: Name::new("Sized", span), args: PathArgs::Plain });
    let path = TyPath { qself: None, leading_colon: true, segments, trailing_colon: false };
    let ghost pv = path@;
    proof {
        assert(args_v(PathArgs::Plain) == ArgsV::Plain);
        assert(pv.segments[0] == plain_segment("core"@));
        assert(pv.segments[1] == plain_segment("marker"@));
        assert(pv.segments[2] == plain_segment("Sized"@));
        assert(pv.segments =~= seq![plain_segment("core"@), plain_segment("marker"@), plain_segment("Sized"@)]);
    }
    let bound = TypeBound::Trait { paren: false, maybe: false, lifetimes: None, path };
    let mut bounds: Vec<TypeBound> = Vec::new();
    bounds.push(bound);
    let pred = WherePred::Type { lifetimes: None, bounded_ty: ty, bounds };
    proof {
        assert(crate::syntax::bounds_v(bounds@) =~= seq![bound@]);
    }
    pred
}

/// Helper used for collecting predicates while mapping.
#[derive(Debug)]
struct Mapper<'a> {
    /// The associated [`Mapping`] configuration.
    mapping: Mapping<'a>,
    /// Collected predicates.
    unique_predicates: UniquePredicates,
}

fn refuse(tokens: &TokenStream, message: &str) -> (err: DeriveError)
    ensures
        err.messages() == seq![message@],
{
    DeriveError::from(new_spanned_syn_error(tokens, message))
}

impl<'a> Mapper<'a> {
    fn new(mapping: Mapping<'a>) -> (mapper: Mapper<'a>)
        ensures
            mapper.mapping == mapping,
            mapper.unique_predicates@ == no_predicates(),
            keys_distinct(mapper.unique_predicates@),
    {
        Mapper { mapping, unique_predicates: UniquePredicates::new() }
    }

    /// The path `crate::ident<args>`.
    fn crate_item(&self, ident: Name, args: PathArgs) -> (path: TyPath)
        ensures
            path@ == crate_item(self.mapping@, ident@, args_v(args)),
    {
        let cp = self.mapping.crate_path;
        let mut segments: Vec<Segment> = Vec::new();
        let mut i: usize = 0;
        while i < cp.segments.len()
            invariant
                i <= cp.segments.len(),
                segments@.len() == i,
                forall|j: int| 0 <= j < i ==> (#[trigger] segments@[j]).ident@ == cp.segments@[j].ident@
                    && args_v(segments@[j].args) == args_v(cp.segments@[j].args),
            decreases cp.segments.len() - i,
        {
            segments.push(Segment { ident: cp.segments[i].ident.copy(), args: crate::syntax::copy_args(&cp.segments[i].args) });
            i += 1;
        }
        let ghost text = ident@;
        let ghost av = args_v(args);
        segments.push(Segment { ident, args });
        let path = TyPath { qself: None, leading_colon: cp.leading_colon, segments, trailing_colon: false };
        assert(path@.segments =~= cp@.segments.push(SegmentV { ident: text, args: av }));
        path
    }

    /// The predicate `src: crate::Trait<inner_src, inner_dst,
    /// crate::TypeParam<k>, Output = dst>`.
    fn trait_predicate(&self, src: Ty, inner_src: Ty, inner_dst: Ty, k: usize, dst: Ty) -> (pred: WherePred)
        ensures
            pred@ == trait_pred(self.mapping@, src@, inner_src@, inner_dst@, k, dst@),
    {
        let span = self.mapping.span;
        let mut lit: Vec<Piece> = Vec::new();
        lit.push(Piece::Tokens(usize_literal(k)));
        let mut marker_args: Vec<GenArg> = Vec::new();
        marker_args.push(GenArg::Const(lit));
        proof {
            assert(crate::syntax::pieces_v(lit@) =~= seq![PieceV::Tokens(usize_text(k))]);
            assert(gen_args_v(marker_args@) =~= seq![GenArgV::Const(seq![PieceV::Tokens(usize_text(k))])]);
        }
        let marker_path = self.crate_item(
            Name::new(MARKER_TYPE_IDENT, span),
            PathArgs::Angle { colon2: false, args: marker_args },
        );
        let marker = Ty { kind: TyKind::Path(marker_path), tokens: crate::diagnostic::empty_token_stream() };
        assert(marker@ == marker_ty(self.mapping@, k));
        let ghost (a, b, c, d) = (inner_src@, inner_dst@, marker@, dst@);
        let mut args: Vec<GenArg> = Vec::new();
        args.push(GenArg::Type(inner_src));
        args.push(GenArg::Type(inner_dst));
        args.push(GenArg::Type(marker));
        args.push(GenArg::AssocType { ident: Name::new(OUTPUT_TYPE_IDENT, span), ty: dst });
        proof {
            assert(gen_args_v(args@) =~= seq![
                GenArgV::Type(a),
                GenArgV::Type(b),
                GenArgV::Type(c),
                GenArgV::AssocType { ident: OUTPUT_TYPE_IDENT@, ty: d },
            ]);
        }
        let trait_ident = self.mapping.derivable.trait_ident();
        let path = self.crate_item(Name::new(trait_ident.as_str(), span), PathArgs::Angle { colon2: false, args });
        let bound = TypeBound::Trait { paren: false, maybe: false, lifetimes: None, path };
        let mut bounds: Vec<TypeBound> = Vec::new();
        bounds.push(bound);
        proof {
            assert(crate::syntax::bounds_v(bounds@) =~= seq![bound@]);
        }
        WherePred::Type { lifetimes: None, bounded_ty: src, bounds }
    }

    /// The path type `path`, whose last segment has the arguments `args` in
    /// angle brackets, with these arguments replaced by [`mapped_args`].
    fn mapped_path_type(&self, path: &TyPath, colon2: bool, args: &Vec<GenArg>, k: usize) -> (ty: Ty)
        requires
            path.segments.len() > 0,
        ensures
            ty@ == mapped_path_ty(self.mapping@, path@, colon2, gen_args_v(args@), k as nat),
    {
        let ghost m = self.mapping@;
        let ghost all = gen_args_v(args@);
        let n = path.segments.len();
        let qself = match &path.qself {
            Some(q) => Some(QualifiedSelf { ty: Box::new(copy_ty(&q.ty)), position: q.position }),
            None => None,
        };
        let mut segments: Vec<Segment> = Vec::new();
        let mut i: usize = 0;
        while i < n - 1
            invariant
                n == path.segments.len(),
                i <= n - 1,
                segments@.len() == i,
                forall|j: int| 0 <= j < i ==> (#[trigger] segments@[j]).ident@ == path.segments@[j].ident@
                    && args_v(segments@[j].args) == args_v(path.segments@[j].args),
            decreases n - 1 - i,
        {
            segments.push(Segment { ident: path.segments[i].ident.copy(), args: crate::syntax::copy_args(&path.segments[i].args) });
            i += 1;
        }
        let mut mapped: Vec<GenArg> = Vec::new();
        let mut count: usize = 0;
        let mut j: usize = 0;
        while j < args.len()
            invariant
                j <= args.len(),
                all == gen_args_v(args@),
                m == self.mapping@,
                mapped@.len() == j,
                count == count_typish(all.take(j as int)),
                count <= j,
                forall|l: int| 0 <= l < j ==> #[trigger] gen_arg_v(mapped@[l]) == mapped_args(m, all, k as nat)[l],
            decreases args.len() - j,
        {
            proof {
                assert(all[j as int] == gen_arg_v(args@[j as int]));
                assert(all.take(j + 1).drop_last() =~= all.take(j as int));
            }
            let arg = match &args[j] {
                GenArg::Type(t) => {
                    let to = if count >= k { self.mapping.src_type_ident } else { self.mapping.dst_type_ident };
                    GenArg::Type(subs_type(t, &self.mapping.type_param.text, to))
                },
                a => copy_gen_arg(a),
            };
            let typish = arg.is_typish();
            mapped.push(arg);
            if typish {
                count += 1;
            }
            j += 1;
        }
        assert forall|l: int| 0 <= l < all.len() implies gen_args_v(mapped@)[l] == mapped_args(m, all, k as nat)[l] by {
            assert(gen_arg_v(mapped@[l]) == mapped_args(m, all, k as nat)[l]);
        }
        assert(gen_args_v(mapped@) =~= mapped_args(m, all, k as nat));
        let ghost last_ident = path.segments@[n - 1].ident@;
        segments.push(Segment { ident: path.segments[n - 1].ident.copy(), args: PathArgs::Angle { colon2, args: mapped } });
        let ghost want = path@.segments.drop_last().push(SegmentV {
            ident: last_ident,
            args: ArgsV::Angle { colon2, args: mapped_args(m, all, k as nat) },
        });
        assert forall|l: int| 0 <= l < n implies segments_v(segments@)[l] == want[l] by {
            if l < n - 1 {
                assert(path@.segments[l] == SegmentV { ident: path.segments@[l].ident@, args: args_v(path.segments@[l].args) });
            }
        }
        assert(segments_v(segments@) =~= want);
        let p = TyPath { qself, leading_colon: path.leading_colon, segments, trailing_colon: false };
        assert(p@.qself == path@.qself);
        assert(p@ == PathV { qself: path@.qself, leading_colon: path@.leading_colon, segments: want, trailing_colon: false });
        let ty = Ty { kind: TyKind::Path(p), tokens: crate::diagnostic::empty_token_stream() };
        assert(ty@ == TyV::Path(p@));
        ty
    }
}


/// The outcome of mapping the closure argument `value` of type `t` and
/// wrapping the result into a closure.
pub open spec fn closure_outcome(m: MappingV, t: TyV) -> MapOutcome {
    match map_v(m, MapExprV::Value, t) {
        MapOutcome::Done { expr, preds } => MapOutcome::Done { expr: closure_v(m, expr), preds },
        r => r,
    }
}

/// Copies a mapping expression.
pub fn copy_expr(e: &MapExpr) -> (copy: MapExpr)
    ensures
        copy@ == e@,
    decreases e,
{
    match e {
        MapExpr::Binding(i) => MapExpr::Binding(*i),
        MapExpr::Value => MapExpr::Value,
        MapExpr::TupleField { base, index } => MapExpr::TupleField { base: Box::new(copy_expr(base)), index: *index },
        MapExpr::CallFn { arg } => MapExpr::CallFn { arg: Box::new(copy_expr(arg)) },
        MapExpr::CallTrait { marker, arg, closure } => MapExpr::CallTrait {
            marker: *marker,
            arg: Box::new(copy_expr(arg)),
            closure: Box::new(copy_expr(closure)),
        },
        MapExpr::Closure { body } => MapExpr::Closure { body: Box::new(copy_expr(body)) },
        MapExpr::Try(x) => MapExpr::Try(Box::new(copy_expr(x))),
        MapExpr::WrapOk(x) => MapExpr::WrapOk(Box::new(copy_expr(x))),
        MapExpr::Tuple(es) => {
            let mut out: Vec<MapExpr> = Vec::new();
            let mut i: usize = 0;
            #[verifier::loop_isolation(false)]
            while i < es.len()
                invariant
                    i <= es.len(),
                    out@.len() == i,
                    forall|j: int| 0 <= j < i ==> #[trigger] expr_v(out@[j]) == expr_v(es@[j]),
                decreases es.len() - i,
            {
                proof {
                    assert(decreases_to!(*e => es@[i as int]));
                }
                out.push(copy_expr(&es[i]));
                i += 1;
            }
            let copy = MapExpr::Tuple(out);
            assert forall|k: int| 0 <= k < es@.len() implies copy@->Tuple_0[k] == e@->Tuple_0[k] by {
                assert(expr_v(out@[k]) == expr_v(es@[k]));
            }
            assert(copy@->Tuple_0 =~= e@->Tuple_0);
            copy
        },
    }
}

impl<'a> Mapper<'a> {
    /// Applies the mapping to `mappable` of type `ty`.
    fn map(&mut self, mappable: MapExpr, ty: &Ty) -> (res: Result<MapExpr, DeriveError>)
        requires
            keys_distinct(old(self).unique_predicates@),
        ensures
            final(self).mapping == old(self).mapping,
            mapped_as(map_v(old(self).mapping@, mappable@, ty@), old(self).unique_predicates@, final(self).unique_predicates@, res),
        decreases ty, 1nat,
    {
        let ghost m = self.mapping@;
        let ghost before = self.unique_predicates@;
        let is_macro = match &ty.kind {
            TyKind::Other { kind: OtherKind::Macro, .. } => true,
            _ => false,
        };
        if is_macro {
            let e = refuse(&ty.tokens, "`derive` cannot be used on items with type macros");
            proof {
                reveal_strlit("`derive` cannot be used on items with type macros");
            }
            return Err(e);
        }
        if !dependency_on_type(ty, &self.mapping.type_param.text) {
            let pred = sized_predicate(copy_ty(ty), self.mapping.span);
            let _ = self.unique_predicates.add(pred);
            proof {
                let s = seq![sized_pred(ty@)];
                assert(s.drop_last() =~= Seq::<WherePredV>::empty());
                assert(add_predicates(before, s) == add_predicate(add_predicates(before, s.drop_last()), s.last()));
            }
            return Ok(mappable);
        }
        match &ty.kind {
            TyKind::Array { elem, len } => {
                proof {
                    assert(decreases_to!(*ty => **elem));
                }
                match self.map_closure(elem) {
                    Ok(closure) => Ok(self.mapping.derivable.bind_expr(
                        MapExpr::CallTrait { marker: None, arg: Box::new(mappable), closure: Box::new(closure) },
                    )),
                    Err(e) => Err(e),
                }
            },
            TyKind::Paren { elem } => {
                proof {
                    assert(decreases_to!(*ty => **elem));
                }
                self.map(mappable, elem)
            },
            TyKind::Tuple { elems } => self.map_tuple(mappable, ty),
            TyKind::Path(path) => self.map_path(mappable, ty, path),
            TyKind::Other { kind, pieces } => {
                let message = match kind {
                    OtherKind::BareFn => "mapping over function type is not supported",
                    OtherKind::Ptr => "mapping over pointer type is not supported",
                    OtherKind::Reference => "mapping over reference type is not supported",
                    OtherKind::Slice => "mapping over slice type is not supported",
                    OtherKind::TraitObject => "mapping over trait object type is not supported",
                    _ => "mapping over this type is not supported",
                };
                proof {
                    reveal_strlit("mapping over function type is not supported");
                    reveal_strlit("mapping over pointer type is not supported");
                    reveal_strlit("mapping over reference type is not supported");
                    reveal_strlit("mapping over slice type is not supported");
                    reveal_strlit("mapping over trait object type is not supported");
                    reveal_strlit("mapping over this type is not supported");
                }
                Err(refuse(&ty.tokens, message))
            },
        }
    }

    /// Maps the closure argument `value` of type `ty` and wraps the result
    /// into a closure `|value| ...`.
    fn map_closure(&mut self, ty: &Ty) -> (res: Result<MapExpr, DeriveError>)
        requires
            keys_distinct(old(self).unique_predicates@),
        ensures
            final(self).mapping == old(self).mapping,
            mapped_as(closure_outcome(old(self).mapping@, ty@), old(self).unique_predicates@, final(self).unique_predicates@, res),
        decreases ty, 2nat,
    {
        match self.map(MapExpr::Value, ty) {
            Ok(mapped) => Ok(MapExpr::Closure { body: Box::new(self.mapping.derivable.unit_expr(mapped)) }),
            Err(e) => Err(e),
        }
    }

    /// Maps the elements of the tuple `mappable` of the tuple type `ty`.
    fn map_tuple(&mut self, mappable: MapExpr, ty: &Ty) -> (res: Result<MapExpr, DeriveError>)
        requires
            keys_distinct(old(self).unique_predicates@),
            ty.kind is Tuple,
        ensures
            final(self).mapping == old(self).mapping,
            mapped_as(
                map_tuple_v(old(self).mapping@, mappable@, ty@->elems),
                old(self).unique_predicates@,
                final(self).unique_predicates@,
                res,
            ),
        decreases ty, 0nat,
    {
        let elems = match &ty.kind {
            TyKind::Tuple { elems } => elems,
            _ => vstd::pervasive::unreached(),
        };
        let ghost m = self.mapping@;
        let ghost m0 = self.mapping;
        let ghost before = self.unique_predicates@;
        let ghost e = mappable@;
        let ghost ev = crate::syntax::tys_v(elems@);
        assert(ty@->elems == ev);
        let ghost mut acc: Seq<WherePredV> = Seq::empty();
        let mut outs: Vec<MapExpr> = Vec::new();
        let mut i: usize = 0;
        proof {
            assert(ev.take(0) =~= Seq::<TyV>::empty());
            assert(outs@.map_values(|x: MapExpr| x@) =~= Seq::<MapExprV>::empty());
        }
        #[verifier::loop_isolation(false)]
        while i < elems.len()
            invariant
                i <= elems.len(),
                self.mapping == m0,
                map_tuple_v(m, e, ev.take(i as int)) == (MapOutcome::Done {
                    expr: MapExprV::Tuple(outs@.map_values(|x: MapExpr| x@)),
                    preds: acc,
                }),
                self.unique_predicates@ == add_predicates(before, acc),
                keys_distinct(self.unique_predicates@),
            decreases elems.len() - i,
        {
            proof {
                assert(decreases_to!(*ty => elems@[i as int]));
                assert(ev.take(i + 1).drop_last() =~= ev.take(i as int));
                assert(ev.take(i + 1).last() == ev[i as int]);
                assert(ev[i as int] == crate::syntax::ty_v(elems@[i as int]));
            }
            let field = MapExpr::TupleField { base: Box::new(copy_expr(&mappable)), index: i };
            let ghost fv = field@;
            match self.map(field, &elems[i]) {
                Ok(x) => {
                    proof {
                        let q = map_v(m, fv, ev[i as int])->Done_preds;
                        lemma_add_predicates_concat(before, acc, q);
                        acc = acc + q;
                    }
                    let ghost before_outs = outs@;
                    outs.push(x);
                    proof {
                        assert(outs@.map_values(|x: MapExpr| x@) =~= before_outs.map_values(|x: MapExpr| x@).push(x@));
                    }
                    i += 1;
                },
                Err(err) => {
                    proof {
                        lemma_tuple_refused_stays(m, e, ev, i + 1);
                    }
                    return Err(err);
                },
            }
        }
        proof {
            assert(ev.take(i as int) =~= ev);
        }
        let out = MapExpr::Tuple(outs);
        assert(out@->Tuple_0 =~= outs@.map_values(|x: MapExpr| x@));
        Ok(out)
    }
}

impl<'a> Mapper<'a> {
    /// Maps `mappable` of the path type `ty`, which depends on the type
    /// parameter and is no macro.
    fn map_path(&mut self, mappable: MapExpr, ty: &Ty, path: &TyPath) -> (res: Result<MapExpr, DeriveError>)
        requires
            keys_distinct(old(self).unique_predicates@),
            ty.kind == TyKind::Path(*path),
            ty_depends(ty@, old(self).mapping@.param),
        ensures
            final(self).mapping == old(self).mapping,
            mapped_as(map_v(old(self).mapping@, mappable@, ty@), old(self).unique_predicates@, final(self).unique_predicates@, res),
        decreases ty, 0nat,
    {
        let ghost m = self.mapping@;
        let ghost m0 = self.mapping;
        let ghost before = self.unique_predicates@;
        let ghost e = mappable@;
        let ghost pv = path@;
        assert(ty@ == TyV::Path(pv));
        match &path.qself {
            Some(q) => {
                if dependency_on_type(&q.ty, &self.mapping.type_param.text) {
                    proof {
                        reveal_strlit("mapping over type with associated item is not supported");
                    }
                    return Err(refuse(&ty.tokens, "mapping over type with associated item is not supported"));
                }
            },
            None => {},
        }
        let n = path.segments.len();
        if n == 0 {
            proof {
                reveal_strlit("mapping over empty type is not supported");
            }
            return Err(refuse(&ty.tokens, "mapping over empty type is not supported"));
        }
        if path.trailing_colon {
            proof {
                reveal_strlit("mapping over type with trailing :: is not supported");
            }
            return Err(refuse(&ty.tokens, "mapping over type with trailing :: is not supported"));
        }
        if crate::syntax::prefix_dependency(path, &self.mapping.type_param.text) {
            proof {
                reveal_strlit("mapping over type with associated item is not supported");
            }
            return Err(refuse(&ty.tokens, "mapping over type with associated item is not supported"));
        }
        proof {
            assert(pv.segments.last() == pv.segments[n - 1]);
            assert(pv.segments[n - 1].args == args_v(path.segments@[n - 1].args));
            assert(decreases_to!(*ty => *path));
            assert(decreases_to!(*path => path.segments@[n - 1].args));
        }
        match &path.segments[n - 1].args {
            PathArgs::Plain => {
                let expr = self.mapping.derivable.bind_expr(MapExpr::CallFn { arg: Box::new(mappable) });
                proof {
                    assert(add_predicates(before, Seq::empty()) == before);
                }
                Ok(expr)
            },
            PathArgs::Paren { pieces } => {
                proof {
                    reveal_strlit("mapping over function type is not supported");
                }
                Err(refuse(&ty.tokens, "mapping over function type is not supported"))
            },
            PathArgs::Angle { colon2, args } => {
                let ghost all = gen_args_v(args@);
                let ghost mut acc: Seq<WherePredV> = Seq::empty();
                let mut cur = mappable;
                let mut count: usize = 0;
                let mut i: usize = 0;
                proof {
                    assert(all.take(0) =~= Seq::<GenArgV>::empty());
                    assert(add_predicates(before, Seq::empty()) == before);
                }
                #[verifier::loop_isolation(false)]
                while i < args.len()
                    invariant
                        i <= args.len(),
                        n == path.segments.len(),
                        n > 0,
                        all == gen_args_v(args@),
                        pv == path@,
                        path.segments@[n - 1].args == (PathArgs::Angle { colon2: *colon2, args: *args }),
                        self.mapping == m0,
                        m == m0@,
                        count == count_typish(all.take(i as int)),
                        count <= i,
                        map_args_v(m, e, pv, *colon2, all, all.take(i as int)) == (MapOutcome::Done { expr: cur@, preds: acc }),
                        self.unique_predicates@ == add_predicates(before, acc),
                        keys_distinct(self.unique_predicates@),
                    decreases args.len() - i,
                {
                    proof {
                        assert(all.take(i + 1).drop_last() =~= all.take(i as int));
                        assert(all.take(i + 1).last() == all[i as int]);
                        assert(all[i as int] == gen_arg_v(args@[i as int]));
                    }
                    let typish = args[i].is_typish();
                    match &args[i] {
                        GenArg::Type(t) => {
                            if dependency_on_type(t, &self.mapping.type_param.text) {
                                proof {
                                    assert(decreases_to!(*ty => *path));
                                    assert(decreases_to!(*path => path.segments@[n - 1].args));
                                    assert(decreases_to!(path.segments@[n - 1].args => args@[i as int]));
                                    assert(decreases_to!(args@[i as int] => *t));
                                }
                                let ghost cur_v = cur@;
                                match self.map_type_arg(cur, path, *colon2, args, t, count) {
                                    Ok(next) => {
                                        proof {
                                            let pred = trait_pred(m, mapped_path_ty(m, pv, *colon2, all, count as nat),
                                                subst_ty(t@, m.param, m.src), subst_ty(t@, m.param, m.dst), count,
                                                mapped_path_ty(m, pv, *colon2, all, (count + 1) as nat));
                                            let q = closure_outcome(m, t@)->Done_preds;
                                            assert(acc.push(pred).drop_last() =~= acc);
                                            lemma_add_predicates_concat(before, acc.push(pred), q);
                                            acc = acc.push(pred) + q;
                                        }
                                        cur = next;
                                    },
                                    Err(err) => {
                                        proof {
                                            lemma_args_refused_stays(m, e, pv, *colon2, all, i + 1);
                                        }
                                        return Err(err);
                                    },
                                }
                            }
                        },
                        _ => {},
                    }
                    if typish {
                        count += 1;
                    }
                    i += 1;
                }
                proof {
                    assert(all.take(i as int) =~= all);
                }
                Ok(cur)
            },
        }
    }
}

impl Mapping<'_> {
    /// Applies this mapping to the expression `mappable` of type `ty`,
    /// returning the mapped expression with the predicates that it
    /// requires.
    ///
    /// # Errors
    /// Fails if mapping `ty` is not supported.
    pub fn map(self, mappable: MapExpr, ty: &Ty) -> (res: Result<Mapped, DeriveError>)
        ensures
            match map_v(self@, mappable@, ty@) {
                MapOutcome::Done { expr, preds } => res matches Ok(r) && r.expr@ == expr
                    && r.predicates@ == add_predicates(no_predicates(), preds) && keys_distinct(r.predicates@),
                MapOutcome::Refused { message } => res matches Err(e) && e.messages() == seq![message],
            },
    {
        let mut mapper = Mapper::new(self);
        match mapper.map(mappable, ty) {
            Ok(expr) => Ok(Mapped { expr, predicates: mapper.unique_predicates }),
            Err(e) => Err(e),
        }
    }
}


impl<'a> Mapper<'a> {
    /// Maps `cur` over the type argument `t` at position `k` among the type
    /// and const arguments `args` of the last segment of the path type
    /// `path`: adds the predicate that the derived trait with marker `k`
    /// requires and maps the value by it.
    fn map_type_arg(
        &mut self,
        cur: MapExpr,
        path: &TyPath,
        colon2: bool,
        args: &Vec<GenArg>,
        t: &Ty,
        k: usize,
    ) -> (res: Result<MapExpr, DeriveError>)
        requires
            keys_distinct(old(self).unique_predicates@),
            path.segments.len() > 0,
            k < usize::MAX,
        ensures
            final(self).mapping == old(self).mapping,
            ({
                let m = old(self).mapping@;
                let all = gen_args_v(args@);
                let pred = trait_pred(
                    m,
                    mapped_path_ty(m, path@, colon2, all, k as nat),
                    subst_ty(t@, m.param, m.src),
                    subst_ty(t@, m.param, m.dst),
                    k,
                    mapped_path_ty(m, path@, colon2, all, (k + 1) as nat),
                );
                let before = add_predicate(old(self).unique_predicates@, pred);
                match closure_outcome(m, t@) {
                    MapOutcome::Done { expr: c, preds } => res matches Ok(x) && x@ == bind_v(
                        m.derivable,
                        MapExprV::CallTrait { marker: Some(k), arg: Box::new(cur@), closure: Box::new(c) },
                    ) && final(self).unique_predicates@ == add_predicates(before, preds) && keys_distinct(final(self).unique_predicates@),
                    MapOutcome::Refused { message } => res matches Err(e) && e.messages() == seq![message],
                }
            }),
        decreases t, 3nat,
    {
        let src_type = self.mapped_path_type(path, colon2, args, k);
        let dst_type = self.mapped_path_type(path, colon2, args, k + 1);
        let inner_src = subs_type(t, &self.mapping.type_param.text, self.mapping.src_type_ident);
        let inner_dst = subs_type(t, &self.mapping.type_param.text, self.mapping.dst_type_ident);
        let pred = self.trait_predicate(src_type, inner_src, inner_dst, k, dst_type);
        let _ = self.unique_predicates.add(pred);
        match self.map_closure(t) {
            Ok(closure) => Ok(self.mapping.derivable.bind_expr(
                MapExpr::CallTrait { marker: Some(k), arg: Box::new(cur), closure: Box::new(closure) },
            )),
            Err(err) => Err(err),
        }
    }
}


// ---------------------------------------------------------------------------
// Mapping the type arguments among generic arguments

/// Generic arguments whose type arguments are mapped by a function that is
/// given the index of each among the type arguments.
pub struct MapTypeArgs<F> {
    iter: std::collections::VecDeque<GenArg>,
    f: F,
    type_idx: usize,
}

/// Maps the type arguments among `iter` with `f`, handing `f` the index of
/// each among the type arguments; other arguments are kept as they are.
pub fn map_type_args<F: FnMut(usize, Ty) -> Ty>(iter: std::collections::VecDeque<GenArg>, f: F) -> (m: MapTypeArgs<F>)
    ensures
        m.remaining() == iter@,
        m.type_idx() == 0,
        m.func() == f,
{
    MapTypeArgs::new(iter, f)
}

impl<F: FnMut(usize, Ty) -> Ty> MapTypeArgs<F> {
    /// The arguments not handed out yet.
    pub closed spec fn remaining(&self) -> Seq<GenArg> {
        self.iter@
    }

    /// The number of type arguments handed out so far.
    pub closed spec fn type_idx(&self) -> usize {
        self.type_idx
    }

    /// The mapping function.
    pub closed spec fn func(&self) -> F {
        self.f
    }

    /// Creates the mapped arguments of `iter` with `f`.
    pub fn new(iter: std::collections::VecDeque<GenArg>, f: F) -> (m: MapTypeArgs<F>)
        ensures
            m.remaining() == iter@,
            m.type_idx() == 0,
            m.func() == f,
    {
        MapTypeArgs { iter, f, type_idx: 0 }
    }

    /// The next argument: a type argument mapped by the function with its
    /// index among the type arguments, any other argument as it is.
    pub fn next(&mut self) -> (arg: Option<GenArg>)
        requires
            forall|i: usize, t: Ty| call_requires(old(self).func(), (i, t)),
            old(self).type_idx() < usize::MAX,
        ensures
            final(self).func() == old(self).func(),
            old(self).remaining().len() == 0 ==> arg is None && final(self).remaining() == old(self).remaining()
                && final(self).type_idx() == old(self).type_idx(),
            old(self).remaining().len() > 0 ==> {
                &&& final(self).remaining() == old(self).remaining().drop_first()
                &&& match old(self).remaining()[0] {
                    GenArg::Type(t) => arg matches Some(GenArg::Type(u)) && call_ensures(old(self).func(), (old(self).type_idx(), t), u)
                        && final(self).type_idx() == old(self).type_idx() + 1,
                    a => arg == Some(a) && final(self).type_idx() == old(self).type_idx(),
                }
            },
    {
        match self.iter.pop_front() {
            None => None,
            Some(GenArg::Type(ty)) => {
                let idx = self.type_idx;
                assert(call_requires(old(self).func(), (idx, ty)));
                assert(old(self).func() == self.f);
                let mapped = (self.f)(idx, ty);
                self.type_idx = self.type_idx + 1;
                Some(GenArg::Type(mapped))
            },
            Some(arg) => Some(arg),
        }
    }
}

} // verus!
