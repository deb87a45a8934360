//! The library's own model of the types of the input.
//!
//! The parts of a type that the derive logic reads are structured; everything
//! else is carried as tokens. Each model type has a view that forgets spans
//! and renders carried tokens as text: two pieces of syntax are the same for
//! the derive logic exactly when their views are equal.
use vstd::prelude::*;

use proc_macro2::{Span, TokenStream};

verus! {

/// The text that `TokenStream`'s `Display` implementation renders.
pub uninterp spec fn token_text(tokens: TokenStream) -> Seq<char>;

/// Renders tokens as text.
///
/// Calls `ToString::to_string` on a `TokenStream`; the contract names the
/// result, which depends on the tokens alone.
#[verifier::external_body]
pub(crate) fn tokens_text(tokens: &TokenStream) -> (text: String)
    ensures
        text@ == token_text(*tokens),
{
    tokens.to_string()
}

/// Whether `TokenStream::is_empty` holds of the tokens.
pub uninterp spec fn tokens_empty(tokens: TokenStream) -> bool;

/// Whether the tokens are empty.
///
/// Calls `proc_macro2::TokenStream::is_empty`; the contract names the
/// result, which depends on the tokens alone.
#[verifier::external_body]
fn tokens_is_empty(tokens: &TokenStream) -> (empty: bool)
    ensures
        empty == tokens_empty(*tokens),
{
    tokens.is_empty()
}

/// The tokens, if they are not empty.
pub fn to_non_empty_token_stream(tokens: &TokenStream) -> (non_empty: Option<TokenStream>)
    ensures
        non_empty is None <==> tokens_empty(*tokens),
        non_empty matches Some(t) ==> t == *tokens,
{
    if tokens_is_empty(tokens) {
        None
    } else {
        Some(clone_tokens(tokens))
    }
}

/// Copies tokens.
///
/// Calls `<TokenStream as Clone>::clone`; the contract claims that the copy
/// is the same token stream.
#[verifier::external_body]
pub(crate) fn clone_tokens(tokens: &TokenStream) -> (copy: TokenStream)
    ensures
        copy == *tokens,
{
    tokens.clone()
}

/// An identifier of the input: its text and its span.
#[derive(Debug)]
pub struct Name {
    pub text: String,
    pub span: Span,
}

impl View for Name {
    type V = Seq<char>;

    open spec fn view(&self) -> Seq<char> {
        self.text@
    }
}

impl Name {
    /// An identifier with the given text and span.
    pub fn new(text: &str, span: Span) -> (name: Name)
        ensures
            name@ == text@,
            name.span == span,
    {
        Name { text: text.to_owned(), span }
    }

    /// Copies this identifier, span included.
    pub fn copy(&self) -> (copy: Name)
        ensures
            copy@ == self@,
            copy.span == self.span,
    {
        Name { text: self.text.clone(), span: self.span }
    }
}

/// The delimiter of a group of tokens.
#[derive(Debug, Clone, Copy, PartialEq, Eq, Structural)]
pub enum Delim {
    Paren,
    Bracket,
    Brace,
    Invisible,
}

/// The kinds of types whose structure the derive logic does not read.
#[derive(Debug, Clone, Copy, PartialEq, Eq, Structural)]
pub enum OtherKind {
    BareFn,
    Group,
    ImplTrait,
    Infer,
    Macro,
    Never,
    Ptr,
    Reference,
    Slice,
    TraitObject,
    Verbatim,
}

/// A piece of syntax within a type that the derive logic does not read as a
/// whole: tokens that contain no type, a type, a bound, or a delimited group
/// of pieces. The pieces of a type, in order, make up its tokens.
#[derive(Debug)]
pub enum Piece {
    Tokens(TokenStream),
    Ty(Ty),
    Bound(TypeBound),
    Group { delim: Delim, pieces: Vec<Piece> },
}

/// A type of the input: its structure, and its tokens as they occur in the
/// input, which locate errors about it.
#[derive(Debug)]
pub struct Ty {
    pub kind: TyKind,
    pub tokens: TokenStream,
}

/// The structure of a type.
#[derive(Debug)]
pub enum TyKind {
    /// An array type `[elem; len]`; the length is carried as tokens.
    Array { elem: Box<Ty>, len: TokenStream },
    /// A parenthesized type `(elem)`.
    Paren { elem: Box<Ty> },
    /// A tuple type `(elems, ...)`.
    Tuple { elems: Vec<Ty> },
    /// A path type such as `Foo<A, B>` or `<A as Trait>::Assoc`.
    Path(TyPath),
    /// Any other type, as pieces.
    Other { kind: OtherKind, pieces: Vec<Piece> },
}

/// A path: an optional qualified self type `<ty as ...>`, an optional
/// leading `::`, the segments and an optional trailing `::`.
#[derive(Debug)]
pub struct TyPath {
    pub qself: Option<QualifiedSelf>,
    pub leading_colon: bool,
    pub segments: Vec<Segment>,
    pub trailing_colon: bool,
}

/// The qualified self type of a path: `<ty as segments[..position]>`.
#[derive(Debug)]
pub struct QualifiedSelf {
    pub ty: Box<Ty>,
    pub position: usize,
}

/// A segment of a path: an identifier with optional arguments.
#[derive(Debug)]
pub struct Segment {
    pub ident: Name,
    pub args: PathArgs,
}

/// The arguments of a path segment.
#[derive(Debug)]
pub enum PathArgs {
    Plain,
    /// `<args>`, or `::<args>` when `colon2` holds.
    Angle { colon2: bool, args: Vec<GenArg> },
    /// `(inputs) -> output`, as in `Fn(A) -> B`.
    Paren { pieces: Vec<Piece> },
}

/// A generic argument within angle brackets.
#[derive(Debug)]
pub enum GenArg {
    /// A type argument.
    Type(Ty),
    /// A const argument, such as `{ N + 1 }` or `3`.
    Const(Vec<Piece>),
    /// An associated type binding `ident = ty`.
    AssocType { ident: Name, ty: Ty },
    /// A lifetime such as `'a`.
    Lifetime(Name),
    /// An associated const binding or a constraint.
    Other(Vec<Piece>),
}

/// A bound on a type: a trait bound, with optional parentheses, an optional
/// `?` and optional `for<...>` lifetimes, or any other bound (a lifetime).
#[derive(Debug)]
pub enum TypeBound {
    Trait { paren: bool, maybe: bool, lifetimes: Option<TokenStream>, path: TyPath },
    Other(TokenStream),
}

// ---------------------------------------------------------------------------
// Views

/// The view of a piece.
pub enum PieceV {
    Tokens(Seq<char>),
    Ty(TyV),
    Bound(TypeBoundV),
    Group { delim: Delim, pieces: Seq<PieceV> },
}

/// The view of a type: its structure, without the location of its tokens.
pub enum TyV {
    Array { elem: Box<TyV>, len: Seq<char> },
    Paren { elem: Box<TyV> },
    Tuple { elems: Seq<TyV> },
    Path(PathV),
    Other { kind: OtherKind, pieces: Seq<PieceV> },
}

/// The view of a path.
pub struct PathV {
    pub qself: Option<QSelfV>,
    pub leading_colon: bool,
    pub segments: Seq<SegmentV>,
    pub trailing_colon: bool,
}

/// The view of a qualified self type.
pub struct QSelfV {
    pub ty: Box<TyV>,
    pub position: usize,
}

/// The view of a path segment.
pub struct SegmentV {
    pub ident: Seq<char>,
    pub args: ArgsV,
}

/// The view of path arguments.
pub enum ArgsV {
    Plain,
    Angle { colon2: bool, args: Seq<GenArgV> },
    Paren { pieces: Seq<PieceV> },
}

/// The view of a generic argument.
pub enum GenArgV {
    Type(TyV),
    Const(Seq<PieceV>),
    AssocType { ident: Seq<char>, ty: TyV },
    Lifetime(Seq<char>),
    Other(Seq<PieceV>),
}

/// The view of a bound.
pub enum TypeBoundV {
    Trait { paren: bool, maybe: bool, lifetimes: Option<Seq<char>>, path: PathV },
    Other(Seq<char>),
}

/// The text of optional tokens.
pub open spec fn opt_text(tokens: Option<TokenStream>) -> Option<Seq<char>> {
    match tokens {
        Some(t) => Some(token_text(t)),
        None => None,
    }
}

pub open spec fn piece_v(p: Piece) -> PieceV
    decreases p,
{
    match p {
        Piece::Tokens(t) => PieceV::Tokens(token_text(t)),
        Piece::Ty(t) => PieceV::Ty(ty_v(t)),
        Piece::Bound(b) => PieceV::Bound(bound_v(b)),
        Piece::Group { delim, pieces } => PieceV::Group { delim, pieces: pieces_v(pieces@) },
    }
}

pub open spec fn pieces_v(ps: Seq<Piece>) -> Seq<PieceV>
    decreases ps,
{
    Seq::new(ps.len(), |i: int| if 0 <= i < ps.len() { piece_v(ps[i]) } else { PieceV::Tokens(Seq::empty()) })
}

pub open spec fn ty_v(t: Ty) -> TyV
    decreases t,
{
    match t.kind {
        TyKind::Array { elem, len } => TyV::Array { elem: Box::new(ty_v(*elem)), len: token_text(len) },
        TyKind::Paren { elem } => TyV::Paren { elem: Box::new(ty_v(*elem)) },
        TyKind::Tuple { elems } => TyV::Tuple { elems: tys_v(elems@) },
        TyKind::Path(p) => TyV::Path(path_v(p)),
        TyKind::Other { kind, pieces } => TyV::Other { kind, pieces: pieces_v(pieces@) },
    }
}

pub open spec fn tys_v(ts: Seq<Ty>) -> Seq<TyV>
    decreases ts,
{
    Seq::new(ts.len(), |i: int| if 0 <= i < ts.len() { ty_v(ts[i]) } else { TyV::Tuple { elems: Seq::empty() } })
}

pub open spec fn path_v(p: TyPath) -> PathV
    decreases p,
{
    PathV {
        qself: match p.qself {
            Some(q) => Some(QSelfV { ty: Box::new(ty_v(*q.ty)), position: q.position }),
            None => None,
        },
        leading_colon: p.leading_colon,
        segments: segments_v(p.segments@),
        trailing_colon: p.trailing_colon,
    }
}

pub open spec fn segments_v(ss: Seq<Segment>) -> Seq<SegmentV>
    decreases ss,
{
    Seq::new(ss.len(), |i: int| SegmentV {
        ident: ss[i].ident@,
        args: if 0 <= i < ss.len() { args_v(ss[i].args) } else { ArgsV::Plain },
    })
}

pub open spec fn args_v(a: PathArgs) -> ArgsV
    decreases a,
{
    match a {
        PathArgs::Plain => ArgsV::Plain,
        PathArgs::Angle { colon2, args } => ArgsV::Angle { colon2, args: gen_args_v(args@) },
        PathArgs::Paren { pieces } => ArgsV::Paren { pieces: pieces_v(pieces@) },
    }
}

pub open spec fn gen_args_v(gs: Seq<GenArg>) -> Seq<GenArgV>
    decreases gs,
{
    Seq::new(gs.len(), |i: int| if 0 <= i < gs.len() { gen_arg_v(gs[i]) } else { GenArgV::Other(Seq::empty()) })
}

pub open spec fn gen_arg_v(g: GenArg) -> GenArgV
    decreases g,
{
    match g {
        GenArg::Type(t) => GenArgV::Type(ty_v(t)),
        GenArg::Const(ps) => GenArgV::Const(pieces_v(ps@)),
        GenArg::AssocType { ident, ty } => GenArgV::AssocType { ident: ident@, ty: ty_v(ty) },
        GenArg::Lifetime(l) => GenArgV::Lifetime(l@),
        GenArg::Other(ps) => GenArgV::Other(pieces_v(ps@)),
    }
}

pub open spec fn bound_v(b: TypeBound) -> TypeBoundV
    decreases b,
{
    match b {
        TypeBound::Trait { paren, maybe, lifetimes, path } => TypeBoundV::Trait {
            paren,
            maybe,
            lifetimes: opt_text(lifetimes),
            path: path_v(path),
        },
        TypeBound::Other(t) => TypeBoundV::Other(token_text(t)),
    }
}

pub open spec fn bounds_v(bs: Seq<TypeBound>) -> Seq<TypeBoundV> {
    bs.map_values(|b: TypeBound| bound_v(b))
}

impl View for Ty {
    type V = TyV;

    open spec fn view(&self) -> TyV {
        ty_v(*self)
    }
}

impl View for TyPath {
    type V = PathV;

    open spec fn view(&self) -> PathV {
        path_v(*self)
    }
}

impl View for TypeBound {
    type V = TypeBoundV;

    open spec fn view(&self) -> TypeBoundV {
        bound_v(*self)
    }
}


// ---------------------------------------------------------------------------
// Dependency on a type

/// The first segment of `p` names a type directly: there is no qualified
/// self type and no leading `::`.
pub open spec fn has_head(p: PathV) -> bool {
    p.qself is None && !p.leading_colon && p.segments.len() > 0
}

/// The type named `name` occurs in `t` as a type of its own.
pub open spec fn ty_depends(t: TyV, name: Seq<char>) -> bool
    decreases t,
{
    match t {
        TyV::Array { elem, len } => ty_depends(*elem, name),
        TyV::Paren { elem } => ty_depends(*elem, name),
        TyV::Tuple { elems } => exists|i: int| 0 <= i < elems.len() && ty_depends(#[trigger] elems[i], name),
        TyV::Path(p) => path_depends(p, name, true),
        TyV::Other { kind, pieces } => pieces_depend(pieces, name),
    }
}

/// The type named `name` occurs in the path `p`, which is a path type when
/// `is_type` holds and a trait path otherwise (whose first segment names a
/// trait, not a type).
pub open spec fn path_depends(p: PathV, name: Seq<char>, is_type: bool) -> bool
    decreases p,
{
    ||| is_type && has_head(p) && p.segments[0].ident == name
    ||| (p.qself matches Some(q) && ty_depends(*q.ty, name))
    ||| exists|i: int| 0 <= i < p.segments.len() && args_depend(#[trigger] p.segments[i].args, name)
}

/// The type named `name` occurs in the arguments `a`.
pub open spec fn args_depend(a: ArgsV, name: Seq<char>) -> bool
    decreases a,
{
    match a {
        ArgsV::Plain => false,
        ArgsV::Angle { colon2, args } => exists|i: int| 0 <= i < args.len() && gen_arg_depends(#[trigger] args[i], name),
        ArgsV::Paren { pieces } => pieces_depend(pieces, name),
    }
}

/// The type named `name` occurs in the generic argument `g`.
pub open spec fn gen_arg_depends(g: GenArgV, name: Seq<char>) -> bool
    decreases g,
{
    match g {
        GenArgV::Type(t) => ty_depends(t, name),
        GenArgV::Const(ps) => pieces_depend(ps, name),
        GenArgV::AssocType { ident, ty } => ty_depends(ty, name),
        GenArgV::Lifetime(_) => false,
        GenArgV::Other(ps) => pieces_depend(ps, name),
    }
}

/// The type named `name` occurs in one of the pieces `ps`.
pub open spec fn pieces_depend(ps: Seq<PieceV>, name: Seq<char>) -> bool
    decreases ps,
{
    exists|i: int| 0 <= i < ps.len() && piece_depends(#[trigger] ps[i], name)
}

/// The type named `name` occurs in the piece `p`.
pub open spec fn piece_depends(p: PieceV, name: Seq<char>) -> bool
    decreases p,
{
    match p {
        PieceV::Tokens(_) => false,
        PieceV::Ty(t) => ty_depends(t, name),
        PieceV::Bound(b) => bound_depends(b, name),
        PieceV::Group { delim, pieces } => pieces_depend(pieces, name),
    }
}

/// The type named `name` occurs in the bound `b`.
pub open spec fn bound_depends(b: TypeBoundV, name: Seq<char>) -> bool
    decreases b,
{
    match b {
        TypeBoundV::Trait { paren, maybe, lifetimes, path } => path_depends(path, name, false),
        TypeBoundV::Other(_) => false,
    }
}

/// Whether the type named `name` occurs in `ty` as a type of its own, that
/// is, as the first segment of a path type without qualified self type and
/// without leading `::`.
///
/// Macros in type position are never considered to depend on `name`.
pub fn dependency_on_type(ty: &Ty, name: &String) -> (dep: bool)
    ensures
        dep == ty_depends(ty@, name@),
    decreases ty,
{
    match &ty.kind {
        TyKind::Array { elem, len } => dependency_on_type(elem, name),
        TyKind::Paren { elem } => dependency_on_type(elem, name),
        TyKind::Tuple { elems } => {
            let mut i: usize = 0;
            #[verifier::loop_isolation(false)]
            while i < elems.len()
                invariant
                    i <= elems.len(),
                    forall|j: int| 0 <= j < i ==> !ty_depends(#[trigger] ty_v(elems@[j]), name@),
                decreases elems.len() - i,
            {
                proof {
                    assert(decreases_to!(*ty => elems@[i as int]));
                }
                if dependency_on_type(&elems[i], name) {
                    assert(ty@->elems[i as int] == ty_v(elems@[i as int]));
                    return true;
                }
                i += 1;
            }
            assert forall|j: int| 0 <= j < tys_v(elems@).len() implies !ty_depends(#[trigger] tys_v(elems@)[j], name@) by {
                assert(tys_v(elems@)[j] == ty_v(elems@[j]));
            }
            false
        },
        TyKind::Path(path) => path_dependency(path, name, true),
        TyKind::Other { kind, pieces } => pieces_dependency(pieces, name),
    }
}

/// Whether the type named `name` occurs in the path `path`, a path type when
/// `is_type` holds and a trait path otherwise.
pub fn path_dependency(path: &TyPath, name: &String, is_type: bool) -> (dep: bool)
    ensures
        dep == path_depends(path@, name@, is_type),
    decreases path,
{
    let ghost pv = path@;
    if is_type && path.qself.is_none() && !path.leading_colon && path.segments.len() > 0 {
        if path.segments[0].ident.text == *name {
            assert(pv.segments[0].ident == path.segments@[0].ident@);
            return true;
        }
    }
    match &path.qself {
        Some(q) => {
            if dependency_on_type(&q.ty, name) {
                return true;
            }
        },
        None => {},
    }
    let mut i: usize = 0;
    #[verifier::loop_isolation(false)]
    while i < path.segments.len()
        invariant
            i <= path.segments.len(),
            forall|j: int| 0 <= j < i ==> !args_depend(#[trigger] args_v(path.segments@[j].args), name@),
        decreases path.segments.len() - i,
    {
        proof {
            assert(decreases_to!(*path => path.segments@[i as int].args));
        }
        if args_dependency(&path.segments[i].args, name) {
            assert(pv.segments[i as int].args == args_v(path.segments@[i as int].args));
            return true;
        }
        i += 1;
    }
    assert forall|j: int| 0 <= j < pv.segments.len() implies !args_depend(#[trigger] pv.segments[j].args, name@) by {
        assert(pv.segments[j].args == args_v(path.segments@[j].args));
    }
    false
}

fn args_dependency(args: &PathArgs, name: &String) -> (dep: bool)
    ensures
        dep == args_depend(args_v(*args), name@),
    decreases args,
{
    match args {
        PathArgs::Plain => false,
        PathArgs::Angle { colon2, args: gen_args } => {
            let mut i: usize = 0;
            #[verifier::loop_isolation(false)]
            while i < gen_args.len()
                invariant
                    i <= gen_args.len(),
                    forall|j: int| 0 <= j < i ==> !gen_arg_depends(#[trigger] gen_arg_v(gen_args@[j]), name@),
                decreases gen_args.len() - i,
            {
                proof {
                    assert(decreases_to!(*args => gen_args@[i as int]));
                }
                if gen_arg_dependency(&gen_args[i], name) {
                    assert(args_v(*args)->args[i as int] == gen_arg_v(gen_args@[i as int]));
                    return true;
                }
                i += 1;
            }
            assert forall|j: int| 0 <= j < gen_args_v(gen_args@).len() implies !gen_arg_depends(#[trigger] gen_args_v(gen_args@)[j], name@) by {
                assert(gen_args_v(gen_args@)[j] == gen_arg_v(gen_args@[j]));
            }
            false
        },
        PathArgs::Paren { pieces } => pieces_dependency(pieces, name),
    }
}

fn gen_arg_dependency(arg: &GenArg, name: &String) -> (dep: bool)
    ensures
        dep == gen_arg_depends(gen_arg_v(*arg), name@),
    decreases arg,
{
    match arg {
        GenArg::Type(ty) => dependency_on_type(ty, name),
        GenArg::Const(pieces) => pieces_dependency(pieces, name),
        GenArg::AssocType { ident, ty } => dependency_on_type(ty, name),
        GenArg::Lifetime(_) => false,
        GenArg::Other(pieces) => pieces_dependency(pieces, name),
    }
}

fn pieces_dependency(pieces: &Vec<Piece>, name: &String) -> (dep: bool)
    ensures
        dep == pieces_depend(pieces_v(pieces@), name@),
    decreases pieces,
{
    let mut i: usize = 0;
    #[verifier::loop_isolation(false)]
    while i < pieces.len()
        invariant
            i <= pieces.len(),
            forall|j: int| 0 <= j < i ==> !piece_depends(#[trigger] piece_v(pieces@[j]), name@),
        decreases pieces.len() - i,
    {
        proof {
            assert(decreases_to!(*pieces => pieces@[i as int]));
        }
        let found = match &pieces[i] {
            Piece::Tokens(_) => false,
            Piece::Ty(ty) => dependency_on_type(ty, name),
            Piece::Bound(b) => bound_dependency(b, name),
            Piece::Group { delim, pieces: inner } => pieces_dependency(inner, name),
        };
        if found {
            assert(pieces_v(pieces@)[i as int] == piece_v(pieces@[i as int]));
            assert(piece_depends(pieces_v(pieces@)[i as int], name@));
            return true;
        }
        i += 1;
    }
    assert forall|j: int| 0 <= j < pieces_v(pieces@).len() implies !piece_depends(#[trigger] pieces_v(pieces@)[j], name@) by {
        assert(pieces_v(pieces@)[j] == piece_v(pieces@[j]));
    }
    false
}

/// Whether the type named `name` occurs in the bound `bound`.
pub fn bound_dependency(bound: &TypeBound, name: &String) -> (dep: bool)
    ensures
        dep == bound_depends(bound@, name@),
    decreases bound,
{
    match bound {
        TypeBound::Trait { paren, maybe, lifetimes, path } => path_dependency(path, name, false),
        TypeBound::Other(_) => false,
    }
}


// ---------------------------------------------------------------------------
// Substitution of a type

/// `t` with every type named `from` (occurring as a type of its own)
/// renamed to `to`.
pub open spec fn subst_ty(t: TyV, from: Seq<char>, to: Seq<char>) -> TyV
    decreases t,
{
    match t {
        TyV::Array { elem, len } => TyV::Array { elem: Box::new(subst_ty(*elem, from, to)), len },
        TyV::Paren { elem } => TyV::Paren { elem: Box::new(subst_ty(*elem, from, to)) },
        TyV::Tuple { elems } => TyV::Tuple {
            elems: Seq::new(
                elems.len(),
                |i: int| if 0 <= i < elems.len() { subst_ty(elems[i], from, to) } else { TyV::Tuple { elems: Seq::empty() } },
            ),
        },
        TyV::Path(p) => TyV::Path(subst_path(p, from, to, true)),
        TyV::Other { kind, pieces } => TyV::Other { kind, pieces: subst_pieces(pieces, from, to) },
    }
}

/// The path `p` with `from` renamed to `to`; when `p` is a path type
/// (`is_type`), its first segment itself is renamed if it names `from`
/// directly.
pub open spec fn subst_path(p: PathV, from: Seq<char>, to: Seq<char>, is_type: bool) -> PathV
    decreases p,
{
    PathV {
        qself: match p.qself {
            Some(q) => Some(QSelfV { ty: Box::new(subst_ty(*q.ty, from, to)), position: q.position }),
            None => None,
        },
        leading_colon: p.leading_colon,
        segments: Seq::new(
            p.segments.len(),
            |i: int| SegmentV {
                ident: if i == 0 && is_type && has_head(p) && p.segments[0].ident == from {
                    to
                } else {
                    p.segments[i].ident
                },
                args: if 0 <= i < p.segments.len() { subst_args(p.segments[i].args, from, to) } else { ArgsV::Plain },
            },
        ),
        trailing_colon: p.trailing_colon,
    }
}

/// The arguments `a` with `from` renamed to `to`.
pub open spec fn subst_args(a: ArgsV, from: Seq<char>, to: Seq<char>) -> ArgsV
    decreases a,
{
    match a {
        ArgsV::Plain => ArgsV::Plain,
        ArgsV::Angle { colon2, args } => ArgsV::Angle { colon2, args: subst_gen_args(args, from, to) },
        ArgsV::Paren { pieces } => ArgsV::Paren { pieces: subst_pieces(pieces, from, to) },
    }
}

/// The generic arguments `gs` with `from` renamed to `to`.
pub open spec fn subst_gen_args(gs: Seq<GenArgV>, from: Seq<char>, to: Seq<char>) -> Seq<GenArgV>
    decreases gs,
{
    Seq::new(
        gs.len(),
        |i: int| if 0 <= i < gs.len() { subst_gen_arg(gs[i], from, to) } else { GenArgV::Other(Seq::empty()) },
    )
}

/// The generic argument `g` with `from` renamed to `to`.
pub open spec fn subst_gen_arg(g: GenArgV, from: Seq<char>, to: Seq<char>) -> GenArgV
    decreases g,
{
    match g {
        GenArgV::Type(t) => GenArgV::Type(subst_ty(t, from, to)),
        GenArgV::Const(ps) => GenArgV::Const(subst_pieces(ps, from, to)),
        GenArgV::AssocType { ident, ty } => GenArgV::AssocType { ident, ty: subst_ty(ty, from, to) },
        GenArgV::Lifetime(l) => GenArgV::Lifetime(l),
        GenArgV::Other(ps) => GenArgV::Other(subst_pieces(ps, from, to)),
    }
}

/// The pieces `ps` with `from` renamed to `to`.
pub open spec fn subst_pieces(ps: Seq<PieceV>, from: Seq<char>, to: Seq<char>) -> Seq<PieceV>
    decreases ps,
{
    Seq::new(
        ps.len(),
        |i: int| if 0 <= i < ps.len() { subst_piece(ps[i], from, to) } else { PieceV::Tokens(Seq::empty()) },
    )
}

/// The piece `p` with `from` renamed to `to`.
pub open spec fn subst_piece(p: PieceV, from: Seq<char>, to: Seq<char>) -> PieceV
    decreases p,
{
    match p {
        PieceV::Tokens(t) => PieceV::Tokens(t),
        PieceV::Ty(t) => PieceV::Ty(subst_ty(t, from, to)),
        PieceV::Bound(b) => PieceV::Bound(subst_bound(b, from, to)),
        PieceV::Group { delim, pieces } => PieceV::Group { delim, pieces: subst_pieces(pieces, from, to) },
    }
}

/// The bound `b` with `from` renamed to `to`.
pub open spec fn subst_bound(b: TypeBoundV, from: Seq<char>, to: Seq<char>) -> TypeBoundV
    decreases b,
{
    match b {
        TypeBoundV::Trait { paren, maybe, lifetimes, path } => TypeBoundV::Trait {
            paren,
            maybe,
            lifetimes,
            path: subst_path(path, from, to, false),
        },
        TypeBoundV::Other(t) => TypeBoundV::Other(t),
    }
}

/// Substitutes the type named `from` with `to` within `ty`.
///
/// The result keeps the tokens of `ty`, which locate it in the input.
pub fn subs_type(ty: &Ty, from: &String, to: &Name) -> (subs: Ty)
    ensures
        subs@ == subst_ty(ty@, from@, to@),
        subs.tokens == ty.tokens,
    decreases ty,
{
    let tokens = clone_tokens(&ty.tokens);
    match &ty.kind {
        TyKind::Array { elem, len } => Ty {
            kind: TyKind::Array { elem: Box::new(subs_type(elem, from, to)), len: clone_tokens(len) },
            tokens,
        },
        TyKind::Paren { elem } => Ty { kind: TyKind::Paren { elem: Box::new(subs_type(elem, from, to)) }, tokens },
        TyKind::Tuple { elems } => {
            let mut elems2: Vec<Ty> = Vec::new();
            let mut i: usize = 0;
            #[verifier::loop_isolation(false)]
            while i < elems.len()
                invariant
                    i <= elems.len(),
                    elems2@.len() == i,
                    forall|j: int| 0 <= j < i ==> #[trigger] ty_v(elems2@[j]) == subst_ty(ty_v(elems@[j]), from@, to@),
                decreases elems.len() - i,
            {
                proof {
                    assert(decreases_to!(*ty => elems@[i as int]));
                }
                elems2.push(subs_type(&elems[i], from, to));
                i += 1;
            }
            let ghost ev = tys_v(elems@);
            let ghost want = subst_ty(ty@, from@, to@)->elems;
            assert forall|k: int| 0 <= k < want.len() implies tys_v(elems2@)[k] == want[k] by {
                assert(ty_v(elems2@[k]) == subst_ty(ty_v(elems@[k]), from@, to@));
                assert(ev[k] == ty_v(elems@[k]));
            }
            assert(tys_v(elems2@) =~= subst_ty(ty@, from@, to@)->elems);
            Ty { kind: TyKind::Tuple { elems: elems2 }, tokens }
        },
        TyKind::Path(path) => Ty { kind: TyKind::Path(subs_path(path, from, to, true)), tokens },
        TyKind::Other { kind, pieces } => Ty {
            kind: TyKind::Other { kind: *kind, pieces: subs_pieces(pieces, from, to) },
            tokens,
        },
    }
}

/// Substitutes the type named `from` with `to` within the path `path`, a
/// path type when `is_type` holds and a trait path otherwise.
pub fn subs_path(path: &TyPath, from: &String, to: &Name, is_type: bool) -> (subs: TyPath)
    ensures
        subs@ == subst_path(path@, from@, to@, is_type),
    decreases path,
{
    let ghost pv = path@;
    let qself = match &path.qself {
        Some(q) => Some(QualifiedSelf { ty: Box::new(subs_type(&q.ty, from, to)), position: q.position }),
        None => None,
    };
    let head_matches = is_type && path.qself.is_none() && !path.leading_colon && path.segments.len() > 0
        && path.segments[0].ident.text == *from;
    let mut segments: Vec<Segment> = Vec::new();
    let mut i: usize = 0;
    #[verifier::loop_isolation(false)]
    while i < path.segments.len()
        invariant
            i <= path.segments.len(),
            segments@.len() == i,
            head_matches == (is_type && has_head(pv) && pv.segments[0].ident == from@),
            forall|j: int| 0 <= j < i ==> {
                &&& (#[trigger] segments@[j]).ident@ == (if j == 0 && head_matches { to@ } else { pv.segments[j].ident })
                &&& args_v(segments@[j].args) == subst_args(pv.segments[j].args, from@, to@)
            },
        decreases path.segments.len() - i,
    {
        proof {
            assert(decreases_to!(*path => path.segments@[i as int].args));
            assert(pv.segments[i as int].args == args_v(path.segments@[i as int].args));
        }
        let ident = if i == 0 && head_matches {
            to.copy()
        } else {
            path.segments[i].ident.copy()
        };
        let args = subs_args(&path.segments[i].args, from, to);
        segments.push(Segment { ident, args });
        i += 1;
    }
    let subs = TyPath {
        qself,
        leading_colon: path.leading_colon,
        segments,
        trailing_colon: path.trailing_colon,
    };
    assert(subs@.segments =~= subst_path(pv, from@, to@, is_type).segments);
    subs
}

fn subs_args(args: &PathArgs, from: &String, to: &Name) -> (subs: PathArgs)
    ensures
        args_v(subs) == subst_args(args_v(*args), from@, to@),
    decreases args,
{
    match args {
        PathArgs::Plain => PathArgs::Plain,
        PathArgs::Angle { colon2, args: gen_args } => {
            proof {
                assert(decreases_to!(*args => *gen_args));
            }
            PathArgs::Angle { colon2: *colon2, args: subs_gen_args(gen_args, from, to) }
        },
        PathArgs::Paren { pieces } => PathArgs::Paren { pieces: subs_pieces(pieces, from, to) },
    }
}

fn subs_gen_args(gen_args: &Vec<GenArg>, from: &String, to: &Name) -> (subs: Vec<GenArg>)
    ensures
        gen_args_v(subs@) == subst_gen_args(gen_args_v(gen_args@), from@, to@),
    decreases gen_args,
{
    let mut args2: Vec<GenArg> = Vec::new();
    let mut i: usize = 0;
    #[verifier::loop_isolation(false)]
    while i < gen_args.len()
        invariant
            i <= gen_args.len(),
            args2@.len() == i,
            forall|j: int| 0 <= j < i ==> #[trigger] gen_arg_v(args2@[j]) == subst_gen_arg(gen_arg_v(gen_args@[j]), from@, to@),
        decreases gen_args.len() - i,
    {
        proof {
            assert(decreases_to!(*gen_args => gen_args@[i as int]));
        }
        args2.push(subs_gen_arg(&gen_args[i], from, to));
        i += 1;
    }
    let ghost gv = gen_args_v(gen_args@);
    assert forall|k: int| 0 <= k < gv.len() implies gen_args_v(args2@)[k] == subst_gen_args(gv, from@, to@)[k] by {
        assert(gen_arg_v(args2@[k]) == subst_gen_arg(gen_arg_v(gen_args@[k]), from@, to@));
        assert(gv[k] == gen_arg_v(gen_args@[k]));
    }
    assert(gen_args_v(args2@) =~= subst_gen_args(gv, from@, to@));
    args2
}

fn subs_gen_arg(arg: &GenArg, from: &String, to: &Name) -> (subs: GenArg)
    ensures
        gen_arg_v(subs) == subst_gen_arg(gen_arg_v(*arg), from@, to@),
    decreases arg,
{
    match arg {
        GenArg::Type(ty) => GenArg::Type(subs_type(ty, from, to)),
        GenArg::Const(pieces) => GenArg::Const(subs_pieces(pieces, from, to)),
        GenArg::AssocType { ident, ty } => GenArg::AssocType { ident: ident.copy(), ty: subs_type(ty, from, to) },
        GenArg::Lifetime(l) => GenArg::Lifetime(l.copy()),
        GenArg::Other(pieces) => GenArg::Other(subs_pieces(pieces, from, to)),
    }
}

/// Substitutes the type named `from` with `to` within `pieces`.
pub fn subs_pieces(pieces: &Vec<Piece>, from: &String, to: &Name) -> (subs: Vec<Piece>)
    ensures
        pieces_v(subs@) == subst_pieces(pieces_v(pieces@), from@, to@),
    decreases pieces,
{
    let mut pieces2: Vec<Piece> = Vec::new();
    let mut i: usize = 0;
    #[verifier::loop_isolation(false)]
    while i < pieces.len()
        invariant
            i <= pieces.len(),
            pieces2@.len() == i,
            forall|j: int| 0 <= j < i ==> #[trigger] piece_v(pieces2@[j]) == subst_piece(piece_v(pieces@[j]), from@, to@),
        decreases pieces.len() - i,
    {
        proof {
            assert(decreases_to!(*pieces => pieces@[i as int]));
        }
        let piece = match &pieces[i] {
            Piece::Tokens(tokens) => Piece::Tokens(clone_tokens(tokens)),
            Piece::Ty(ty) => Piece::Ty(subs_type(ty, from, to)),
            Piece::Bound(b) => Piece::Bound(subs_bound(b, from, to)),
            Piece::Group { delim, pieces: inner } => Piece::Group { delim: *delim, pieces: subs_pieces(inner, from, to) },
        };
        pieces2.push(piece);
        i += 1;
    }
    let ghost pv = pieces_v(pieces@);
    assert forall|k: int| 0 <= k < pv.len() implies pieces_v(pieces2@)[k] == subst_pieces(pv, from@, to@)[k] by {
        assert(piece_v(pieces2@[k]) == subst_piece(piece_v(pieces@[k]), from@, to@));
        assert(pv[k] == piece_v(pieces@[k]));
    }
    assert(pieces_v(pieces2@) =~= subst_pieces(pv, from@, to@));
    pieces2
}

/// Substitutes the type named `from` with `to` within the bound `bound`.
pub fn subs_bound(bound: &TypeBound, from: &String, to: &Name) -> (subs: TypeBound)
    ensures
        subs@ == subst_bound(bound@, from@, to@),
    decreases bound,
{
    match bound {
        TypeBound::Trait { paren, maybe, lifetimes, path } => TypeBound::Trait {
            paren: *paren,
            maybe: *maybe,
            lifetimes: match lifetimes {
                Some(l) => Some(clone_tokens(l)),
                None => None,
            },
            path: subs_path(path, from, to, false),
        },
        TypeBound::Other(t) => TypeBound::Other(clone_tokens(t)),
    }
}


// ---------------------------------------------------------------------------
// Sameness: equality of views

/// Whether two token streams render as the same text.
pub fn tokens_same(a: &TokenStream, b: &TokenStream) -> (same: bool)
    ensures
        same == (token_text(*a) == token_text(*b)),
{
    let ta = tokens_text(a);
    let tb = tokens_text(b);
    ta == tb
}

/// Whether two optional token streams render as the same text.
pub fn opt_tokens_same(a: &Option<TokenStream>, b: &Option<TokenStream>) -> (same: bool)
    ensures
        same == (opt_text(*a) == opt_text(*b)),
{
    match (a, b) {
        (Some(x), Some(y)) => tokens_same(x, y),
        (None, None) => true,
        _ => false,
    }
}

/// Whether two types are the same, spans aside.
pub fn ty_same(a: &Ty, b: &Ty) -> (same: bool)
    ensures
        same == (a@ == b@),
    decreases a,
{
    match (&a.kind, &b.kind) {
        (TyKind::Array { elem: e1, len: l1 }, TyKind::Array { elem: e2, len: l2 }) => {
            let r = ty_same(e1, e2) && tokens_same(l1, l2);
            proof {
                if !r {
                    if ty_v(**e1) != ty_v(**e2) {
                        assert(a@->Array_elem != b@->Array_elem);
                    }
                }
            }
            r
        },
        (TyKind::Paren { elem: e1 }, TyKind::Paren { elem: e2 }) => {
            let r = ty_same(e1, e2);
            proof {
                if !r {
                    assert(a@->Paren_elem != b@->Paren_elem);
                }
            }
            r
        },
        (TyKind::Tuple { elems: e1 }, TyKind::Tuple { elems: e2 }) => {
            assert(a@ == TyV::Tuple { elems: tys_v(e1@) });
            assert(b@ == TyV::Tuple { elems: tys_v(e2@) });
            if e1.len() != e2.len() {
                assert(a@->elems.len() != b@->elems.len());
                return false;
            }
            let mut i: usize = 0;
            #[verifier::loop_isolation(false)]
            while i < e1.len()
                invariant
                    i <= e1.len(),
                    e1.len() == e2.len(),
                    forall|j: int| 0 <= j < i ==> #[trigger] ty_v(e1@[j]) == ty_v(e2@[j]),
                decreases e1.len() - i,
            {
                proof {
                    assert(decreases_to!(*a => e1@[i as int]));
                }
                if !ty_same(&e1[i], &e2[i]) {
                    assert(a@->elems[i as int] != b@->elems[i as int]);
                    return false;
                }
                i += 1;
            }
            assert forall|j: int| 0 <= j < e1@.len() implies a@->elems[j] == b@->elems[j] by {
                assert(ty_v(e1@[j]) == ty_v(e2@[j]));
            }
            assert(a@->elems =~= b@->elems);
            true
        },
        (TyKind::Path(p1), TyKind::Path(p2)) => path_same(p1, p2),
        (TyKind::Other { kind: k1, pieces: ps1 }, TyKind::Other { kind: k2, pieces: ps2 }) => {
            let r = *k1 == *k2 && pieces_same(ps1, ps2);
            proof {
                if !r && *k1 == *k2 {
                    assert(a@->Other_pieces != b@->Other_pieces);
                }
            }
            r
        },
        _ => false,
    }
}

/// Whether two paths are the same, spans aside.
pub fn path_same(a: &TyPath, b: &TyPath) -> (same: bool)
    ensures
        same == (a@ == b@),
    decreases a,
{
    if a.leading_colon != b.leading_colon || a.trailing_colon != b.trailing_colon {
        return false;
    }
    match (&a.qself, &b.qself) {
        (Some(q1), Some(q2)) => {
            if q1.position != q2.position {
                assert(a@.qself->0.position != b@.qself->0.position);
                return false;
            }
            if !ty_same(&q1.ty, &q2.ty) {
                assert(a@.qself->0.ty != b@.qself->0.ty);
                return false;
            }
        },
        (None, None) => {},
        _ => {
            return false;
        },
    }
    if a.segments.len() != b.segments.len() {
        assert(a@.segments.len() != b@.segments.len());
        return false;
    }
    let mut i: usize = 0;
    #[verifier::loop_isolation(false)]
    while i < a.segments.len()
        invariant
            i <= a.segments.len(),
            a.segments.len() == b.segments.len(),
            forall|j: int| 0 <= j < i ==> #[trigger] a@.segments[j] == b@.segments[j],
        decreases a.segments.len() - i,
    {
        proof {
            assert(decreases_to!(*a => a.segments@[i as int].args));
        }
        let r = a.segments[i].ident.text == b.segments[i].ident.text
            && args_same(&a.segments[i].args, &b.segments[i].args);
        if !r {
            assert(a@.segments[i as int] != b@.segments[i as int]);
            return false;
        }
        i += 1;
    }
    assert(a@.segments =~= b@.segments);
    true
}

fn args_same(a: &PathArgs, b: &PathArgs) -> (same: bool)
    ensures
        same == (args_v(*a) == args_v(*b)),
    decreases a,
{
    match (a, b) {
        (PathArgs::Plain, PathArgs::Plain) => true,
        (PathArgs::Angle { colon2: c1, args: g1 }, PathArgs::Angle { colon2: c2, args: g2 }) => {
            if *c1 != *c2 {
                return false;
            }
            if g1.len() != g2.len() {
                assert(args_v(*a)->args.len() != args_v(*b)->args.len());
                return false;
            }
            let mut i: usize = 0;
            #[verifier::loop_isolation(false)]
            while i < g1.len()
                invariant
                    i <= g1.len(),
                    g1.len() == g2.len(),
                    forall|j: int| 0 <= j < i ==> #[trigger] gen_arg_v(g1@[j]) == gen_arg_v(g2@[j]),
                decreases g1.len() - i,
            {
                proof {
                    assert(decreases_to!(*a => g1@[i as int]));
                }
                if !gen_arg_same(&g1[i], &g2[i]) {
                    assert(args_v(*a)->args[i as int] != args_v(*b)->args[i as int]);
                    return false;
                }
                i += 1;
            }
            assert forall|j: int| 0 <= j < g1@.len() implies args_v(*a)->args[j] == args_v(*b)->args[j] by {
                assert(gen_arg_v(g1@[j]) == gen_arg_v(g2@[j]));
            }
            assert(args_v(*a)->args =~= args_v(*b)->args);
            true
        },
        (PathArgs::Paren { pieces: p1 }, PathArgs::Paren { pieces: p2 }) => {
            let r = pieces_same(p1, p2);
            proof {
                if !r {
                    assert(args_v(*a)->pieces != args_v(*b)->pieces);
                }
            }
            r
        },
        _ => false,
    }
}

fn gen_arg_same(a: &GenArg, b: &GenArg) -> (same: bool)
    ensures
        same == (gen_arg_v(*a) == gen_arg_v(*b)),
    decreases a,
{
    match (a, b) {
        (GenArg::Type(t1), GenArg::Type(t2)) => {
            let r = ty_same(t1, t2);
            proof {
                if !r {
                    assert(gen_arg_v(*a)->Type_0 != gen_arg_v(*b)->Type_0);
                }
            }
            r
        },
        (GenArg::Const(p1), GenArg::Const(p2)) => {
            let r = pieces_same(p1, p2);
            proof {
                if !r {
                    assert(gen_arg_v(*a)->Const_0 != gen_arg_v(*b)->Const_0);
                }
            }
            r
        },
        (GenArg::AssocType { ident: i1, ty: t1 }, GenArg::AssocType { ident: i2, ty: t2 }) => {
            let r = i1.text == i2.text && ty_same(t1, t2);
            proof {
                if !r && i1@ == i2@ {
                    assert(gen_arg_v(*a)->AssocType_ty != gen_arg_v(*b)->AssocType_ty);
                }
            }
            r
        },
        (GenArg::Lifetime(l1), GenArg::Lifetime(l2)) => l1.text == l2.text,
        (GenArg::Other(p1), GenArg::Other(p2)) => {
            let r = pieces_same(p1, p2);
            proof {
                if !r {
                    assert(gen_arg_v(*a)->Other_0 != gen_arg_v(*b)->Other_0);
                }
            }
            r
        },
        _ => false,
    }
}

fn pieces_same(a: &Vec<Piece>, b: &Vec<Piece>) -> (same: bool)
    ensures
        same == (pieces_v(a@) == pieces_v(b@)),
    decreases a,
{
    if a.len() != b.len() {
        assert(pieces_v(a@).len() != pieces_v(b@).len());
        return false;
    }
    let mut i: usize = 0;
    #[verifier::loop_isolation(false)]
    while i < a.len()
        invariant
            i <= a.len(),
            a.len() == b.len(),
            forall|j: int| 0 <= j < i ==> #[trigger] piece_v(a@[j]) == piece_v(b@[j]),
        decreases a.len() - i,
    {
        proof {
            assert(decreases_to!(*a => a@[i as int]));
        }
        let r = match (&a[i], &b[i]) {
            (Piece::Tokens(t1), Piece::Tokens(t2)) => tokens_same(t1, t2),
            (Piece::Ty(t1), Piece::Ty(t2)) => ty_same(t1, t2),
            (Piece::Bound(b1), Piece::Bound(b2)) => bound_same(b1, b2),
            (Piece::Group { delim: d1, pieces: p1 }, Piece::Group { delim: d2, pieces: p2 }) => *d1 == *d2
                && pieces_same(p1, p2),
            _ => false,
        };
        if !r {
            proof {
                let (x, y) = (piece_v(a@[i as int]), piece_v(b@[i as int]));
                if x == y {
                    match (a@[i as int], b@[i as int]) {
                        (Piece::Ty(t1), Piece::Ty(t2)) => assert(x->Ty_0 == y->Ty_0),
                        (Piece::Bound(b1), Piece::Bound(b2)) => assert(x->Bound_0 == y->Bound_0),
                        (Piece::Group { delim: d1, pieces: p1 }, Piece::Group { delim: d2, pieces: p2 }) =>
                            assert(x->Group_pieces == y->Group_pieces),
                        _ => {},
                    }
                }
                assert(pieces_v(a@)[i as int] != pieces_v(b@)[i as int]);
            }
            return false;
        }
        i += 1;
    }
    assert forall|j: int| 0 <= j < a@.len() implies pieces_v(a@)[j] == pieces_v(b@)[j] by {
        assert(piece_v(a@[j]) == piece_v(b@[j]));
    }
    assert(pieces_v(a@) =~= pieces_v(b@));
    true
}

/// Whether two bounds are the same, spans aside.
pub fn bound_same(a: &TypeBound, b: &TypeBound) -> (same: bool)
    ensures
        same == (a@ == b@),
    decreases a,
{
    match (a, b) {
        (
            TypeBound::Trait { paren: p1, maybe: m1, lifetimes: l1, path: q1 },
            TypeBound::Trait { paren: p2, maybe: m2, lifetimes: l2, path: q2 },
        ) => {
            let r = *p1 == *p2 && *m1 == *m2 && opt_tokens_same(l1, l2) && path_same(q1, q2);
            proof {
                if !r && *p1 == *p2 && *m1 == *m2 && opt_text(*l1) == opt_text(*l2) {
                    assert(a@->Trait_path != b@->Trait_path);
                }
            }
            r
        },
        (TypeBound::Other(t1), TypeBound::Other(t2)) => tokens_same(t1, t2),
        _ => false,
    }
}


// ---------------------------------------------------------------------------
// Copies

/// Copies a type, spans and tokens included.
pub fn copy_ty(ty: &Ty) -> (copy: Ty)
    ensures
        copy@ == ty@,
        copy.tokens == ty.tokens,
    decreases ty,
{
    let tokens = clone_tokens(&ty.tokens);
    match &ty.kind {
        TyKind::Array { elem, len } => Ty {
            kind: TyKind::Array { elem: Box::new(copy_ty(elem)), len: clone_tokens(len) },
            tokens,
        },
        TyKind::Paren { elem } => Ty { kind: TyKind::Paren { elem: Box::new(copy_ty(elem)) }, tokens },
        TyKind::Tuple { elems } => {
            let mut elems2: Vec<Ty> = Vec::new();
            let mut i: usize = 0;
            #[verifier::loop_isolation(false)]
            while i < elems.len()
                invariant
                    i <= elems.len(),
                    elems2@.len() == i,
                    forall|j: int| 0 <= j < i ==> #[trigger] ty_v(elems2@[j]) == ty_v(elems@[j]),
                decreases elems.len() - i,
            {
                proof {
                    assert(decreases_to!(*ty => elems@[i as int]));
                }
                elems2.push(copy_ty(&elems[i]));
                i += 1;
            }
            assert forall|k: int| 0 <= k < elems@.len() implies tys_v(elems2@)[k] == tys_v(elems@)[k] by {
                assert(ty_v(elems2@[k]) == ty_v(elems@[k]));
            }
            assert(tys_v(elems2@) =~= tys_v(elems@));
            Ty { kind: TyKind::Tuple { elems: elems2 }, tokens }
        },
        TyKind::Path(path) => Ty { kind: TyKind::Path(copy_path(path)), tokens },
        TyKind::Other { kind, pieces } => Ty { kind: TyKind::Other { kind: *kind, pieces: copy_pieces(pieces) }, tokens },
    }
}

/// Copies a path, spans included.
pub fn copy_path(path: &TyPath) -> (copy: TyPath)
    ensures
        copy@ == path@,
    decreases path,
{
    let qself = match &path.qself {
        Some(q) => Some(QualifiedSelf { ty: Box::new(copy_ty(&q.ty)), position: q.position }),
        None => None,
    };
    let mut segments: Vec<Segment> = Vec::new();
    let mut i: usize = 0;
    #[verifier::loop_isolation(false)]
    while i < path.segments.len()
        invariant
            i <= path.segments.len(),
            segments@.len() == i,
            forall|j: int| 0 <= j < i ==> (#[trigger] segments@[j]).ident@ == path.segments@[j].ident@
                && args_v(segments@[j].args) == args_v(path.segments@[j].args),
        decreases path.segments.len() - i,
    {
        proof {
            assert(decreases_to!(*path => path.segments@[i as int].args));
        }
        segments.push(Segment { ident: path.segments[i].ident.copy(), args: copy_args(&path.segments[i].args) });
        i += 1;
    }
    let copy = TyPath { qself, leading_colon: path.leading_colon, segments, trailing_colon: path.trailing_colon };
    assert(copy@.segments =~= path@.segments);
    copy
}

pub fn copy_args(args: &PathArgs) -> (copy: PathArgs)
    ensures
        args_v(copy) == args_v(*args),
    decreases args,
{
    match args {
        PathArgs::Plain => PathArgs::Plain,
        PathArgs::Angle { colon2, args: gen_args } => {
            let mut args2: Vec<GenArg> = Vec::new();
            let mut i: usize = 0;
            #[verifier::loop_isolation(false)]
            while i < gen_args.len()
                invariant
                    i <= gen_args.len(),
                    args2@.len() == i,
                    forall|j: int| 0 <= j < i ==> #[trigger] gen_arg_v(args2@[j]) == gen_arg_v(gen_args@[j]),
                decreases gen_args.len() - i,
            {
                proof {
                    assert(decreases_to!(*args => gen_args@[i as int]));
                }
                args2.push(copy_gen_arg(&gen_args[i]));
                i += 1;
            }
            assert forall|k: int| 0 <= k < gen_args@.len() implies gen_args_v(args2@)[k] == gen_args_v(gen_args@)[k] by {
                assert(gen_arg_v(args2@[k]) == gen_arg_v(gen_args@[k]));
            }
            assert(gen_args_v(args2@) =~= gen_args_v(gen_args@));
            PathArgs::Angle { colon2: *colon2, args: args2 }
        },
        PathArgs::Paren { pieces } => PathArgs::Paren { pieces: copy_pieces(pieces) },
    }
}

pub fn copy_gen_arg(arg: &GenArg) -> (copy: GenArg)
    ensures
        gen_arg_v(copy) == gen_arg_v(*arg),
    decreases arg,
{
    match arg {
        GenArg::Type(ty) => GenArg::Type(copy_ty(ty)),
        GenArg::Const(pieces) => GenArg::Const(copy_pieces(pieces)),
        GenArg::AssocType { ident, ty } => GenArg::AssocType { ident: ident.copy(), ty: copy_ty(ty) },
        GenArg::Lifetime(l) => GenArg::Lifetime(l.copy()),
        GenArg::Other(pieces) => GenArg::Other(copy_pieces(pieces)),
    }
}

/// Copies pieces, spans included.
pub fn copy_pieces(pieces: &Vec<Piece>) -> (copy: Vec<Piece>)
    ensures
        pieces_v(copy@) == pieces_v(pieces@),
    decreases pieces,
{
    let mut pieces2: Vec<Piece> = Vec::new();
    let mut i: usize = 0;
    #[verifier::loop_isolation(false)]
    while i < pieces.len()
        invariant
            i <= pieces.len(),
            pieces2@.len() == i,
            forall|j: int| 0 <= j < i ==> #[trigger] piece_v(pieces2@[j]) == piece_v(pieces@[j]),
        decreases pieces.len() - i,
    {
        proof {
            assert(decreases_to!(*pieces => pieces@[i as int]));
        }
        let piece = match &pieces[i] {
            Piece::Tokens(tokens) => Piece::Tokens(clone_tokens(tokens)),
            Piece::Ty(ty) => Piece::Ty(copy_ty(ty)),
            Piece::Bound(b) => Piece::Bound(copy_bound(b)),
            Piece::Group { delim, pieces: inner } => Piece::Group { delim: *delim, pieces: copy_pieces(inner) },
        };
        pieces2.push(piece);
        i += 1;
    }
    assert forall|k: int| 0 <= k < pieces@.len() implies pieces_v(pieces2@)[k] == pieces_v(pieces@)[k] by {
        assert(piece_v(pieces2@[k]) == piece_v(pieces@[k]));
    }
    assert(pieces_v(pieces2@) =~= pieces_v(pieces@));
    pieces2
}

/// Copies a bound, spans included.
pub fn copy_bound(bound: &TypeBound) -> (copy: TypeBound)
    ensures
        copy@ == bound@,
    decreases bound,
{
    match bound {
        TypeBound::Trait { paren, maybe, lifetimes, path } => TypeBound::Trait {
            paren: *paren,
            maybe: *maybe,
            lifetimes: match lifetimes {
                Some(l) => Some(clone_tokens(l)),
                None => None,
            },
            path: copy_path(path),
        },
        TypeBound::Other(t) => TypeBound::Other(clone_tokens(t)),
    }
}

// ---------------------------------------------------------------------------
// Substitution leaves what does not depend on the substituted type unchanged

/// Substituting a type that does not occur in `t` leaves `t` unchanged.
pub proof fn lemma_subst_ty_absent(t: TyV, from: Seq<char>, to: Seq<char>)
    requires
        !ty_depends(t, from),
    ensures
        subst_ty(t, from, to) == t,
    decreases t,
{
    match t {
        TyV::Array { elem, len } => lemma_subst_ty_absent(*elem, from, to),
        TyV::Paren { elem } => lemma_subst_ty_absent(*elem, from, to),
        TyV::Tuple { elems } => {
            assert forall|i: int| 0 <= i < elems.len() implies subst_ty(t, from, to)->elems[i] == elems[i] by {
                assert(!ty_depends(elems[i], from));
                lemma_subst_ty_absent(elems[i], from, to);
            }
            assert(subst_ty(t, from, to)->elems =~= elems);
        },
        TyV::Path(p) => lemma_subst_path_absent(p, from, to, true),
        TyV::Other { kind, pieces } => lemma_subst_pieces_absent(pieces, from, to),
    }
}

/// Substituting a type that does not occur in the path `p` leaves it
/// unchanged.
pub proof fn lemma_subst_path_absent(p: PathV, from: Seq<char>, to: Seq<char>, is_type: bool)
    requires
        !path_depends(p, from, is_type),
    ensures
        subst_path(p, from, to, is_type) == p,
    decreases p,
{
    match p.qself {
        Some(q) => lemma_subst_ty_absent(*q.ty, from, to),
        None => {},
    }
    let r = subst_path(p, from, to, is_type);
    assert forall|i: int| 0 <= i < p.segments.len() implies r.segments[i] == p.segments[i] by {
        assert(!args_depend(p.segments[i].args, from));
        lemma_subst_args_absent(p.segments[i].args, from, to);
    }
    assert(r.segments =~= p.segments);
}

proof fn lemma_subst_args_absent(a: ArgsV, from: Seq<char>, to: Seq<char>)
    requires
        !args_depend(a, from),
    ensures
        subst_args(a, from, to) == a,
    decreases a,
{
    match a {
        ArgsV::Plain => {},
        ArgsV::Angle { colon2, args } => {
            assert forall|i: int| 0 <= i < args.len() implies subst_gen_args(args, from, to)[i] == args[i] by {
                assert(!gen_arg_depends(args[i], from));
                lemma_subst_gen_arg_absent(args[i], from, to);
            }
            assert(subst_gen_args(args, from, to) =~= args);
        },
        ArgsV::Paren { pieces } => lemma_subst_pieces_absent(pieces, from, to),
    }
}

proof fn lemma_subst_gen_arg_absent(g: GenArgV, from: Seq<char>, to: Seq<char>)
    requires
        !gen_arg_depends(g, from),
    ensures
        subst_gen_arg(g, from, to) == g,
    decreases g,
{
    match g {
        GenArgV::Type(t) => lemma_subst_ty_absent(t, from, to),
        GenArgV::Const(ps) => lemma_subst_pieces_absent(ps, from, to),
        GenArgV::AssocType { ident, ty } => lemma_subst_ty_absent(ty, from, to),
        GenArgV::Lifetime(_) => {},
        GenArgV::Other(ps) => lemma_subst_pieces_absent(ps, from, to),
    }
}

proof fn lemma_subst_pieces_absent(ps: Seq<PieceV>, from: Seq<char>, to: Seq<char>)
    requires
        !pieces_depend(ps, from),
    ensures
        subst_pieces(ps, from, to) == ps,
    decreases ps,
{
    assert forall|i: int| 0 <= i < ps.len() implies subst_pieces(ps, from, to)[i] == ps[i] by {
        assert(!piece_depends(ps[i], from));
        lemma_subst_piece_absent(ps[i], from, to);
    }
    assert(subst_pieces(ps, from, to) =~= ps);
}

proof fn lemma_subst_piece_absent(p: PieceV, from: Seq<char>, to: Seq<char>)
    requires
        !piece_depends(p, from),
    ensures
        subst_piece(p, from, to) == p,
    decreases p,
{
    match p {
        PieceV::Tokens(_) => {},
        PieceV::Ty(t) => lemma_subst_ty_absent(t, from, to),
        PieceV::Bound(b) => lemma_subst_bound_absent(b, from, to),
        PieceV::Group { delim, pieces } => lemma_subst_pieces_absent(pieces, from, to),
    }
}

/// Substituting a type that does not occur in the bound `b` leaves it
/// unchanged.
pub proof fn lemma_subst_bound_absent(b: TypeBoundV, from: Seq<char>, to: Seq<char>)
    requires
        !bound_depends(b, from),
    ensures
        subst_bound(b, from, to) == b,
    decreases b,
{
    match b {
        TypeBoundV::Trait { paren, maybe, lifetimes, path } => lemma_subst_path_absent(path, from, to, false),
        TypeBoundV::Other(_) => {},
    }
}


/// Whether the type named `name` occurs in the path type `path` without its
/// last segment.
pub fn prefix_dependency(path: &TyPath, name: &String) -> (dep: bool)
    requires
        path.segments.len() > 0,
    ensures
        dep == path_depends(PathV { segments: path@.segments.drop_last(), ..path@ }, name@, true),
{
    let ghost pv = path@;
    let ghost prefix = PathV { segments: pv.segments.drop_last(), ..pv };
    let n = path.segments.len() - 1;
    if path.qself.is_none() && !path.leading_colon && n > 0 {
        if path.segments[0].ident.text == *name {
            assert(prefix.segments[0].ident == path.segments@[0].ident@);
            return true;
        }
    }
    match &path.qself {
        Some(q) => {
            if dependency_on_type(&q.ty, name) {
                return true;
            }
        },
        None => {},
    }
    let mut i: usize = 0;
    #[verifier::loop_isolation(false)]
    while i < n
        invariant
            i <= n,
            forall|j: int| 0 <= j < i ==> !args_depend(#[trigger] args_v(path.segments@[j].args), name@),
        decreases n - i,
    {
        if args_dependency(&path.segments[i].args, name) {
            assert(prefix.segments[i as int].args == args_v(path.segments@[i as int].args));
            return true;
        }
        i += 1;
    }
    assert forall|j: int| 0 <= j < prefix.segments.len() implies !args_depend(#[trigger] prefix.segments[j].args, name@) by {
        assert(prefix.segments[j].args == args_v(path.segments@[j].args));
    }
    false
}


// ---------------------------------------------------------------------------
// Substitution removes the substituted type and introduces its replacement

/// After renaming the type `from` to another name, `from` no longer occurs.
pub proof fn law_subst_ty_removes(t: TyV, from: Seq<char>, to: Seq<char>)
    requires
        from != to,
    ensures
        !ty_depends(subst_ty(t, from, to), from),
    decreases t,
{
    match t {
        TyV::Array { elem, len } => law_subst_ty_removes(*elem, from, to),
        TyV::Paren { elem } => law_subst_ty_removes(*elem, from, to),
        TyV::Tuple { elems } => {
            let r = subst_ty(t, from, to)->elems;
            assert forall|i: int| 0 <= i < r.len() implies !ty_depends(#[trigger] r[i], from) by {
                law_subst_ty_removes(elems[i], from, to);
            }
        },
        TyV::Path(p) => law_subst_path_removes(p, from, to, true),
        TyV::Other { kind, pieces } => law_subst_pieces_removes(pieces, from, to),
    }
}

/// After renaming the type `from` to another name in a path, `from` no
/// longer occurs in it.
pub proof fn law_subst_path_removes(p: PathV, from: Seq<char>, to: Seq<char>, is_type: bool)
    requires
        from != to,
    ensures
        !path_depends(subst_path(p, from, to, is_type), from, is_type),
    decreases p,
{
    let r = subst_path(p, from, to, is_type);
    match p.qself {
        Some(q) => law_subst_ty_removes(*q.ty, from, to),
        None => {},
    }
    assert forall|i: int| 0 <= i < r.segments.len() implies !args_depend(#[trigger] r.segments[i].args, from) by {
        law_subst_args_removes(p.segments[i].args, from, to);
    }
}

proof fn law_subst_args_removes(a: ArgsV, from: Seq<char>, to: Seq<char>)
    requires
        from != to,
    ensures
        !args_depend(subst_args(a, from, to), from),
    decreases a,
{
    match a {
        ArgsV::Plain => {},
        ArgsV::Angle { colon2, args } => {
            let r = subst_gen_args(args, from, to);
            assert forall|i: int| 0 <= i < r.len() implies !gen_arg_depends(#[trigger] r[i], from) by {
                law_subst_gen_arg_removes(args[i], from, to);
            }
            assert(subst_args(a, from, to)->args == r);
        },
        ArgsV::Paren { pieces } => law_subst_pieces_removes(pieces, from, to),
    }
}

proof fn law_subst_gen_arg_removes(g: GenArgV, from: Seq<char>, to: Seq<char>)
    requires
        from != to,
    ensures
        !gen_arg_depends(subst_gen_arg(g, from, to), from),
    decreases g,
{
    match g {
        GenArgV::Type(t) => law_subst_ty_removes(t, from, to),
        GenArgV::Const(ps) => law_subst_pieces_removes(ps, from, to),
        GenArgV::AssocType { ident, ty } => law_subst_ty_removes(ty, from, to),
        GenArgV::Lifetime(_) => {},
        GenArgV::Other(ps) => law_subst_pieces_removes(ps, from, to),
    }
}

proof fn law_subst_pieces_removes(ps: Seq<PieceV>, from: Seq<char>, to: Seq<char>)
    requires
        from != to,
    ensures
        !pieces_depend(subst_pieces(ps, from, to), from),
    decreases ps,
{
    let r = subst_pieces(ps, from, to);
    assert forall|i: int| 0 <= i < r.len() implies !piece_depends(#[trigger] r[i], from) by {
        law_subst_piece_removes(ps[i], from, to);
    }
}

proof fn law_subst_piece_removes(p: PieceV, from: Seq<char>, to: Seq<char>)
    requires
        from != to,
    ensures
        !piece_depends(subst_piece(p, from, to), from),
    decreases p,
{
    match p {
        PieceV::Tokens(_) => {},
        PieceV::Ty(t) => law_subst_ty_removes(t, from, to),
        PieceV::Bound(b) => {
            match b {
                TypeBoundV::Trait { paren, maybe, lifetimes, path } => law_subst_path_removes(path, from, to, false),
                TypeBoundV::Other(_) => {},
            }
        },
        PieceV::Group { delim, pieces } => law_subst_pieces_removes(pieces, from, to),
    }
}

/// Where the type `from` occurs, its replacement occurs after renaming.
pub proof fn law_subst_ty_introduces(t: TyV, from: Seq<char>, to: Seq<char>)
    requires
        ty_depends(t, from),
    ensures
        ty_depends(subst_ty(t, from, to), to),
    decreases t,
{
    match t {
        TyV::Array { elem, len } => law_subst_ty_introduces(*elem, from, to),
        TyV::Paren { elem } => law_subst_ty_introduces(*elem, from, to),
        TyV::Tuple { elems } => {
            let i = choose|i: int| 0 <= i < elems.len() && ty_depends(#[trigger] elems[i], from);
            law_subst_ty_introduces(elems[i], from, to);
            assert(subst_ty(t, from, to)->elems[i] == subst_ty(elems[i], from, to));
        },
        TyV::Path(p) => law_subst_path_introduces(p, from, to, true),
        TyV::Other { kind, pieces } => law_subst_pieces_introduces(pieces, from, to),
    }
}

/// Where the type `from` occurs in a path, its replacement occurs after
/// renaming.
pub proof fn law_subst_path_introduces(p: PathV, from: Seq<char>, to: Seq<char>, is_type: bool)
    requires
        path_depends(p, from, is_type),
    ensures
        path_depends(subst_path(p, from, to, is_type), to, is_type),
    decreases p,
{
    let r = subst_path(p, from, to, is_type);
    if is_type && has_head(p) && p.segments[0].ident == from {
        assert(r.segments[0].ident == to);
    } else if p.qself is Some && ty_depends(*p.qself->Some_0.ty, from) {
        law_subst_ty_introduces(*p.qself->Some_0.ty, from, to);
    } else {
        let i = choose|i: int| 0 <= i < p.segments.len() && args_depend(#[trigger] p.segments[i].args, from);
        law_subst_args_introduces(p.segments[i].args, from, to);
        assert(r.segments[i].args == subst_args(p.segments[i].args, from, to));
    }
}

proof fn law_subst_args_introduces(a: ArgsV, from: Seq<char>, to: Seq<char>)
    requires
        args_depend(a, from),
    ensures
        args_depend(subst_args(a, from, to), to),
    decreases a,
{
    match a {
        ArgsV::Plain => {},
        ArgsV::Angle { colon2, args } => {
            let i = choose|i: int| 0 <= i < args.len() && gen_arg_depends(#[trigger] args[i], from);
            law_subst_gen_arg_introduces(args[i], from, to);
            assert(subst_args(a, from, to)->args[i] == subst_gen_arg(args[i], from, to));
        },
        ArgsV::Paren { pieces } => law_subst_pieces_introduces(pieces, from, to),
    }
}

proof fn law_subst_gen_arg_introduces(g: GenArgV, from: Seq<char>, to: Seq<char>)
    requires
        gen_arg_depends(g, from),
    ensures
        gen_arg_depends(subst_gen_arg(g, from, to), to),
    decreases g,
{
    match g {
        GenArgV::Type(t) => law_subst_ty_introduces(t, from, to),
        GenArgV::Const(ps) => law_subst_pieces_introduces(ps, from, to),
        GenArgV::AssocType { ident, ty } => law_subst_ty_introduces(ty, from, to),
        GenArgV::Lifetime(_) => {},
        GenArgV::Other(ps) => law_subst_pieces_introduces(ps, from, to),
    }
}

proof fn law_subst_pieces_introduces(ps: Seq<PieceV>, from: Seq<char>, to: Seq<char>)
    requires
        pieces_depend(ps, from),
    ensures
        pieces_depend(subst_pieces(ps, from, to), to),
    decreases ps,
{
    let i = choose|i: int| 0 <= i < ps.len() && piece_depends(#[trigger] ps[i], from);
    law_subst_piece_introduces(ps[i], from, to);
    assert(subst_pieces(ps, from, to)[i] == subst_piece(ps[i], from, to));
}

proof fn law_subst_piece_introduces(p: PieceV, from: Seq<char>, to: Seq<char>)
    requires
        piece_depends(p, from),
    ensures
        piece_depends(subst_piece(p, from, to), to),
    decreases p,
{
    match p {
        PieceV::Tokens(_) => {},
        PieceV::Ty(t) => law_subst_ty_introduces(t, from, to),
        PieceV::Bound(b) => {
            match b {
                TypeBoundV::Trait { paren, maybe, lifetimes, path } => law_subst_path_introduces(path, from, to, false),
                TypeBoundV::Other(_) => {},
            }
        },
        PieceV::Group { delim, pieces } => law_subst_pieces_introduces(pieces, from, to),
    }
}

/// Renaming the type `a` to `b` in a type in which `b` does not occur, and
/// then `b` back to `a`, restores the type.
pub proof fn law_subst_ty_roundtrip(t: TyV, a: Seq<char>, b: Seq<char>)
    requires
        a != b,
        !ty_depends(t, b),
    ensures
        subst_ty(subst_ty(t, a, b), b, a) == t,
    decreases t,
{
    match t {
        TyV::Array { elem, len } => law_subst_ty_roundtrip(*elem, a, b),
        TyV::Paren { elem } => law_subst_ty_roundtrip(*elem, a, b),
        TyV::Tuple { elems } => {
            let r1 = subst_ty(t, a, b);
            let r2 = subst_ty(r1, b, a);
            assert forall|i: int| 0 <= i < elems.len() implies r2->elems[i] == elems[i] by {
                assert(!ty_depends(elems[i], b));
                law_subst_ty_roundtrip(elems[i], a, b);
                assert(r1->elems[i] == subst_ty(elems[i], a, b));
            }
            assert(r2->elems =~= elems);
        },
        TyV::Path(p) => law_subst_path_roundtrip(p, a, b, true),
        TyV::Other { kind, pieces } => law_subst_pieces_roundtrip(pieces, a, b),
    }
}

/// Renaming the type `a` to `b` in a path in which `b` does not occur, and
/// then `b` back to `a`, restores the path.
pub proof fn law_subst_path_roundtrip(p: PathV, a: Seq<char>, b: Seq<char>, is_type: bool)
    requires
        a != b,
        !path_depends(p, b, is_type),
    ensures
        subst_path(subst_path(p, a, b, is_type), b, a, is_type) == p,
    decreases p,
{
    let r1 = subst_path(p, a, b, is_type);
    let r2 = subst_path(r1, b, a, is_type);
    match p.qself {
        Some(q) => {
            law_subst_ty_roundtrip(*q.ty, a, b);
            assert(r2.qself == p.qself);
        },
        None => {},
    }
    assert forall|i: int| 0 <= i < p.segments.len() implies r2.segments[i] == p.segments[i] by {
        assert(!args_depend(p.segments[i].args, b));
        law_subst_args_roundtrip(p.segments[i].args, a, b);
        assert(r1.segments[i].args == subst_args(p.segments[i].args, a, b));
    }
    assert(r2.segments =~= p.segments);
}

proof fn law_subst_args_roundtrip(x: ArgsV, a: Seq<char>, b: Seq<char>)
    requires
        a != b,
        !args_depend(x, b),
    ensures
        subst_args(subst_args(x, a, b), b, a) == x,
    decreases x,
{
    match x {
        ArgsV::Plain => {},
        ArgsV::Angle { colon2, args } => {
            let r1 = subst_gen_args(args, a, b);
            let r2 = subst_gen_args(r1, b, a);
            assert forall|i: int| 0 <= i < args.len() implies r2[i] == args[i] by {
                assert(!gen_arg_depends(args[i], b));
                law_subst_gen_arg_roundtrip(args[i], a, b);
            }
            assert(r2 =~= args);
        },
        ArgsV::Paren { pieces } => law_subst_pieces_roundtrip(pieces, a, b),
    }
}

proof fn law_subst_gen_arg_roundtrip(g: GenArgV, a: Seq<char>, b: Seq<char>)
    requires
        a != b,
        !gen_arg_depends(g, b),
    ensures
        subst_gen_arg(subst_gen_arg(g, a, b), b, a) == g,
    decreases g,
{
    match g {
        GenArgV::Type(t) => law_subst_ty_roundtrip(t, a, b),
        GenArgV::Const(ps) => law_subst_pieces_roundtrip(ps, a, b),
        GenArgV::AssocType { ident, ty } => law_subst_ty_roundtrip(ty, a, b),
        GenArgV::Lifetime(_) => {},
        GenArgV::Other(ps) => law_subst_pieces_roundtrip(ps, a, b),
    }
}

proof fn law_subst_pieces_roundtrip(ps: Seq<PieceV>, a: Seq<char>, b: Seq<char>)
    requires
        a != b,
        !pieces_depend(ps, b),
    ensures
        subst_pieces(subst_pieces(ps, a, b), b, a) == ps,
    decreases ps,
{
    let r1 = subst_pieces(ps, a, b);
    let r2 = subst_pieces(r1, b, a);
    assert forall|i: int| 0 <= i < ps.len() implies r2[i] == ps[i] by {
        assert(!piece_depends(ps[i], b));
        law_subst_piece_roundtrip(ps[i], a, b);
    }
    assert(r2 =~= ps);
}

proof fn law_subst_piece_roundtrip(p: PieceV, a: Seq<char>, b: Seq<char>)
    requires
        a != b,
        !piece_depends(p, b),
    ensures
        subst_piece(subst_piece(p, a, b), b, a) == p,
    decreases p,
{
    match p {
        PieceV::Tokens(_) => {},
        PieceV::Ty(t) => law_subst_ty_roundtrip(t, a, b),
        PieceV::Bound(bd) => {
            match bd {
                TypeBoundV::Trait { paren, maybe, lifetimes, path } => law_subst_path_roundtrip(path, a, b, false),
                TypeBoundV::Other(_) => {},
            }
        },
        PieceV::Group { delim, pieces } => law_subst_pieces_roundtrip(pieces, a, b),
    }
}

} // verus!
