//! Parsing the item that a derive macro is applied to, with `syn`, and
//! converting its syntax tree, node by node, into the library's model.
use vstd::prelude::*;

use proc_macro2::{Delimiter, Ident, Spacing, Span, TokenStream, TokenTree};
use quote::ToTokens;
use syn::punctuated::Punctuated;
use syn::token::{Comma, Plus};

use crate::diagnostic::syn_error_messages;
use crate::generics::{GenParam, WherePred};
use crate::ident::ident_text;
use crate::input::{Data, GenericList, ItemField, ItemVariant, ParsedItem, ParsedItemV};
use crate::opts::{Attr, AttrMeta, Tok};
use crate::syntax::{
    Delim, GenArg, Name, OtherKind, PathArgs, PathV, Piece, QualifiedSelf, Segment, Ty, TyKind, TyPath, TypeBound,
};

verus! {

/// What `syn` parses from the tokens `item` as a `syn::DeriveInput`: the
/// model of the item, with the identifiers that a `syn::visit::Visit` of its
/// syntax tree meets, in order; or the messages of the parse error.
pub uninterp spec fn parsed_item(item: TokenStream) -> Result<ParsedItemV, Seq<Seq<char>>>;

/// Parses the item that a derive macro is applied to.
///
/// Calls `syn::parse2::<syn::DeriveInput>` and converts the syntax tree into
/// the library's model with [`item_model`]. The contract names the outcome,
/// which depends on the tokens alone.
#[verifier::external_body]
pub(crate) fn parse_derive_input(item: TokenStream) -> (res: Result<ParsedItem, syn::Error>)
    ensures
        match res {
            Ok(di) => parsed_item(item) == Ok::<ParsedItemV, Seq<Seq<char>>>(di@),
            Err(e) => parsed_item(item) == Err::<ParsedItemV, Seq<Seq<char>>>(syn_error_messages(e)),
        },
{
    let input: syn::DeriveInput = syn::parse2(item)?;
    Ok(item_model(&input))
}

/// The path that `syn` parses from the tokens `tokens`, if they are one.
pub uninterp spec fn parsed_path(tokens: TokenStream) -> Option<PathV>;

/// Parses tokens as a path.
///
/// Calls `syn::parse2::<syn::Path>` and converts the path into the model
/// with [`path_model`]. The contract names the outcome, which depends on the
/// tokens alone.
#[verifier::external_body]
pub(crate) fn parse_path(tokens: TokenStream) -> (path: Option<TyPath>)
    ensures
        match path {
            Some(p) => parsed_path(tokens) == Some(p@),
            None => parsed_path(tokens) is None,
        },
{
    syn::parse2::<syn::Path>(tokens).ok().map(|p| path_model(None, &p))
}

/// Collects the text of every identifier that a visitor meets.
struct IdentVisitor {
    idents: Vec<String>,
}

impl<'ast> syn::visit::Visit<'ast> for IdentVisitor {
    #[verifier::external_body]
    fn visit_ident(&mut self, ident: &'ast Ident) {
        self.idents.push(ident.to_string());
    }
}

// The functions below convert one node of the syntax tree each into the
// model, one for one, converting its children in turn; `parse_derive_input`
// calls them and states the outcome of the whole conversion.

/// The identifiers of the item, in the order in which
/// `syn::visit::Visit::visit_derive_input` meets them.
#[verifier::external_body]
fn visited_idents(input: &syn::DeriveInput) -> Vec<String> {
    let mut visitor = IdentVisitor { idents: Vec::new() };
    syn::visit::Visit::visit_derive_input(&mut visitor, input);
    visitor.idents
}

/// The model of a parsed item.
#[verifier::external_body]
fn item_model(input: &syn::DeriveInput) -> ParsedItem {
    ParsedItem {
        attrs: attrs_model(&input.attrs),
        ident: ident_name(&input.ident),
        generics: generics_model(&input.generics),
        data: match &input.data {
            syn::Data::Struct(d) => Data::Struct(fields_model(&d.fields)),
            syn::Data::Enum(d) => Data::Enum(d.variants.iter().map(variant_model).collect()),
            syn::Data::Union(d) => Data::Union { union_token: d.union_token.to_token_stream() },
        },
        idents: visited_idents(input),
    }
}

/// An identifier: its text and its span.
#[verifier::external_body]
fn ident_name(ident: &Ident) -> (name: Name)
    ensures
        name@ == ident_text(*ident),
{
    Name { text: ident.to_string(), span: ident.span() }
}

/// A lifetime: its text, with the apostrophe, and its span.
#[verifier::external_body]
fn lifetime_name(lifetime: &syn::Lifetime) -> Name {
    Name { text: lifetime.to_string(), span: lifetime.span() }
}

/// The model of a variant.
#[verifier::external_body]
fn variant_model(variant: &syn::Variant) -> ItemVariant {
    ItemVariant {
        attrs: attrs_model(&variant.attrs),
        ident: ident_name(&variant.ident),
        fields: fields_model(&variant.fields),
    }
}

/// The models of the fields of a struct or variant.
#[verifier::external_body]
fn fields_model(fields: &syn::Fields) -> Vec<ItemField> {
    fields.iter().map(field_model).collect()
}

/// The model of a field.
#[verifier::external_body]
fn field_model(field: &syn::Field) -> ItemField {
    ItemField {
        attrs: attrs_model(&field.attrs),
        ident: field.ident.as_ref().map(ident_name),
        ty: ty_model(&field.ty),
    }
}

/// The models of attributes.
#[verifier::external_body]
fn attrs_model(attrs: &Vec<syn::Attribute>) -> Vec<Attr> {
    attrs.iter().map(attr_model).collect()
}

/// The model of an attribute: its path, its arguments and its tokens.
#[verifier::external_body]
fn attr_model(attr: &syn::Attribute) -> Attr {
    Attr { path: path_model(None, attr.path()), meta: meta_model(&attr.meta), tokens: attr.to_token_stream() }
}

/// The model of the arguments of an attribute: the span of its path, the
/// token trees of a list with the span of its closing delimiter, or the span
/// of the `=` of a name-value pair.
#[verifier::external_body]
fn meta_model(meta: &syn::Meta) -> AttrMeta {
    match meta {
        syn::Meta::Path(p) => AttrMeta::Path { span: p.segments.first().map_or_else(Span::call_site, |s| s.ident.span()) },
        syn::Meta::List(l) => AttrMeta::List { tokens: lex_model(l.tokens.clone()), close: l.delimiter.span().close() },
        syn::Meta::NameValue(nv) => AttrMeta::NameValue { eq_span: nv.eq_token.spans[0] },
    }
}

/// The token trees of `tokens`, each with its span; the contents of an
/// undelimited group stand in place of the group.
#[verifier::external_body]
fn lex_model(tokens: TokenStream) -> Vec<Tok> {
    let mut toks = Vec::new();
    for tree in tokens {
        lex_tree(tree, &mut toks);
    }
    toks
}

/// Appends the model of a token tree to `toks`.
#[verifier::external_body]
fn lex_tree(tree: TokenTree, toks: &mut Vec<Tok>) {
    match tree {
        TokenTree::Ident(i) => toks.push(Tok::Ident(ident_name(&i))),
        TokenTree::Punct(p) => toks.push(Tok::Punct { ch: p.as_char(), joint: p.spacing() == Spacing::Joint, span: p.span() }),
        TokenTree::Literal(l) => toks.push(Tok::Lit { span: l.span(), tokens: TokenTree::Literal(l).into() }),
        TokenTree::Group(g) => match delim_model(g.delimiter()) {
            Some(delim) => toks.push(Tok::Group { delim, inner: lex_model(g.stream()), span: g.span(), close: g.span_close() }),
            None => toks.extend(lex_model(g.stream())),
        },
    }
}

/// The delimiter of a group, none for an undelimited group.
#[verifier::external_body]
fn delim_model(delimiter: Delimiter) -> Option<Delim> {
    match delimiter {
        Delimiter::Parenthesis => Some(Delim::Paren),
        Delimiter::Bracket => Some(Delim::Bracket),
        Delimiter::Brace => Some(Delim::Brace),
        Delimiter::None => None,
    }
}

/// The model of generic parameters and their `where` clause.
#[verifier::external_body]
fn generics_model(generics: &syn::Generics) -> GenericList {
    GenericList {
        params: generics.params.iter().map(param_model).collect(),
        where_clause: generics.where_clause.as_ref().map(|c| c.predicates.iter().map(pred_model).collect()),
        tokens: generics.to_token_stream(),
    }
}

/// The tokens of each attribute.
#[verifier::external_body]
fn attr_tokens(attrs: &Vec<syn::Attribute>) -> Vec<TokenStream> {
    attrs.iter().map(ToTokens::to_token_stream).collect()
}

/// The model of a generic parameter.
#[verifier::external_body]
fn param_model(param: &syn::GenericParam) -> GenParam {
    match param {
        syn::GenericParam::Type(p) => GenParam::Type {
            attrs: attr_tokens(&p.attrs),
            ident: ident_name(&p.ident),
            bounds: p.bounds.iter().map(bound_model).collect(),
            default: p.default.as_ref().map(ty_model),
        },
        syn::GenericParam::Lifetime(p) => lifetime_param_model(p),
        syn::GenericParam::Const(p) => const_param_model(p),
    }
}

/// The model of a lifetime parameter.
#[verifier::external_body]
fn lifetime_param_model(param: &syn::LifetimeParam) -> GenParam {
    GenParam::Lifetime {
        attrs: attr_tokens(&param.attrs),
        lifetime: lifetime_name(&param.lifetime),
        bounds: param.bounds.iter().map(lifetime_name).collect(),
    }
}

/// The model of a const parameter.
#[verifier::external_body]
fn const_param_model(param: &syn::ConstParam) -> GenParam {
    GenParam::Const {
        attrs: attr_tokens(&param.attrs),
        ident: ident_name(&param.ident),
        ty: ty_model(&param.ty),
        default: param.default.as_ref().map(ToTokens::to_token_stream),
    }
}

/// The model of a `where` predicate; any predicate other than a type or a
/// lifetime predicate is kept as its tokens.
#[verifier::external_body]
fn pred_model(pred: &syn::WherePredicate) -> WherePred {
    match pred {
        syn::WherePredicate::Type(p) => WherePred::Type {
            lifetimes: p.lifetimes.as_ref().map(ToTokens::to_token_stream),
            bounded_ty: ty_model(&p.bounded_ty),
            bounds: p.bounds.iter().map(bound_model).collect(),
        },
        syn::WherePredicate::Lifetime(p) => WherePred::Lifetime {
            lifetime: lifetime_name(&p.lifetime),
            bounds: p.bounds.iter().map(lifetime_name).collect(),
        },
        other => WherePred::Eq { eq_token: other.to_token_stream() },
    }
}

/// The model of a bound.
#[verifier::external_body]
fn bound_model(bound: &syn::TypeParamBound) -> TypeBound {
    match bound {
        syn::TypeParamBound::Trait(b) => TypeBound::Trait {
            paren: b.paren_token.is_some(),
            maybe: matches!(b.modifier, syn::TraitBoundModifier::Maybe(..)),
            lifetimes: b.lifetimes.as_ref().map(ToTokens::to_token_stream),
            path: path_model(None, &b.path),
        },
        other => TypeBound::Other(other.to_token_stream()),
    }
}

/// The pieces of `head` followed by a list of bounds: each bound, and each
/// `+` as tokens.
#[verifier::external_body]
fn bounds_pieces(head: TokenStream, bounds: &Punctuated<syn::TypeParamBound, Plus>) -> Vec<Piece> {
    let mut pieces = vec![Piece::Tokens(head)];
    for pair in bounds.pairs() {
        pieces.push(Piece::Bound(bound_model(pair.value())));
        if let Some(punct) = pair.punct() {
            pieces.push(Piece::Tokens(punct.to_token_stream()));
        }
    }
    pieces
}

/// The pieces of a list of types: each type, and each `,` as tokens.
#[verifier::external_body]
fn types_pieces(types: &Punctuated<syn::Type, Comma>) -> Vec<Piece> {
    let mut pieces = Vec::new();
    for pair in types.pairs() {
        pieces.push(Piece::Ty(ty_model(pair.value())));
        if let Some(punct) = pair.punct() {
            pieces.push(Piece::Tokens(punct.to_token_stream()));
        }
    }
    pieces
}

/// The pieces of a return type: the arrow as tokens and the type, or none.
#[verifier::external_body]
fn return_pieces(output: &syn::ReturnType) -> Vec<Piece> {
    match output {
        syn::ReturnType::Default => Vec::new(),
        syn::ReturnType::Type(arrow, ret) => vec![Piece::Tokens(arrow.to_token_stream()), Piece::Ty(ty_model(ret))],
    }
}

/// The model of a type, with its tokens.
#[verifier::external_body]
fn ty_model(ty: &syn::Type) -> Ty {
    Ty { kind: ty_kind(ty), tokens: ty.to_token_stream() }
}

/// The structure of a type.
#[verifier::external_body]
fn ty_kind(ty: &syn::Type) -> TyKind {
    match ty {
        syn::Type::Array(a) => TyKind::Array { elem: Box::new(ty_model(&a.elem)), len: a.len.to_token_stream() },
        syn::Type::Paren(p) => TyKind::Paren { elem: Box::new(ty_model(&p.elem)) },
        syn::Type::Tuple(t) => TyKind::Tuple { elems: t.elems.iter().map(ty_model).collect() },
        syn::Type::Path(p) => TyKind::Path(path_model(p.qself.as_ref(), &p.path)),
        other => TyKind::Other { kind: other_kind(other), pieces: other_pieces(other) },
    }
}

/// The kind of a type whose structure is not read.
#[verifier::external_body]
fn other_kind(ty: &syn::Type) -> OtherKind {
    match ty {
        syn::Type::BareFn(..) => OtherKind::BareFn,
        syn::Type::Group(..) => OtherKind::Group,
        syn::Type::ImplTrait(..) => OtherKind::ImplTrait,
        syn::Type::Infer(..) => OtherKind::Infer,
        syn::Type::Macro(..) => OtherKind::Macro,
        syn::Type::Never(..) => OtherKind::Never,
        syn::Type::Ptr(..) => OtherKind::Ptr,
        syn::Type::Reference(..) => OtherKind::Reference,
        syn::Type::Slice(..) => OtherKind::Slice,
        syn::Type::TraitObject(..) => OtherKind::TraitObject,
        _ => OtherKind::Verbatim,
    }
}

/// The pieces of a type whose structure is not read.
#[verifier::external_body]
fn other_pieces(ty: &syn::Type) -> Vec<Piece> {
    match ty {
        syn::Type::BareFn(f) => bare_fn_pieces(f),
        syn::Type::Group(g) => vec![Piece::Group { delim: Delim::Invisible, pieces: vec![Piece::Ty(ty_model(&g.elem))] }],
        syn::Type::ImplTrait(i) => bounds_pieces(i.impl_token.to_token_stream(), &i.bounds),
        syn::Type::TraitObject(o) => bounds_pieces(o.dyn_token.to_token_stream(), &o.bounds),
        syn::Type::Slice(s) => vec![Piece::Group { delim: Delim::Bracket, pieces: vec![Piece::Ty(ty_model(&s.elem))] }],
        syn::Type::Ptr(p) => ptr_pieces(p),
        syn::Type::Reference(r) => reference_pieces(r),
        other => vec![Piece::Tokens(other.to_token_stream())],
    }
}

/// The pieces of a pointer type: `*const` or `*mut` as tokens, and the type.
#[verifier::external_body]
fn ptr_pieces(ptr: &syn::TypePtr) -> Vec<Piece> {
    let mut head = TokenStream::new();
    ptr.star_token.to_tokens(&mut head);
    ptr.const_token.to_tokens(&mut head);
    ptr.mutability.to_tokens(&mut head);
    vec![Piece::Tokens(head), Piece::Ty(ty_model(&ptr.elem))]
}

/// The pieces of a reference type: `&`, the lifetime and `mut` as tokens,
/// and the type.
#[verifier::external_body]
fn reference_pieces(reference: &syn::TypeReference) -> Vec<Piece> {
    let mut head = TokenStream::new();
    reference.and_token.to_tokens(&mut head);
    reference.lifetime.to_tokens(&mut head);
    reference.mutability.to_tokens(&mut head);
    vec![Piece::Tokens(head), Piece::Ty(ty_model(&reference.elem))]
}

/// The pieces of a function pointer type: its head as tokens, its inputs
/// as a parenthesized group and its return type.
#[verifier::external_body]
fn bare_fn_pieces(f: &syn::TypeBareFn) -> Vec<Piece> {
    let mut head = TokenStream::new();
    f.lifetimes.to_tokens(&mut head);
    f.unsafety.to_tokens(&mut head);
    f.abi.to_tokens(&mut head);
    f.fn_token.to_tokens(&mut head);
    let mut pieces = vec![Piece::Tokens(head), Piece::Group { delim: Delim::Paren, pieces: bare_fn_inputs(f) }];
    pieces.extend(return_pieces(&f.output));
    pieces
}

/// The pieces of the inputs of a function pointer type: for each input its
/// attributes and name as tokens and its type, each `,`, and `...`.
#[verifier::external_body]
fn bare_fn_inputs(f: &syn::TypeBareFn) -> Vec<Piece> {
    let mut pieces = Vec::new();
    for pair in f.inputs.pairs() {
        pieces.push(Piece::Tokens(bare_fn_arg_head(pair.value())));
        pieces.push(Piece::Ty(ty_model(&pair.value().ty)));
        if let Some(comma) = pair.punct() {
            pieces.push(Piece::Tokens(comma.to_token_stream()));
        }
    }
    if let Some(variadic) = &f.variadic {
        pieces.push(Piece::Tokens(variadic.to_token_stream()));
    }
    pieces
}

/// The attributes and the name of an input of a function pointer type.
#[verifier::external_body]
fn bare_fn_arg_head(arg: &syn::BareFnArg) -> TokenStream {
    let mut head = TokenStream::new();
    for attr in &arg.attrs {
        attr.to_tokens(&mut head);
    }
    if let Some((ident, colon)) = &arg.name {
        ident.to_tokens(&mut head);
        colon.to_tokens(&mut head);
    }
    head
}

/// The model of a path, with the qualified self type if there is one.
#[verifier::external_body]
fn path_model(qself: Option<&syn::QSelf>, path: &syn::Path) -> TyPath {
    TyPath {
        qself: qself.map(|q| QualifiedSelf { ty: Box::new(ty_model(&q.ty)), position: q.position }),
        leading_colon: path.leading_colon.is_some(),
        segments: path.segments.iter().map(segment_model).collect(),
        trailing_colon: path.segments.trailing_punct(),
    }
}

/// The model of a path segment.
#[verifier::external_body]
fn segment_model(segment: &syn::PathSegment) -> Segment {
    Segment { ident: ident_name(&segment.ident), args: args_model(&segment.arguments) }
}

/// The model of the arguments of a path segment.
#[verifier::external_body]
fn args_model(args: &syn::PathArguments) -> PathArgs {
    match args {
        syn::PathArguments::None => PathArgs::Plain,
        syn::PathArguments::AngleBracketed(a) => PathArgs::Angle {
            colon2: a.colon2_token.is_some(),
            args: a.args.iter().map(gen_arg_model).collect(),
        },
        syn::PathArguments::Parenthesized(a) => {
            let mut pieces = vec![Piece::Group { delim: Delim::Paren, pieces: types_pieces(&a.inputs) }];
            pieces.extend(return_pieces(&a.output));
            PathArgs::Paren { pieces }
        },
    }
}

/// The model of a generic argument.
#[verifier::external_body]
fn gen_arg_model(arg: &syn::GenericArgument) -> GenArg {
    match arg {
        syn::GenericArgument::Lifetime(l) => GenArg::Lifetime(lifetime_name(l)),
        syn::GenericArgument::Type(t) => GenArg::Type(ty_model(t)),
        syn::GenericArgument::Const(e) => GenArg::Const(vec![Piece::Tokens(e.to_token_stream())]),
        syn::GenericArgument::AssocType(a) => assoc_type_model(a),
        syn::GenericArgument::Constraint(c) => constraint_model(c),
        other => GenArg::Other(vec![Piece::Tokens(other.to_token_stream())]),
    }
}

/// The model of an associated type binding; one with generics is kept as
/// its head as tokens and its type.
#[verifier::external_body]
fn assoc_type_model(assoc: &syn::AssocType) -> GenArg {
    if assoc.generics.is_none() {
        return GenArg::AssocType { ident: ident_name(&assoc.ident), ty: ty_model(&assoc.ty) };
    }
    let mut head = TokenStream::new();
    assoc.ident.to_tokens(&mut head);
    assoc.generics.to_tokens(&mut head);
    assoc.eq_token.to_tokens(&mut head);
    GenArg::Other(vec![Piece::Tokens(head), Piece::Ty(ty_model(&assoc.ty))])
}

/// The model of a constraint `Ident: Bounds`: its head as tokens and its
/// bounds.
#[verifier::external_body]
fn constraint_model(constraint: &syn::Constraint) -> GenArg {
    let mut head = TokenStream::new();
    constraint.ident.to_tokens(&mut head);
    constraint.generics.to_tokens(&mut head);
    constraint.colon_token.to_tokens(&mut head);
    GenArg::Other(bounds_pieces(head, &constraint.bounds))
}

} // verus!
