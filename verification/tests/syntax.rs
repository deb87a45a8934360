use funcmap::generics::{into_type, without_maybe_bounds, GenParam, WherePred};
use funcmap::syntax::{
    bound_same, to_non_empty_token_stream, ty_same, GenArg, Name, PathArgs, Segment, Ty, TyKind,
    TyPath, TypeBound,
};

use proc_macro2::{Span, TokenStream};

fn toks(s: &str) -> TokenStream {
    s.parse().unwrap()
}

fn name(s: &str) -> Name {
    Name::new(s, Span::call_site())
}

fn path(ident: &str) -> TyPath {
    TyPath {
        qself: None,
        leading_colon: false,
        segments: vec![Segment { ident: name(ident), args: PathArgs::Plain }],
        trailing_colon: false,
    }
}

fn path_ty(ident: &str) -> Ty {
    Ty { kind: TyKind::Path(path(ident)), tokens: toks(ident) }
}

fn trait_bound(ident: &str) -> TypeBound {
    TypeBound::Trait { paren: false, maybe: false, lifetimes: None, path: path(ident) }
}

fn maybe_bound(ident: &str) -> TypeBound {
    TypeBound::Trait { paren: false, maybe: true, lifetimes: None, path: path(ident) }
}

fn bounds_same(a: &[TypeBound], b: &[TypeBound]) -> bool {
    a.len() == b.len() && a.iter().zip(b).all(|(x, y)| bound_same(x, y))
}

fn text(tokens: &TokenStream) -> String {
    tokens.to_string()
}

#[test]
fn into_generic_argument_converts_type_param_into_type_argument() {
    let generic_param =
        GenParam::Type { attrs: vec![], ident: name("T"), bounds: vec![], default: None };
    match generic_param.into_generic_argument() {
        GenArg::Type(ty) => assert!(ty_same(&ty, &path_ty("T"))),
        other => panic!("unexpected argument {:?}", other),
    }
}

#[test]
fn into_generic_argument_converts_lifetime_param_into_lifetime_argument() {
    let generic_param = GenParam::Lifetime { attrs: vec![], lifetime: name("'a"), bounds: vec![] };
    match generic_param.into_generic_argument() {
        GenArg::Lifetime(lifetime) => assert_eq!(lifetime.text, "'a"),
        other => panic!("unexpected argument {:?}", other),
    }
}

#[test]
fn into_generic_argument_converts_const_param_into_type_argument() {
    let generic_param =
        GenParam::Const { attrs: vec![], ident: name("N"), ty: path_ty("usize"), default: None };
    match generic_param.into_generic_argument() {
        GenArg::Type(ty) => assert!(ty_same(&ty, &path_ty("N"))),
        other => panic!("unexpected argument {:?}", other),
    }
}

#[test]
fn into_type_converts_ident_into_type() {
    let ident = Name::new("T", Span::call_site());
    assert!(ty_same(&into_type(ident), &path_ty("T")));
}

#[test]
fn into_type_differs_from_other_ident() {
    assert!(!ty_same(&into_type(name("T")), &path_ty("U")));
}

#[test]
fn is_typish_returns_true_for_generic_argument_looking_like_type() {
    let ty = GenArg::Type(path_ty("T"));
    assert!(ty.is_typish());
}

#[test]
fn is_typish_returns_false_for_generic_argument_not_looking_like_type() {
    let ty = GenArg::Lifetime(name("'a"));
    assert!(!ty.is_typish());
}

#[test]
fn is_typish_returns_true_for_generic_parameter_looking_like_type() {
    let ty = GenParam::Type { attrs: vec![], ident: name("T"), bounds: vec![], default: None };
    assert!(ty.is_typish());
}

#[test]
fn is_typish_returns_false_for_generic_parameter_not_looking_like_type() {
    let ty = GenParam::Lifetime { attrs: vec![], lifetime: name("'a"), bounds: vec![] };
    assert!(!ty.is_typish());
}

#[test]
fn to_non_empty_token_stream_returns_some_if_token_stream_is_not_empty() {
    let tokens = toks("X");
    assert!(to_non_empty_token_stream(&tokens).is_some());
}

#[test]
fn to_non_empty_token_stream_returns_none_if_token_stream_is_empty() {
    let tokens = TokenStream::new();
    assert!(to_non_empty_token_stream(&tokens).is_none());
}

#[test]
fn without_attrs_removes_attributes_from_const_param() {
    let const_param = GenParam::Const {
        attrs: vec![toks("#[attr]")],
        ident: name("N"),
        ty: path_ty("usize"),
        default: Some(toks("42")),
    };

    match const_param.without_attrs() {
        GenParam::Const { attrs, ident, ty, default } => {
            assert!(attrs.is_empty());
            assert_eq!(ident.text, "N");
            assert!(ty_same(&ty, &path_ty("usize")));
            assert_eq!(default.map(|d| text(&d)), Some("42".to_string()));
        },
        other => panic!("unexpected parameter {:?}", other),
    }
}

#[test]
fn without_attrs_removes_attributes_from_lifetime_param() {
    let lifetime_param =
        GenParam::Lifetime { attrs: vec![toks("#[attr]")], lifetime: name("'a"), bounds: vec![name("'b")] };

    match lifetime_param.without_attrs() {
        GenParam::Lifetime { attrs, lifetime, bounds } => {
            assert!(attrs.is_empty());
            assert_eq!(lifetime.text, "'a");
            assert_eq!(bounds.len(), 1);
            assert_eq!(bounds[0].text, "'b");
        },
        other => panic!("unexpected parameter {:?}", other),
    }
}

#[test]
fn without_attrs_removes_attributes_from_type_param() {
    let type_param = GenParam::Type {
        attrs: vec![toks("#[attr]")],
        ident: name("T"),
        bounds: vec![trait_bound("Trait")],
        default: Some(path_ty("Test")),
    };

    match type_param.without_attrs() {
        GenParam::Type { attrs, ident, bounds, default } => {
            assert!(attrs.is_empty());
            assert_eq!(ident.text, "T");
            assert!(bounds_same(&bounds, &[trait_bound("Trait")]));
            assert!(ty_same(&default.unwrap(), &path_ty("Test")));
        },
        other => panic!("unexpected parameter {:?}", other),
    }
}

#[test]
fn without_default_removes_default_from_const_param() {
    let const_param = GenParam::Const {
        attrs: vec![toks("#[attr]")],
        ident: name("N"),
        ty: path_ty("usize"),
        default: Some(toks("42")),
    };

    match const_param.without_default() {
        GenParam::Const { attrs, ident, ty, default } => {
            assert_eq!(attrs.len(), 1);
            assert_eq!(text(&attrs[0]), text(&toks("#[attr]")));
            assert_eq!(ident.text, "N");
            assert!(ty_same(&ty, &path_ty("usize")));
            assert!(default.is_none());
        },
        other => panic!("unexpected parameter {:?}", other),
    }
}

#[test]
fn without_default_removes_default_from_type_param() {
    let type_param = GenParam::Type {
        attrs: vec![toks("#[attr]")],
        ident: name("T"),
        bounds: vec![trait_bound("Trait")],
        default: Some(path_ty("Test")),
    };

    match type_param.without_default() {
        GenParam::Type { attrs, ident, bounds, default } => {
            assert_eq!(attrs.len(), 1);
            assert_eq!(ident.text, "T");
            assert!(bounds_same(&bounds, &[trait_bound("Trait")]));
            assert!(default.is_none());
        },
        other => panic!("unexpected parameter {:?}", other),
    }
}

#[test]
fn without_default_keeps_lifetime_param() {
    let lifetime_param = GenParam::Lifetime { attrs: vec![], lifetime: name("'a"), bounds: vec![] };

    assert!(matches!(lifetime_param.without_default(), GenParam::Lifetime { .. }));
}

#[test]
fn without_maybe_bounds_removes_maybe_bounds_from_sequence_of_type_param_bounds() {
    let bounds = vec![maybe_bound("Sized"), trait_bound("Trait"), TypeBound::Other(toks("'b"))];
    assert!(bounds_same(
        &without_maybe_bounds(bounds),
        &[trait_bound("Trait"), TypeBound::Other(toks("'b"))]
    ));
}

#[test]
fn without_maybe_bounds_removes_maybe_bounds_from_type_predicate() {
    let type_predicate = WherePred::Type {
        lifetimes: Some(toks("for<'a>")),
        bounded_ty: path_ty("Type"),
        bounds: vec![maybe_bound("Sized"), trait_bound("Trait"), TypeBound::Other(toks("'c"))],
    };

    match type_predicate.without_maybe_bounds() {
        WherePred::Type { lifetimes, bounded_ty, bounds } => {
            assert_eq!(lifetimes.map(|l| text(&l)), Some(text(&toks("for<'a>"))));
            assert!(ty_same(&bounded_ty, &path_ty("Type")));
            assert!(bounds_same(&bounds, &[trait_bound("Trait"), TypeBound::Other(toks("'c"))]));
        },
        other => panic!("unexpected predicate {:?}", other),
    }
}

#[test]
fn bounds_differing_only_in_span_are_the_same() {
    let a = TypeBound::Trait {
        paren: false,
        maybe: false,
        lifetimes: None,
        path: TyPath {
            qself: None,
            leading_colon: false,
            segments: vec![Segment { ident: Name::new("Trait", Span::mixed_site()), args: PathArgs::Plain }],
            trailing_colon: false,
        },
    };
    assert!(bound_same(&a, &trait_bound("Trait")));
    assert!(!bound_same(&a, &maybe_bound("Trait")));
}
