use funcmap::generics::WherePred;
use funcmap::predicates::{UniquePredicates, UniqueTypeBounds};
use funcmap::syntax::{
    bound_same, opt_tokens_same, ty_same, GenArg, Name, PathArgs, Segment, Ty, TyKind, TyPath,
    TypeBound,
};

use proc_macro2::{Span, TokenStream};

fn toks(s: &str) -> TokenStream {
    s.parse().unwrap()
}

fn name_at(s: &str, span: Span) -> Name {
    Name::new(s, span)
}

fn name(s: &str) -> Name {
    name_at(s, Span::call_site())
}

fn segment(ident: Name, lifetime_arg: Option<&str>) -> Segment {
    let args = match lifetime_arg {
        Some(l) => PathArgs::Angle { colon2: false, args: vec![GenArg::Lifetime(name(l))] },
        None => PathArgs::Plain,
    };
    Segment { ident, args }
}

fn path_of(ident: Name, lifetime_arg: Option<&str>) -> TyPath {
    TyPath {
        qself: None,
        leading_colon: false,
        segments: vec![segment(ident, lifetime_arg)],
        trailing_colon: false,
    }
}

fn ty_of(ident: Name) -> Ty {
    let tokens = toks(&ident.text);
    Ty { kind: TyKind::Path(path_of(ident, None)), tokens }
}

fn trait_bound(ident: Name, lifetimes: Option<&str>, lifetime_arg: Option<&str>) -> TypeBound {
    TypeBound::Trait {
        paren: false,
        maybe: false,
        lifetimes: lifetimes.map(toks),
        path: path_of(ident, lifetime_arg),
    }
}

fn bounds_same(a: &[TypeBound], b: &[TypeBound]) -> bool {
    a.len() == b.len() && a.iter().zip(b).all(|(x, y)| bound_same(x, y))
}

fn pred_same(a: &WherePred, b: &WherePred) -> bool {
    match (a, b) {
        (
            WherePred::Type { lifetimes: l1, bounded_ty: t1, bounds: b1 },
            WherePred::Type { lifetimes: l2, bounded_ty: t2, bounds: b2 },
        ) => opt_tokens_same(l1, l2) && ty_same(t1, t2) && bounds_same(b1, b2),
        (
            WherePred::Lifetime { lifetime: l1, bounds: b1 },
            WherePred::Lifetime { lifetime: l2, bounds: b2 },
        ) => {
            l1.text == l2.text
                && b1.len() == b2.len()
                && b1.iter().zip(b2).all(|(x, y)| x.text == y.text)
        },
        _ => false,
    }
}

fn preds_same(a: &[WherePred], b: &[WherePred]) -> bool {
    a.len() == b.len() && a.iter().zip(b).all(|(x, y)| pred_same(x, y))
}

fn type_pred(ty: Name, tr: &str, lifetime: &str) -> WherePred {
    let for_lifetimes = format!("for<{}>", lifetime);
    WherePred::Type {
        lifetimes: Some(toks(&for_lifetimes)),
        bounded_ty: ty_of(ty),
        bounds: vec![trait_bound(name(tr), None, Some(lifetime))],
    }
}

fn lifetime_pred(lifetime: Name, bound: &str) -> WherePred {
    WherePred::Lifetime { lifetime, bounds: vec![name(bound)] }
}

#[test]
fn unique_type_bounds_produces_bounds_in_insertion_order() {
    let paren = TypeBound::Trait {
        paren: true,
        maybe: false,
        lifetimes: None,
        path: path_of(name("TestTrait2"), None),
    };
    let maybe = TypeBound::Trait {
        paren: false,
        maybe: true,
        lifetimes: None,
        path: path_of(name("Sized"), None),
    };
    let expected = vec![
        trait_bound(name("TestTrait1"), None, None),
        TypeBound::Trait { paren: true, maybe: false, lifetimes: None, path: path_of(name("TestTrait2"), None) },
        TypeBound::Trait { paren: false, maybe: true, lifetimes: None, path: path_of(name("Sized"), None) },
        trait_bound(name("TestTrait3"), Some("for<'a>"), Some("'a")),
        TypeBound::Other(toks("'b")),
    ];

    let mut unique_bounds = UniqueTypeBounds::new();
    unique_bounds.extend(vec![
        trait_bound(name("TestTrait1"), None, None),
        paren,
        maybe,
        trait_bound(name("TestTrait3"), Some("for<'a>"), Some("'a")),
        TypeBound::Other(toks("'b")),
    ]);

    assert!(bounds_same(&unique_bounds.into_bounds(), &expected));
}

#[test]
fn unique_type_bounds_eliminates_duplicates_regardless_of_span() {
    let trait_ident1 = name_at("TestTrait", Span::call_site());
    let trait_ident2 = name_at("TestTrait", Span::mixed_site());

    let mut unique_bounds = UniqueTypeBounds::new();
    unique_bounds.extend(vec![trait_bound(trait_ident1, None, None), trait_bound(trait_ident2, None, None)]);

    assert!(bounds_same(&unique_bounds.into_bounds(), &[trait_bound(name("TestTrait"), None, None)]));
}

#[test]
fn unique_type_bounds_keeps_first_occurrence_of_repeated_bound() {
    let mut unique_bounds = UniqueTypeBounds::new();
    unique_bounds.add(trait_bound(name("A"), None, None));
    unique_bounds.add(trait_bound(name("B"), None, None));
    unique_bounds.add(trait_bound(name("A"), None, None));

    assert!(bounds_same(
        &unique_bounds.into_bounds(),
        &[trait_bound(name("A"), None, None), trait_bound(name("B"), None, None)]
    ));
}

#[test]
fn unique_predicates_produces_predicates_in_insertion_order_except_lifetimes_first() {
    let mut unique_predicates = UniquePredicates::new();
    for predicate in vec![
        type_pred(name("TestType1"), "TestTrait1", "'a"),
        lifetime_pred(name("'b"), "'c"),
        type_pred(name("TestType2"), "TestTrait2", "'d"),
        lifetime_pred(name("'e"), "'f"),
    ] {
        unique_predicates.add(predicate).unwrap();
    }

    assert!(preds_same(
        &unique_predicates.into_predicates(),
        &[
            lifetime_pred(name("'b"), "'c"),
            lifetime_pred(name("'e"), "'f"),
            type_pred(name("TestType1"), "TestTrait1", "'a"),
            type_pred(name("TestType2"), "TestTrait2", "'d"),
        ]
    ));
}

#[test]
fn unique_predicates_eliminates_duplicates_regardless_of_span() {
    let type_ident1 = name_at("TestType", Span::call_site());
    let type_ident2 = name_at("TestType", Span::mixed_site());
    let lifetime1 = name_at("'b", Span::call_site());
    let lifetime2 = name_at("'b", Span::mixed_site());

    let mut unique_predicates = UniquePredicates::new();
    for predicate in vec![
        type_pred(type_ident1, "TestTrait", "'a"),
        lifetime_pred(lifetime1, "'c"),
        type_pred(type_ident2, "TestTrait", "'a"),
        lifetime_pred(lifetime2, "'c"),
    ] {
        unique_predicates.add(predicate).unwrap();
    }

    assert!(preds_same(
        &unique_predicates.into_predicates(),
        &[lifetime_pred(name("'b"), "'c"), type_pred(name("TestType"), "TestTrait", "'a")]
    ));
}

#[test]
fn unique_predicates_merge_bounds_of_same_left_hand_side() {
    let mut unique_predicates = UniquePredicates::new();
    unique_predicates
        .add(WherePred::Type {
            lifetimes: None,
            bounded_ty: ty_of(name("T")),
            bounds: vec![trait_bound(name("A"), None, None)],
        })
        .unwrap();
    unique_predicates
        .add(WherePred::Type {
            lifetimes: None,
            bounded_ty: ty_of(name("T")),
            bounds: vec![trait_bound(name("B"), None, None), trait_bound(name("A"), None, None)],
        })
        .unwrap();

    assert!(preds_same(
        &unique_predicates.into_predicates(),
        &[WherePred::Type {
            lifetimes: None,
            bounded_ty: ty_of(name("T")),
            bounds: vec![trait_bound(name("A"), None, None), trait_bound(name("B"), None, None)],
        }]
    ));
}

#[test]
fn unique_predicates_refuse_equality_predicate() {
    let mut unique_predicates = UniquePredicates::new();
    let result = unique_predicates.add(WherePred::Eq { eq_token: toks("=") });

    assert_eq!(
        result.err().unwrap().message_texts(),
        ["equality constraints in `where` clauses are not supported"]
    );
    assert!(unique_predicates.into_predicates().is_empty());
}
