use funcmap::derivable::Derivable;
use funcmap::derive::{derive_item, try_derive, DeriveOutput};
use funcmap::generics::{GenParam, WherePred};
use funcmap::input::{Data, ParsedItem, ItemField, GenericList, ItemVariant};
use funcmap::map::MapExpr;
use funcmap::opts::{Attr, AttrMeta, Tok};
use funcmap::syntax::{
    Delim, GenArg, Name, OtherKind, PathArgs, Piece, Segment, Ty, TyKind, TyPath,
};

use proc_macro2::{Span, TokenStream};

fn toks(s: &str) -> TokenStream {
    s.parse().unwrap()
}

fn name(s: &str) -> Name {
    Name::new(s, Span::call_site())
}

fn path(ident: &str, args: PathArgs) -> TyPath {
    TyPath {
        qself: None,
        leading_colon: false,
        segments: vec![Segment { ident: name(ident), args }],
        trailing_colon: false,
    }
}

fn path_ty(ident: &str) -> Ty {
    Ty { kind: TyKind::Path(path(ident, PathArgs::Plain)), tokens: toks(ident) }
}

fn generic_ty(ident: &str, args: Vec<Ty>, text: &str) -> Ty {
    let args = args.into_iter().map(GenArg::Type).collect();
    Ty {
        kind: TyKind::Path(path(ident, PathArgs::Angle { colon2: false, args })),
        tokens: toks(text),
    }
}

fn type_param(ident: &str) -> GenParam {
    GenParam::Type { attrs: vec![], ident: name(ident), bounds: vec![], default: None }
}

fn field(ident: Option<&str>, ty: Ty) -> ItemField {
    ItemField { attrs: vec![], ident: ident.map(name), ty }
}

fn item(ident: &str, params: Vec<GenParam>, data: Data, attrs: Vec<Attr>) -> ParsedItem {
    let mut idents = vec![ident.to_string()];
    for p in &params {
        match p {
            GenParam::Type { ident, .. } => idents.push(ident.text.clone()),
            GenParam::Lifetime { lifetime, .. } => idents.push(lifetime.text.clone()),
            GenParam::Const { ident, .. } => idents.push(ident.text.clone()),
        }
    }
    ParsedItem {
        attrs,
        ident: name(ident),
        generics: GenericList { params, where_clause: None, tokens: TokenStream::new() },
        data,
        idents,
    }
}

fn punct(ch: char) -> Tok {
    Tok::Punct { ch, joint: false, span: Span::call_site() }
}

fn ident_tok(s: &str) -> Tok {
    Tok::Ident(name(s))
}

fn paren(inner: Vec<Tok>) -> Tok {
    Tok::Group { delim: Delim::Paren, inner, span: Span::call_site(), close: Span::call_site() }
}

fn helper(tokens: Vec<Tok>) -> Attr {
    Attr {
        path: path("funcmap", PathArgs::Plain),
        meta: AttrMeta::List { tokens, close: Span::call_site() },
        tokens: toks("#[funcmap]"),
    }
}

fn params_arg(names: &[&str], trailing_comma: bool) -> Vec<Tok> {
    let mut inner = Vec::new();
    for (i, n) in names.iter().enumerate() {
        if i > 0 {
            inner.push(punct(','));
        }
        inner.push(ident_tok(n));
    }
    if trailing_comma {
        inner.push(punct(','));
    }
    vec![ident_tok("params"), paren(inner)]
}

fn derived(input: ParsedItem, derivable: Derivable) -> DeriveOutput {
    match derive_item(input, derivable) {
        Ok(out) => out,
        Err(e) => panic!("unexpected errors {:?}", e.message_texts()),
    }
}

fn errors(input: ParsedItem, derivable: Derivable) -> Vec<String> {
    match derive_item(input, derivable) {
        Ok(..) => panic!("unexpected success"),
        Err(e) => e.message_texts(),
    }
}

fn is_call_fn_on_binding(e: &MapExpr, idx: usize) -> bool {
    match e {
        MapExpr::CallFn { arg } => matches!(**arg, MapExpr::Binding(i) if i == idx),
        _ => false,
    }
}

#[test]
fn tuple_struct_maps_fields_of_type_param_and_keeps_others() {
    let input = item(
        "Test",
        vec![type_param("T")],
        Data::Struct(vec![field(None, path_ty("T")), field(None, path_ty("i32"))]),
        vec![],
    );

    let out = derived(input, Derivable::Standard);

    assert_eq!(out.ident.text, "Test");
    assert_eq!(out.src_type_ident.text, "A");
    assert_eq!(out.dst_type_ident.text, "B");
    assert_eq!(out.fn_type_ident.text, "F");
    assert_eq!(out.err_type_ident.text, "E");
    assert_eq!(out.impls.len(), 1);
    let imp = &out.impls[0];
    assert_eq!(imp.marker_idx, 0);
    assert_eq!(imp.arms.len(), 1);
    assert!(imp.arms[0].variant_ident.is_none());
    let fields = &imp.arms[0].fields;
    assert_eq!(fields.len(), 2);
    assert_eq!(fields[0].binding.text, "field_0");
    assert_eq!(fields[1].binding.text, "field_1");
    assert!(is_call_fn_on_binding(&fields[0].expr, 0));
    assert!(matches!(fields[1].expr, MapExpr::Binding(1)));
    assert_eq!(out.no_drop_params.len(), 1);
    assert_eq!(out.no_drop_args.len(), 1);
}

#[test]
fn fallible_derive_binds_mapped_fields_with_question_mark() {
    let input = item(
        "Test",
        vec![type_param("T")],
        Data::Struct(vec![field(Some("value"), path_ty("T"))]),
        vec![],
    );

    let out = derived(input, Derivable::Fallible);

    let fields = &out.impls[0].arms[0].fields;
    assert_eq!(fields[0].binding.text, "field_value");
    match &fields[0].expr {
        MapExpr::Try(inner) => assert!(is_call_fn_on_binding(inner, 0)),
        other => panic!("unexpected expression {:?}", other),
    }
}

#[test]
fn nested_type_is_mapped_through_the_derived_trait_with_its_marker() {
    let option_t = generic_ty("Option", vec![path_ty("T")], "Option<T>");
    let input = item(
        "Test",
        vec![type_param("T")],
        Data::Struct(vec![field(None, option_t)]),
        vec![],
    );

    let out = derived(input, Derivable::Standard);

    match &out.impls[0].arms[0].fields[0].expr {
        MapExpr::CallTrait { marker, arg, closure } => {
            assert_eq!(*marker, Some(0));
            assert!(matches!(**arg, MapExpr::Binding(0)));
            match &**closure {
                MapExpr::Closure { body } => match &**body {
                    MapExpr::CallFn { arg } => assert!(matches!(**arg, MapExpr::Value)),
                    other => panic!("unexpected body {:?}", other),
                },
                other => panic!("unexpected closure {:?}", other),
            }
        },
        other => panic!("unexpected expression {:?}", other),
    }
    assert!(!out.impls[0].where_clause.is_empty());
}

#[test]
fn enum_produces_one_arm_per_variant() {
    let input = item(
        "Test",
        vec![type_param("T")],
        Data::Enum(vec![
            ItemVariant { attrs: vec![], ident: name("First"), fields: vec![field(None, path_ty("T"))] },
            ItemVariant { attrs: vec![], ident: name("Second"), fields: vec![] },
        ]),
        vec![],
    );

    let out = derived(input, Derivable::Standard);

    let arms = &out.impls[0].arms;
    assert_eq!(arms.len(), 2);
    assert_eq!(arms[0].variant_ident.as_ref().unwrap().text, "First");
    assert_eq!(arms[1].variant_ident.as_ref().unwrap().text, "Second");
    assert!(arms[1].fields.is_empty());
}

#[test]
fn one_implementation_per_type_param() {
    let input = item(
        "Test",
        vec![type_param("S"), type_param("T")],
        Data::Struct(vec![field(None, path_ty("S")), field(None, path_ty("T"))]),
        vec![],
    );

    let out = derived(input, Derivable::Standard);

    assert_eq!(out.impls.len(), 2);
    assert_eq!(out.impls[0].marker_idx, 0);
    assert_eq!(out.impls[1].marker_idx, 1);
    assert!(is_call_fn_on_binding(&out.impls[0].arms[0].fields[0].expr, 0));
    assert!(matches!(out.impls[0].arms[0].fields[1].expr, MapExpr::Binding(1)));
    assert!(matches!(out.impls[1].arms[0].fields[0].expr, MapExpr::Binding(0)));
    assert!(is_call_fn_on_binding(&out.impls[1].arms[0].fields[1].expr, 1));
}

#[test]
fn generated_idents_avoid_idents_of_the_input() {
    let input = item(
        "Test",
        vec![type_param("A")],
        Data::Struct(vec![field(None, path_ty("A"))]),
        vec![],
    );

    let out = derived(input, Derivable::Standard);

    assert_eq!(out.src_type_ident.text, "B");
    assert_eq!(out.dst_type_ident.text, "C");
    assert_eq!(out.fn_type_ident.text, "F");
    assert_eq!(out.err_type_ident.text, "E");
}

#[test]
fn item_without_type_param_is_refused() {
    let input = item("Test", vec![], Data::Struct(vec![field(None, path_ty("i32"))]), vec![]);

    assert_eq!(
        errors(input, Derivable::Standard),
        ["expected at least one type parameter, found none"]
    );
}

#[test]
fn union_is_refused() {
    let input = item(
        "Test",
        vec![type_param("T")],
        Data::Union { union_token: toks("union") },
        vec![],
    );

    assert_eq!(
        errors(input, Derivable::Standard),
        ["expected a struct or an enum, found a union"]
    );
}

#[test]
fn reference_to_type_param_is_refused() {
    let reference = Ty {
        kind: TyKind::Other {
            kind: OtherKind::Reference,
            pieces: vec![Piece::Tokens(toks("&'a")), Piece::Ty(path_ty("T"))],
        },
        tokens: toks("&'a T"),
    };
    let input = item(
        "Test",
        vec![GenParam::Lifetime { attrs: vec![], lifetime: name("'a"), bounds: vec![] }, type_param("T")],
        Data::Struct(vec![field(None, reference)]),
        vec![],
    );

    assert_eq!(
        errors(input, Derivable::Standard),
        ["mapping over reference type is not supported"]
    );
}

#[test]
fn reference_not_involving_type_param_is_kept() {
    let reference = Ty {
        kind: TyKind::Other {
            kind: OtherKind::Reference,
            pieces: vec![Piece::Tokens(toks("&'a")), Piece::Ty(path_ty("str"))],
        },
        tokens: toks("&'a str"),
    };
    let input = item(
        "Test",
        vec![GenParam::Lifetime { attrs: vec![], lifetime: name("'a"), bounds: vec![] }, type_param("T")],
        Data::Struct(vec![field(None, reference), field(None, path_ty("T"))]),
        vec![],
    );

    let out = derived(input, Derivable::Standard);

    assert_eq!(out.impls.len(), 1);
    assert_eq!(out.impls[0].marker_idx, 0);
    assert!(matches!(out.impls[0].arms[0].fields[0].expr, MapExpr::Binding(0)));
}

#[test]
fn type_macro_is_refused() {
    let mac = Ty {
        kind: TyKind::Other { kind: OtherKind::Macro, pieces: vec![Piece::Tokens(toks("m!()"))] },
        tokens: toks("m!()"),
    };
    let input = item("Test", vec![type_param("T")], Data::Struct(vec![field(None, mac)]), vec![]);

    assert_eq!(
        errors(input, Derivable::Standard),
        ["`derive` cannot be used on items with type macros"]
    );
}

#[test]
fn generics_to_be_mapped_can_be_configured() {
    let fn_type = Ty {
        kind: TyKind::Other {
            kind: OtherKind::BareFn,
            pieces: vec![Piece::Tokens(toks("fn() ->")), Piece::Ty(path_ty("T"))],
        },
        tokens: toks("fn() -> T"),
    };
    let input = item(
        "Test",
        vec![type_param("S"), type_param("T"), type_param("U")],
        Data::Struct(vec![
            field(Some("value1"), path_ty("S")),
            field(Some("not_mappable"), fn_type),
            field(Some("value2"), path_ty("U")),
        ]),
        vec![helper(params_arg(&["S", "U"], false))],
    );

    let out = derived(input, Derivable::Standard);

    assert_eq!(out.impls.len(), 2);
    assert_eq!(out.impls[0].marker_idx, 0);
    assert_eq!(out.impls[1].marker_idx, 2);
    let first = &out.impls[0].arms[0].fields;
    assert!(is_call_fn_on_binding(&first[0].expr, 0));
    assert!(matches!(first[1].expr, MapExpr::Binding(1)));
    assert!(matches!(first[2].expr, MapExpr::Binding(2)));
    let second = &out.impls[1].arms[0].fields;
    assert!(matches!(second[0].expr, MapExpr::Binding(0)));
    assert!(matches!(second[1].expr, MapExpr::Binding(1)));
    assert!(is_call_fn_on_binding(&second[2].expr, 2));
}

#[test]
fn opts_accept_trailing_comma() {
    let mut tokens = params_arg(&["S"], false);
    tokens.push(punct(','));
    tokens.extend(params_arg(&["T"], false));
    tokens.push(punct(','));
    let input = item(
        "Test",
        vec![type_param("S"), type_param("T")],
        Data::Struct(vec![field(None, path_ty("S")), field(None, path_ty("T"))]),
        vec![helper(tokens)],
    );

    assert_eq!(derived(input, Derivable::Standard).impls.len(), 2);
}

#[test]
fn params_opt_accepts_trailing_comma() {
    let input = item(
        "Test",
        vec![type_param("S"), type_param("T")],
        Data::Struct(vec![field(None, path_ty("S")), field(None, path_ty("T"))]),
        vec![helper(params_arg(&["S", "T"], true))],
    );

    assert_eq!(derived(input, Derivable::Standard).impls.len(), 2);
}

#[test]
fn duplicate_parameter_is_refused() {
    let input = item(
        "Test",
        vec![type_param("S"), type_param("T")],
        Data::Struct(vec![field(None, path_ty("S")), field(None, path_ty("T"))]),
        vec![helper(params_arg(&["S", "S"], false))],
    );

    assert_eq!(errors(input, Derivable::Standard), ["duplicate parameter"]);
}

#[test]
fn unknown_parameter_is_refused() {
    let input = item(
        "Test",
        vec![type_param("S")],
        Data::Struct(vec![field(None, path_ty("S"))]),
        vec![helper(params_arg(&["X"], false))],
    );

    assert_eq!(errors(input, Derivable::Standard), ["unknown generic parameter"]);
}

#[test]
fn unknown_argument_is_refused() {
    let input = item(
        "Test",
        vec![type_param("S")],
        Data::Struct(vec![field(None, path_ty("S"))]),
        vec![helper(vec![ident_tok("other")])],
    );

    assert_eq!(
        errors(input, Derivable::Standard),
        ["expected one of these arguments: `crate`, `params`"]
    );
}

#[test]
fn helper_attribute_without_arguments_is_refused() {
    let attr = Attr {
        path: path("funcmap", PathArgs::Plain),
        meta: AttrMeta::Path { span: Span::call_site() },
        tokens: toks("#[funcmap]"),
    };
    let input = item("Test", vec![type_param("S")], Data::Struct(vec![field(None, path_ty("S"))]), vec![attr]);

    assert_eq!(
        errors(input, Derivable::Standard),
        ["expected attribute arguments in parentheses: #[funcmap(...)]"]
    );
}

#[test]
fn crate_path_is_read_from_string_literal() {
    let lit = Tok::Lit { tokens: toks("\"::my_crate\""), span: Span::call_site() };
    let input = item(
        "Test",
        vec![type_param("T")],
        Data::Struct(vec![field(None, path_ty("T"))]),
        vec![helper(vec![ident_tok("crate"), punct('='), lit])],
    );

    let out = derived(input, Derivable::Standard);

    assert!(out.crate_path.leading_colon);
    assert_eq!(out.crate_path.segments.len(), 1);
    assert_eq!(out.crate_path.segments[0].ident.text, "my_crate");
}

#[test]
fn default_crate_path_is_funcmap() {
    let input = item("Test", vec![type_param("T")], Data::Struct(vec![field(None, path_ty("T"))]), vec![]);

    let out = derived(input, Derivable::Standard);

    assert!(out.crate_path.leading_colon);
    assert_eq!(out.crate_path.segments.len(), 1);
    assert_eq!(out.crate_path.segments[0].ident.text, "funcmap");
}

#[test]
fn crate_path_set_twice_is_refused() {
    let lit = |s: &str| Tok::Lit { tokens: toks(s), span: Span::call_site() };
    let input = item(
        "Test",
        vec![type_param("T")],
        Data::Struct(vec![field(None, path_ty("T"))]),
        vec![helper(vec![
            ident_tok("crate"),
            punct('='),
            lit("\"a\""),
            punct(','),
            ident_tok("crate"),
            punct('='),
            lit("\"b\""),
        ])],
    );

    assert_eq!(errors(input, Derivable::Standard), ["duplicate crate path"]);
}

#[test]
fn helper_attribute_on_field_is_refused() {
    let mut f = field(None, path_ty("T"));
    f.attrs.push(helper(params_arg(&["T"], false)));
    let input = item("Test", vec![type_param("T")], Data::Struct(vec![f]), vec![]);

    assert_eq!(
        errors(input, Derivable::Standard),
        ["#[funcmap] helper attribute is not supported for fields"]
    );
}

#[test]
fn where_clause_is_carried_to_output() {
    let mut input = item("Test", vec![type_param("T")], Data::Struct(vec![field(None, path_ty("T"))]), vec![]);
    input.generics.where_clause = Some(vec![WherePred::Lifetime { lifetime: name("'a"), bounds: vec![name("'b")] }]);

    let out = derived(input, Derivable::Standard);

    assert_eq!(out.where_clause.map(|w| w.len()), Some(1));
}

#[test]
fn tokens_of_tuple_struct_are_parsed_and_derived() {
    let out = match try_derive(toks("struct Test<T>(T, i32);"), Derivable::Standard) {
        Ok(out) => out,
        Err(e) => panic!("unexpected errors {:?}", e.message_texts()),
    };

    assert_eq!(out.ident.text, "Test");
    assert_eq!(out.src_type_ident.text, "A");
    assert_eq!(out.impls.len(), 1);
}

#[test]
fn identifiers_of_parsed_item_are_reserved() {
    let out = match try_derive(toks("struct Test<A>(A, B);"), Derivable::Fallible) {
        Ok(out) => out,
        Err(e) => panic!("unexpected errors {:?}", e.message_texts()),
    };

    assert_eq!(out.src_type_ident.text, "C");
    assert_eq!(out.dst_type_ident.text, "D");
    assert_eq!(out.fn_type_ident.text, "F");
    assert_eq!(out.err_type_ident.text, "E");
}

#[test]
fn tokens_that_are_no_item_are_refused_with_the_parse_error() {
    match try_derive(toks("fn f() {}"), Derivable::Standard) {
        Ok(..) => panic!("unexpected success"),
        Err(e) => assert_eq!(e.message_texts(), ["expected one of: `struct`, `enum`, `union`"]),
    }
}

#[test]
fn parsed_item_without_type_param_is_refused() {
    match try_derive(toks("enum Test { A(i32), B }"), Derivable::Standard) {
        Ok(..) => panic!("unexpected success"),
        Err(e) => assert_eq!(e.message_texts(), ["expected at least one type parameter, found none"]),
    }
}

#[test]
fn tokens_of_enum_with_named_and_unnamed_fields_are_derived() {
    let out = match try_derive(toks("enum E<T> { A(T), B { x: Vec<T>, y: u8 }, C }"), Derivable::Standard) {
        Ok(out) => out,
        Err(e) => panic!("unexpected errors {:?}", e.message_texts()),
    };
    assert_eq!(out.ident.text, "E");
    assert_eq!(out.impls.len(), 1);
}

#[test]
fn tokens_with_lifetime_const_params_and_where_clause_are_derived() {
    let item = "struct S<'a, T: Clone, const N: usize>(&'a str, [T; N]) where T: Copy;";
    let out = match try_derive(toks(item), Derivable::Standard) {
        Ok(out) => out,
        Err(e) => panic!("unexpected errors {:?}", e.message_texts()),
    };
    assert_eq!(out.impls.len(), 1);
    assert!(out.where_clause.is_some());
}
