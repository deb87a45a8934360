use funcmap::ident::StaticIdent;
use funcmap::map::map_type_args;
use funcmap::syntax::{GenArg, Name, PathArgs, Segment, Ty, TyKind, TyPath};

use proc_macro2::{Span, TokenStream};
use std::collections::VecDeque;

fn path_ty(ident: &str) -> Ty {
    Ty {
        kind: TyKind::Path(TyPath {
            qself: None,
            leading_colon: false,
            segments: vec![Segment { ident: Name::new(ident, Span::call_site()), args: PathArgs::Plain }],
            trailing_colon: false,
        }),
        tokens: ident.parse::<TokenStream>().unwrap(),
    }
}

fn first_ident(arg: &GenArg) -> String {
    match arg {
        GenArg::Type(Ty { kind: TyKind::Path(p), .. }) => p.segments[0].ident.text.clone(),
        GenArg::Lifetime(l) => l.text.clone(),
        other => panic!("unexpected argument {:?}", other),
    }
}

#[test]
fn map_type_args_maps_only_type_arguments_with_their_index() {
    let mut args = VecDeque::new();
    args.push_back(GenArg::Lifetime(Name::new("'a", Span::call_site())));
    args.push_back(GenArg::Type(path_ty("T")));
    args.push_back(GenArg::Type(path_ty("U")));

    let mut mapped = map_type_args(args, |idx: usize, _ty: Ty| path_ty(&format!("X{}", idx)));
    let mut out = Vec::new();
    while let Some(arg) = mapped.next() {
        out.push(first_ident(&arg));
    }

    assert_eq!(out, ["'a", "X0", "X1"]);
}

#[test]
fn static_ident_renders_its_text() {
    let ident = StaticIdent("FuncMap");
    assert_eq!(ident.as_str(), "FuncMap");
    assert_eq!(ident.to_ident().to_string(), "FuncMap");
}
