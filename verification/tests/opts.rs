use funcmap::opts::crate_path_from_lexed;
use funcmap::syntax::{GenArg, PathArgs};

use proc_macro2::{Span, TokenStream};

fn toks(s: &str) -> TokenStream {
    s.parse().unwrap()
}

#[test]
fn lexed_path_with_leading_colons_is_read() {
    let path = crate_path_from_lexed(Ok(toks("::my_crate::inner")), &String::new(), Span::call_site()).ok().unwrap();
    assert!(path.leading_colon);
    assert_eq!(path.segments.len(), 2);
    assert_eq!(path.segments[0].ident.text, "my_crate");
    assert_eq!(path.segments[1].ident.text, "inner");
}

#[test]
fn lexed_path_with_generic_arguments_is_read() {
    let path = crate_path_from_lexed(Ok(toks("a<b>::c")), &String::new(), Span::call_site()).ok().unwrap();
    assert!(!path.leading_colon);
    assert_eq!(path.segments.len(), 2);
    match &path.segments[0].args {
        PathArgs::Angle { colon2, args } => {
            assert!(!colon2);
            assert_eq!(args.len(), 1);
            assert!(matches!(args[0], GenArg::Type(..)));
        }
        _ => panic!("expected angle-bracketed arguments"),
    }
}

#[test]
fn lexing_error_is_passed_on() {
    let err = syn::Error::new(Span::call_site(), "cannot lex");
    let res = crate_path_from_lexed(Err(err), &String::new(), Span::call_site());
    assert_eq!(res.err().unwrap().message_texts(), ["cannot lex"]);
}

#[test]
fn tokens_that_are_not_a_path_are_refused() {
    let res = crate_path_from_lexed(Ok(toks("+")), &String::new(), Span::call_site());
    assert_eq!(res.err().unwrap().message_texts(), ["expected path"]);
}

#[test]
fn suffix_on_literal_is_refused() {
    let res = crate_path_from_lexed(Ok(toks("a")), &"x".to_string(), Span::call_site());
    assert_eq!(res.err().unwrap().message_texts(), ["unexpected suffix `x` on string literal"]);
}
