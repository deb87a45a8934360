use funcmap::error::{ErrorSet, IteratorExt, ResultExt};

use proc_macro2::{Delimiter, Group, Span, TokenStream, TokenTree};

fn syn_error(message: &str) -> syn::Error {
    syn::Error::new(Span::call_site(), message)
}

fn messages(error: ErrorSet) -> Vec<String> {
    error.message_texts()
}

fn braced(tokens: TokenStream) -> TokenStream {
    TokenStream::from(TokenTree::Group(Group::new(Delimiter::Brace, tokens)))
}

#[test]
fn new_error_is_ok() {
    let error = ErrorSet::new();

    assert!(error.ok().is_ok());
}

#[test]
fn error_from_syn_error_is_not_ok() {
    let error: ErrorSet = syn_error("Error").into();

    assert!(error.ok().is_err());
}

#[test]
fn new_error_displays_no_error() {
    let error = ErrorSet::new();

    assert_eq!(error.to_string(), "no error");
}

#[test]
fn error_from_syn_error_displays_its_message() {
    let error: ErrorSet = syn_error("Error").into();

    assert_eq!(error.to_string(), "Error");
}

#[test]
fn new_error_is_empty() {
    let error = ErrorSet::new();

    assert!(messages(error).is_empty());
}

#[test]
fn combined_error_contains_all_errors() {
    let mut error: ErrorSet = syn_error("Error 1").into();
    error.combine(syn_error("Error 2"));

    assert_eq!(messages(error), ["Error 1", "Error 2"]);
}

#[test]
fn new_error_produces_no_compile_error() {
    let error = ErrorSet::new();

    assert!(error.into_compile_error().is_empty());
}

#[test]
fn combined_error_produces_combined_compile_errors() {
    let mut error: ErrorSet = syn_error("Error 1").into();
    error.combine(syn_error("Error 2"));

    let error_tokens = error.into_compile_error();
    let compile_errors: syn::Block = syn::parse2(braced(error_tokens)).unwrap();

    assert_eq!(compile_errors.stmts.len(), 2);
}

#[test]
fn empty_iterator_collects_into_no_error() {
    let error = ErrorSet::from_errors(Vec::<syn::Error>::new());

    assert!(error.ok().is_ok());
}

#[test]
fn non_empty_iterator_collects_into_all_errors() {
    let error = ErrorSet::from_errors(vec![syn_error("Error 1"), syn_error("Error 2")]);

    assert_eq!(messages(error), ["Error 1", "Error 2"]);
}

#[test]
fn error_all_ok_results_collect_into_all_values() {
    let results: Vec<Result<&str, ErrorSet>> = vec![Ok("Value 1"), Ok("Value 2")];

    let collected: Result<Vec<_>, _> = results.collect_combining_errors();

    assert!(collected.is_ok());
    assert_eq!(collected.ok().unwrap(), ["Value 1", "Value 2"]);
}

#[test]
fn error_not_all_ok_results_collect_into_all_errors() {
    let results = vec![
        Ok("Value 1"),
        Err(syn_error("Error 1")),
        Ok("Value 2"),
        Err(syn_error("Error 2")),
    ];

    let collected: Result<Vec<_>, _> = results.collect_combining_errors();

    assert!(collected.is_err());
    assert_eq!(messages(collected.err().unwrap()), ["Error 1", "Error 2"]);
}

#[test]
fn combining_ok_result_adds_no_error_and_yields_value() {
    let mut error = ErrorSet::new();
    let result: Result<_, syn::Error> = Ok("Value");

    let value = result.combine_err_with(&mut error);

    assert!(error.ok().is_ok());
    assert_eq!(value, Some("Value"));
}

#[test]
fn combining_err_result_adds_error_and_yields_none() {
    let mut error = ErrorSet::new();
    let result: Result<(), _> = Err(syn_error("Error"));

    let value = result.combine_err_with(&mut error);

    assert_eq!(messages(error), ["Error"]);
    assert!(value.is_none());
}

#[test]
fn ok_result_combined_with_no_error_is_ok() {
    let error = ErrorSet::new();
    let result: Result<_, syn::Error> = Ok("Value");

    let combined = result.err_combined_with(error);

    assert!(combined.is_ok());
    assert_eq!(combined.ok().unwrap(), "Value");
}

#[test]
fn ok_result_combined_with_some_error_is_err() {
    let error: ErrorSet = syn_error("Error").into();
    let result: Result<_, syn::Error> = Ok("Value");

    let combined = result.err_combined_with(error);

    assert!(combined.is_err());
    assert_eq!(messages(combined.err().unwrap()), ["Error"]);
}

#[test]
fn err_result_combined_with_no_error_is_err() {
    let error = ErrorSet::new();
    let result: Result<(), _> = Err(syn_error("Error"));

    let combined = result.err_combined_with(error);

    assert!(combined.is_err());
    assert_eq!(messages(combined.err().unwrap()), ["Error"]);
}

#[test]
fn err_result_combined_with_some_error_keeps_both_in_order() {
    let error: ErrorSet = syn_error("Error 1").into();
    let result: Result<(), _> = Err(syn_error("Error 2"));

    let combined = result.err_combined_with(error);

    assert_eq!(messages(combined.err().unwrap()), ["Error 1", "Error 2"]);
}

#[test]
fn extending_error_appends_messages_after_existing_ones() {
    let mut error: ErrorSet = syn_error("Error 1").into();
    error.extend(vec![syn_error("Error 2"), syn_error("Error 3")]);

    assert_eq!(messages(error), ["Error 1", "Error 2", "Error 3"]);
}

#[test]
fn compile_error_has_one_invocation_per_message_in_order() {
    let mut error: ErrorSet = syn_error("Error 1").into();
    error.combine(syn_error("Error 2"));

    let trees: Vec<TokenTree> = error.into_compile_error().into_iter().collect();

    assert_eq!(trees.len(), 16);
    for (chunk, message) in trees.chunks(8).zip(["Error 1", "Error 2"]) {
        assert_eq!(chunk[2].to_string(), "core");
        assert_eq!(chunk[5].to_string(), "compile_error");
        match &chunk[7] {
            TokenTree::Group(g) => {
                let lit: syn::LitStr = syn::parse2(g.stream()).unwrap();
                assert_eq!(lit.value(), message);
            },
            other => panic!("unexpected tree {:?}", other),
        }
    }
}
