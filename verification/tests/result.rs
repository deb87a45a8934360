use funcmap::result::{Builder, DeriveError, IteratorExt, ResultExt};

use proc_macro2::{Delimiter, Group, Span, TokenStream, TokenTree};

fn syn_error(message: &str) -> syn::Error {
    syn::Error::new(Span::call_site(), message)
}

fn builder_messages(builder: Builder) -> Vec<String> {
    match builder.err_or(()) {
        Ok(..) => Vec::new(),
        Err(err) => err_messages(err),
    }
}

fn err_messages(err: DeriveError) -> Vec<String> {
    err.message_texts()
}

#[test]
fn new_builder_is_ok_and_yields_value() {
    let builder = Builder::new();

    assert_eq!(builder.err_or(42).ok(), Some(42));
}

#[test]
fn builder_after_add_err_yields_err() {
    let mut builder = Builder::new();
    builder.add_err(syn_error("Error"));

    assert!(builder.err_or(()).is_err());
}

#[test]
fn builder_after_add_err_contains_all_errors() {
    let mut builder = Builder::new();
    builder
        .add_err(syn_error("Error 1"))
        .add_err(syn_error("Error 2"));

    assert_eq!(builder_messages(builder), ["Error 1", "Error 2"]);
}

#[test]
fn builder_after_add_err_produces_combined_compile_errors() {
    let mut builder = Builder::new();
    builder
        .add_err(syn_error("Error 1"))
        .add_err(syn_error("Error 2"));

    let compile_errors: Vec<syn::Stmt> = {
        let result = builder.err_or(());
        assert!(result.is_err());
        let error_tokens = result.err().unwrap().into_compile_error();
        let braced = TokenStream::from(TokenTree::Group(Group::new(Delimiter::Brace, error_tokens)));
        let block: syn::Block = syn::parse2(braced).unwrap();
        block.stmts
    };

    assert_eq!(compile_errors.len(), 2);
}

#[test]
fn empty_iterator_collects_into_ok_builder() {
    let builder = Builder::from_errors(Vec::<syn::Error>::new());

    assert!(builder.err_or(()).is_ok());
}

#[test]
fn non_empty_iterator_collects_into_builder_containing_all_errors() {
    let builder = Builder::from_errors(vec![syn_error("Error 1"), syn_error("Error 2")]);

    assert_eq!(builder_messages(builder), ["Error 1", "Error 2"]);
}

#[test]
fn result_all_ok_results_collect_into_all_values() {
    let results: Vec<Result<&str, DeriveError>> = vec![Ok("Value 1"), Ok("Value 2")];

    let collected: Result<Vec<_>, _> = results.collect_with_errors();

    assert_eq!(collected.ok(), Some(vec!["Value 1", "Value 2"]));
}

#[test]
fn result_not_all_ok_results_collect_into_all_errors() {
    let results = vec![
        Ok("Value 1"),
        Err(syn_error("Error 1")),
        Ok("Value 2"),
        Err(syn_error("Error 2")),
    ];

    let collected: Result<Vec<_>, _> = results.collect_with_errors();

    assert_eq!(
        collected.err().map(err_messages),
        Some(vec!["Error 1".to_string(), "Error 2".to_string()])
    );
}

#[test]
fn ok_result_add_err_to_builder_adds_no_error_and_yields_value() {
    let mut builder = Builder::new();
    let result: Result<_, syn::Error> = Ok("Value");

    let value = result.add_err_to(&mut builder);

    assert!(builder.err_or(()).is_ok());
    assert_eq!(value, Some("Value"));
}

#[test]
fn err_result_add_err_to_builder_adds_error_and_yields_none() {
    let mut builder = Builder::new();
    let result: Result<(), _> = Err(syn_error("Error"));

    let value = result.add_err_to(&mut builder);

    assert_eq!(builder_messages(builder), ["Error"]);
    assert!(value.is_none());
}

#[test]
fn ok_result_with_errors_from_empty_builder_yields_value() {
    let builder = Builder::new();
    let result: Result<_, syn::Error> = Ok("Value");

    let combined = result.with_error_from(builder);

    assert_eq!(combined.ok(), Some("Value"));
}

#[test]
fn ok_result_with_errors_from_non_empty_builder_yields_error() {
    let mut builder = Builder::new();
    builder.add_err(syn_error("Error"));
    let result: Result<_, syn::Error> = Ok("Value");

    let combined = result.with_error_from(builder);

    assert_eq!(combined.err().map(err_messages), Some(vec!["Error".to_string()]));
}

#[test]
fn err_result_with_errors_from_empty_builder_yields_error() {
    let builder = Builder::new();
    let result: Result<(), _> = Err(syn_error("Error"));

    let combined = result.with_error_from(builder);

    assert_eq!(combined.err().map(err_messages), Some(vec!["Error".to_string()]));
}

#[test]
fn err_result_with_errors_from_non_empty_builder_yields_all_errors() {
    let mut builder = Builder::new();
    builder.add_err(syn_error("Error 1"));
    let result: Result<(), _> = Err(syn_error("Error 2"));

    let combined = result.with_error_from(builder);

    assert_eq!(
        combined.err().map(err_messages),
        Some(vec!["Error 1".to_string(), "Error 2".to_string()])
    );
}

#[test]
fn add_error_appends_derive_error_after_existing_ones() {
    let mut builder = Builder::new();
    builder.add_err(syn_error("Error 1"));
    builder.add_error(DeriveError::from(syn_error("Error 2")));

    assert_eq!(builder_messages(builder), ["Error 1", "Error 2"]);
}
