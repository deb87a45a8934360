//! Compile errors reported by the derive logic, held as `syn::Error` values.
use vstd::prelude::*;

use proc_macro2::{Span, TokenStream};

use crate::opts::{lit_str, stream_trees, TokV};
use crate::syntax::{token_text, tokens_empty, Delim};

verus! {

#[verifier::external_type_specification]
#[verifier::external_body]
pub struct ExSynError(syn::Error);

#[verifier::external_type_specification]
#[verifier::external_body]
pub struct ExTokenStream(TokenStream);

/// The messages that a `syn::Error` holds, in order.
pub uninterp spec fn syn_error_messages(err: syn::Error) -> Seq<Seq<char>>;

/// Creates an error with a single message at the given span.
///
/// Calls `syn::Error::new`; the contract claims that the error holds exactly
/// the given message.
#[verifier::external_body]
pub(crate) fn new_syn_error(span: Span, message: &str) -> (err: syn::Error)
    ensures
        syn_error_messages(err) == seq![message@],
{
    syn::Error::new(span, message)
}

/// Creates an error with a single message spanning the given tokens.
///
/// Calls `syn::Error::new_spanned`; the contract claims that the error holds
/// exactly the given message.
#[verifier::external_body]
pub(crate) fn new_spanned_syn_error(tokens: &TokenStream, message: &str) -> (err: syn::Error)
    ensures
        syn_error_messages(err) == seq![message@],
{
    syn::Error::new_spanned(tokens, message)
}

/// Adds the messages of `other` to `err`.
///
/// Calls `syn::Error::combine`; the contract claims that the messages of
/// `other` are appended, in order, to those of `err`.
#[verifier::external_body]
pub(crate) fn combine_syn_errors(err: &mut syn::Error, other: syn::Error)
    ensures
        syn_error_messages(*final(err)) == syn_error_messages(*old(err)) + syn_error_messages(other),
{
    err.combine(other)
}

/// Turns an error into tokens invoking `compile_error!` once per message.
///
/// `c` are the eight token trees of `::core::compile_error! { "message" }`
/// for `message`: the string literal reads back as `message`.
pub open spec fn compile_error_call(c: Seq<TokV>, message: Seq<char>) -> bool {
    &&& c.len() == 8
    &&& c[0] == TokV::Punct { ch: ':', joint: true }
    &&& c[1] == TokV::Punct { ch: ':', joint: false }
    &&& c[2] == TokV::Ident("core"@)
    &&& c[3] == TokV::Punct { ch: ':', joint: true }
    &&& c[4] == TokV::Punct { ch: ':', joint: false }
    &&& c[5] == TokV::Ident("compile_error"@)
    &&& c[6] == TokV::Punct { ch: '!', joint: false }
    &&& c[7] matches TokV::Group { delim: Delim::Brace, inner }
    &&& inner.len() == 1
    &&& inner[0] matches TokV::Lit(text)
    &&& lit_str(text) == Some((message, Seq::<char>::empty()))
}

/// `trees` invoke `compile_error!` once for each of `messages`, in order.
pub open spec fn compile_error_calls(trees: Seq<TokV>, messages: Seq<Seq<char>>) -> bool {
    &&& trees.len() == 8 * messages.len()
    &&& forall|j: int| 0 <= j < messages.len() ==> compile_error_call(#[trigger] trees.subrange(8 * j, 8 * j + 8), messages[j])
}

/// Calls `syn::Error::into_compile_error`, which appends, for each message
/// of the error in order (and an error always holds at least one message),
/// the eight token trees of `::core::compile_error! { "message" }`, the
/// message as a string literal made by `Literal::string`. The contract
/// claims that structure; the text of the tokens is not stated, as it
/// depends on which printer renders them.
#[verifier::external_body]
pub(crate) fn syn_error_into_compile_error(err: syn::Error) -> (tokens: TokenStream)
    ensures
        !tokens_empty(tokens),
        compile_error_calls(stream_trees(tokens), syn_error_messages(err)),
{
    err.into_compile_error()
}

/// The messages of an error, in order, as strings.
///
/// Walks the error with its `IntoIterator` implementation and renders each
/// single-message error with `Display`; the contract claims that this yields
/// the messages in order.
#[verifier::external_body]
pub(crate) fn syn_error_texts(err: &syn::Error) -> (texts: Vec<String>)
    ensures
        texts@.map_values(|t: String| t@) == syn_error_messages(*err),
{
    err.into_iter().map(|message| message.to_string()).collect()
}

/// The first message of an error, as `Display` renders it.
///
/// Calls `ToString::to_string` on the error; the contract claims that the
/// error holds at least one message (every constructor of `syn::Error` gives
/// it one and combining only adds messages) and that the first is rendered.
#[verifier::external_body]
pub(crate) fn syn_error_to_string(err: &syn::Error) -> (text: String)
    ensures
        syn_error_messages(*err) == seq![text@] + syn_error_messages(*err).skip(1),
{
    err.to_string()
}

/// An empty token stream.
///
/// Calls `proc_macro2::TokenStream::new`; the contract claims that the tokens
/// are empty and render as no text.
#[verifier::external_body]
pub(crate) fn empty_token_stream() -> (tokens: TokenStream)
    ensures
        tokens_empty(tokens),
        token_text(tokens) == Seq::<char>::empty(),
        stream_trees(tokens) == Seq::<TokV>::empty(),
{
    TokenStream::new()
}

} // verus!
