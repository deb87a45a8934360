//! Static identifiers referring to items of this crate, as used by the
//! derive logic.
use vstd::prelude::*;

use proc_macro2::{Ident, Span};

verus! {

#[verifier::external_type_specification]
#[verifier::external_body]
pub struct ExIdent(Ident);

#[verifier::external_type_specification]
#[verifier::external_body]
pub struct ExSpan(Span);

/// Name of this crate.
pub const CRATE_IDENT: &'static str = "funcmap";
/// Name of the infallible mapping trait.
pub const TRAIT_IDENT: &'static str = "FuncMap";
/// Name of the fallible mapping trait.
pub const FALLIBLE_TRAIT_IDENT: &'static str = "TryFuncMap";
/// Name of the "no drop" marker trait of [`TRAIT_IDENT`].
pub const NO_DROP_MARKER_TRAIT_IDENT: &'static str = "FuncMap_cannot_be_derived_for_types_implementing_Drop";
/// Name of the "no drop" marker trait of [`FALLIBLE_TRAIT_IDENT`].
pub const NO_DROP_MARKER_FALLIBLE_TRAIT_IDENT: &'static str = "TryFuncMap_cannot_be_derived_for_types_implementing_Drop";
/// Name of the required method of [`TRAIT_IDENT`].
pub const FN_IDENT: &'static str = "func_map";
/// Name of the required method of [`FALLIBLE_TRAIT_IDENT`].
pub const FALLIBLE_FN_IDENT: &'static str = "try_func_map";
/// Name of the method of [`TRAIT_IDENT`] taking an explicit marker type.
pub const FN_IDENT_WITH_MARKER: &'static str = "func_map_over";
/// Name of the associated output type of both traits.
pub const OUTPUT_TYPE_IDENT: &'static str = "Output";
/// Name of the marker type selecting a type parameter.
pub const MARKER_TYPE_IDENT: &'static str = "TypeParam";
/// Name of the helper attribute of the derive macros.
pub const ATTR_IDENT: &'static str = "funcmap";

/// `s` is accepted by `proc_macro2::Ident::new`: non-empty, starting with an
/// ASCII letter or `_`, and continuing with ASCII letters, digits or `_`.
pub open spec fn is_plain_ident(s: Seq<char>) -> bool {
    &&& s.len() > 0
    &&& ('a' <= s[0] <= 'z' || 'A' <= s[0] <= 'Z' || s[0] == '_')
    &&& forall|i: int| 0 <= i < s.len() ==> {
        let c = #[trigger] s[i];
        'a' <= c <= 'z' || 'A' <= c <= 'Z' || '0' <= c <= '9' || c == '_'
    }
}

/// The text of an identifier, as its `Display` implementation renders it.
pub uninterp spec fn ident_text(ident: Ident) -> Seq<char>;

/// Creates an identifier with the given text and span.
///
/// Calls `proc_macro2::Ident::new`, which panics on text that is not an
/// identifier; `requires` admits only plain ASCII identifiers. The contract
/// claims that the identifier renders as the given text, as the documented
/// round trip of `Ident`'s `Display` says; nothing is stated of its span.
#[verifier::external_body]
pub(crate) fn new_ident(text: &str, span: Span) -> (ident: Ident)
    requires
        is_plain_ident(text@),
    ensures
        ident_text(ident) == text@,
{
    Ident::new(text, span)
}

/// The mixed-site span, used for identifiers that must not clash with user
/// code.
///
/// Calls `proc_macro2::Span::mixed_site`; nothing is stated of the span.
#[verifier::external_body]
pub(crate) fn mixed_site() -> Span {
    Span::mixed_site()
}

/// The call-site span.
///
/// Calls `proc_macro2::Span::call_site`; nothing is stated of the span.
#[verifier::external_body]
pub(crate) fn call_site() -> Span {
    Span::call_site()
}

/// A static string slice to be used as an identifier.
///
/// Unlike an [`Ident`], it can be constructed in a const context.
#[derive(Copy, Clone, Debug)]
pub struct StaticIdent(pub &'static str);

impl View for StaticIdent {
    type V = Seq<char>;

    open spec fn view(&self) -> Seq<char> {
        self.0@
    }
}

impl StaticIdent {
    /// The text of this identifier.
    pub fn as_str(&self) -> (s: &'static str)
        ensures
            s@ == self@,
    {
        self.0
    }

    /// Turns this [`StaticIdent`] into an actual [`Ident`] with the call-site
    /// span.
    pub fn to_ident(self) -> (ident: Ident)
        requires
            is_plain_ident(self@),
        ensures
            ident_text(ident) == self@,
    {
        new_ident(self.0, call_site())
    }
}

} // verus!
