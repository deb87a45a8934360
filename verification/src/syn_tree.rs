//! The syntax-tree types of `syn` and `proc_macro2` that the conversion of
//! a parsed item into the library's model reads.
use vstd::prelude::*;

verus! {

#[verifier::external_type_specification]
#[verifier::external_body]
pub struct ExDeriveInput(syn::DeriveInput);

#[verifier::external_type_specification]
#[verifier::external_body]
pub struct ExVariant(syn::Variant);

#[verifier::external_type_specification]
#[verifier::external_body]
pub struct ExFields(syn::Fields);

#[verifier::external_type_specification]
#[verifier::external_body]
pub struct ExField(syn::Field);

#[verifier::external_type_specification]
#[verifier::external_body]
pub struct ExAttribute(syn::Attribute);

#[verifier::external_type_specification]
#[verifier::external_body]
pub struct ExMeta(syn::Meta);

#[verifier::external_type_specification]
#[verifier::external_body]
pub struct ExGenerics(syn::Generics);

#[verifier::external_type_specification]
#[verifier::external_body]
pub struct ExGenericParam(syn::GenericParam);

#[verifier::external_type_specification]
#[verifier::external_body]
pub struct ExLifetimeParam(syn::LifetimeParam);

#[verifier::external_type_specification]
#[verifier::external_body]
pub struct ExConstParam(syn::ConstParam);

#[verifier::external_type_specification]
#[verifier::external_body]
pub struct ExWherePredicate(syn::WherePredicate);

#[verifier::external_type_specification]
#[verifier::external_body]
pub struct ExTypeParamBound(syn::TypeParamBound);

#[verifier::external_type_specification]
#[verifier::external_body]
pub struct ExTokenPlus(syn::token::Plus);

#[verifier::external_type_specification]
#[verifier::external_body]
pub struct ExTokenComma(syn::token::Comma);

#[verifier::external_type_specification]
#[verifier::external_body]
pub struct ExReturnType(syn::ReturnType);

#[verifier::external_type_specification]
#[verifier::external_body]
pub struct ExType(syn::Type);

#[verifier::external_type_specification]
#[verifier::external_body]
pub struct ExTypePtr(syn::TypePtr);

#[verifier::external_type_specification]
#[verifier::external_body]
pub struct ExTypeReference(syn::TypeReference);

#[verifier::external_type_specification]
#[verifier::external_body]
pub struct ExTypeBareFn(syn::TypeBareFn);

#[verifier::external_type_specification]
#[verifier::external_body]
pub struct ExBareFnArg(syn::BareFnArg);

#[verifier::external_type_specification]
#[verifier::external_body]
pub struct ExQSelf(syn::QSelf);

#[verifier::external_type_specification]
#[verifier::external_body]
pub struct ExPath(syn::Path);

#[verifier::external_type_specification]
#[verifier::external_body]
pub struct ExPathSegment(syn::PathSegment);

#[verifier::external_type_specification]
#[verifier::external_body]
pub struct ExPathArguments(syn::PathArguments);

#[verifier::external_type_specification]
#[verifier::external_body]
pub struct ExGenericArgument(syn::GenericArgument);

#[verifier::external_type_specification]
#[verifier::external_body]
pub struct ExAssocType(syn::AssocType);

#[verifier::external_type_specification]
#[verifier::external_body]
pub struct ExConstraint(syn::Constraint);

#[verifier::external_type_specification]
#[verifier::external_body]
pub struct ExLifetime(syn::Lifetime);

#[verifier::external_type_specification]
#[verifier::external_body]
pub struct ExTokenTree(proc_macro2::TokenTree);

#[verifier::external_type_specification]
#[verifier::external_body]
pub struct ExDelimiter(proc_macro2::Delimiter);

#[verifier::external_type_specification]
#[verifier::external_body]
#[verifier::reject_recursive_types(T)]
#[verifier::reject_recursive_types(P)]
pub struct ExPunctuated<T, P>(syn::punctuated::Punctuated<T, P>);

} // verus!
