//! Derivable functorial mappings: applying a closure to all (possibly nested)
//! occurrences of a type parameter within a generic type.
pub mod marker;
pub mod mapping;
pub mod impls_core;
pub mod impls_alloc;
pub mod impls_btree;
pub mod impls_hash;
pub mod array;

pub use crate::marker::{
    FuncMap_cannot_be_derived_for_types_implementing_Drop, FuncMarker, Sealed,
    TryFuncMap_cannot_be_derived_for_types_implementing_Drop, TypeParam, NoValue,
};
pub use crate::mapping::{FuncMap, TryFuncMap};
pub mod ident;
pub mod derivable;
pub mod ident_collector;
pub mod diagnostic;
pub mod result;
pub mod error;
pub mod syntax;
pub mod generics;
pub mod predicates;
pub mod map;
pub mod input;
pub mod derive;
pub mod opts;
pub mod laws;
pub mod parse;
pub mod syn_tree;
pub mod derive_laws;
