//! [`Derivable`] type for managing the different derivable traits.
use vstd::prelude::*;

use crate::ident::{
    StaticIdent, FALLIBLE_FN_IDENT, FALLIBLE_TRAIT_IDENT, FN_IDENT,
    NO_DROP_MARKER_FALLIBLE_TRAIT_IDENT, NO_DROP_MARKER_TRAIT_IDENT, TRAIT_IDENT,
};

verus! {

/// A derivable trait.
#[derive(Copy, Clone, Debug, PartialEq, Eq, Structural)]
pub enum Derivable {
    /// The derivable trait `FuncMap`.
    Standard,
    /// The derivable trait `TryFuncMap`.
    Fallible,
}

impl Derivable {
    /// Returns the trait identifier of this derivable trait.
    pub fn trait_ident(self) -> (ident: StaticIdent)
        ensures
            ident@ == (match self {
                Derivable::Standard => TRAIT_IDENT@,
                Derivable::Fallible => FALLIBLE_TRAIT_IDENT@,
            }),
    {
        match self {
            Derivable::Standard => StaticIdent(TRAIT_IDENT),
            Derivable::Fallible => StaticIdent(FALLIBLE_TRAIT_IDENT),
        }
    }

    /// Returns the identifier of the "no drop" marker trait corresponding to
    /// this derivable trait.
    pub fn no_drop_marker_trait_ident(self) -> (ident: StaticIdent)
        ensures
            ident@ == (match self {
                Derivable::Standard => NO_DROP_MARKER_TRAIT_IDENT@,
                Derivable::Fallible => NO_DROP_MARKER_FALLIBLE_TRAIT_IDENT@,
            }),
    {
        match self {
            Derivable::Standard => StaticIdent(NO_DROP_MARKER_TRAIT_IDENT),
            Derivable::Fallible => StaticIdent(NO_DROP_MARKER_FALLIBLE_TRAIT_IDENT),
        }
    }

    /// Returns the identifier of the required method of this derivable trait.
    pub fn fn_ident(self) -> (ident: StaticIdent)
        ensures
            ident@ == (match self {
                Derivable::Standard => FN_IDENT@,
                Derivable::Fallible => FALLIBLE_FN_IDENT@,
            }),
    {
        match self {
            Derivable::Standard => StaticIdent(FN_IDENT),
            Derivable::Fallible => StaticIdent(FALLIBLE_FN_IDENT),
        }
    }
}

} // verus!
