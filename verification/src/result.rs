//! Infrastructure for dealing with fallible operations while deriving:
//! errors are not reported one at a time but collected, so that all of them
//! are reported together.
use vstd::prelude::*;

use proc_macro2::TokenStream;
use vstd::std_specs::convert::{FromSpecImpl, IntoSpec};

use crate::diagnostic::{
    combine_syn_errors, compile_error_calls, syn_error_into_compile_error, syn_error_messages,
    syn_error_texts,
};
use crate::opts::stream_trees;
use crate::syntax::tokens_empty;

verus! {

/// An error that occurred while deriving, holding one or more messages.
#[derive(Debug)]
pub struct DeriveError(syn::Error);

impl DeriveError {
    /// The messages of this error, in order.
    pub closed spec fn messages(&self) -> Seq<Seq<char>> {
        syn_error_messages(self.0)
    }

    /// Turns this error into a [`TokenStream`] containing a
    /// `compile_error!(...)` invocation per message.
    pub fn into_compile_error(self) -> (tokens: TokenStream)
        ensures
            !tokens_empty(tokens),
            compile_error_calls(stream_trees(tokens), self.messages()),
    {
        syn_error_into_compile_error(self.0)
    }

    /// Combines this error with `other` by adding all messages of `other` to
    /// this error.
    pub fn combine(&mut self, other: DeriveError)
        ensures
            final(self).messages() == old(self).messages() + other.messages(),
    {
        combine_syn_errors(&mut self.0, other.0);
    }

    /// The messages of this error, in order, as strings.
    pub fn message_texts(&self) -> (texts: Vec<String>)
        ensures
            texts@.map_values(|t: String| t@) == self.messages(),
    {
        syn_error_texts(&self.0)
    }
}

impl From<syn::Error> for DeriveError {
    fn from(err: syn::Error) -> (error: DeriveError)
        ensures
            error.messages() == syn_error_messages(err),
    {
        DeriveError(err)
    }
}

impl FromSpecImpl<syn::Error> for DeriveError {
    open spec fn obeys_from_spec() -> bool {
        true
    }

    closed spec fn from_spec(err: syn::Error) -> DeriveError {
        DeriveError(err)
    }
}


/// The messages of the error that `err` converts into.
pub open spec fn converted_messages<E: Into<DeriveError>>(err: E) -> Seq<Seq<char>> {
    IntoSpec::<DeriveError>::into_spec(err).messages()
}

/// A conversion into [`DeriveError`] that follows its specification; this
/// holds of `syn::Error` and of [`DeriveError`] itself.
pub open spec fn converts<E: Into<DeriveError>>() -> bool {
    <E as IntoSpec<DeriveError>>::obeys_into_spec()
}

/// Converting a `syn::Error` keeps its messages.
pub proof fn lemma_syn_error_converts(err: syn::Error)
    ensures
        converts::<syn::Error>(),
        converted_messages(err) == syn_error_messages(err),
{
}

/// A builder for values of type `Result<T, DeriveError>`: it collects errors
/// and builds an error result if it collected any.
#[derive(Debug)]
pub struct Builder(Option<DeriveError>);

impl Builder {
    /// Whether this builder contains an error.
    pub closed spec fn has_error(&self) -> bool {
        self.0 is Some
    }

    /// The messages collected by this builder, in order.
    pub closed spec fn messages(&self) -> Seq<Seq<char>> {
        match self.0 {
            Some(err) => err.messages(),
            None => seq![],
        }
    }

    /// Creates a new [`Builder`] containing no error yet.
    pub fn new() -> (builder: Builder)
        ensures
            !builder.has_error(),
            builder.messages() == Seq::<Seq<char>>::empty(),
    {
        Builder(None)
    }

    /// Adds the given error to this builder, combining it with the error it
    /// already contains, if any.
    pub fn add_err<E: Into<DeriveError>>(&mut self, err: E) -> (this: &mut Builder)
        ensures
            this.has_error(),
            converts::<E>() ==> this.messages() == old(self).messages() + converted_messages(err),
            *final(self) == *final(this),
    {
        let combined = self.err_combined_with(err);
        self.0 = Some(combined);
        self
    }

    /// Adds the given error to this builder, after the errors it already
    /// contains.
    pub fn add_error(&mut self, err: DeriveError)
        ensures
            final(self).has_error(),
            final(self).messages() == old(self).messages() + err.messages(),
    {
        match self.0.take() {
            Some(mut error) => {
                error.combine(err);
                self.0 = Some(error);
            },
            None => {
                assert(err.messages() =~= Seq::<Seq<char>>::empty() + err.messages());
                self.0 = Some(err);
            },
        }
    }

    /// Builds a result: the error contained in this builder if there is one,
    /// and `Ok(value)` otherwise.
    pub fn err_or<T>(self, value: T) -> (res: Result<T, DeriveError>)
        ensures
            self.has_error() <==> res is Err,
            res matches Ok(v) ==> v == value,
            res matches Err(err) ==> err.messages() == self.messages(),
    {
        match self.0 {
            Some(err) => Err(err),
            None => Ok(value),
        }
    }

    /// Takes the error out of this builder and combines it with `err`.
    fn err_combined_with<E: Into<DeriveError>>(&mut self, err: E) -> (combined: DeriveError)
        ensures
            !final(self).has_error(),
            converts::<E>() ==> combined.messages() == old(self).messages() + converted_messages(err),
    {
        let converted: DeriveError = err.into();
        match self.0.take() {
            Some(mut error) => {
                error.combine(converted);
                error
            },
            None => {
                assert(converts::<E>() ==> converted.messages() =~= Seq::<Seq<char>>::empty() + converted_messages(err));
                converted
            },
        }
    }
}


impl Builder {
    /// Adds all given errors to this builder, in order.
    pub fn extend<E: Into<DeriveError>>(&mut self, errs: Vec<E>)
        ensures
            final(self).has_error() <==> (old(self).has_error() || errs@.len() > 0),
            converts::<E>() ==> final(self).messages() == old(self).messages() + all_converted_messages(errs@),
    {
        let ghost original = *self;
        for err in it: errs
            invariant
                self.has_error() <==> (original.has_error() || it.index() > 0),
                converts::<E>() ==> self.messages() == original.messages() + all_converted_messages(it.seq().take(it.index() as int)),
        {
            proof {
                let done = it.seq().take(it.index() as int);
                assert(it.seq().take(it.index() + 1) =~= done.push(err));
            }
            self.add_err(err);
            proof {
                if converts::<E>() {
                    let done = it.seq().take(it.index() as int);
                    assert(done.push(err).drop_last() =~= done);
                    assert(all_converted_messages(done.push(err)) == all_converted_messages(done) + converted_messages(err));
                    assert(self.messages() =~= original.messages() + all_converted_messages(done.push(err)));
                }
            }
        }
        proof {
            assert(errs@.take(errs@.len() as int) =~= errs@);
        }
    }

    /// Creates a builder containing all given errors, in order.
    pub fn from_errors<E: Into<DeriveError>>(errs: Vec<E>) -> (builder: Builder)
        ensures
            builder.has_error() <==> errs@.len() > 0,
            converts::<E>() ==> builder.messages() == all_converted_messages(errs@),
    {
        let mut builder = Builder::new();
        builder.extend(errs);
        proof {
            assert(Seq::<Seq<char>>::empty() + all_converted_messages(errs@) =~= all_converted_messages(errs@));
        }
        builder
    }
}

/// The messages of the errors that `errs` convert into, in order.
pub open spec fn all_converted_messages<E: Into<DeriveError>>(errs: Seq<E>) -> Seq<Seq<char>>
    decreases errs.len(),
{
    if errs.len() == 0 {
        seq![]
    } else {
        all_converted_messages(errs.drop_last()) + converted_messages(errs.last())
    }
}

/// The values of the successful results, in order.
pub open spec fn ok_values<T, E>(results: Seq<Result<T, E>>) -> Seq<T>
    decreases results.len(),
{
    if results.len() == 0 {
        seq![]
    } else {
        let init = ok_values(results.drop_last());
        match results.last() {
            Ok(v) => init.push(v),
            Err(_) => init,
        }
    }
}

/// The errors of the failed results, in order.
pub open spec fn err_values<T, E>(results: Seq<Result<T, E>>) -> Seq<E>
    decreases results.len(),
{
    if results.len() == 0 {
        seq![]
    } else {
        let init = err_values(results.drop_last());
        match results.last() {
            Ok(_) => init,
            Err(e) => init.push(e),
        }
    }
}

/// An extension trait for collections of results.
pub trait IteratorExt<T> {
    /// Collects results into a single result: all values if all results are
    /// `Ok`, and otherwise all errors combined into a single [`DeriveError`].
    fn collect_with_errors(self) -> Result<Vec<T>, DeriveError>;
}

impl<T, E: Into<DeriveError>> IteratorExt<T> for Vec<Result<T, E>> {
    fn collect_with_errors(self) -> (res: Result<Vec<T>, DeriveError>)
        ensures
            res is Ok <==> err_values(self@).len() == 0,
            res matches Ok(values) ==> values@ == ok_values(self@),
            res matches Err(err) ==> (converts::<E>() ==> err.messages() == all_converted_messages(err_values(self@))),
    {
        let ghost results = self@;
        let mut builder = Builder::new();
        let mut values: Vec<T> = Vec::new();
        for result in it: self
            invariant
                results == it.seq(),
                values@ == ok_values(results.take(it.index() as int)),
                builder.has_error() <==> err_values(results.take(it.index() as int)).len() > 0,
                converts::<E>() ==> builder.messages() == all_converted_messages(err_values(results.take(it.index() as int))),
        {
            proof {
                let done = results.take(it.index() as int);
                assert(results.take(it.index() + 1) =~= done.push(result));
                assert(done.push(result).drop_last() =~= done);
            }
            let ghost before = builder;
            match result.add_err_to(&mut builder) {
                Some(value) => values.push(value),
                None => {
                    proof {
                        let errs = err_values(results.take(it.index() as int));
                        let e = result->Err_0;
                        assert(errs.push(e).drop_last() =~= errs);
                        assert(all_converted_messages(errs.push(e)) == all_converted_messages(errs) + converted_messages(e));
                    }
                },
            }
        }
        proof {
            assert(results.take(results.len() as int) =~= results);
        }
        builder.err_or(values)
    }
}

/// An extension trait for results.
pub trait ResultExt<T> {
    /// If this result is `Err`, adds the error to the given [`Builder`];
    /// returns this result's value if it is `Ok`, and `None` otherwise.
    fn add_err_to(self, builder: &mut Builder) -> Option<T>;

    /// Combines the given [`Builder`] with this result: `Ok` if this result
    /// is `Ok` and the builder contains no error, and otherwise `Err` holding
    /// the builder's messages followed by those of this result's error.
    fn with_error_from(self, builder: Builder) -> Result<T, DeriveError>;
}

impl<T, E: Into<DeriveError>> ResultExt<T> for Result<T, E> {
    fn add_err_to(self, builder: &mut Builder) -> (value: Option<T>)
        ensures
            match self {
                Ok(v) => value == Some(v) && *final(builder) == *old(builder),
                Err(e) => {
                    &&& value is None
                    &&& final(builder).has_error()
                    &&& converts::<E>() ==> final(builder).messages() == old(builder).messages() + converted_messages(e)
                },
            },
    {
        match self {
            Ok(value) => Some(value),
            Err(err) => {
                builder.add_err(err);
                None
            },
        }
    }

    fn with_error_from(self, builder: Builder) -> (res: Result<T, DeriveError>)
        ensures
            res is Ok <==> (self is Ok && !builder.has_error()),
            res matches Ok(v) ==> self == Ok::<T, E>(v),
            res matches Err(err) ==> converts::<E>() ==> err.messages() == builder.messages() + match self {
                Ok(_) => Seq::<Seq<char>>::empty(),
                Err(e) => converted_messages(e),
            },
    {
        let mut builder = builder;
        match self {
            Ok(value) => {
                let res = builder.err_or(value);
                proof {
                    assert(builder.messages() + Seq::<Seq<char>>::empty() =~= builder.messages());
                }
                res
            },
            Err(err) => Err(builder.err_combined_with(err)),
        }
    }
}

} // verus!
