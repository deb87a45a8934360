//! An optional, combinable compile error: errors found while deriving are
//! collected, so that all of them are reported together.
use vstd::prelude::*;

use proc_macro2::TokenStream;
use vstd::std_specs::convert::{FromSpecImpl, IntoSpec};

use crate::diagnostic::{
    combine_syn_errors, compile_error_calls, empty_token_stream, syn_error_into_compile_error,
    syn_error_messages, syn_error_texts, syn_error_to_string,
};
use crate::opts::stream_trees;
use crate::syntax::{token_text, tokens_empty};

verus! {

/// Zero or more compile errors, held as at most one combined `syn::Error`.
#[derive(Debug)]
pub struct ErrorSet(Option<syn::Error>);

/// The messages of the error set that `err` converts into.
pub open spec fn set_messages_of<E: Into<ErrorSet>>(err: E) -> Seq<Seq<char>> {
    IntoSpec::<ErrorSet>::into_spec(err).messages()
}

/// Whether the error set that `err` converts into holds an error.
pub open spec fn set_has_error_of<E: Into<ErrorSet>>(err: E) -> bool {
    IntoSpec::<ErrorSet>::into_spec(err).has_error()
}

/// A conversion into [`ErrorSet`] that follows its specification; this holds
/// of `syn::Error`.
pub open spec fn converts_to_set<E: Into<ErrorSet>>() -> bool {
    <E as IntoSpec<ErrorSet>>::obeys_into_spec()
}

/// The messages of the error sets that `errs` convert into, in order.
pub open spec fn all_set_messages<E: Into<ErrorSet>>(errs: Seq<E>) -> Seq<Seq<char>>
    decreases errs.len(),
{
    if errs.len() == 0 {
        seq![]
    } else {
        all_set_messages(errs.drop_last()) + set_messages_of(errs.last())
    }
}

impl ErrorSet {
    /// Whether this set holds an error.
    pub closed spec fn has_error(&self) -> bool {
        self.0 is Some
    }

    /// The messages of this set, in order.
    pub closed spec fn messages(&self) -> Seq<Seq<char>> {
        match self.0 {
            Some(err) => syn_error_messages(err),
            None => seq![],
        }
    }

    /// Creates an empty error set.
    pub fn new() -> (error: ErrorSet)
        ensures
            !error.has_error(),
            error.messages() == Seq::<Seq<char>>::empty(),
    {
        ErrorSet(None)
    }

    /// `Ok(())` if this set holds no error, and this set as the error
    /// otherwise.
    pub fn ok(self) -> (res: Result<(), ErrorSet>)
        ensures
            res is Ok <==> !self.has_error(),
            res matches Err(err) ==> err == self,
    {
        match &self.0 {
            Some(..) => Err(self),
            None => Ok(()),
        }
    }

    /// Adds all messages of `other` to this set.
    pub fn combine<E: Into<ErrorSet>>(&mut self, other: E)
        ensures
            converts_to_set::<E>() ==> {
                &&& final(self).has_error() <==> (old(self).has_error() || set_has_error_of(other))
                &&& final(self).messages() == old(self).messages() + set_messages_of(other)
            },
    {
        let converted: ErrorSet = other.into();
        if let ErrorSet(Some(other)) = converted {
            match &mut self.0 {
                Some(err) => combine_syn_errors(err, other),
                None => self.0 = Some(other),
            }
        } else {
            assert(self.messages() + converted.messages() =~= self.messages());
        }
    }

    /// Turns this set into tokens with one `compile_error!(...)` invocation
    /// per message; no tokens at all if the set is empty.
    pub fn into_compile_error(self) -> (tokens: TokenStream)
        ensures
            tokens_empty(tokens) <==> !self.has_error(),
            compile_error_calls(stream_trees(tokens), self.messages()),
            !self.has_error() ==> token_text(tokens) == Seq::<char>::empty(),
    {
        match self.0 {
            Some(err) => syn_error_into_compile_error(err),
            None => empty_token_stream(),
        }
    }

    /// Renders this set: its first message, or `no error` if it is empty.
    pub fn to_string(&self) -> (text: String)
        ensures
            self.has_error() ==> self.messages().len() > 0 && text@ == self.messages()[0],
            !self.has_error() ==> text@ == "no error"@,
    {
        match &self.0 {
            Some(err) => syn_error_to_string(err),
            None => "no error".to_owned(),
        }
    }

    /// The messages of this set, in order, as strings.
    pub fn message_texts(&self) -> (texts: Vec<String>)
        ensures
            texts@.map_values(|t: String| t@) == self.messages(),
    {
        match &self.0 {
            Some(err) => syn_error_texts(err),
            None => {
                let texts: Vec<String> = Vec::new();
                assert(texts@.map_values(|t: String| t@) =~= Seq::<Seq<char>>::empty());
                texts
            },
        }
    }

    /// Adds the messages of all given errors to this set, in order.
    pub fn extend<E: Into<ErrorSet>>(&mut self, errs: Vec<E>)
        ensures
            converts_to_set::<E>() ==> final(self).messages() == old(self).messages() + all_set_messages(errs@),
    {
        let ghost original = *self;
        for err in it: errs
            invariant
                converts_to_set::<E>() ==> self.messages() == original.messages() + all_set_messages(it.seq().take(it.index() as int)),
        {
            proof {
                let done = it.seq().take(it.index() as int);
                assert(it.seq().take(it.index() + 1) =~= done.push(err));
                assert(done.push(err).drop_last() =~= done);
            }
            self.combine(err);
            proof {
                if converts_to_set::<E>() {
                    let done = it.seq().take(it.index() as int);
                    assert(all_set_messages(done.push(err)) == all_set_messages(done) + set_messages_of(err));
                    assert(self.messages() =~= original.messages() + all_set_messages(done.push(err)));
                }
            }
        }
        proof {
            assert(errs@.take(errs@.len() as int) =~= errs@);
        }
    }

    /// Creates a set holding the messages of all given errors, in order.
    pub fn from_errors<E: Into<ErrorSet>>(errs: Vec<E>) -> (error: ErrorSet)
        ensures
            converts_to_set::<E>() ==> error.messages() == all_set_messages(errs@),
    {
        let mut error = ErrorSet::new();
        error.extend(errs);
        proof {
            assert(Seq::<Seq<char>>::empty() + all_set_messages(errs@) =~= all_set_messages(errs@));
        }
        error
    }
}

impl From<syn::Error> for ErrorSet {
    fn from(err: syn::Error) -> (error: ErrorSet)
        ensures
            error.has_error(),
            error.messages() == syn_error_messages(err),
    {
        ErrorSet(Some(err))
    }
}

impl FromSpecImpl<syn::Error> for ErrorSet {
    open spec fn obeys_from_spec() -> bool {
        true
    }

    closed spec fn from_spec(err: syn::Error) -> ErrorSet {
        ErrorSet(Some(err))
    }
}

/// Converting a `syn::Error` gives a set holding its messages.
pub proof fn lemma_syn_error_converts_to_set(err: syn::Error)
    ensures
        converts_to_set::<syn::Error>(),
        set_has_error_of(err),
        set_messages_of(err) == syn_error_messages(err),
{
}

/// An extension trait for collections of results.
pub trait IteratorExt<T> {
    /// Collects results into a single result: all values if all results are
    /// `Ok`, and otherwise all errors combined into a single [`ErrorSet`].
    fn collect_combining_errors(self) -> Result<Vec<T>, ErrorSet>;
}

/// The errors of the failed results, in order.
pub open spec fn failures<T, E>(results: Seq<Result<T, E>>) -> Seq<E>
    decreases results.len(),
{
    if results.len() == 0 {
        seq![]
    } else {
        let init = failures(results.drop_last());
        match results.last() {
            Ok(_) => init,
            Err(e) => init.push(e),
        }
    }
}

/// The values of the successful results, in order.
pub open spec fn successes<T, E>(results: Seq<Result<T, E>>) -> Seq<T>
    decreases results.len(),
{
    if results.len() == 0 {
        seq![]
    } else {
        let init = successes(results.drop_last());
        match results.last() {
            Ok(v) => init.push(v),
            Err(_) => init,
        }
    }
}

/// Whether any of the given errors converts into a non-empty set.
pub open spec fn any_has_error<E: Into<ErrorSet>>(errs: Seq<E>) -> bool {
    exists|i: int| 0 <= i < errs.len() && set_has_error_of(#[trigger] errs[i])
}

impl<T, E: Into<ErrorSet>> IteratorExt<T> for Vec<Result<T, E>> {
    fn collect_combining_errors(self) -> (res: Result<Vec<T>, ErrorSet>)
        ensures
            converts_to_set::<E>() ==> {
                &&& res is Ok <==> !any_has_error(failures(self@))
                &&& res matches Ok(values) ==> values@ == successes(self@)
                &&& res matches Err(err) ==> err.messages() == all_set_messages(failures(self@))
            },
    {
        let ghost results = self@;
        let mut error = ErrorSet::new();
        let mut values: Vec<T> = Vec::new();
        for result in it: self
            invariant
                results == it.seq(),
                values@ == successes(results.take(it.index() as int)),
                converts_to_set::<E>() ==> {
                    &&& error.has_error() <==> any_has_error(failures(results.take(it.index() as int)))
                    &&& error.messages() == all_set_messages(failures(results.take(it.index() as int)))
                },
        {
            proof {
                let done = results.take(it.index() as int);
                assert(results.take(it.index() + 1) =~= done.push(result));
                assert(done.push(result).drop_last() =~= done);
            }
            match result.combine_err_with(&mut error) {
                Some(value) => values.push(value),
                None => {
                    proof {
                        let errs = failures(results.take(it.index() as int));
                        let e = result->Err_0;
                        assert(errs.push(e).drop_last() =~= errs);
                        assert(all_set_messages(errs.push(e)) == all_set_messages(errs) + set_messages_of(e));
                        if converts_to_set::<E>() {
                            if error.has_error() && !any_has_error(errs) {
                                assert(set_has_error_of(errs.push(e)[errs.len() as int]));
                            }
                            if any_has_error(errs.push(e)) && !any_has_error(errs) {
                                let i = choose|i: int| 0 <= i < errs.push(e).len() && set_has_error_of(#[trigger] errs.push(e)[i]);
                                if i < errs.len() {
                                    assert(set_has_error_of(errs[i]));
                                }
                            }
                            if any_has_error(errs) {
                                let i = choose|i: int| 0 <= i < errs.len() && set_has_error_of(#[trigger] errs[i]);
                                assert(set_has_error_of(errs.push(e)[i]));
                            }
                        }
                    }
                },
            }
        }
        proof {
            assert(results.take(results.len() as int) =~= results);
        }
        let res = match error.ok() {
            Ok(()) => Ok(values),
            Err(err) => Err(err),
        };
        res
    }
}

/// An extension trait for results.
pub trait ResultExt<T> {
    /// This result is `Ok`, or its error converts into a non-empty set.
    spec fn fails_with_error(self) -> bool;

    /// If this result is `Err`, combines the error into `error`; returns this
    /// result's value if it is `Ok`, and `None` otherwise.
    fn combine_err_with(self, error: &mut ErrorSet) -> Option<T>;

    /// `Ok` with this result's value if this result is `Ok` and `error` (after
    /// combining this result's error into it) is empty, and `Err` with the
    /// combined set otherwise.
    fn err_combined_with(self, error: ErrorSet) -> Result<T, ErrorSet>
        requires
            self.fails_with_error(),
    ;
}

impl<T, E: Into<ErrorSet>> ResultExt<T> for Result<T, E> {
    open spec fn fails_with_error(self) -> bool {
        match self {
            Ok(_) => true,
            Err(e) => converts_to_set::<E>() && set_has_error_of(e),
        }
    }

    fn combine_err_with(self, error: &mut ErrorSet) -> (value: Option<T>)
        ensures
            match self {
                Ok(v) => value == Some(v) && *final(error) == *old(error),
                Err(e) => {
                    &&& value is None
                    &&& converts_to_set::<E>() ==> {
                        &&& final(error).has_error() <==> (old(error).has_error() || set_has_error_of(e))
                        &&& final(error).messages() == old(error).messages() + set_messages_of(e)
                    }
                },
            },
    {
        match self {
            Ok(value) => Some(value),
            Err(err) => {
                error.combine(err);
                None
            },
        }
    }

    fn err_combined_with(self, error: ErrorSet) -> (res: Result<T, ErrorSet>)
        ensures
            converts_to_set::<E>() ==> {
                &&& res is Ok <==> (!error.has_error() && match self {
                    Ok(_) => true,
                    Err(e) => !set_has_error_of(e),
                })
                &&& res matches Ok(v) ==> self == Ok::<T, E>(v)
                &&& res matches Err(err) ==> err.messages() == error.messages() + match self {
                    Ok(_) => Seq::<Seq<char>>::empty(),
                    Err(e) => set_messages_of(e),
                }
            },
    {
        let mut error = error;
        let ghost before = error;
        let result = self.combine_err_with(&mut error);
        match error.ok() {
            Ok(()) => match result {
                Some(value) => Ok(value),
                None => unreached(),
            },
            Err(err) => {
                proof {
                    if self is Ok {
                        assert(before.messages() + Seq::<Seq<char>>::empty() =~= before.messages());
                    }
                }
                Err(err)
            },
        }
    }
}

} // verus!
