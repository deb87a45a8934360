//! Options configured via `#[funcmap]` helper attributes: the grammar of
//! their arguments, and the options they set.
use vstd::prelude::*;

use proc_macro2::{Span, TokenStream};

use crate::diagnostic::{new_spanned_syn_error, new_syn_error, syn_error_messages};
use crate::ident::ATTR_IDENT;
use crate::parse::{parse_path, parsed_path};
use crate::result::{Builder, DeriveError};
use crate::syntax::{ArgsV, Delim, Name, PathArgs, PathV, Segment, SegmentV, TyPath};

verus! {

/// A token tree of the arguments of an attribute: an identifier, a
/// punctuation character (joint when the next character belongs to the same
/// operator), a literal, or a delimited group, with the span of its closing
/// delimiter.
#[derive(Debug)]
pub enum Tok {
    Ident(Name),
    Punct { ch: char, joint: bool, span: Span },
    Lit { tokens: TokenStream, span: Span },
    Group { delim: Delim, inner: Vec<Tok>, span: Span, close: Span },
}

/// The view of a token tree.
pub enum TokV {
    Ident(Seq<char>),
    Punct { ch: char, joint: bool },
    Lit(Seq<char>),
    Group { delim: Delim, inner: Seq<TokV> },
}

pub open spec fn tok_v(t: Tok) -> TokV
    decreases t,
{
    match t {
        Tok::Ident(n) => TokV::Ident(n@),
        Tok::Punct { ch, joint, span } => TokV::Punct { ch, joint },
        Tok::Lit { tokens, span } => TokV::Lit(crate::syntax::token_text(tokens)),
        Tok::Group { delim, inner, span, close } => TokV::Group { delim, inner: toks_v(inner@) },
    }
}

pub open spec fn toks_v(ts: Seq<Tok>) -> Seq<TokV>
    decreases ts,
{
    Seq::new(ts.len(), |i: int| if 0 <= i < ts.len() { tok_v(ts[i]) } else { TokV::Ident(Seq::empty()) })
}

/// The value and the suffix of the string literal written as `lit`, if it
/// is one.
pub uninterp spec fn lit_str(lit: Seq<char>) -> Option<(Seq<char>, Seq<char>)>;

/// Reads a string literal.
///
/// Parses `lit` as a `syn::LitStr` and returns its value and its suffix;
/// the contract names the result, which depends on the literal alone.
#[verifier::external_body]
fn parse_lit_str(lit: &TokenStream) -> (parts: Option<(String, String)>)
    ensures
        match parts {
            Some((value, suffix)) => lit_str(crate::syntax::token_text(*lit)) == Some((value@, suffix@)),
            None => lit_str(crate::syntax::token_text(*lit)) is None,
        },
{
    syn::parse2::<syn::LitStr>(lit.clone()).ok().map(|l| (l.value(), l.suffix().to_owned()))
}


/// The views of the token trees of `tokens`, in order, as iterating the
/// stream gives them: an identifier by its text, a punctuation character
/// with its spacing, a literal by the text of a stream holding it alone, a
/// group by its delimiter (none as [`Delim::Invisible`]) and the trees of its
/// contents.
pub uninterp spec fn stream_trees(tokens: TokenStream) -> Seq<TokV>;

/// `out` is an outcome that lexing the text `value` can have: its tokens, or
/// the messages of the error. Inside a procedural macro the
/// compiler's lexer runs, elsewhere a fallback lexer; the two may give
/// different outcomes for the same text, so this relates a text to each of
/// them rather than naming one.
pub uninterp spec fn lexes(value: Seq<char>, out: LexOutcome) -> bool;

/// Lexes `value` into tokens.
///
/// Calls `<proc_macro2::TokenStream as FromStr>::from_str` and converts a
/// lexing error into a `syn::Error`. The contract claims that the outcome is
/// one that lexing `value` can have; which one depends on whether the code
/// runs inside a procedural macro.
#[verifier::external_body]
fn lex_value(value: &str) -> (res: Result<TokenStream, syn::Error>)
    ensures
        match res {
            Ok(tokens) => lexes(value@, Ok(tokens)),
            Err(e) => lexes(value@, Err(syn_error_messages(e))),
        },
{
    value.parse::<TokenStream>().map_err(syn::Error::from)
}

/// The outcome of lexing the value of a crate path literal: the tokens, or
/// the messages of the lexing error.
pub type LexOutcome = Result<TokenStream, Seq<Seq<char>>>;

/// The outcome of lexing as the tokens `lexed` hold it.
pub open spec fn lex_outcome(lexed: Result<TokenStream, syn::Error>) -> LexOutcome {
    match lexed {
        Ok(tokens) => Ok(tokens),
        Err(e) => Err(syn_error_messages(e)),
    }
}

/// `s` is a keyword, which a plain identifier cannot be.
pub open spec fn is_keyword(s: Seq<char>) -> bool {
    s == "_"@ || s == "abstract"@ || s == "as"@ || s == "async"@ || s == "await"@ || s == "become"@
        || s == "box"@ || s == "break"@ || s == "const"@ || s == "continue"@ || s == "crate"@ || s == "do"@
        || s == "dyn"@ || s == "else"@ || s == "enum"@ || s == "extern"@ || s == "false"@ || s == "final"@
        || s == "fn"@ || s == "for"@ || s == "if"@ || s == "impl"@ || s == "in"@ || s == "let"@ || s == "loop"@
        || s == "macro"@ || s == "match"@ || s == "mod"@ || s == "move"@ || s == "mut"@ || s == "override"@
        || s == "priv"@ || s == "pub"@ || s == "ref"@ || s == "return"@ || s == "Self"@ || s == "self"@
        || s == "static"@ || s == "struct"@ || s == "super"@ || s == "trait"@ || s == "true"@ || s == "try"@
        || s == "type"@ || s == "typeof"@ || s == "unsafe"@ || s == "unsized"@ || s == "use"@
        || s == "virtual"@ || s == "where"@ || s == "while"@ || s == "yield"@
}

/// Whether `text` is `lit`.
fn text_is(text: &String, lit: &str) -> (b: bool)
    ensures
        b == (text@ == lit@),
{
    *text == lit.to_owned()
}

/// Whether `text` is a keyword.
fn keyword(text: &String) -> (b: bool)
    ensures
        b == is_keyword(text@),
{
    text_is(text, "_") || text_is(text, "abstract") || text_is(text, "as") || text_is(text, "async")
        || text_is(text, "await") || text_is(text, "become") || text_is(text, "box") || text_is(text, "break")
        || text_is(text, "const") || text_is(text, "continue") || text_is(text, "crate") || text_is(text, "do")
        || text_is(text, "dyn") || text_is(text, "else") || text_is(text, "enum") || text_is(text, "extern")
        || text_is(text, "false") || text_is(text, "final") || text_is(text, "fn") || text_is(text, "for")
        || text_is(text, "if") || text_is(text, "impl") || text_is(text, "in") || text_is(text, "let")
        || text_is(text, "loop") || text_is(text, "macro") || text_is(text, "match") || text_is(text, "mod")
        || text_is(text, "move") || text_is(text, "mut") || text_is(text, "override") || text_is(text, "priv")
        || text_is(text, "pub") || text_is(text, "ref") || text_is(text, "return") || text_is(text, "Self")
        || text_is(text, "self") || text_is(text, "static") || text_is(text, "struct") || text_is(text, "super")
        || text_is(text, "trait") || text_is(text, "true") || text_is(text, "try") || text_is(text, "type")
        || text_is(text, "typeof") || text_is(text, "unsafe") || text_is(text, "unsized") || text_is(text, "use")
        || text_is(text, "virtual") || text_is(text, "where") || text_is(text, "while") || text_is(text, "yield")
}


// ---------------------------------------------------------------------------
// The grammar of the arguments

/// A generic parameter named within `params(...)`.
#[derive(Debug)]
pub enum Param {
    /// A lifetime parameter.
    Lifetime(Name),
    /// A type or const parameter.
    TypeOrConst(Name),
}

/// The view of a named parameter.
pub enum ParamV {
    Lifetime(Seq<char>),
    TypeOrConst(Seq<char>),
}

impl View for Param {
    type V = ParamV;

    open spec fn view(&self) -> ParamV {
        match *self {
            Param::Lifetime(n) => ParamV::Lifetime(n@),
            Param::TypeOrConst(n) => ParamV::TypeOrConst(n@),
        }
    }
}

/// An argument of a `#[funcmap]` helper attribute: `crate = "path"` or
/// `params(...)`.
#[derive(Debug)]
pub enum Arg {
    Crate(TyPath),
    Params(Vec<Param>),
}

/// The view of an argument.
pub enum ArgV {
    Crate(PathV),
    Params(Seq<ParamV>),
}

pub open spec fn params_view(ps: Seq<Param>) -> Seq<ParamV> {
    ps.map_values(|p: Param| p@)
}

pub open spec fn arg_v(a: Arg) -> ArgV {
    match a {
        Arg::Crate(p) => ArgV::Crate(p@),
        Arg::Params(ps) => ArgV::Params(params_view(ps@)),
    }
}

/// The message of an error at position `i` of `toks`: at the end, it says
/// that the input ended.
pub open spec fn msg_at(toks: Seq<TokV>, i: int, msg: Seq<char>) -> Seq<Seq<char>> {
    if i >= toks.len() {
        seq!["unexpected end of input, "@ + msg]
    } else {
        seq![msg]
    }
}

/// `t` is the punctuation character `c`.
pub open spec fn is_punct(t: TokV, c: char) -> bool {
    t matches TokV::Punct { ch, .. } && ch == c
}

/// The crate path read from the value of a string literal with the suffix
/// `suffix`, whose lexing had the outcome `out`.
pub open spec fn crate_path_of(out: LexOutcome, suffix: Seq<char>) -> Result<PathV, Seq<Seq<char>>> {
    match out {
        Err(msgs) => Err(msgs),
        Ok(ltoks) => match parsed_path(ltoks) {
            None => Err(seq!["expected path"@]),
            Some(p) => if suffix.len() > 0 {
                Err(seq!["unexpected suffix `"@ + suffix + "` on string literal"@])
            } else {
                Ok(p)
            },
        },
    }
}

/// The crate path of `crate = "path"`, whose `=` stands at position `i`,
/// when lexing the value of the literal has the outcome `out`.
pub open spec fn crate_path_v(toks: Seq<TokV>, i: int, out: LexOutcome) -> Result<PathV, Seq<Seq<char>>> {
    if !(0 <= i < toks.len() && is_punct(toks[i], '=')) {
        Err(msg_at(toks, i, "expected `=`"@))
    } else if !(i + 1 < toks.len() && toks[i + 1] is Lit && lit_str(toks[i + 1]->Lit_0) is Some) {
        Err(msg_at(toks, i + 1, "expected string literal"@))
    } else {
        crate_path_of(out, lit_str(toks[i + 1]->Lit_0)->Some_0.1)
    }
}

/// The value of the literal of `crate = "path"`, whose `=` stands at
/// position `i`, when lexing it is reached.
pub open spec fn lexed_value(toks: Seq<TokV>, i: int) -> Option<Seq<char>> {
    if 0 <= i && i + 1 < toks.len() && is_punct(toks[i], '=') && toks[i + 1] is Lit && lit_str(toks[i + 1]->Lit_0) is Some {
        Some(lit_str(toks[i + 1]->Lit_0)->Some_0.0)
    } else {
        None
    }
}

/// `out` is an outcome of lexing the value of the literal of
/// `crate = "path"` whose `=` stands at position `i`, if lexing it is
/// reached.
pub open spec fn lex_fits_at(toks: Seq<TokV>, i: int, out: LexOutcome) -> bool {
    match lexed_value(toks, i) {
        Some(v) => lexes(v, out),
        None => true,
    }
}

/// Every outcome `lex(p)` that the arguments of `toks` read from position
/// `i` on, in the order `arg_list` reads them, is an outcome of lexing the
/// value of the literal at `p`.
pub open spec fn arg_list_fits(toks: Seq<TokV>, i: int, lex: spec_fn(int) -> LexOutcome) -> bool
    decreases toks.len() - i,
{
    if i < 0 || i >= toks.len() {
        true
    } else if toks[i] == TokV::Ident("crate"@) {
        &&& lex_fits_at(toks, i + 1, lex(i + 2))
        &&& (crate_path_v(toks, i + 1, lex(i + 2)) is Ok && i + 3 < toks.len() && is_punct(toks[i + 3], ','))
            ==> arg_list_fits(toks, i + 4, lex)
    } else if toks[i] == TokV::Ident("params"@) {
        (params_arg_v(toks, i + 1) is Ok && i + 2 < toks.len() && is_punct(toks[i + 2], ','))
            ==> arg_list_fits(toks, i + 3, lex)
    } else {
        true
    }
}

/// The parameters listed in `toks` from position `j` on, after those in
/// `acc`: names separated by commas, with an optional trailing comma.
pub open spec fn param_list(toks: Seq<TokV>, j: int, acc: Seq<ParamV>) -> Result<Seq<ParamV>, Seq<Seq<char>>>
    decreases toks.len() - j,
{
    if j < 0 || j >= toks.len() {
        Ok(acc)
    } else {
        let (p, k) = if toks[j] == (TokV::Punct { ch: '\'', joint: true }) && j + 1 < toks.len() && toks[j + 1] is Ident {
            (Some(ParamV::Lifetime("'"@ + toks[j + 1]->Ident_0)), j + 2)
        } else if toks[j] is Ident && !is_keyword(toks[j]->Ident_0) {
            (Some(ParamV::TypeOrConst(toks[j]->Ident_0)), j + 1)
        } else {
            (None, j)
        };
        match p {
            None => Err(msg_at(toks, j, "expected name of generic parameter"@)),
            Some(p) => if k >= toks.len() {
                Ok(acc.push(p))
            } else if is_punct(toks[k], ',') {
                param_list(toks, k + 1, acc.push(p))
            } else {
                Err(msg_at(toks, k, "expected `,`"@))
            },
        }
    }
}

/// The argument `params(...)`, whose group stands at position `i`.
pub open spec fn params_arg_v(toks: Seq<TokV>, i: int) -> Result<Seq<ParamV>, Seq<Seq<char>>> {
    if 0 <= i < toks.len() && toks[i] is Group && toks[i]->Group_delim == Delim::Paren {
        match param_list(toks[i]->Group_inner, 0, Seq::empty()) {
            Err(e) => Err(e),
            Ok(ps) => if ps.len() == 0 {
                Err(seq!["unexpected end of input, expected name of generic parameter"@])
            } else {
                Ok(ps)
            },
        }
    } else {
        Err(msg_at(toks, i, "expected parentheses"@))
    }
}

/// The arguments listed in `toks` from position `i` on, after those in
/// `acc`: arguments separated by commas, with an optional trailing comma;
/// lexing the literal of a crate path at position `p` has the outcome
/// `lex(p)`.
pub open spec fn arg_list(toks: Seq<TokV>, i: int, acc: Seq<ArgV>, lex: spec_fn(int) -> LexOutcome) -> Result<Seq<ArgV>, Seq<Seq<char>>>
    decreases toks.len() - i,
{
    if i < 0 || i >= toks.len() {
        Ok(acc)
    } else {
        let (a, k) = if toks[i] == TokV::Ident("crate"@) {
            (match crate_path_v(toks, i + 1, lex(i + 2)) {
                Ok(p) => Ok(ArgV::Crate(p)),
                Err(e) => Err(e),
            }, i + 3)
        } else if toks[i] == TokV::Ident("params"@) {
            (match params_arg_v(toks, i + 1) {
                Ok(ps) => Ok(ArgV::Params(ps)),
                Err(e) => Err(e),
            }, i + 2)
        } else {
            (Err(seq!["expected one of these arguments: `crate`, `params`"@]), i)
        };
        match a {
            Err(e) => Err(e),
            Ok(a) => if k >= toks.len() {
                Ok(acc.push(a))
            } else if is_punct(toks[k], ',') {
                arg_list(toks, k + 1, acc.push(a), lex)
            } else {
                Err(msg_at(toks, k, "expected `,`"@))
            },
        }
    }
}

/// The arguments of a helper attribute whose argument tokens are `toks`:
/// at least one; lexing the literal of a crate path at position `p` has the
/// outcome `lex(p)`.
pub open spec fn args_of(toks: Seq<TokV>, lex: spec_fn(int) -> LexOutcome) -> Result<Seq<ArgV>, Seq<Seq<char>>> {
    match arg_list(toks, 0, Seq::empty(), lex) {
        Ok(args) => if args.len() == 0 {
            Err(seq!["unexpected end of input, expected at least one argument"@])
        } else {
            Ok(args)
        },
        Err(e) => Err(e),
    }
}


// ---------------------------------------------------------------------------
// The parser

/// The span of a token tree; of a group, its opening delimiter's.
fn tok_span(t: &Tok) -> (s: Span)
    ensures
        s == match *t {
            Tok::Ident(n) => n.span,
            Tok::Punct { span, .. } => span,
            Tok::Lit { span, .. } => span,
            Tok::Group { span, .. } => span,
        },
{
    match t {
        Tok::Ident(n) => n.span,
        Tok::Punct { span, .. } => *span,
        Tok::Lit { span, .. } => *span,
        Tok::Group { span, .. } => *span,
    }
}

/// The error with message `msg` at position `i` of `toks`, whose end is at
/// the span `close`.
fn error_at(toks: &Vec<Tok>, i: usize, close: Span, msg: &str) -> (err: DeriveError)
    ensures
        err.messages() == msg_at(toks_v(toks@), i as int, msg@),
{
    if i >= toks.len() {
        let mut text = "unexpected end of input, ".to_owned();
        text.append(msg);
        proof {
            reveal_strlit("unexpected end of input, ");
        }
        DeriveError::from(new_syn_error(close, text.as_str()))
    } else {
        DeriveError::from(new_syn_error(tok_span(&toks[i]), msg))
    }
}

/// `res` is the parse result `spec`, with errors given by their messages.
pub open spec fn parsed_as<T, V>(res: Result<T, DeriveError>, spec: Result<V, Seq<Seq<char>>>, view: spec_fn(T) -> V) -> bool {
    match spec {
        Ok(v) => res matches Ok(t) && view(t) == v,
        Err(m) => res matches Err(e) && e.messages() == m,
    }
}

/// Reads the crate path from the outcome `lexed` of lexing the value of a
/// string literal with the suffix `suffix` and the span `span`.
///
/// # Errors
/// Fails with the lexing error, if lexing failed; if the tokens are not a
/// path; and if the literal has a suffix.
pub fn crate_path_from_lexed(lexed: Result<TokenStream, syn::Error>, suffix: &String, span: Span) -> (res: Result<TyPath, DeriveError>)
    ensures
        parsed_as(res, crate_path_of(lex_outcome(lexed), suffix@), |p: TyPath| p@),
{
    match lexed {
        Err(e) => Err(DeriveError::from(e)),
        Ok(tokens) => match parse_path(tokens) {
            None => {
                proof {
                    reveal_strlit("expected path");
                }
                Err(DeriveError::from(new_syn_error(span, "expected path")))
            },
            Some(p) => {
                if !suffix.as_str().is_empty() {
                    let mut text = "unexpected suffix `".to_owned();
                    text.append(suffix.as_str());
                    text.append("` on string literal");
                    proof {
                        reveal_strlit("unexpected suffix `");
                        reveal_strlit("` on string literal");
                    }
                    Err(DeriveError::from(new_syn_error(span, text.as_str())))
                } else {
                    Ok(p)
                }
            },
        },
    }
}

/// Parses `= "path"` of `crate = "path"`, whose `=` stands at position `i`;
/// the ghost result is the outcome of lexing the value of the literal.
fn parse_crate_path(toks: &Vec<Tok>, i: usize, close: Span) -> (res: (Result<TyPath, DeriveError>, Ghost<LexOutcome>))
    ensures
        parsed_as(res.0, crate_path_v(toks_v(toks@), i as int, res.1@), |p: TyPath| p@),
        lex_fits_at(toks_v(toks@), i as int, res.1@),
{
    let ghost tv = toks_v(toks@);
    let eq = i < toks.len() && match &toks[i] {
        Tok::Punct { ch, .. } => *ch == '=',
        _ => false,
    };
    if i < toks.len() {
        assert(tv[i as int] == tok_v(toks@[i as int]));
    }
    let ghost none: LexOutcome = Err(Seq::empty());
    if !eq {
        return (Err(error_at(toks, i, close, "expected `=`")), Ghost(none));
    }
    if i + 1 >= toks.len() {
        return (Err(error_at(toks, i + 1, close, "expected string literal")), Ghost(none));
    }
    assert(tv[i + 1] == tok_v(toks@[i + 1]));
    let (lit, span) = match &toks[i + 1] {
        Tok::Lit { tokens, span } => (tokens, *span),
        _ => {
            return (Err(error_at(toks, i + 1, close, "expected string literal")), Ghost(none));
        },
    };
    match parse_lit_str(lit) {
        None => (Err(error_at(toks, i + 1, close, "expected string literal")), Ghost(none)),
        Some((value, suffix)) => {
            let lexed = lex_value(value.as_str());
            let ghost out = lex_outcome(lexed);
            (crate_path_from_lexed(lexed, &suffix, span), Ghost(out))
        },
    }
}

/// Parses the parameters listed in `toks`, whose end is at the span
/// `close`.
fn parse_param_list(toks: &Vec<Tok>, close: Span) -> (res: Result<Vec<Param>, DeriveError>)
    ensures
        parsed_as(res, param_list(toks_v(toks@), 0, Seq::empty()), |v: Vec<Param>| params_view(v@)),
{
    let ghost tv = toks_v(toks@);
    let mut acc: Vec<Param> = Vec::new();
    let mut j: usize = 0;
    assert(params_view(acc@) =~= Seq::<ParamV>::empty());
    loop
        invariant
            tv == toks_v(toks@),
            j <= toks.len(),
            param_list(tv, 0, Seq::empty()) == param_list(tv, j as int, params_view(acc@)),
        decreases toks.len() - j,
    {
        if j >= toks.len() {
            return Ok(acc);
        }
        assert(tv[j as int] == tok_v(toks@[j as int]));
        if j + 1 < toks.len() {
            assert(tv[j + 1] == tok_v(toks@[j + 1]));
        }
        let is_lifetime = match &toks[j] {
            Tok::Punct { ch, joint, .. } => *ch == '\'' && *joint && j + 1 < toks.len() && match &toks[j + 1] {
                Tok::Ident(_) => true,
                _ => false,
            },
            _ => false,
        };
        let (p, k) = if is_lifetime {
            let name = match &toks[j + 1] {
                Tok::Ident(n) => n,
                _ => vstd::pervasive::unreached(),
            };
            let mut text = "'".to_owned();
            text.append(name.text.as_str());
            proof {
                reveal_strlit("'");
            }
            (Param::Lifetime(Name { text, span: tok_span(&toks[j]) }), j + 2)
        } else {
            match &toks[j] {
                Tok::Ident(n) => {
                    if keyword(&n.text) {
                        return Err(error_at(toks, j, close, "expected name of generic parameter"));
                    }
                    (Param::TypeOrConst(n.copy()), j + 1)
                },
                _ => {
                    return Err(error_at(toks, j, close, "expected name of generic parameter"));
                },
            }
        };
        let ghost before = params_view(acc@);
        acc.push(p);
        assert(params_view(acc@) =~= before.push(acc@.last()@));
        if k >= toks.len() {
            return Ok(acc);
        }
        assert(tv[k as int] == tok_v(toks@[k as int]));
        let comma = match &toks[k] {
            Tok::Punct { ch, .. } => *ch == ',',
            _ => false,
        };
        if !comma {
            return Err(error_at(toks, k, close, "expected `,`"));
        }
        j = k + 1;
    }
}

/// Parses `(...)` of `params(...)`, whose group stands at position `i`.
fn parse_params_arg(toks: &Vec<Tok>, i: usize, close: Span) -> (res: Result<Vec<Param>, DeriveError>)
    ensures
        parsed_as(res, params_arg_v(toks_v(toks@), i as int), |v: Vec<Param>| params_view(v@)),
{
    let ghost tv = toks_v(toks@);
    if i >= toks.len() {
        return Err(error_at(toks, i, close, "expected parentheses"));
    }
    assert(tv[i as int] == tok_v(toks@[i as int]));
    match &toks[i] {
        Tok::Group { delim: Delim::Paren, inner, close: inner_close, .. } => match parse_param_list(inner, *inner_close) {
            Err(e) => Err(e),
            Ok(ps) => {
                if ps.len() == 0 {
                    proof {
                        reveal_strlit("unexpected end of input, expected name of generic parameter");
                    }
                    Err(DeriveError::from(new_syn_error(*inner_close, "unexpected end of input, expected name of generic parameter")))
                } else {
                    Ok(ps)
                }
            },
        },
        _ => Err(error_at(toks, i, close, "expected parentheses")),
    }
}

/// Parses the arguments of a helper attribute from its argument tokens
/// `toks`, whose end is at the span `close`.
pub fn parse_args(toks: &Vec<Tok>, close: Span) -> (res: (Result<Vec<Arg>, DeriveError>, Ghost<spec_fn(int) -> LexOutcome>))
    ensures
        parsed_as(res.0, args_of(toks_v(toks@), res.1@), |v: Vec<Arg>| v@.map_values(|a: Arg| arg_v(a))),
        arg_list_fits(toks_v(toks@), 0, res.1@),
{
    let ghost tv = toks_v(toks@);
    let ghost mut lex: spec_fn(int) -> LexOutcome = |p: int| Err(Seq::<Seq<char>>::empty());
    let mut acc: Vec<Arg> = Vec::new();
    let mut i: usize = 0;
    assert(acc@.map_values(|a: Arg| arg_v(a)) =~= Seq::<ArgV>::empty());
    loop
        invariant_except_break
            i <= toks.len(),
            forall|g: spec_fn(int) -> LexOutcome| agrees_below(g, lex, i as int) ==>
                #[trigger] arg_list(tv, 0, Seq::empty(), g) == arg_list(tv, i as int, acc@.map_values(|a: Arg| arg_v(a)), g),
            forall|g: spec_fn(int) -> LexOutcome| agrees_below(g, lex, i as int) ==>
                (arg_list_fits(tv, i as int, g) ==> #[trigger] arg_list_fits(tv, 0, g)),
        invariant
            tv == toks_v(toks@),
        ensures
            arg_list(tv, 0, Seq::empty(), lex) == Ok::<Seq<ArgV>, Seq<Seq<char>>>(acc@.map_values(|a: Arg| arg_v(a))),
            arg_list_fits(tv, 0, lex),
        decreases toks.len() - i,
    {
        let ghost accv = acc@.map_values(|a: Arg| arg_v(a));
        let ghost lex0 = lex;
        if i >= toks.len() {
            assert(arg_list(tv, 0, Seq::empty(), lex) == arg_list(tv, i as int, accv, lex));
            assert(arg_list_fits(tv, 0, lex));
            break;
        }
        assert(tv[i as int] == tok_v(toks@[i as int]));
        let (is_crate, is_params) = match &toks[i] {
            Tok::Ident(n) => (text_is(&n.text, "crate"), text_is(&n.text, "params")),
            _ => (false, false),
        };
        proof {
            reveal_strlit("crate");
            reveal_strlit("params");
        }
        let (a, k) = if is_crate {
            let (r, Ghost(out)) = parse_crate_path(toks, i + 1, close);
            proof {
                lex = |p: int| if p == i + 2 { out } else { lex0(p) };
                assert(agrees_below(lex, lex0, i as int));
                assert(arg_list(tv, 0, Seq::empty(), lex) == arg_list(tv, i as int, accv, lex));
            }
            match r {
                Ok(p) => (Arg::Crate(p), i + 3),
                Err(e) => {
                    assert(arg_list_fits(tv, i as int, lex));
                    assert(arg_list_fits(tv, 0, lex));
                    return (Err(e), Ghost(lex));
                },
            }
        } else if is_params {
            match parse_params_arg(toks, i + 1, close) {
                Ok(ps) => (Arg::Params(ps), i + 2),
                Err(e) => {
                    assert(arg_list(tv, 0, Seq::empty(), lex) == arg_list(tv, i as int, accv, lex));
                    assert(arg_list_fits(tv, i as int, lex));
                    assert(arg_list_fits(tv, 0, lex));
                    return (Err(e), Ghost(lex));
                },
            }
        } else {
            proof {
                reveal_strlit("expected one of these arguments: `crate`, `params`");
                assert(arg_list(tv, 0, Seq::empty(), lex) == arg_list(tv, i as int, accv, lex));
                assert(arg_list_fits(tv, i as int, lex));
                assert(arg_list_fits(tv, 0, lex));
            }
            return (Err(DeriveError::from(new_syn_error(tok_span(&toks[i]), "expected one of these arguments: `crate`, `params`"))), Ghost(lex));
        };
        acc.push(a);
        let ghost accv2 = acc@.map_values(|a: Arg| arg_v(a));
        assert(accv2 =~= accv.push(arg_v(acc@.last())));
        if k >= toks.len() {
            assert(arg_list(tv, 0, Seq::empty(), lex) == arg_list(tv, i as int, accv, lex));
            assert(arg_list_fits(tv, i as int, lex));
            assert(arg_list_fits(tv, 0, lex));
            break;
        }
        assert(tv[k as int] == tok_v(toks@[k as int]));
        let comma = match &toks[k] {
            Tok::Punct { ch, .. } => *ch == ',',
            _ => false,
        };
        if !comma {
            assert(arg_list(tv, 0, Seq::empty(), lex) == arg_list(tv, i as int, accv, lex));
            assert(arg_list_fits(tv, i as int, lex));
            assert(arg_list_fits(tv, 0, lex));
            return (Err(error_at(toks, k, close, "expected `,`")), Ghost(lex));
        }
        proof {
            let ghost cur = lex;
            assert forall|g: spec_fn(int) -> LexOutcome| agrees_below(g, cur, k + 1) implies
                #[trigger] arg_list(tv, 0, Seq::empty(), g) == arg_list(tv, k + 1, accv2, g) by {
                assert(agrees_below(g, lex0, i as int));
                assert(arg_list(tv, 0, Seq::empty(), g) == arg_list(tv, i as int, accv, g));
                if is_crate {
                    assert(g(i + 2) == cur(i + 2));
                }
            }
            assert forall|g: spec_fn(int) -> LexOutcome| agrees_below(g, cur, k + 1) implies
                (arg_list_fits(tv, k + 1, g) ==> #[trigger] arg_list_fits(tv, 0, g)) by {
                assert(agrees_below(g, lex0, i as int));
                if is_crate {
                    assert(g(i + 2) == cur(i + 2));
                }
                if arg_list_fits(tv, k + 1, g) {
                    assert(arg_list_fits(tv, i as int, g));
                }
            }
        }
        i = k + 1;
    }
    if acc.len() == 0 {
        proof {
            reveal_strlit("unexpected end of input, expected at least one argument");
        }
        return (Err(DeriveError::from(new_syn_error(close, "unexpected end of input, expected at least one argument"))), Ghost(lex));
    }
    (Ok(acc), Ghost(lex))
}

/// `g` gives the same outcomes as `f` at the positions below `n`.
pub open spec fn agrees_below(g: spec_fn(int) -> LexOutcome, f: spec_fn(int) -> LexOutcome, n: int) -> bool {
    forall|p: int| 0 <= p < n ==> #[trigger] g(p) == f(p)
}


// ---------------------------------------------------------------------------
// Attributes and options

/// What an attribute holds after its path: nothing, a delimited list of
/// tokens (with the span of its closing delimiter), or `= value` (with the
/// span of the `=`).
#[derive(Debug)]
pub enum AttrMeta {
    Path { span: Span },
    List { tokens: Vec<Tok>, close: Span },
    NameValue { eq_span: Span },
}

/// An attribute of the input: its path, what follows it, and its tokens,
/// which locate errors about it.
#[derive(Debug)]
pub struct Attr {
    pub path: TyPath,
    pub meta: AttrMeta,
    pub tokens: TokenStream,
}

/// The view of what an attribute holds after its path.
pub enum MetaV {
    Path,
    List(Seq<TokV>),
    NameValue,
}

/// The view of an attribute.
pub struct AttributeV {
    pub path: PathV,
    pub meta: MetaV,
}

pub open spec fn attribute_v(a: Attr) -> AttributeV {
    AttributeV {
        path: a.path@,
        meta: match a.meta {
            AttrMeta::Path { .. } => MetaV::Path,
            AttrMeta::List { tokens, .. } => MetaV::List(toks_v(tokens@)),
            AttrMeta::NameValue { .. } => MetaV::NameValue,
        },
    }
}

pub open spec fn attributes_v(attrs: Seq<Attr>) -> Seq<AttributeV> {
    attrs.map_values(|a: Attr| attribute_v(a))
}

/// `p` is the path of the helper attribute: the identifier `funcmap` alone.
pub open spec fn is_helper_path(p: PathV) -> bool {
    &&& p.qself is None
    &&& !p.leading_colon
    &&& p.segments.len() == 1
    &&& p.segments[0].ident == ATTR_IDENT@
    &&& p.segments[0].args == ArgsV::Plain
}

/// The arguments of a helper attribute, where lexing the literal of a
/// crate path at position `p` of its tokens has the outcome `lex(p)`.
pub open spec fn attr_args(m: MetaV, lex: spec_fn(int) -> LexOutcome) -> Result<Seq<ArgV>, Seq<Seq<char>>> {
    match m {
        MetaV::Path => Err(seq!["expected attribute arguments in parentheses: #[funcmap(...)]"@]),
        MetaV::NameValue => Err(seq!["expected parentheses: #[funcmap(...)]"@]),
        MetaV::List(toks) => args_of(toks, lex),
    }
}

/// Whether `path` is the path of the helper attribute.
fn is_helper(path: &TyPath) -> (b: bool)
    ensures
        b == is_helper_path(path@),
{
    let ghost pv = path@;
    if path.qself.is_some() || path.leading_colon || path.segments.len() != 1 {
        return false;
    }
    let plain = match &path.segments[0].args {
        PathArgs::Plain => true,
        _ => false,
    };
    assert(pv.segments[0] == SegmentV { ident: path.segments@[0].ident@, args: crate::syntax::args_v(path.segments@[0].args) });
    text_is(&path.segments[0].ident.text, ATTR_IDENT) && plain
}

/// What the helper attributes set, so far, and the errors so far.
pub struct OptsAcc {
    pub crate_path: Option<PathV>,
    pub params: Seq<ParamV>,
    pub failed: bool,
    pub errors: Seq<Seq<char>>,
}

/// `acc` with the error with messages `msgs`.
pub open spec fn with_error(acc: OptsAcc, msgs: Seq<Seq<char>>) -> OptsAcc {
    OptsAcc { failed: true, errors: acc.errors + msgs, ..acc }
}

/// `acc` with the parameters `ps` named in turn: a parameter named before
/// is an error.
pub open spec fn add_params(acc: OptsAcc, ps: Seq<ParamV>) -> OptsAcc
    decreases ps.len(),
{
    if ps.len() == 0 {
        acc
    } else {
        let a = add_params(acc, ps.drop_last());
        if a.params.contains(ps.last()) {
            with_error(a, seq!["duplicate parameter"@])
        } else {
            OptsAcc { params: a.params.push(ps.last()), ..a }
        }
    }
}

/// `acc` with the argument `arg`: a second crate path is an error.
pub open spec fn add_arg(acc: OptsAcc, arg: ArgV) -> OptsAcc {
    match arg {
        ArgV::Crate(p) => if acc.crate_path is None {
            OptsAcc { crate_path: Some(p), ..acc }
        } else {
            with_error(acc, seq!["duplicate crate path"@])
        },
        ArgV::Params(ps) => add_params(acc, ps),
    }
}

/// `acc` with the arguments `args` in turn.
pub open spec fn add_args(acc: OptsAcc, args: Seq<ArgV>) -> OptsAcc
    decreases args.len(),
{
    if args.len() == 0 {
        acc
    } else {
        add_arg(add_args(acc, args.drop_last()), args.last())
    }
}

/// `acc` with the attributes `attrs` in turn; those that are not helper
/// attributes are left alone. Lexing the literal of a crate path at
/// position `p` of the tokens of attribute `k` has the outcome `lex(k, p)`.
pub open spec fn add_attrs(acc: OptsAcc, attrs: Seq<AttributeV>, lex: spec_fn(int, int) -> LexOutcome) -> OptsAcc
    decreases attrs.len(),
{
    if attrs.len() == 0 {
        acc
    } else {
        let a = add_attrs(acc, attrs.drop_last(), lex);
        let attr = attrs.last();
        let k = attrs.len() - 1;
        if !is_helper_path(attr.path) {
            a
        } else {
            match attr_args(attr.meta, |p: int| lex(k, p)) {
                Ok(args) => add_args(a, args),
                Err(msgs) => with_error(a, msgs),
            }
        }
    }
}

/// What the attributes `attrs` set, where lexing the literal of a crate
/// path at position `p` of the tokens of attribute `k` has the outcome
/// `lex(k, p)`.
pub open spec fn opts_of(attrs: Seq<AttributeV>, lex: spec_fn(int, int) -> LexOutcome) -> OptsAcc {
    add_attrs(OptsAcc { crate_path: None, params: Seq::empty(), failed: false, errors: Seq::empty() }, attrs, lex)
}

/// `add_attrs` reads only the outcomes of the attributes it is given.
pub proof fn lemma_add_attrs_frame(
    acc: OptsAcc,
    attrs: Seq<AttributeV>,
    f: spec_fn(int, int) -> LexOutcome,
    g: spec_fn(int, int) -> LexOutcome,
)
    requires
        forall|k: int, p: int| 0 <= k < attrs.len() ==> #[trigger] f(k, p) == g(k, p),
    ensures
        add_attrs(acc, attrs, f) == add_attrs(acc, attrs, g),
    decreases attrs.len(),
{
    if attrs.len() > 0 {
        lemma_add_attrs_frame(acc, attrs.drop_last(), f, g);
        let k = attrs.len() - 1;
        assert((|p: int| f(k, p)) =~= (|p: int| g(k, p)));
    }
}

/// Every outcome that `lex` gives for the helper attributes among `attrs`,
/// in the order in which their arguments are read, is an outcome of lexing
/// the value of the crate path literal it is read for.
pub open spec fn attrs_fit(attrs: Seq<AttributeV>, lex: spec_fn(int, int) -> LexOutcome) -> bool {
    forall|k: int|
        0 <= k < attrs.len() && is_helper_path(#[trigger] attrs[k].path) && attrs[k].meta is List
            ==> arg_list_fits(attrs[k].meta->List_0, 0, |p: int| lex(k, p))
}

/// Adding an attribute whose arguments are not read keeps `attrs_fit`.
proof fn lemma_attrs_fit_push(attrs: Seq<AttributeV>, attr: AttributeV, lex: spec_fn(int, int) -> LexOutcome)
    requires
        attrs_fit(attrs, lex),
        !(is_helper_path(attr.path) && attr.meta is List),
    ensures
        attrs_fit(attrs.push(attr), lex),
{
    let all = attrs.push(attr);
    assert forall|k: int| 0 <= k < all.len() && is_helper_path(#[trigger] all[k].path) && all[k].meta is List
        implies arg_list_fits(all[k].meta->List_0, 0, |p: int| lex(k, p)) by {
        if k < attrs.len() {
            assert(all[k] == attrs[k]);
        }
    }
}

/// `res` is what reading options from the attributes `attrs` gives, where
/// lexing the literal of a crate path at position `p` of the tokens of
/// attribute `k` has the outcome `lex(k, p)`.
pub open spec fn opts_read(attrs: Seq<AttributeV>, lex: spec_fn(int, int) -> LexOutcome, res: Result<FuncMapOpts, DeriveError>) -> bool {
    let acc = opts_of(attrs, lex);
    &&& res is Ok <==> !acc.failed
    &&& res matches Ok(o) ==> opt_path_v(o.crate_path) == acc.crate_path && params_view(o.params@) == acc.params
    &&& res matches Err(e) ==> e.messages() == acc.errors
}

/// Options for the derive macros, as set by `#[funcmap(...)]` helper
/// attributes.
#[derive(Debug)]
pub struct FuncMapOpts {
    /// Path to the crate that defines the derivable traits, set by
    /// `#[funcmap(crate = "...")]`.
    pub crate_path: Option<TyPath>,
    /// The parameters for which to derive implementations, in order and
    /// each once, set by `#[funcmap(params(...))]`.
    pub params: Vec<Param>,
}


/// Whether two named parameters are the same, spans aside.
fn param_same(a: &Param, b: &Param) -> (same: bool)
    ensures
        same == (a@ == b@),
{
    match (a, b) {
        (Param::Lifetime(x), Param::Lifetime(y)) => x.text == y.text,
        (Param::TypeOrConst(x), Param::TypeOrConst(y)) => x.text == y.text,
        _ => false,
    }
}

/// The span of a named parameter.
fn param_span(p: &Param) -> (s: Span)
    ensures
        s == match *p {
            Param::Lifetime(n) => n.span,
            Param::TypeOrConst(n) => n.span,
        },
{
    match p {
        Param::Lifetime(n) => n.span,
        Param::TypeOrConst(n) => n.span,
    }
}

/// The span of the first segment of a path, or the call site for a path
/// without segments.
fn path_span(p: &TyPath) -> (s: Span)
    ensures
        p.segments@.len() > 0 ==> s == p.segments@[0].ident.span,
{
    if p.segments.len() > 0 {
        p.segments[0].ident.span
    } else {
        crate::ident::call_site()
    }
}

pub open spec fn opt_path_v(p: Option<TyPath>) -> Option<PathV> {
    match p {
        Some(p) => Some(p@),
        None => None,
    }
}

/// The options being gathered from the helper attributes.
struct OptsState {
    crate_path: Option<TyPath>,
    params: Vec<Param>,
    builder: Builder,
}

impl View for OptsState {
    type V = OptsAcc;

    closed spec fn view(&self) -> OptsAcc {
        OptsAcc {
            crate_path: opt_path_v(self.crate_path),
            params: params_view(self.params@),
            failed: self.builder.has_error(),
            errors: self.builder.messages(),
        }
    }
}

impl OptsState {
    fn add_error(&mut self, err: DeriveError)
        ensures
            final(self)@ == with_error(old(self)@, err.messages()),
    {
        self.builder.add_error(err);
    }

    fn add_param(&mut self, p: Param)
        ensures
            final(self)@ == ({
                let a = old(self)@;
                if a.params.contains(p@) {
                    with_error(a, seq!["duplicate parameter"@])
                } else {
                    OptsAcc { params: a.params.push(p@), ..a }
                }
            }),
    {
        let ghost before = self@;
        let mut i: usize = 0;
        #[verifier::loop_isolation(false)]
        while i < self.params.len()
            invariant
                i <= self.params.len(),
                self@ == before,
                forall|j: int| 0 <= j < i ==> before.params[j] != p@,
            decreases self.params.len() - i,
        {
            if param_same(&self.params[i], &p) {
                assert(before.params[i as int] == p@);
                assert(before.params.contains(p@));
                proof {
                    reveal_strlit("duplicate parameter");
                }
                self.add_error(DeriveError::from(new_syn_error(param_span(&p), "duplicate parameter")));
                return;
            }
            i += 1;
        }
        assert(!before.params.contains(p@));
        self.params.push(p);
        assert(params_view(self.params@) =~= before.params.push(p@));
    }

    fn add_params(&mut self, ps: Vec<Param>)
        ensures
            final(self)@ == add_params(old(self)@, params_view(ps@)),
    {
        let ghost acc0 = self@;
        let ghost xs = ps@;
        for p in it: ps
            invariant
                xs == it.seq(),
                self@ == add_params(acc0, params_view(xs.take(it.index() as int))),
        {
            proof {
                let i = it.index() as int;
                assert(params_view(xs.take(i + 1)).drop_last() =~= params_view(xs.take(i)));
                assert(params_view(xs.take(i + 1)).last() == p@);
            }
            self.add_param(p);
        }
        proof {
            assert(xs.take(xs.len() as int) =~= xs);
        }
    }

    fn add_arg(&mut self, arg: Arg)
        ensures
            final(self)@ == add_arg(old(self)@, arg_v(arg)),
    {
        match arg {
            Arg::Crate(p) => {
                if self.crate_path.is_none() {
                    self.crate_path = Some(p);
                } else {
                    proof {
                        reveal_strlit("duplicate crate path");
                    }
                    self.add_error(DeriveError::from(new_syn_error(path_span(&p), "duplicate crate path")));
                }
            },
            Arg::Params(ps) => self.add_params(ps),
        }
    }

    fn add_args(&mut self, args: Vec<Arg>)
        ensures
            final(self)@ == add_args(old(self)@, args@.map_values(|a: Arg| arg_v(a))),
    {
        let ghost acc0 = self@;
        let ghost xs = args@;
        for a in it: args
            invariant
                xs == it.seq(),
                self@ == add_args(acc0, xs.take(it.index() as int).map_values(|a: Arg| arg_v(a))),
        {
            proof {
                let i = it.index() as int;
                assert(xs.take(i + 1).map_values(|a: Arg| arg_v(a)).drop_last() =~= xs.take(i).map_values(|a: Arg| arg_v(a)));
                assert(xs.take(i + 1).map_values(|a: Arg| arg_v(a)).last() == arg_v(a));
            }
            self.add_arg(a);
        }
        proof {
            assert(xs.take(xs.len() as int) =~= xs);
        }
    }
}

impl FuncMapOpts {
    /// Gathers the options set by the helper attributes among `attrs`.
    ///
    /// # Errors
    /// Fails if a helper attribute cannot be parsed, sets the crate path a
    /// second time or names a parameter a second time; the error holds the
    /// messages of all of these, in order.
    pub fn try_from(attrs: Vec<Attr>) -> (res: Result<FuncMapOpts, DeriveError>)
        ensures
            exists|lex: spec_fn(int, int) -> LexOutcome|
                opts_read(attributes_v(attrs@), lex, res) && #[trigger] attrs_fit(attributes_v(attrs@), lex),
    {
        let none: Vec<Param> = Vec::new();
        assert(params_view(none@) =~= Seq::<ParamV>::empty());
        let mut state = OptsState { crate_path: None, params: none, builder: Builder::new() };
        let ghost acc0 = state@;
        assert(acc0 == OptsAcc { crate_path: None, params: Seq::empty(), failed: false, errors: Seq::empty() });
        let ghost xs = attrs@;
        let ghost mut lex: spec_fn(int, int) -> LexOutcome = |k: int, p: int| Err(Seq::<Seq<char>>::empty());
        for attr in it: attrs
            invariant
                xs == it.seq(),
                state@ == add_attrs(acc0, attributes_v(xs.take(it.index() as int)), lex),
                attrs_fit(attributes_v(xs.take(it.index() as int)), lex),
        {
            let ghost i = it.index() as int;
            proof {
                assert(attributes_v(xs.take(i + 1)).drop_last() =~= attributes_v(xs.take(i)));
                assert(attributes_v(xs.take(i + 1)).last() == attribute_v(attr));
            }
            proof {
                if !(is_helper_path(attr.path@) && attribute_v(attr).meta is List) {
                    lemma_attrs_fit_push(attributes_v(xs.take(i)), attribute_v(attr), lex);
                    assert(attributes_v(xs.take(i)).push(attribute_v(attr)) =~= attributes_v(xs.take(i + 1)));
                }
            }
            if is_helper(&attr.path) {
                match attr.meta {
                    AttrMeta::Path { span } => {
                        proof {
                            reveal_strlit("expected attribute arguments in parentheses: #[funcmap(...)]");
                        }
                        state.add_error(DeriveError::from(
                            new_syn_error(span, "expected attribute arguments in parentheses: #[funcmap(...)]"),
                        ));
                    },
                    AttrMeta::NameValue { eq_span } => {
                        proof {
                            reveal_strlit("expected parentheses: #[funcmap(...)]");
                        }
                        state.add_error(DeriveError::from(new_syn_error(eq_span, "expected parentheses: #[funcmap(...)]")));
                    },
                    AttrMeta::List { tokens, close } => {
                        let (r, Ghost(g)) = parse_args(&tokens, close);
                        proof {
                            let lex0 = lex;
                            lex = |k: int, p: int| if k == i { g(p) } else { lex0(k, p) };
                            lemma_add_attrs_frame(acc0, attributes_v(xs.take(i)), lex0, lex);
                            assert((|p: int| lex(i, p)) =~= g);
                            let avs = attributes_v(xs.take(i + 1));
                            assert forall|k: int| 0 <= k < avs.len() && is_helper_path(#[trigger] avs[k].path) && avs[k].meta is List
                                implies arg_list_fits(avs[k].meta->List_0, 0, |p: int| lex(k, p)) by {
                                if k < i {
                                    assert(avs[k] == attributes_v(xs.take(i))[k]);
                                    assert((|p: int| lex(k, p)) =~= (|p: int| lex0(k, p)));
                                } else {
                                    assert(avs[k] == attribute_v(attr));
                                }
                            }
                        }
                        match r {
                            Ok(args) => state.add_args(args),
                            Err(e) => state.add_error(e),
                        }
                    },
                }
            }
        }
        proof {
            assert(xs.take(xs.len() as int) =~= xs);
        }
        let OptsState { crate_path, params, builder } = state;
        let res = builder.err_or(FuncMapOpts { crate_path, params });
        assert(opts_read(attributes_v(attrs@), lex, res));
        assert(attrs_fit(attributes_v(attrs@), lex));
        res
    }
}

/// The message of the error for a helper attribute on an item of the kind
/// `name` that does not take one.
pub open spec fn absent_message(name: Seq<char>) -> Seq<char> {
    "#["@ + ATTR_IDENT@ + "] helper attribute is not supported for "@ + name
}

/// The errors for the helper attributes among `attrs`, one per attribute.
pub open spec fn absent_errors(attrs: Seq<AttributeV>, name: Seq<char>) -> Seq<Seq<char>>
    decreases attrs.len(),
{
    if attrs.len() == 0 {
        Seq::empty()
    } else {
        let rest = absent_errors(attrs.drop_last(), name);
        if is_helper_path(attrs.last().path) {
            rest.push(absent_message(name))
        } else {
            rest
        }
    }
}

/// Asserts that `attrs` holds no `#[funcmap]` helper attribute; `name` is
/// the kind of item that the attributes belong to, such as `"variants"` or
/// `"fields"`.
///
/// # Errors
/// Fails with one message per helper attribute among `attrs`.
pub fn assert_absent(attrs: &Vec<Attr>, name: &str) -> (res: Result<(), DeriveError>)
    ensures
        res is Ok <==> absent_errors(attributes_v(attrs@), name@).len() == 0,
        res matches Err(e) ==> e.messages() == absent_errors(attributes_v(attrs@), name@),
{
    let ghost av = attributes_v(attrs@);
    let mut builder = Builder::new();
    let mut i: usize = 0;
    while i < attrs.len()
        invariant
            i <= attrs.len(),
            av == attributes_v(attrs@),
            builder.messages() == absent_errors(av.take(i as int), name@),
            builder.has_error() == (builder.messages().len() > 0),
        decreases attrs.len() - i,
    {
        proof {
            assert(av.take(i + 1).drop_last() =~= av.take(i as int));
            assert(av.take(i + 1).last() == attribute_v(attrs@[i as int]));
        }
        if is_helper(&attrs[i].path) {
            let mut text = "#[".to_owned();
            text.append(ATTR_IDENT);
            text.append("] helper attribute is not supported for ");
            text.append(name);
            proof {
                reveal_strlit("#[");
                reveal_strlit("] helper attribute is not supported for ");
            }
            let ghost before = builder.messages();
            builder.add_error(DeriveError::from(new_spanned_syn_error(&attrs[i].tokens, text.as_str())));
            assert(builder.messages() =~= before.push(absent_message(name@)));
        }
        i += 1;
    }
    proof {
        assert(av.take(i as int) =~= av);
    }
    builder.err_or(())
}

} // verus!
