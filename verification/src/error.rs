//! A diagnostic: a message, reported at one or more places of the source.

use crate::builder::ErrorBuilder;
use crate::report::{
    all_located, report_at, report_on_each, reports_on, reports_on_each, targets_of,
};
use crate::tokens::{
    compile_error_at, compile_error_spanned, compile_error_tokens, compile_errors,
    compile_errors_of, error_messages, stream_tokens,
};
use proc_macro2::{Span, TokenStream, TokenTree};
use syn::Error as SynError;
use vstd::prelude::*;
use vstd::std_specs::convert::FromSpecImpl;

verus! {

/// A diagnostic in the form in which the compiler takes it: the token trees
/// that report its message at each of its places, in the order of the places.
/// What `ErrorBuilder::build` returns is one of these too, with the reports of
/// all that was pushed.
pub struct Error {
    stream: TokenStream,
}

impl View for Error {
    type V = Seq<TokenTree>;

    /// The token trees of the diagnostic.
    closed spec fn view(&self) -> Seq<TokenTree> {
        stream_tokens(self.stream)
    }
}

impl Error {
    /// A diagnostic with `message` at `span`. Any message is taken, the empty
    /// one too.
    pub fn new(span: Span, message: &str) -> (error: Error)
        ensures
            error@ == report_at(span, message@),
            error@.len() > 0,
    {
        Error::from(compile_error_at(span, message))
    }

    /// A diagnostic with `message` on `tokens`: it ranges from the first token
    /// tree to the last.
    pub fn new_spanned(tokens: &TokenStream, message: &str) -> (error: Error)
        ensures
            reports_on(error@, stream_tokens(*tokens), message@),
    {
        let stream = compile_error_spanned(tokens, message);
        proof {
            if stream_tokens(*tokens).len() == 0 {
                let site = choose|site: Span|
                    stream_tokens(stream) == compile_error_tokens(site, site, message@);
                assert(stream_tokens(stream) == report_at(site, message@));
            }
        }
        Error::from(stream)
    }

    /// A diagnostic with `message` on each of `tokens`, in their order. It
    /// needs a place: `tokens` is not empty.
    pub fn new_from_spans(tokens: Vec<TokenStream>, message: &str) -> (error: Error)
        requires
            tokens@.len() > 0,
        ensures
            error@.len() > 0,
            exists|reports: Seq<Seq<TokenTree>>|
                #[trigger] reports_on_each(reports, targets_of(tokens@), message@) && error@
                    == reports.flatten(),
            all_located(targets_of(tokens@)) ==> error@ == report_on_each(
                targets_of(tokens@),
                message@,
            ).flatten(),
    {
        let mut builder = Error::builder();
        builder.with_spans(tokens, message);
        builder.build()
    }

    /// `Err` of the diagnostic with `message` at `span`.
    pub fn err<R>(span: Span, message: &str) -> (result: Result<R, Error>)
        ensures
            result matches Err(error) && error@ == report_at(span, message@) && error@.len() > 0,
    {
        Err(Error::new(span, message))
    }

    /// `Err` of the diagnostic with `message` on `tokens`.
    pub fn err_spanned<R>(tokens: &TokenStream, message: &str) -> (result: Result<R, Error>)
        ensures
            result matches Err(error) && reports_on(error@, stream_tokens(*tokens), message@),
    {
        Err(Error::new_spanned(tokens, message))
    }

    /// `Err` of the diagnostic with `message` on each of `tokens`.
    pub fn err_from_spans<R>(tokens: Vec<TokenStream>, message: &str) -> (result: Result<R, Error>)
        requires
            tokens@.len() > 0,
        ensures
            result matches Err(error) && error@.len() > 0 && exists|reports: Seq<Seq<TokenTree>>|
                #[trigger] reports_on_each(reports, targets_of(tokens@), message@) && error@
                    == reports.flatten(),
            result matches Err(error) && (all_located(targets_of(tokens@)) ==> error@
                == report_on_each(targets_of(tokens@), message@).flatten()),
    {
        Err(Error::new_from_spans(tokens, message))
    }

    /// A builder that holds no diagnostic yet.
    pub fn builder() -> (builder: ErrorBuilder)
        ensures
            builder@ == Seq::<TokenTree>::empty(),
            builder.is_empty(),
    {
        ErrorBuilder::new()
    }
}

/// Takes over token trees that already are a diagnostic.
impl From<TokenStream> for Error {
    fn from(stream: TokenStream) -> (error: Error)
        ensures
            error@ == stream_tokens(stream),
    {
        Error { stream }
    }
}

impl FromSpecImpl<TokenStream> for Error {
    open spec fn obeys_from_spec() -> bool {
        true
    }

    closed spec fn from_spec(stream: TokenStream) -> Error {
        Error { stream }
    }
}

/// Hands the diagnostic out as the token trees that report it.
impl From<Error> for TokenStream {
    fn from(error: Error) -> (stream: TokenStream)
        ensures
            stream_tokens(stream) == error@,
    {
        error.stream
    }
}

impl FromSpecImpl<Error> for TokenStream {
    open spec fn obeys_from_spec() -> bool {
        true
    }

    closed spec fn from_spec(error: Error) -> TokenStream {
        error.stream
    }
}

/// Takes over an error of `syn`: its messages, in their order, each reported
/// on some span range. On the thread that made the error the span ranges are
/// the ones it was made with.
impl From<SynError> for Error {
    fn from(error: SynError) -> (taken: Error)
        ensures
            taken@.len() > 0,
            exists|range_of: spec_fn(int) -> (Span, Span)|
                taken@ == #[trigger] compile_errors(range_of, error_messages(error)),
    {
        Error::from(compile_errors_of(&error))
    }
}

/// No function of the error gives what `from` returns: the span ranges are
/// those of the error only on the thread that made it.
impl FromSpecImpl<SynError> for Error {
    open spec fn obeys_from_spec() -> bool {
        false
    }

    closed spec fn from_spec(error: SynError) -> Error {
        arbitrary()
    }
}

} // verus!
