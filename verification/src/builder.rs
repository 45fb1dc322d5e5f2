//! The builder that gathers diagnostics in the order in which they are found.

use crate::error::Error;
use crate::report::{
    all_located, lemma_located_reports, report_at, report_on, report_on_each, reports_on,
    reports_on_each, targets_of,
};
use crate::tokens::{extend_stream, stream_tokens};
use proc_macro2::{Span, TokenStream, TokenTree};
use vstd::prelude::*;

verus! {

/// Gathers diagnostics during one pass over the source. It holds the token
/// trees of all that was pushed since it was made or last built, in the
/// order of the pushes.
pub struct ErrorBuilder {
    stream: TokenStream,
}

impl View for ErrorBuilder {
    type V = Seq<TokenTree>;

    /// The token trees that the builder holds.
    closed spec fn view(&self) -> Seq<TokenTree> {
        stream_tokens(self.stream)
    }
}

impl ErrorBuilder {
    /// Whether the builder holds no token tree. A builder is in one of two
    /// states, empty or not, and this tells them apart.
    pub open spec fn spec_is_empty(&self) -> bool {
        self@.len() == 0
    }

    /// A builder that holds nothing. `Error::builder` is the way to it from
    /// outside.
    pub(crate) fn new() -> (builder: ErrorBuilder)
        ensures
            builder@ == Seq::<TokenTree>::empty(),
            builder.is_empty(),
    {
        ErrorBuilder { stream: TokenStream::new() }
    }

    /// Pushes the diagnostic with `message` at `span`.
    pub fn with(&mut self, span: Span, message: &str) -> (builder: &mut Self)
        ensures
            builder@ == old(self)@ + report_at(span, message@),
            !builder.is_empty(),
            *final(self) == *final(builder),
    {
        self.with_error(Error::new(span, message))
    }

    /// Pushes the diagnostic with `message` on `tokens`.
    pub fn with_spanned(&mut self, tokens: &TokenStream, message: &str) -> (builder: &mut Self)
        ensures
            exists|report: Seq<TokenTree>|
                #[trigger] reports_on(report, stream_tokens(*tokens), message@) && builder@ == old(
                    self,
                )@ + report,
            stream_tokens(*tokens).len() > 0 ==> builder@ == old(self)@ + report_on(
                stream_tokens(*tokens),
                message@,
            ),
            !builder.is_empty(),
            *final(self) == *final(builder),
    {
        self.with_error(Error::new_spanned(tokens, message))
    }

    /// Pushes the diagnostic with `message` on each of `tokens`, in their
    /// order. The diagnostic needs a place: `tokens` is not empty.
    pub fn with_spans(&mut self, tokens: Vec<TokenStream>, message: &str) -> (builder: &mut Self)
        requires
            tokens@.len() > 0,
        ensures
            exists|reports: Seq<Seq<TokenTree>>|
                #[trigger] reports_on_each(reports, targets_of(tokens@), message@) && builder@
                    == old(self)@ + reports.flatten(),
            all_located(targets_of(tokens@)) ==> builder@ == old(self)@ + report_on_each(
                targets_of(tokens@),
                message@,
            ).flatten(),
            !builder.is_empty(),
            *final(self) == *final(builder),
    {
        let ghost mut reports = Seq::<Seq<TokenTree>>::empty();
        let mut i: usize = 0;
        while i < tokens.len()
            invariant
                i <= tokens.len(),
                reports_on_each(reports, targets_of(tokens@).take(i as int), message@),
                self@ == old(self)@ + reports.flatten(),
                i > 0 ==> !self.is_empty(),
            decreases tokens.len() - i,
        {
            let ghost held = self@;
            self.with_spanned(&tokens[i], message);
            proof {
                let report = choose|report: Seq<TokenTree>|
                    #[trigger] reports_on(report, stream_tokens(tokens@[i as int]), message@)
                        && self@ == held + report;
                reports.lemma_flatten_push(report);
                reports = reports.push(report);
            }
            i += 1;
        }
        proof {
            if all_located(targets_of(tokens@)) {
                lemma_located_reports(reports, targets_of(tokens@), message@);
            }
        }
        self
    }

    /// Pushes `error`: its token trees come behind those that the builder
    /// holds, in their order. The builder is empty afterwards only where it
    /// was empty and `error` holds no token tree.
    pub fn with_error(&mut self, error: Error) -> (builder: &mut Self)
        ensures
            builder@ == old(self)@ + error@,
            builder.is_empty() <==> old(self).is_empty() && error@.len() == 0,
            *final(self) == *final(builder),
    {
        extend_stream(&mut self.stream, TokenStream::from(error));
        self
    }

    /// Pushes `error`, as `with_error` does.
    pub fn push(&mut self, error: Error)
        ensures
            final(self)@ == old(self)@ + error@,
            final(self).is_empty() <==> old(self).is_empty() && error@.len() == 0,
    {
        self.with_error(error);
    }

    /// Whether the builder holds nothing: nothing was pushed since it was
    /// made or last built, or only diagnostics without token trees.
    #[verifier::when_used_as_spec(spec_is_empty)]
    pub fn is_empty(&self) -> (empty: bool)
        ensures
            empty == self.spec_is_empty(),
    {
        self.stream.is_empty()
    }

    /// Hands out all that the builder holds as one diagnostic, and leaves the
    /// builder as a new one.
    pub fn build(&mut self) -> (error: Error)
        ensures
            error@ == old(self)@,
            final(self)@ == Seq::<TokenTree>::empty(),
            final(self).is_empty(),
    {
        let mut taken = TokenStream::new();
        std::mem::swap(&mut self.stream, &mut taken);
        Error::from(taken)
    }

    /// `Err` of what `build` hands out, whatever the builder holds.
    pub fn build_err<R>(&mut self) -> (result: Result<R, Error>)
        ensures
            result matches Err(error) && error@ == old(self)@,
            final(self)@ == Seq::<TokenTree>::empty(),
            final(self).is_empty(),
    {
        Err(self.build())
    }

    /// `Ok` where the builder holds nothing, and the builder is not touched.
    /// `Err` of what `build` hands out where it holds something.
    pub fn ok_or_build(&mut self) -> (result: Result<(), Error>)
        ensures
            old(self).is_empty() ==> result is Ok && *final(self) == *old(self),
            !old(self).is_empty() ==> (result matches Err(error) && error@ == old(self)@),
            final(self)@ == Seq::<TokenTree>::empty(),
            final(self).is_empty(),
    {
        if self.is_empty() {
            Ok(())
        } else {
            self.build_err()
        }
    }
}

} // verus!
