//! The token types of `proc_macro2` and `syn` that diagnostics are made of,
//! and the calls into the two crates.
//!
//! Nothing in this file is proved. Each contract states what the outside code
//! does, and the rest of the crate is verified against these statements.
//!
//! `proc_macro2` holds tokens either inside the compiler or by itself, and
//! chooses once for a process which of the two. Where tokens of both kinds
//! meet it panics, and only its hidden `fallback::force` and
//! `fallback::unforce` bring that about. The contracts are those of a process
//! that does not switch, and of tokens that are used during the macro call
//! that they belong to.

use proc_macro2::{Span, TokenStream, TokenTree};
use syn::Error as SynError;
use vstd::prelude::*;

verus! {

/// `proc_macro2::TokenStream`: a sequence of token trees.
#[verifier::external_type_specification]
#[verifier::external_body]
pub struct ExTokenStream(proc_macro2::TokenStream);

/// `proc_macro2::TokenTree`: one token, or one delimited group of tokens.
#[verifier::external_type_specification]
#[verifier::external_body]
pub struct ExTokenTree(proc_macro2::TokenTree);

/// `proc_macro2::Span`: a region of the source that is being transformed.
#[verifier::external_type_specification]
#[verifier::external_body]
pub struct ExSpan(proc_macro2::Span);

/// `syn::Error`: one or more messages, each with the span range it is about.
#[verifier::external_type_specification]
#[verifier::external_body]
pub struct ExSynError(SynError);

/// The token trees that `stream` holds, in the order in which iterating over
/// the stream yields them.
pub uninterp spec fn stream_tokens(stream: TokenStream) -> Seq<TokenTree>;

/// The span of `token`, as `TokenTree::span` returns it.
pub uninterp spec fn token_span(token: TokenTree) -> Span;

/// The token trees that `syn` writes for one message of an error: the
/// invocation `::core::compile_error!{ "message" }`, its path and `!` at the
/// span `start`, its braces and the string in them at the span `end`.
pub uninterp spec fn compile_error_tokens(start: Span, end: Span, message: Seq<char>) -> Seq<
    TokenTree,
>;

/// The messages that `error` holds, in the order in which they were put
/// together.
pub uninterp spec fn error_messages(error: SynError) -> Seq<Seq<char>>;

/// What rendering `messages` in turn gives, the message `i` on the span range
/// `range_of(i)`: the invocations of `compile_error!`, one behind the other.
pub open spec fn compile_errors(
    range_of: spec_fn(int) -> (Span, Span),
    messages: Seq<Seq<char>>,
) -> Seq<TokenTree>
    decreases messages.len(),
{
    if messages.len() == 0 {
        Seq::empty()
    } else {
        let last = messages.len() - 1;
        compile_errors(range_of, messages.drop_last()) + compile_error_tokens(
            range_of(last).0,
            range_of(last).1,
            messages[last],
        )
    }
}

/// `TokenStream::new` returns a stream without token trees.
pub assume_specification[ proc_macro2::TokenStream::new ]() -> (stream: TokenStream)
    ensures
        stream_tokens(stream) == Seq::<TokenTree>::empty(),
;

/// `TokenStream::is_empty` tells whether the stream holds no token tree.
pub assume_specification[ proc_macro2::TokenStream::is_empty ](stream: &TokenStream) -> (empty: bool)
    ensures
        empty == (stream_tokens(*stream).len() == 0),
;

/// `TokenStream::extend`, handed a second stream: the token trees of `more`
/// are appended, in their order, behind those that `stream` holds.
#[verifier::external_body]
pub(crate) fn extend_stream(stream: &mut TokenStream, more: TokenStream)
    ensures
        stream_tokens(*final(stream)) == stream_tokens(*old(stream)) + stream_tokens(more),
{
    stream.extend(more);
}

/// `syn::Error::new` with `span` and `message`, rendered at once by
/// `syn::Error::to_compile_error`: one invocation of `compile_error!`, all of
/// it at `span`.
///
/// The two calls stand together because a `syn::Error` gives its spans only
/// to the thread that made it: rendered here, it is rendered on that thread.
#[verifier::external_body]
pub(crate) fn compile_error_at(span: Span, message: &str) -> (stream: TokenStream)
    ensures
        stream_tokens(stream) == compile_error_tokens(span, span, message@),
        stream_tokens(stream).len() > 0,
{
    SynError::new(span, message).to_compile_error()
}

/// `syn::Error::new_spanned` with `tokens` and `message`, rendered at once by
/// `syn::Error::to_compile_error`: one invocation of `compile_error!`, on the
/// span range from the first token tree of `tokens` to the last. Where
/// `tokens` holds none, `syn` reports at `Span::call_site()`, which is the
/// macro call that is being expanded: all that is known of it here is that it
/// is one span.
#[verifier::external_body]
pub(crate) fn compile_error_spanned(tokens: &TokenStream, message: &str) -> (stream: TokenStream)
    ensures
        stream_tokens(stream).len() > 0,
        stream_tokens(*tokens).len() > 0 ==> stream_tokens(stream) == compile_error_tokens(
            token_span(stream_tokens(*tokens).first()),
            token_span(stream_tokens(*tokens).last()),
            message@,
        ),
        stream_tokens(*tokens).len() == 0 ==> exists|site: Span|
            stream_tokens(stream) == compile_error_tokens(site, site, message@),
{
    SynError::new_spanned(tokens, message).to_compile_error()
}

/// `syn::Error::to_compile_error` on an error that was made elsewhere: one
/// invocation of `compile_error!` for each message, in the order of the
/// messages. On the thread that made `error` each message is rendered on the
/// span range it was given, on any other thread at `Span::call_site()`, so
/// the contract says only that each has some span range.
#[verifier::external_body]
pub(crate) fn compile_errors_of(error: &SynError) -> (stream: TokenStream)
    ensures
        stream_tokens(stream).len() > 0,
        exists|range_of: spec_fn(int) -> (Span, Span)|
            stream_tokens(stream) == #[trigger] compile_errors(range_of, error_messages(*error)),
{
    error.to_compile_error()
}

} // verus!
