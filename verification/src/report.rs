//! What it means for token trees to report a message at a place of the
//! source. The contracts of the crate are written in these terms.

use crate::tokens::{compile_error_tokens, stream_tokens, token_span};
use proc_macro2::{Span, TokenStream, TokenTree};
use vstd::prelude::*;

verus! {

/// The report of `message` at `span`.
pub open spec fn report_at(span: Span, message: Seq<char>) -> Seq<TokenTree> {
    compile_error_tokens(span, span, message)
}

/// The report of `message` on `target`, which holds at least one token tree:
/// it ranges from the span of the first token tree to the span of the last.
pub open spec fn report_on(target: Seq<TokenTree>, message: Seq<char>) -> Seq<TokenTree>
    recommends
        target.len() > 0,
{
    compile_error_tokens(token_span(target.first()), token_span(target.last()), message)
}

/// Whether `rendered` reports `message` on `target`. A target that holds a
/// token tree has one report. An empty one has no place of its own: the
/// message is then reported at a single span, and which one is not known
/// before the report is made.
pub open spec fn reports_on(
    rendered: Seq<TokenTree>,
    target: Seq<TokenTree>,
    message: Seq<char>,
) -> bool {
    &&& rendered.len() > 0
    &&& if target.len() > 0 {
        rendered == report_on(target, message)
    } else {
        exists|site: Span| rendered == #[trigger] report_at(site, message)
    }
}

/// Whether `reports` holds one report of `message` for each of `targets`, the
/// report `i` on the target `i`.
pub open spec fn reports_on_each(
    reports: Seq<Seq<TokenTree>>,
    targets: Seq<Seq<TokenTree>>,
    message: Seq<char>,
) -> bool {
    &&& reports.len() == targets.len()
    &&& forall|i: int|
        0 <= i < reports.len() ==> reports_on(#[trigger] reports[i], targets[i], message)
}

/// The token trees of each of `streams`.
pub open spec fn targets_of(streams: Seq<TokenStream>) -> Seq<Seq<TokenTree>> {
    streams.map_values(|stream: TokenStream| stream_tokens(stream))
}

/// Whether each of `targets` holds a token tree, and so names a place.
pub open spec fn all_located(targets: Seq<Seq<TokenTree>>) -> bool {
    forall|i: int| 0 <= i < targets.len() ==> (#[trigger] targets[i]).len() > 0
}

/// The reports of `message` on each of `targets`, which all hold a token
/// tree: the report `i` is the one on the target `i`.
pub open spec fn report_on_each(targets: Seq<Seq<TokenTree>>, message: Seq<char>) -> Seq<
    Seq<TokenTree>,
>
    recommends
        all_located(targets),
{
    targets.map_values(|target: Seq<TokenTree>| report_on(target, message))
}

/// Reports on targets that all name a place are determined by the targets and
/// the message.
pub proof fn lemma_located_reports(
    reports: Seq<Seq<TokenTree>>,
    targets: Seq<Seq<TokenTree>>,
    message: Seq<char>,
)
    requires
        all_located(targets),
        reports_on_each(reports, targets, message),
    ensures
        reports == report_on_each(targets, message),
{
    assert(reports =~= report_on_each(targets, message));
}

} // verus!
