//! What holds of every run of pushes: a builder only ever appends, so what
//! it hands out lists the reports in the order in which they were pushed.

use crate::report::{all_located, report_on_each};
use proc_macro2::TokenTree;
use vstd::prelude::*;
use vstd::seq_lib::lemma_flatten_concat;

verus! {

/// What a builder that holds `buffer` holds after each of `errors` was
/// pushed, in their order: a push puts the token trees of one error behind
/// those that are held.
pub open spec fn pushed_all(buffer: Seq<TokenTree>, errors: Seq<Seq<TokenTree>>) -> Seq<TokenTree>
    decreases errors.len(),
{
    if errors.len() == 0 {
        buffer
    } else {
        pushed_all(buffer, errors.drop_last()) + errors.last()
    }
}

/// Pushes keep their order: after any run of pushes a builder holds what it
/// held before, and behind that the token trees of the pushed errors, error
/// by error in the order of the pushes.
pub proof fn lemma_pushes_keep_order(buffer: Seq<TokenTree>, errors: Seq<Seq<TokenTree>>)
    ensures
        pushed_all(buffer, errors) == buffer + errors.flatten(),
    decreases errors.len(),
{
    if errors.len() > 0 {
        lemma_pushes_keep_order(buffer, errors.drop_last());
        errors.drop_last().lemma_flatten_push(errors.last());
        assert(errors.drop_last().push(errors.last()) =~= errors);
    }
}

/// A builder only appends: a later push removes, moves and changes nothing
/// of what was pushed before. Whatever follows the push `i`, the builder
/// holds what it held before that push, then the token trees of the error
/// `i`, then those of the later errors.
pub proof fn lemma_pushed_error_stays(
    buffer: Seq<TokenTree>,
    errors: Seq<Seq<TokenTree>>,
    i: int,
)
    requires
        0 <= i < errors.len(),
    ensures
        pushed_all(buffer, errors) == pushed_all(buffer, errors.take(i)) + errors[i] + errors.skip(
            i + 1,
        ).flatten(),
{
    let earlier = errors.take(i);
    let later = errors.skip(i + 1);
    lemma_pushes_keep_order(buffer, errors);
    lemma_pushes_keep_order(buffer, earlier);
    assert(errors =~= earlier.push(errors[i]) + later);
    lemma_flatten_concat(earlier.push(errors[i]), later);
    earlier.lemma_flatten_push(errors[i]);
}

/// A builder that holds nothing, because it is new or was just built, holds
/// after a run of pushes the pushed errors and nothing else.
pub proof fn lemma_empty_builder_adds_nothing(errors: Seq<Seq<TokenTree>>)
    ensures
        pushed_all(Seq::empty(), errors) == errors.flatten(),
{
    lemma_pushes_keep_order(Seq::empty(), errors);
}

/// Reports keep their order. Let `diagnostics[i]` hold the reports of the
/// pushed diagnostic `i`, one for each of its places in the order of the
/// places, so that the diagnostic itself is these reports one behind the
/// other. Pushed onto a new builder in their order, the diagnostics leave all
/// reports in the order of the pushes, and within one push in the order of
/// its places.
pub proof fn lemma_reports_keep_order(diagnostics: Seq<Seq<Seq<TokenTree>>>)
    ensures
        pushed_all(
            Seq::empty(),
            diagnostics.map_values(|reports: Seq<Seq<TokenTree>>| reports.flatten()),
        ) == diagnostics.flatten().flatten(),
{
    lemma_empty_builder_adds_nothing(
        diagnostics.map_values(|reports: Seq<Seq<TokenTree>>| reports.flatten()),
    );
    lemma_flatten_each_then_all(diagnostics);
}

/// Flattening each of `nested` and then the whole gives what flattening the
/// whole twice gives.
proof fn lemma_flatten_each_then_all(nested: Seq<Seq<Seq<TokenTree>>>)
    ensures
        nested.map_values(|reports: Seq<Seq<TokenTree>>| reports.flatten()).flatten()
            == nested.flatten().flatten(),
    decreases nested.len(),
{
    let each = |reports: Seq<Seq<TokenTree>>| reports.flatten();
    if nested.len() > 0 {
        let front = nested.drop_last();
        lemma_flatten_each_then_all(front);
        assert(nested.map_values(each) =~= front.map_values(each).push(nested.last().flatten()));
        front.map_values(each).lemma_flatten_push(nested.last().flatten());
        assert(front.push(nested.last()) =~= nested);
        front.lemma_flatten_push(nested.last());
        lemma_flatten_concat(front.flatten(), nested.last());
    }
}

/// One diagnostic on several places, pushed once, leaves in a builder what
/// the diagnostics on each single place leave, pushed in the order of the
/// places. Each target holds a token tree, as a place does.
pub proof fn lemma_places_are_pushed_in_turn(
    buffer: Seq<TokenTree>,
    targets: Seq<Seq<TokenTree>>,
    message: Seq<char>,
)
    requires
        all_located(targets),
    ensures
        buffer + report_on_each(targets, message).flatten() == pushed_all(
            buffer,
            report_on_each(targets, message),
        ),
{
    lemma_pushes_keep_order(buffer, report_on_each(targets, message));
}

/// Builders nest. Where the errors `nested` are gathered in a builder of
/// their own, and what it builds is pushed between `before` and `after`, the
/// outer builder holds what it would hold had every one of them been pushed
/// onto it directly: the nested errors keep their order, behind all of
/// `before` and in front of all of `after`.
pub proof fn lemma_nested_build_keeps_order(
    buffer: Seq<TokenTree>,
    before: Seq<Seq<TokenTree>>,
    nested: Seq<Seq<TokenTree>>,
    after: Seq<Seq<TokenTree>>,
)
    ensures
        pushed_all(buffer, before.push(pushed_all(Seq::empty(), nested)) + after) == pushed_all(
            buffer,
            before + nested + after,
        ),
{
    let built = pushed_all(Seq::empty(), nested);
    lemma_empty_builder_adds_nothing(nested);
    lemma_pushes_keep_order(buffer, before.push(built) + after);
    lemma_pushes_keep_order(buffer, before + nested + after);
    lemma_flatten_concat(before.push(built), after);
    before.lemma_flatten_push(built);
    lemma_flatten_concat(before + nested, after);
    lemma_flatten_concat(before, nested);
}

} // verus!
