use crate::counting::occurrences;
use crate::model::PatternModel;
use crate::patterns::PatternError;
use crate::resumes::{lemma_digits_accumulate, lemma_scan_knows_annotation};
use crate::syntax::{
    compile, inside_annotation, is_digit, is_reserved, lemma_prefix_is_accepted,
    lemma_scan_error_persists, scan, step,
};
use crate::tokens::lemma_scan_counts_tokens;
use vstd::prelude::*;

verus! {

/// The first rule that a character breaks is the one that compiling
/// reports, whatever follows that character.
pub proof fn law_first_broken_rule_is_reported(text: Seq<char>, at: nat)
    requires
        at < text.len(),
        scan(text, at) is Ok,
        step(scan(text, at)->Ok_0, at, text[at as int]) is Err,
    ensures
        compile(text) == Err::<PatternModel, PatternError>(
            step(scan(text, at)->Ok_0, at, text[at as int])->Err_0,
        ),
{
    assert(scan(text, at + 1) == step(scan(text, at)->Ok_0, at, text[at as int]));
    lemma_scan_error_persists(text, at + 1, text.len());
}

/// Two tokens that may not stand side by side: where the text up to and
/// including the first of them breaks no rule, the second one is refused.
/// A `'#'` behind a `'#'`, a `'#'` behind a `'*'` and a `'*'` behind a `'*'`
/// each have their own error.
pub proof fn law_adjacent_tokens_are_refused(text: Seq<char>, at: nat)
    requires
        at + 1 < text.len(),
        scan(text, at + 1) is Ok,
    ensures
        text[at as int] == '#' && text[at as int + 1] == '#' ==> compile(text) == Err::<
            PatternModel,
            PatternError,
        >(PatternError::CaptureImmediatelyAfterCaptureNotAllowed),
        text[at as int] == '*' && text[at as int + 1] == '#' ==> compile(text) == Err::<
            PatternModel,
            PatternError,
        >(PatternError::CaptureImmediatelyAfterWildcardNotAllowed),
        text[at as int] == '*' && text[at as int + 1] == '*' ==> compile(text) == Err::<
            PatternModel,
            PatternError,
        >(PatternError::WildcardImmediatelyAfterWildcardNotAllowed),
{
    let before = scan(text, at)->Ok_0;
    let between = scan(text, at + 1)->Ok_0;
    assert(scan(text, at + 1) == step(before, at, text[at as int]));
    if text[at as int + 1] == '#' && (text[at as int] == '#' || text[at as int] == '*') {
        law_first_broken_rule_is_reported(text, at + 1);
    }
    if text[at as int + 1] == '*' && text[at as int] == '*' {
        law_first_broken_rule_is_reported(text, at + 1);
    }
}

/// A second `'#'` that does not stand next to the first token: behind a
/// character that is not reserved, outside of a skip annotation, a `'#'` is
/// refused where the text before it holds one already.
pub proof fn law_second_capture_is_refused(text: Seq<char>, at: nat)
    requires
        1 <= at < text.len(),
        scan(text, at) is Ok,
        text[at as int] == '#',
        !is_reserved(text[at - 1]),
        !inside_annotation(text, (at - 1) as nat),
        occurrences(text, '#', 0, at) >= 1,
    ensures
        compile(text) == Err::<PatternModel, PatternError>(
            PatternError::CaptureAfterCaptureNotAllowed,
        ),
{
    let before = (at - 1) as nat;
    lemma_prefix_is_accepted(text, before, at);
    lemma_scan_knows_annotation(text, before);
    lemma_scan_counts_tokens(text, at);
    assert(scan(text, at) == step(scan(text, before)->Ok_0, before, text[before as int]));
    law_first_broken_rule_is_reported(text, at);
}

/// A `'<'` without a capture before it: at the start of the text, behind a
/// `'*'`, or behind a character that is not reserved, outside of a skip
/// annotation, a `'<'` is refused.
pub proof fn law_skip_needs_a_capture(text: Seq<char>, at: nat)
    requires
        at < text.len(),
        scan(text, at) is Ok,
        text[at as int] == '<',
        at == 0 || text[at - 1] == '*' || (!is_reserved(text[at - 1]) && !inside_annotation(
            text,
            (at - 1) as nat,
        )),
    ensures
        compile(text) == Err::<PatternModel, PatternError>(
            PatternError::SkipAfterNonCaptureNotAllowed,
        ),
{
    if at > 0 {
        let before = (at - 1) as nat;
        lemma_prefix_is_accepted(text, before, at);
        lemma_scan_knows_annotation(text, before);
        assert(scan(text, at) == step(scan(text, before)->Ok_0, before, text[before as int]));
    }
    law_first_broken_rule_is_reported(text, at);
}

/// Inside a skip annotation, a character that is neither reserved nor a
/// decimal digit is refused.
pub proof fn law_skip_holds_digits_only(text: Seq<char>, at: nat)
    requires
        at < text.len(),
        scan(text, at) is Ok,
        inside_annotation(text, at),
        !is_reserved(text[at as int]),
        !is_digit(text[at as int]),
    ensures
        compile(text) == Err::<PatternModel, PatternError>(
            PatternError::NonNumericCharacterInSkip,
        ),
{
    lemma_scan_knows_annotation(text, at);
    law_first_broken_rule_is_reported(text, at);
}

/// Reading `'>'` leaves a skip marker the previous token.
proof fn lemma_closing_keeps_skip_behind(text: Seq<char>, close: nat, n: nat)
    requires
        close <= n <= text.len(),
        scan(text, n) is Ok,
        scan(text, close)->Ok_0.after_skip,
        forall|j: int| close <= j < n ==> #[trigger] text[j] == '>',
    ensures
        scan(text, n)->Ok_0.after_skip,
    decreases n,
{
    lemma_prefix_is_accepted(text, close, n);
    if close < n {
        lemma_prefix_is_accepted(text, (n - 1) as nat, n);
        lemma_closing_keeps_skip_behind(text, close, (n - 1) as nat);
        assert(text[n - 1] == '>');
    }
}

/// A text that ends in a skip annotation, closed or not, is refused: behind
/// the `'<'` at `opening` it holds digits up to `close`, and from there on
/// nothing but `'>'`.
pub proof fn law_trailing_skip_is_refused(text: Seq<char>, opening: nat, close: nat)
    requires
        scan(text, text.len()) is Ok,
        opening < close <= text.len(),
        text[opening as int] == '<',
        forall|j: int| opening < j < close ==> is_digit(#[trigger] text[j]),
        forall|j: int| close <= j < text.len() ==> #[trigger] text[j] == '>',
    ensures
        compile(text) == Err::<PatternModel, PatternError>(PatternError::TrailingSkipNotAllowed),
{
    lemma_prefix_is_accepted(text, close, text.len());
    lemma_digits_accumulate(text, opening, close);
    lemma_closing_keeps_skip_behind(text, close, text.len());
}

} // verus!
