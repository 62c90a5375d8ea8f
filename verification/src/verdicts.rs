use crate::counting::{
    law_nth_occurrence_counts, lemma_occurrences_grow, lemma_occurrences_none,
    lemma_occurrences_split, occurrences,
};
use crate::matching::{
    lemma_round_moves_on, nth_occurrence, round, run_match, scan_from, start, Cursor, Progress,
    Verdict,
};
use crate::model::PatternModel;
use crate::patterns::PatternMatchError;
use crate::resumes::law_open_wildcard_is_the_last_token;
use crate::syntax::compile;
use crate::tokens::{
    counts_its_tokens, law_compiled_pattern_counts_its_tokens, law_compiled_tokens_stand_in_text,
};
use vstd::prelude::*;

verus! {

/// What the capture offsets of a result say: a start lies inside the
/// candidate and is reported only for a pattern with a capture; an end is
/// reported only with a start and for a capture that does not run to the
/// candidate's end, lies behind the start, holds the capture's resume
/// character, and has exactly `skip` such characters between the start and
/// itself.
pub open spec fn capture_marks(
    p: PatternModel,
    tag: Seq<char>,
    capture_start: Option<nat>,
    capture_end: Option<nat>,
) -> bool {
    &&& capture_start matches Some(s) ==> p.capture is Some && s < tag.len()
    &&& capture_end matches Some(e) ==> {
        &&& capture_start matches Some(s)
        &&& p.capture matches Some(c)
        &&& c.resume != '#'
        &&& s < e < tag.len()
        &&& tag[e as int] == c.resume
        &&& occurrences(tag, c.resume, s + 1, e) == c.skip
    }
}

/// Whether `cur` can be met by a scan over a pattern that counts its tokens:
/// both cursors stand inside their texts, no more wildcards are used than
/// `'*'` were passed, a capture start is held only behind the `'#'`, and the
/// capture offsets say what `capture_marks` states.
spec fn on_track(p: PatternModel, tag: Seq<char>, cur: Cursor) -> bool {
    &&& cur.pattern_at < p.text.len()
    &&& cur.tag_at < tag.len()
    &&& cur.wildcard <= occurrences(p.text, '*', 0, cur.pattern_at)
    &&& cur.capture_start is Some ==> occurrences(p.text, '#', 0, cur.pattern_at) >= 1
    &&& capture_marks(p, tag, cur.capture_start, cur.capture_end)
}

/// Whether a scan ended with sound capture offsets or, if with an error,
/// with `UnexpectedWildcardResume`.
spec fn ends_well(p: PatternModel, tag: Seq<char>, r: Result<Verdict, PatternMatchError>) -> bool {
    match r {
        Ok(v) => capture_marks(p, tag, v.capture_start, v.capture_end),
        Err(e) => e == PatternMatchError::UnexpectedWildcardResume,
    }
}

/// Whether the round at `cur` leads to a cursor that is on track, or ends
/// well.
spec fn stays_on_track(p: PatternModel, tag: Seq<char>, cur: Cursor) -> bool {
    match round(p, tag, cur) {
        Progress::Continue(next) => on_track(p, tag, next),
        Progress::Done(v) => capture_marks(p, tag, v.capture_start, v.capture_end),
        Progress::Failed(e) => e == PatternMatchError::UnexpectedWildcardResume,
    }
}

/// A round at a `'*'` stays on track.
proof fn lemma_wildcard_stays_on_track(p: PatternModel, tag: Seq<char>, cur: Cursor)
    requires
        counts_its_tokens(p),
        on_track(p, tag, cur),
        p.text[cur.pattern_at as int] == '*',
    ensures
        stays_on_track(p, tag, cur),
{
    let at = cur.pattern_at;
    lemma_occurrences_grow(p.text, '*', 0, at + 1, p.text.len());
    assert(cur.wildcard < p.wildcards.len());
    let resume = p.wildcards[cur.wildcard as int].resume;
    law_nth_occurrence_counts(tag, cur.tag_at, resume, 0);
    if at + 2 <= p.text.len() {
        lemma_occurrences_grow(p.text, '*', 0, at + 1, at + 2);
        lemma_occurrences_grow(p.text, '#', 0, at, at + 2);
    }
}

/// A round at a `'#'` stays on track.
proof fn lemma_capture_stays_on_track(p: PatternModel, tag: Seq<char>, cur: Cursor)
    requires
        counts_its_tokens(p),
        on_track(p, tag, cur),
        p.text[cur.pattern_at as int] == '#',
    ensures
        stays_on_track(p, tag, cur),
{
    let at = cur.pattern_at;
    lemma_occurrences_grow(p.text, '#', 0, at + 1, p.text.len());
    assert(p.capture is Some);
    assert(cur.capture_start is None);
    let capture = p.capture->0;
    if capture.resume != '#' {
        law_nth_occurrence_counts(tag, cur.tag_at + 1, capture.resume, capture.skip);
        law_nth_occurrence_counts(p.text, at + 1, capture.resume, 0);
        match nth_occurrence(p.text, at + 1, capture.resume, 0) {
            Some(resumed) => {
                lemma_occurrences_grow(p.text, '#', 0, at + 1, resumed + 1);
                lemma_occurrences_grow(p.text, '*', 0, at, resumed + 1);
            },
            None => {},
        }
    }
}

/// Every round stays on track.
proof fn lemma_round_stays_on_track(p: PatternModel, tag: Seq<char>, cur: Cursor)
    requires
        counts_its_tokens(p),
        on_track(p, tag, cur),
    ensures
        stays_on_track(p, tag, cur),
{
    let at = cur.pattern_at;
    let symbol = p.text[at as int];
    if symbol == '*' {
        lemma_wildcard_stays_on_track(p, tag, cur);
    } else if symbol == '#' {
        lemma_capture_stays_on_track(p, tag, cur);
    } else {
        lemma_occurrences_grow(p.text, '*', 0, at, at + 1);
        lemma_occurrences_grow(p.text, '#', 0, at, at + 1);
    }
}

/// A scan that is on track ends well.
proof fn lemma_scan_ends_well(p: PatternModel, tag: Seq<char>, cur: Cursor)
    requires
        counts_its_tokens(p),
        on_track(p, tag, cur),
    ensures
        ends_well(p, tag, scan_from(p, tag, cur)),
    decreases p.text.len() - cur.pattern_at,
{
    lemma_round_stays_on_track(p, tag, cur);
    lemma_round_moves_on(p, tag, cur);
    match round(p, tag, cur) {
        Progress::Continue(next) => {
            lemma_scan_ends_well(p, tag, next);
        },
        _ => {},
    }
}

/// Matching against a pattern that counts its tokens, as every compiled
/// pattern does, never finds a `'*'` without its wildcard or a `'#'` without
/// its capture: of the three errors that tell of a pattern whose text and
/// fields disagree, only `UnexpectedWildcardResume` is left.
pub proof fn law_counted_tokens_are_found(p: PatternModel, tag: Seq<char>)
    requires
        counts_its_tokens(p),
    ensures
        run_match(p, tag) matches Err(e) ==> e == PatternMatchError::EmptyPatternNotAllowed || e
            == PatternMatchError::EmptyTagNotAllowed || e
            == PatternMatchError::UnexpectedWildcardResume,
{
    if p.text.len() > 0 && tag.len() > 0 {
        lemma_scan_ends_well(p, tag, start());
    }
}

/// A result of matching against a pattern that counts its tokens, as every
/// compiled pattern does, echoes the pattern text and the candidate, and its
/// capture offsets say what `capture_marks` states: the captured span is
/// followed by the resume character and holds exactly `skip` of them behind
/// its first character.
pub proof fn law_match_reports_the_capture(p: PatternModel, tag: Seq<char>)
    requires
        counts_its_tokens(p),
    ensures
        run_match(p, tag) matches Ok(m) ==> m.pattern == p.text && m.tag == tag && capture_marks(
            p,
            tag,
            m.capture_start,
            m.capture_end,
        ),
{
    if p.text.len() > 0 && tag.len() > 0 {
        lemma_scan_ends_well(p, tag, start());
    }
}

/// Whether a scan that holds no capture start has passed no `'#'`.
spec fn unseen(p: PatternModel, cur: Cursor) -> bool {
    cur.capture_start is None ==> occurrences(p.text, '#', 0, cur.pattern_at) == 0
}

/// A round of a scan over a compiled pattern passes a `'#'` only by taking
/// the capture start; where it ends with a match and without one, the
/// pattern has no capture.
proof fn lemma_round_keeps_unseen(text: Seq<char>, tag: Seq<char>, cur: Cursor)
    requires
        compile(text) is Ok,
        on_track(compile(text)->Ok_0, tag, cur),
        unseen(compile(text)->Ok_0, cur),
    ensures
        match round(compile(text)->Ok_0, tag, cur) {
            Progress::Continue(next) => unseen(compile(text)->Ok_0, next),
            Progress::Done(v) => v.matches && v.capture_start is None ==> compile(
                text,
            )->Ok_0.capture is None,
            Progress::Failed(_) => true,
        },
{
    let p = compile(text)->Ok_0;
    let at = cur.pattern_at;
    let symbol = text[at as int];
    law_compiled_pattern_counts_its_tokens(text);
    law_compiled_tokens_stand_in_text(text);
    lemma_occurrences_grow(text, '*', 0, at + 1, text.len());
    if cur.capture_start is None && symbol != '#' {
        assert(occurrences(text, '#', 0, at + 1) == 0);
        if symbol == '*' {
            let k = cur.wildcard as int;
            assert(k < p.wildcards.len());
            law_open_wildcard_is_the_last_token(text, k);
            let resume = p.wildcards[k].resume;
            if resume == '*' {
                let last = p.wildcards[k].start;
                if last > at {
                    lemma_occurrences_grow(text, '*', 0, at + 1, last);
                    lemma_occurrences_grow(text, '*', 0, last + 1, text.len());
                }
                lemma_occurrences_none(text, '#', at + 1, text.len());
                lemma_occurrences_split(text, '#', 0, at + 1, text.len());
            } else if at + 2 <= text.len() && text[at as int + 1] == resume {
                assert(occurrences(text, '#', 0, at + 2) == 0);
            }
        }
    }
}

/// A scan over a compiled pattern with a capture that ends with a match
/// holds a capture start.
proof fn lemma_scan_reports_capture_start(text: Seq<char>, tag: Seq<char>, cur: Cursor)
    requires
        compile(text) is Ok,
        on_track(compile(text)->Ok_0, tag, cur),
        unseen(compile(text)->Ok_0, cur),
    ensures
        scan_from(compile(text)->Ok_0, tag, cur) matches Ok(v) ==> (v.matches
            && v.capture_start is None ==> compile(text)->Ok_0.capture is None),
    decreases text.len() - cur.pattern_at,
{
    let p = compile(text)->Ok_0;
    law_compiled_pattern_counts_its_tokens(text);
    lemma_round_keeps_unseen(text, tag, cur);
    lemma_round_stays_on_track(p, tag, cur);
    lemma_round_moves_on(p, tag, cur);
    match round(p, tag, cur) {
        Progress::Continue(next) => {
            lemma_scan_reports_capture_start(text, tag, next);
        },
        _ => {},
    }
}

/// A candidate that matches a compiled pattern with a capture is reported
/// with the offset at which the capture starts; without a capture in the
/// pattern no result has one.
pub proof fn law_match_reports_where_capture_starts(text: Seq<char>, tag: Seq<char>)
    requires
        compile(text) is Ok,
    ensures
        run_match(compile(text)->Ok_0, tag) matches Ok(m) ==> (m.capture_start is Some
            ==> compile(text)->Ok_0.capture is Some) && (m.matches && compile(
            text,
        )->Ok_0.capture is Some ==> m.capture_start is Some),
{
    let p = compile(text)->Ok_0;
    law_compiled_pattern_counts_its_tokens(text);
    if text.len() > 0 && tag.len() > 0 {
        lemma_scan_ends_well(p, tag, start());
        lemma_scan_reports_capture_start(text, tag, start());
    }
}

} // verus!
