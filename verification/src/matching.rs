use crate::model::{MatchModel, PatternModel};
use crate::patterns::PatternMatchError;
use vstd::prelude::*;

verus! {

/// The offset of the occurrence of `c` in `s` that comes after `skip` earlier
/// ones, counting only occurrences at offset `from` or later; `None` where
/// `s` holds fewer than `skip + 1` of them from there on.
pub open spec fn nth_occurrence(s: Seq<char>, from: nat, c: char, skip: nat) -> Option<nat>
    decreases s.len() - from,
{
    if from >= s.len() {
        None
    } else if s[from as int] == c {
        if skip == 0 {
            Some(from)
        } else {
            nth_occurrence(s, from + 1, c, (skip - 1) as nat)
        }
    } else {
        nth_occurrence(s, from + 1, c, skip)
    }
}

/// Where a scan stands: the current offsets into the pattern text and the
/// candidate, the next wildcard to use, and the capture offsets found so far.
pub struct Cursor {
    pub pattern_at: nat,
    pub tag_at: nat,
    pub wildcard: nat,
    pub capture_start: Option<nat>,
    pub capture_end: Option<nat>,
}

/// How a scan ends: whether the candidate matches, and the capture offsets
/// that were found on the way.
pub struct Verdict {
    pub matches: bool,
    pub capture_start: Option<nat>,
    pub capture_end: Option<nat>,
}

/// What a step of the scan leads to.
pub enum Progress {
    /// The scan goes on from this cursor.
    Continue(Cursor),
    /// The scan is over; the candidate matches or it does not.
    Done(Verdict),
    /// The pattern's text and its fields disagree.
    Failed(PatternMatchError),
}

/// The scan ends at `cur`, matching or not.
pub open spec fn done(cur: Cursor, matches: bool) -> Progress {
    Progress::Done(
        Verdict { matches, capture_start: cur.capture_start, capture_end: cur.capture_end },
    )
}

/// A wildcard token at the cursor: takes the next wildcard, and either ends
/// the scan (a wildcard that runs to the end matches; a candidate without the
/// resume character does not) or moves the candidate cursor to the first
/// resume character at or after it, and the pattern cursor to the character
/// behind the `'*'`, which must be that resume character.
pub open spec fn wildcard_token(p: PatternModel, tag: Seq<char>, cur: Cursor) -> Progress {
    if cur.wildcard >= p.wildcards.len() {
        Progress::Failed(PatternMatchError::UnexpectedWildcardInPattern)
    } else {
        let resume = p.wildcards[cur.wildcard as int].resume;
        if resume == '*' {
            done(cur, true)
        } else {
            match nth_occurrence(tag, cur.tag_at, resume, 0) {
                None => done(cur, false),
                Some(found) => if cur.pattern_at + 1 < p.text.len() && p.text[cur.pattern_at as int + 1]
                    == resume {
                    Progress::Continue(
                        Cursor {
                            pattern_at: cur.pattern_at + 1,
                            tag_at: found,
                            wildcard: cur.wildcard + 1,
                            ..cur
                        },
                    )
                } else {
                    Progress::Failed(PatternMatchError::UnexpectedWildcardResume)
                },
            }
        }
    }
}

/// A capture token at the cursor: the capture starts at the candidate's
/// current offset. A capture that runs to the end matches at once, without an
/// end offset. Otherwise it ends at the occurrence of the resume character,
/// behind the current offset, that follows `skip` earlier ones; the pattern
/// cursor then moves on to the next resume character of the pattern text.
pub open spec fn capture_token(p: PatternModel, tag: Seq<char>, cur: Cursor) -> Progress {
    match p.capture {
        None => Progress::Failed(PatternMatchError::UnexpectedCaptureInPattern),
        Some(capture) => {
            let started = Cursor { capture_start: Some(cur.tag_at), ..cur };
            if capture.resume == '#' {
                done(started, true)
            } else {
                match nth_occurrence(tag, cur.tag_at + 1, capture.resume, capture.skip) {
                    None => done(started, false),
                    Some(end) => {
                        let ended = Cursor { capture_end: Some(end), tag_at: end, ..started };
                        match nth_occurrence(p.text, cur.pattern_at + 1, capture.resume, 0) {
                            None => done(ended, false),
                            Some(resumed) => Progress::Continue(
                                Cursor { pattern_at: resumed, ..ended },
                            ),
                        }
                    },
                }
            }
        },
    }
}

/// The token at the cursor: a wildcard, the capture, or a literal, which the
/// candidate's current character must equal.
pub open spec fn token(p: PatternModel, tag: Seq<char>, cur: Cursor) -> Progress
    recommends
        cur.pattern_at < p.text.len(),
        cur.tag_at < tag.len(),
{
    let symbol = p.text[cur.pattern_at as int];
    if symbol == '*' {
        wildcard_token(p, tag, cur)
    } else if symbol == '#' {
        capture_token(p, tag, cur)
    } else if symbol == tag[cur.tag_at as int] {
        Progress::Continue(cur)
    } else {
        done(cur, false)
    }
}

/// Both cursors move one character on. Where both texts end together the
/// candidate matches; where only one ends it does not.
pub open spec fn advance(p: PatternModel, tag: Seq<char>, cur: Cursor) -> Progress {
    let pattern_ended = cur.pattern_at + 1 >= p.text.len();
    let tag_ended = cur.tag_at + 1 >= tag.len();
    if pattern_ended && tag_ended {
        done(cur, true)
    } else if pattern_ended || tag_ended {
        done(cur, false)
    } else {
        Progress::Continue(
            Cursor { pattern_at: cur.pattern_at + 1, tag_at: cur.tag_at + 1, ..cur },
        )
    }
}

/// One round of the scan: the token at the cursor, then the move to the next
/// character of both texts.
pub open spec fn round(p: PatternModel, tag: Seq<char>, cur: Cursor) -> Progress {
    match token(p, tag, cur) {
        Progress::Continue(after) => advance(p, tag, after),
        ended => ended,
    }
}

/// The scan from `cur` to its end.
pub open spec fn scan_from(p: PatternModel, tag: Seq<char>, cur: Cursor) -> Result<
    Verdict,
    PatternMatchError,
>
    recommends
        cur.pattern_at < p.text.len(),
        cur.tag_at < tag.len(),
    decreases p.text.len() - cur.pattern_at,
    via scan_from_decreases
{
    match round(p, tag, cur) {
        Progress::Continue(next) => scan_from(p, tag, next),
        Progress::Done(verdict) => Ok(verdict),
        Progress::Failed(e) => Err(e),
    }
}

#[via_fn]
/// Each round moves the pattern cursor on, so that a scan ends.
proof fn scan_from_decreases(p: PatternModel, tag: Seq<char>, cur: Cursor) {
    lemma_round_moves_on(p, tag, cur);
}

/// The cursor at which every scan starts.
pub open spec fn start() -> Cursor {
    Cursor { pattern_at: 0, tag_at: 0, wildcard: 0, capture_start: None, capture_end: None }
}

/// What matching the candidate `tag` against `p` yields. An empty pattern
/// text is refused first, then an empty candidate. A candidate that does not
/// match is a result, not an error.
pub open spec fn run_match(p: PatternModel, tag: Seq<char>) -> Result<
    MatchModel,
    PatternMatchError,
> {
    if p.text.len() == 0 {
        Err(PatternMatchError::EmptyPatternNotAllowed)
    } else if tag.len() == 0 {
        Err(PatternMatchError::EmptyTagNotAllowed)
    } else {
        match scan_from(p, tag, start()) {
            Ok(verdict) => Ok(
                MatchModel {
                    pattern: p.text,
                    tag,
                    matches: verdict.matches,
                    capture_start: verdict.capture_start,
                    capture_end: verdict.capture_end,
                },
            ),
            Err(e) => Err(e),
        }
    }
}

/// An occurrence that `nth_occurrence` finds lies at `from` or later, inside
/// `s`, and holds `c`.
pub proof fn lemma_nth_occurrence_bounds(s: Seq<char>, from: nat, c: char, skip: nat)
    ensures
        nth_occurrence(s, from, c, skip) matches Some(found) ==> from <= found < s.len()
            && s[found as int] == c,
    decreases s.len() - from,
{
    if from < s.len() {
        if s[from as int] == c {
            if skip > 0 {
                lemma_nth_occurrence_bounds(s, from + 1, c, (skip - 1) as nat);
            }
        } else {
            lemma_nth_occurrence_bounds(s, from + 1, c, skip);
        }
    }
}

/// A round that goes on leaves both cursors inside their texts and the
/// pattern cursor further right than it was.
pub proof fn lemma_round_moves_on(p: PatternModel, tag: Seq<char>, cur: Cursor)
    ensures
        round(p, tag, cur) matches Progress::Continue(next) ==> cur.pattern_at < next.pattern_at
            < p.text.len() && next.tag_at < tag.len(),
{
    match p.capture {
        Some(capture) => {
            lemma_nth_occurrence_bounds(p.text, cur.pattern_at + 1, capture.resume, 0);
        },
        None => {},
    }
}

} // verus!
