use crate::matching::{
    lemma_round_moves_on, nth_occurrence, run_match, scan_from, start, Cursor, Verdict,
};
use crate::model::{CaptureModel, MatchModel, PatternModel, WildcardModel};
use crate::syntax::{
    compile, initial_state, lemma_scan_error_persists, scan, skip_fits, step, with_last_resume,
    with_resume, with_skip, ScanState,
};
use crate::text::scalars;
use crate::tokens::{
    counts_its_tokens, law_compiled_pattern_counts_its_tokens, law_compiled_tokens_stand_in_text,
    tokens_stand_in_text,
};
use crate::verdicts::law_counted_tokens_are_found;
use std::collections::VecDeque;
use vstd::prelude::*;

verus! {

pub const CAPTURE_CHAR: char = '#';

pub const WILDCARD_CHAR: char = '*';

pub const SKIP_START_CHAR: char = '<';

pub const SKIP_END_CHAR: char = '>';

/// Represents a wildcard (denoted by '*') in a buzz pattern.
#[derive(Debug, Clone)]
pub struct Wildcard {
    pub start: usize,
    pub resume: char,
}

/// Represents a capture group (denoted by '#') in a buzz pattern.
/// A buzz pattern may have at most one capture group.
#[derive(Debug)]
pub struct Capture {
    pub start: usize,
    pub skip: usize,
    pub resume: char,
}

/// Structural representation of a buzz pattern.
#[derive(Debug)]
pub struct Pattern {
    pub pattern: String,
    pub capture: Option<Capture>,
    pub wildcards: VecDeque<Wildcard>,
}

/// Different reasons for which a pattern string is refused.
#[derive(Debug)]
pub enum PatternError {
    CaptureAfterCaptureNotAllowed,
    CaptureImmediatelyAfterCaptureNotAllowed,
    CaptureImmediatelyAfterWildcardNotAllowed,
    WildcardImmediatelyAfterWildcardNotAllowed,
    TrailingSkipNotAllowed,
    NonNumericCharacterInSkip,
    SkipAfterNonCaptureNotAllowed,
}

/// Structural representation of the results of processing a tag against a
/// buzz pattern. The capture is the slice of the tag's characters from
/// `capture_start` up to `capture_end`, or up to the tag's end where
/// `capture_end` is `None`.
#[derive(Debug)]
pub struct PatternMatch {
    pub pattern: String,
    pub tag: String,
    pub matches: bool,
    pub capture_start: Option<usize>,
    pub capture_end: Option<usize>,
}

/// Errors that can occur when processing a tag against a given pattern.
#[derive(Debug)]
pub enum PatternMatchError {
    EmptyPatternNotAllowed,
    EmptyTagNotAllowed,
    UnexpectedWildcardInPattern,
    UnexpectedCaptureInPattern,
    UnexpectedWildcardResume,
}

impl View for Wildcard {
    type V = WildcardModel;

    open spec fn view(&self) -> WildcardModel {
        WildcardModel { start: self.start as nat, resume: self.resume }
    }
}

impl View for Capture {
    type V = CaptureModel;

    open spec fn view(&self) -> CaptureModel {
        CaptureModel { start: self.start as nat, skip: self.skip as nat, resume: self.resume }
    }
}

/// The models of a sequence of wildcards, in the same order.
pub open spec fn wildcard_models(wildcards: Seq<Wildcard>) -> Seq<WildcardModel> {
    Seq::new(wildcards.len(), |i: int| wildcards[i]@)
}

/// The model of an optional capture.
pub open spec fn capture_model(capture: Option<Capture>) -> Option<CaptureModel> {
    match capture {
        Some(c) => Some(c@),
        None => None,
    }
}

impl View for Pattern {
    type V = PatternModel;

    open spec fn view(&self) -> PatternModel {
        PatternModel {
            text: self.pattern@,
            capture: capture_model(self.capture),
            wildcards: wildcard_models(self.wildcards@),
        }
    }
}

/// The model of an optional offset.
pub open spec fn offset_model(offset: Option<usize>) -> Option<nat> {
    match offset {
        Some(at) => Some(at as nat),
        None => None,
    }
}

impl View for PatternMatch {
    type V = MatchModel;

    open spec fn view(&self) -> MatchModel {
        MatchModel {
            pattern: self.pattern@,
            tag: self.tag@,
            matches: self.matches,
            capture_start: offset_model(self.capture_start),
            capture_end: offset_model(self.capture_end),
        }
    }
}

/// Whether the result `r` of a match is what `expected` describes.
pub open spec fn matched_as(
    r: Result<PatternMatch, PatternMatchError>,
    expected: Result<MatchModel, PatternMatchError>,
) -> bool {
    match (r, expected) {
        (Ok(m), Ok(n)) => m@ == n,
        (Err(e), Err(f)) => e == f,
        _ => false,
    }
}

/// Whether the result `r` of a compilation is what `expected` describes.
pub open spec fn compiled_as(
    r: Result<Pattern, PatternError>,
    expected: Result<PatternModel, PatternError>,
) -> bool {
    match (r, expected) {
        (Ok(p), Ok(m)) => p@ == m,
        (Err(e), Err(f)) => e == f,
        _ => false,
    }
}

/// The compiler's working state while it reads a pattern text.
struct Scanner {
    capture: Option<Capture>,
    wildcards: VecDeque<Wildcard>,
    skip: usize,
    after_wildcard: bool,
    after_capture: bool,
    after_skip: bool,
    in_skip: bool,
}

impl View for Scanner {
    type V = ScanState;

    closed spec fn view(&self) -> ScanState {
        ScanState {
            capture: capture_model(self.capture),
            wildcards: wildcard_models(self.wildcards@),
            skip: self.skip as nat,
            after_wildcard: self.after_wildcard,
            after_capture: self.after_capture,
            after_skip: self.after_skip,
            in_skip: self.in_skip,
        }
    }
}

/// A copy of `capture` that stops at `resume`.
fn resuming_at(capture: Option<Capture>, resume: char) -> (out: Option<Capture>)
    ensures
        capture_model(out) == with_resume(capture_model(capture), resume),
{
    match capture {
        Some(inner) => Some(Capture { start: inner.start, skip: inner.skip, resume }),
        None => None,
    }
}

/// A copy of `capture` that passes over `skip` occurrences of its resume
/// character.
fn skipping(capture: Option<Capture>, skip: usize) -> (out: Option<Capture>)
    ensures
        capture_model(out) == with_skip(capture_model(capture), skip as nat),
{
    match capture {
        Some(inner) => Some(Capture { start: inner.start, skip, resume: inner.resume }),
        None => None,
    }
}

impl Scanner {
    /// The state before any character is read.
    fn new() -> (s: Scanner)
        ensures
            s@ == initial_state(),
    {
        let s = Scanner {
            capture: None,
            wildcards: VecDeque::new(),
            skip: 0,
            after_wildcard: false,
            after_capture: false,
            after_skip: false,
            in_skip: false,
        };
        assert(wildcard_models(s.wildcards@) =~= Seq::empty());
        s
    }

    /// Reads the character `c` found at offset `at` of the pattern text: the
    /// next state or the rule that `c` breaks, or `None` where `c` is a digit
    /// that takes the skip count beyond `usize::MAX`.
    fn read(self, at: usize, c: char) -> (r: Option<Result<Scanner, PatternError>>)
        ensures
            match (r, step(self@, at as nat, c)) {
                (Some(Ok(s)), Ok(next)) => s@ == next,
                (Some(Err(e)), Err(f)) => e == f,
                (None, Ok(next)) => next.skip > usize::MAX,
                _ => false,
            },
    {
        let mut s = self;
        if c == CAPTURE_CHAR {
            if s.after_wildcard {
                return Some(Err(PatternError::CaptureImmediatelyAfterWildcardNotAllowed));
            }
            if s.after_capture {
                return Some(Err(PatternError::CaptureImmediatelyAfterCaptureNotAllowed));
            }
            if s.capture.is_some() {
                return Some(Err(PatternError::CaptureAfterCaptureNotAllowed));
            }
            // If the resume '#' survives until the end, the capture takes the
            // entire tail of each matched tag.
            s.capture = Some(Capture { start: at, skip: 0, resume: CAPTURE_CHAR });
            s.after_capture = true;
            s.after_wildcard = false;
            s.after_skip = false;
        } else if c == WILDCARD_CHAR {
            if s.after_wildcard {
                return Some(Err(PatternError::WildcardImmediatelyAfterWildcardNotAllowed));
            }
            if s.after_capture {
                s.capture = resuming_at(s.capture, WILDCARD_CHAR);
            }
            let ghost before = s.wildcards@;
            s.wildcards.push_back(Wildcard { start: at, resume: WILDCARD_CHAR });
            assert(wildcard_models(s.wildcards@) =~= wildcard_models(before).push(
                WildcardModel { start: at as nat, resume: '*' },
            ));
            s.after_capture = false;
            s.after_wildcard = true;
            s.after_skip = false;
        } else if c == SKIP_START_CHAR {
            if !s.after_capture {
                return Some(Err(PatternError::SkipAfterNonCaptureNotAllowed));
            }
            s.in_skip = true;
            s.skip = 0;
            s.after_skip = true;
        } else if c == SKIP_END_CHAR {
            s.in_skip = false;
            s.capture = skipping(s.capture, s.skip);
        } else if s.in_skip {
            if '0' <= c && c <= '9' {
                let added: usize = (c as u32 - '0' as u32) as usize;
                let grown = match s.skip.checked_mul(10) {
                    Some(tenfold) => tenfold.checked_add(added),
                    None => None,
                };
                match grown {
                    Some(skip) => {
                        s.skip = skip;
                    },
                    None => {
                        return None;
                    },
                }
            } else {
                return Some(Err(PatternError::NonNumericCharacterInSkip));
            }
        } else {
            if s.after_capture {
                s.capture = resuming_at(s.capture, c);
            } else if s.after_wildcard {
                let ghost before = s.wildcards@;
                match s.wildcards.pop_back() {
                    Some(last) => {
                        s.wildcards.push_back(Wildcard { start: last.start, resume: c });
                        assert(wildcard_models(s.wildcards@) =~= with_last_resume(
                            wildcard_models(before),
                            c,
                        ));
                    },
                    None => {
                        assert(wildcard_models(s.wildcards@) =~= with_last_resume(
                            wildcard_models(before),
                            c,
                        ));
                    },
                }
            }
            s.after_capture = false;
            s.after_wildcard = false;
            s.after_skip = false;
        }
        Some(Ok(s))
    }
}

impl Pattern {
    /// Whether the fields agree with the text as far as its tokens go: one
    /// wildcard for each `'*'`, standing where it stands, in the order of
    /// the text, and a capture for the one `'#'`, if there is one. Every
    /// compiled pattern is well formed.
    pub open spec fn well_formed(&self) -> bool {
        counts_its_tokens(self@) && tokens_stand_in_text(self@)
    }

    /// Parses a raw pattern string into a `Pattern`, or names the first rule
    /// that the string breaks.
    ///
    /// Special characters are '#', '*', '<' and '>'. Any other character,
    /// outside of "<...>", asks for exactly that character.
    /// '#' (capture group) captures the slice up to the next match.
    /// '*' (wildcard) matches any run of characters.
    /// "<n>" (skip) comes immediately after a capture group and before the
    /// match that terminates it: that many matches are taken into the
    /// capture instead of ending it.
    ///
    /// The skip counts written in the string must fit in a `usize`;
    /// `checked_from` tests that as it reads.
    pub fn from(raw_pattern: &String) -> (r: Result<Pattern, PatternError>)
        requires
            skip_fits(raw_pattern@),
        ensures
            compiled_as(r, compile(raw_pattern@)),
            r matches Ok(p) ==> p.well_formed(),
    {
        match Pattern::checked_from(raw_pattern) {
            Some(r) => r,
            None => vstd::pervasive::unreached(),
        }
    }

    /// Parses a raw pattern string as `from` does, for any string: `None`
    /// where a skip count written in it does not fit in a `usize`.
    pub fn checked_from(raw_pattern: &String) -> (r: Option<Result<Pattern, PatternError>>)
        ensures
            r is Some <==> skip_fits(raw_pattern@),
            r matches Some(compiled) ==> compiled_as(compiled, compile(raw_pattern@)),
            r matches Some(Ok(p)) ==> p.well_formed(),
    {
        proof {
            law_compiled_pattern_counts_its_tokens(raw_pattern@);
            law_compiled_tokens_stand_in_text(raw_pattern@);
        }
        let text = scalars(raw_pattern.as_str());
        let mut scanner = Scanner::new();
        let mut at: usize = 0;
        while at < text.len()
            invariant
                at <= text.len(),
                text@ == raw_pattern@,
                scan(raw_pattern@, at as nat) == Ok::<ScanState, PatternError>(scanner@),
                forall|n: nat|
                    n <= at ==> (#[trigger] scan(raw_pattern@, n) matches Ok(s) ==> s.skip
                        <= usize::MAX),
            decreases text.len() - at,
        {
            assert(scan(raw_pattern@, (at + 1) as nat) == step(
                scanner@,
                at as nat,
                raw_pattern@[at as int],
            ));
            match scanner.read(at, text[at]) {
                Some(Ok(next)) => {
                    scanner = next;
                },
                Some(Err(e)) => {
                    proof {
                        assert forall|n: nat| at < n <= raw_pattern@.len() implies scan(
                            raw_pattern@,
                            n,
                        ) is Err by {
                            lemma_scan_error_persists(raw_pattern@, (at + 1) as nat, n);
                        }
                        lemma_scan_error_persists(
                            raw_pattern@,
                            (at + 1) as nat,
                            raw_pattern@.len(),
                        );
                    }
                    return Some(Err(e));
                },
                None => {
                    return None;
                },
            }
            at += 1;
        }
        if scanner.after_skip {
            return Some(Err(PatternError::TrailingSkipNotAllowed));
        }
        Some(
            Ok(
                Pattern {
                    pattern: raw_pattern.clone(),
                    capture: scanner.capture,
                    wildcards: scanner.wildcards,
                },
            ),
        )
    }

    /// Matches `tag` against this pattern in one pass from left to right.
    ///
    /// A literal asks for the same character in the tag. A wildcard takes
    /// the characters of the tag up to the first occurrence of its resume
    /// character, which may be the very next one; a wildcard that resumes at
    /// '*' takes the rest of the tag. The capture takes at least one
    /// character, up to the occurrence of its resume character that follows
    /// `skip` earlier ones; a capture that resumes at '#' takes the rest of
    /// the tag. Behind the last token the pattern and the tag must end
    /// together. The offsets of the capture count characters of the tag.
    ///
    /// An empty pattern text or an empty tag is an error, and so is a pattern
    /// whose text and fields disagree. A tag that does not match is not: the
    /// result then has `matches == false`. A well-formed pattern, such as
    /// `from` returns, has a wildcard for each `'*'` and a capture for its
    /// `'#'`, so that neither is ever found missing.
    pub fn process(&self, tag: &String) -> (r: Result<PatternMatch, PatternMatchError>)
        ensures
            matched_as(r, run_match(self@, tag@)),
            self.well_formed() ==> !(r matches Err(
                PatternMatchError::UnexpectedWildcardInPattern,
            )) && !(r matches Err(PatternMatchError::UnexpectedCaptureInPattern)),
    {
        proof {
            if self.well_formed() {
                law_counted_tokens_are_found(self@, tag@);
            }
        }
        let text = scalars(self.pattern.as_str());
        let target = scalars(tag.as_str());
        if text.len() == 0 {
            return Err(PatternMatchError::EmptyPatternNotAllowed);
        }
        if target.len() == 0 {
            return Err(PatternMatchError::EmptyTagNotAllowed);
        }
        let mut matches = true;
        let mut capture_start: Option<usize> = None;
        let mut capture_end: Option<usize> = None;
        let mut pattern_at: usize = 0;
        let mut tag_at: usize = 0;
        let mut wildcard: usize = 0;
        let ghost p = self@;
        let ghost mut cur = start();
        loop
            invariant_except_break
                pattern_at < text.len(),
                tag_at < target.len(),
                matches,
                cur == (Cursor {
                    pattern_at: pattern_at as nat,
                    tag_at: tag_at as nat,
                    wildcard: wildcard as nat,
                    capture_start: offset_model(capture_start),
                    capture_end: offset_model(capture_end),
                }),
                scan_from(p, tag@, cur) == scan_from(p, tag@, start()),
            invariant
                p == self@,
                text@ == p.text,
                target@ == tag@,
                text@.len() > 0,
                target@.len() > 0,
                wildcard <= self.wildcards@.len(),
                self.well_formed() ==> !(run_match(p, tag@) matches Err(
                    PatternMatchError::UnexpectedWildcardInPattern,
                )) && !(run_match(p, tag@) matches Err(
                    PatternMatchError::UnexpectedCaptureInPattern,
                )),
            ensures
                scan_from(p, tag@, start()) == Ok::<Verdict, PatternMatchError>(
                    Verdict {
                        matches,
                        capture_start: offset_model(capture_start),
                        capture_end: offset_model(capture_end),
                    },
                ),
            decreases text.len() - pattern_at,
        {
            proof {
                lemma_round_moves_on(p, tag@, cur);
            }
            let symbol = text[pattern_at];
            if symbol == WILDCARD_CHAR {
                if wildcard >= self.wildcards.len() {
                    return Err(PatternMatchError::UnexpectedWildcardInPattern);
                }
                let resume = self.wildcards[wildcard].resume;
                wildcard += 1;
                // A wildcard that resumes at '*' takes all that is left.
                if resume == WILDCARD_CHAR {
                    break;
                }
                match find_occurrence(&target, tag_at, resume, 0) {
                    Some(found) => {
                        tag_at = found;
                    },
                    None => {
                        matches = false;
                        break;
                    },
                }
                // The pattern moves on to the character behind the '*'.
                pattern_at += 1;
                if pattern_at >= text.len() || text[pattern_at] != resume {
                    return Err(PatternMatchError::UnexpectedWildcardResume);
                }
            } else if symbol == CAPTURE_CHAR {
                let (skip, resume) = match &self.capture {
                    Some(capture) => (capture.skip, capture.resume),
                    None => {
                        return Err(PatternMatchError::UnexpectedCaptureInPattern);
                    },
                };
                capture_start = Some(tag_at);
                // A capture that resumes at '#' takes all that is left.
                if resume == CAPTURE_CHAR {
                    break;
                }
                match find_occurrence(&target, tag_at + 1, resume, skip) {
                    Some(end) => {
                        tag_at = end;
                        capture_end = Some(end);
                    },
                    None => {
                        matches = false;
                        break;
                    },
                }
                // The pattern moves on to its own resume character.
                match find_occurrence(&text, pattern_at + 1, resume, 0) {
                    Some(resumed) => {
                        pattern_at = resumed;
                    },
                    None => {
                        matches = false;
                        break;
                    },
                }
            } else if symbol != target[tag_at] {
                matches = false;
                break;
            }
            let pattern_ended = pattern_at + 1 >= text.len();
            let tag_ended = tag_at + 1 >= target.len();
            if pattern_ended && tag_ended {
                break;
            } else if pattern_ended || tag_ended {
                matches = false;
                break;
            }
            pattern_at += 1;
            tag_at += 1;
            proof {
                cur = Cursor {
                    pattern_at: pattern_at as nat,
                    tag_at: tag_at as nat,
                    wildcard: wildcard as nat,
                    capture_start: offset_model(capture_start),
                    capture_end: offset_model(capture_end),
                };
            }
        }
        Ok(
            PatternMatch {
                pattern: self.pattern.clone(),
                tag: tag.clone(),
                matches,
                capture_start,
                capture_end,
            },
        )
    }
}

/// Looks in `s`, from offset `from` on, for the occurrence of `c` that comes
/// after `skip` earlier ones.
fn find_occurrence(s: &Vec<char>, from: usize, c: char, skip: usize) -> (found: Option<usize>)
    ensures
        offset_model(found) == nth_occurrence(s@, from as nat, c, skip as nat),
        found matches Some(at) ==> from <= at < s.len() && s[at as int] == c,
{
    let mut at: usize = from;
    let mut seen: usize = 0;
    while at < s.len()
        invariant
            from <= at,
            seen <= skip,
            nth_occurrence(s@, at as nat, c, (skip - seen) as nat) == nth_occurrence(
                s@,
                from as nat,
                c,
                skip as nat,
            ),
        decreases s.len() - at,
    {
        if s[at] == c {
            if seen == skip {
                return Some(at);
            }
            seen += 1;
        }
        at += 1;
    }
    None
}

} // verus!
