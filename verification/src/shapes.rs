use crate::matching::{
    done, lemma_nth_occurrence_bounds, nth_occurrence, round, run_match, scan_from, start, token,
    Cursor, Progress, Verdict,
};
use crate::model::{CaptureModel, MatchModel, PatternModel, WildcardModel};
use crate::patterns::{PatternError, PatternMatchError};
use crate::resumes::{lemma_digits_accumulate, lemma_digits_are_accepted};
use crate::syntax::{
    compile, decimal, initial_state, is_digit, is_reserved, scan, skip_fits, step, ScanState,
};
use vstd::prelude::*;

verus! {

/// Whether `text` holds none of the reserved characters.
pub open spec fn is_plain(text: Seq<char>) -> bool {
    forall|i: int| 0 <= i < text.len() ==> !is_reserved(#[trigger] text[i])
}

/// The pattern that asks for exactly `text`: no capture, no wildcard.
pub open spec fn literal_pattern(text: Seq<char>) -> PatternModel {
    PatternModel { text, capture: None, wildcards: Seq::empty() }
}

/// Whether a match ended without error and with `matches == true`.
pub open spec fn succeeds(r: Result<MatchModel, PatternMatchError>) -> bool {
    r matches Ok(m) && m.matches
}

/// Whether `tag` begins with the characters of `prefix`.
pub open spec fn starts_with(tag: Seq<char>, prefix: Seq<char>) -> bool {
    prefix.len() <= tag.len() && tag.subrange(0, prefix.len() as int) == prefix
}

/// Reading characters that are not reserved leaves the compiler in its
/// initial state.
proof fn lemma_plain_prefix_leaves_state(text: Seq<char>, n: nat)
    requires
        n <= text.len(),
        forall|i: int| 0 <= i < n ==> !is_reserved(#[trigger] text[i]),
    ensures
        scan(text, n) == Ok::<ScanState, PatternError>(initial_state()),
    decreases n,
{
    if n > 0 {
        lemma_plain_prefix_leaves_state(text, (n - 1) as nat);
        assert(!is_reserved(text[n - 1]));
    }
}

/// A text without reserved characters compiles, whatever else it holds, to
/// the pattern with that text, no capture and no wildcard.
pub proof fn law_plain_text_compiles_to_literal(text: Seq<char>)
    requires
        is_plain(text),
    ensures
        skip_fits(text),
        compile(text) == Ok::<PatternModel, PatternError>(literal_pattern(text)),
{
    lemma_plain_prefix_leaves_state(text, text.len());
    assert forall|n: nat| n <= text.len() implies match #[trigger] scan(text, n) {
        Ok(s) => s.skip <= usize::MAX,
        Err(_) => true,
    } by {
        lemma_plain_prefix_leaves_state(text, n);
    }
}

/// Against a pattern of literals, a scan that has found the two texts equal
/// up to `at` matches exactly where they are equal from there on.
proof fn lemma_literal_scan(text: Seq<char>, tag: Seq<char>, at: nat)
    requires
        is_plain(text),
        at < text.len(),
        at < tag.len(),
    ensures
        scan_from(
            literal_pattern(text),
            tag,
            Cursor { pattern_at: at, tag_at: at, ..start() },
        ) == Ok::<Verdict, PatternMatchError>(
            Verdict {
                matches: text.subrange(at as int, text.len() as int) == tag.subrange(
                    at as int,
                    tag.len() as int,
                ),
                capture_start: None,
                capture_end: None,
            },
        ),
    decreases text.len() - at,
{
    let p = literal_pattern(text);
    let cur = Cursor { pattern_at: at, tag_at: at, ..start() };
    let rest_of_text = text.subrange(at as int, text.len() as int);
    let rest_of_tag = tag.subrange(at as int, tag.len() as int);
    assert(!is_reserved(text[at as int]));
    assert(rest_of_text[0] == text[at as int]);
    assert(rest_of_tag[0] == tag[at as int]);
    if text[at as int] == tag[at as int] {
        if at + 1 < text.len() && at + 1 < tag.len() {
            lemma_literal_scan(text, tag, at + 1);
            let next = Cursor { pattern_at: at + 1, tag_at: at + 1, ..start() };
            assert(round(p, tag, cur) == Progress::Continue(next));
            let later_text = text.subrange(at + 1 as int, text.len() as int);
            let later_tag = tag.subrange(at + 1 as int, tag.len() as int);
            assert(rest_of_text.drop_first() =~= later_text);
            assert(rest_of_tag.drop_first() =~= later_tag);
            if later_text == later_tag {
                assert(rest_of_text =~= seq![text[at as int]] + later_text);
                assert(rest_of_tag =~= seq![tag[at as int]] + later_tag);
            }
        } else if at + 1 >= text.len() && at + 1 >= tag.len() {
            assert(rest_of_text =~= rest_of_tag);
        } else {
            assert(rest_of_text.len() != rest_of_tag.len());
        }
    }
}

/// A pattern compiled from a text without reserved characters matches
/// exactly the candidate that is, character for character, that text.
/// (Nothing matches an empty text: the empty text and the empty candidate
/// are left out.)
pub proof fn law_plain_pattern_matches_itself_only(text: Seq<char>, tag: Seq<char>)
    requires
        is_plain(text),
        text.len() > 0 || tag.len() > 0,
    ensures
        compile(text) matches Ok(p) && (succeeds(run_match(p, tag)) <==> tag == text),
{
    law_plain_text_compiles_to_literal(text);
    if text.len() > 0 && tag.len() > 0 {
        lemma_literal_scan(text, tag, 0);
        assert(text.subrange(0, text.len() as int) =~= text);
        assert(tag.subrange(0, tag.len() as int) =~= tag);
    } else {
        assert(text.len() != tag.len());
    }
}

/// Over a stretch of the pattern text without `'*'` and `'#'`, a scan that
/// has used no token yet goes on behind the stretch where the candidate
/// holds the same characters and at least one more, and else fails.
proof fn lemma_literal_stretch(p: PatternModel, tag: Seq<char>, at: nat, to: nat)
    requires
        at <= to < p.text.len(),
        at < tag.len(),
        forall|i: int| at <= i < to ==> p.text[i] != '*' && p.text[i] != '#',
    ensures
        scan_from(p, tag, Cursor { pattern_at: at, tag_at: at, ..start() }) == if to < tag.len()
            && p.text.subrange(at as int, to as int) == tag.subrange(at as int, to as int) {
            scan_from(p, tag, Cursor { pattern_at: to, tag_at: to, ..start() })
        } else {
            Ok::<Verdict, PatternMatchError>(
                Verdict { matches: false, capture_start: None, capture_end: None },
            )
        },
    decreases to - at,
{
    let cur = Cursor { pattern_at: at, tag_at: at, ..start() };
    if at == to {
        assert(p.text.subrange(at as int, to as int) =~= tag.subrange(at as int, to as int));
    } else {
        let stretch = p.text.subrange(at as int, to as int);
        if to < tag.len() {
            let same = tag.subrange(at as int, to as int);
            assert(stretch[0] == p.text[at as int]);
            assert(same[0] == tag[at as int]);
            if at + 1 < tag.len() && p.text[at as int] == tag[at as int] {
                let rest = p.text.subrange(at as int + 1, to as int);
                let same_rest = tag.subrange(at as int + 1, to as int);
                assert(stretch.drop_first() =~= rest);
                assert(same.drop_first() =~= same_rest);
                if rest == same_rest {
                    assert(stretch =~= seq![p.text[at as int]] + rest);
                    assert(same =~= seq![tag[at as int]] + same_rest);
                }
            }
        }
        if p.text[at as int] == tag[at as int] && at + 1 < tag.len() {
            let next = Cursor { pattern_at: at + 1, tag_at: at + 1, ..start() };
            assert(round(p, tag, cur) == Progress::Continue(next));
            lemma_literal_stretch(p, tag, at + 1, to);
        }
    }
}

/// A plain text with a `'*'` behind it compiles to a pattern that matches
/// exactly the candidates that begin with that text and go on for at least
/// one more character.
pub proof fn law_trailing_wildcard_takes_the_rest(prefix: Seq<char>, tag: Seq<char>)
    requires
        is_plain(prefix),
    ensures
        compile(prefix.push('*')) matches Ok(p) && (succeeds(run_match(p, tag)) <==> starts_with(
            tag,
            prefix,
        ) && tag.len() > prefix.len()),
{
    let text = prefix.push('*');
    let n = prefix.len();
    assert forall|i: int| 0 <= i < n implies !is_reserved(#[trigger] text[i]) by {
        assert(text[i] == prefix[i]);
    }
    lemma_plain_prefix_leaves_state(text, n);
    assert(scan(text, text.len()) == step(initial_state(), n, '*'));
    let p = compile(text)->Ok_0;
    assert(p.wildcards[0] == WildcardModel { start: n, resume: '*' });
    if tag.len() > 0 {
        lemma_literal_stretch(p, tag, 0, n);
        if n < tag.len() {
            assert(text.subrange(0, n as int) =~= prefix);
        }
    }
}

/// A plain text with a `'#'` behind it compiles to a pattern that matches
/// exactly the candidates that begin with that text and go on for at least
/// one more character; what goes on is the capture, which starts behind the
/// text and has no end offset.
pub proof fn law_trailing_capture_takes_the_rest(prefix: Seq<char>, tag: Seq<char>)
    requires
        is_plain(prefix),
    ensures
        compile(prefix.push('#')) matches Ok(p) && (succeeds(run_match(p, tag)) <==> starts_with(
            tag,
            prefix,
        ) && tag.len() > prefix.len()) && (run_match(p, tag) matches Ok(m) ==> (m.matches
            ==> m.capture_start == Some(prefix.len()) && m.capture_end is None)),
{
    let text = prefix.push('#');
    let n = prefix.len();
    assert forall|i: int| 0 <= i < n implies !is_reserved(#[trigger] text[i]) by {
        assert(text[i] == prefix[i]);
    }
    lemma_plain_prefix_leaves_state(text, n);
    assert(scan(text, text.len()) == step(initial_state(), n, '#'));
    let p = compile(text)->Ok_0;
    if tag.len() > 0 {
        lemma_literal_stretch(p, tag, 0, n);
        if n < tag.len() {
            assert(text.subrange(0, n as int) =~= prefix);
        }
    }
}

/// The pattern text made of a plain `prefix`, the capture with the skip
/// annotation `annotation` (which may be empty), the resume character and a
/// trailing wildcard, as in `"python:#<1>.*"`.
pub open spec fn capture_then_rest(prefix: Seq<char>, annotation: Seq<char>, resume: char) -> Seq<
    char,
> {
    prefix.push('#') + annotation + seq![resume, '*']
}

/// Whether a match is the one that `law_capture_ends_at_resume` and
/// `law_capture_skips_resume_characters` describe: it succeeds exactly where
/// the candidate begins with `prefix`, holds behind the next character the
/// resume character for the `skip + 1`-th time, and goes on behind that one;
/// where it succeeds, it reports the capture from behind the prefix to that
/// resume character.
pub open spec fn captures_up_to_resume(
    r: Result<MatchModel, PatternMatchError>,
    tag: Seq<char>,
    prefix: Seq<char>,
    resume: char,
    skip: nat,
) -> bool {
    let end = nth_occurrence(tag, prefix.len() + 1, resume, skip);
    &&& succeeds(r) <==> starts_with(tag, prefix) && end is Some && end->0 + 1 < tag.len()
    &&& r matches Ok(m) ==> (m.matches ==> m.capture_start == Some(prefix.len()) && m.capture_end
        == end)
}

/// The first occurrence of `c` from `from` on is at `to`, where no character
/// between the two is `c`.
proof fn lemma_resume_stands_behind_annotation(text: Seq<char>, from: nat, to: nat, c: char)
    requires
        from <= to < text.len(),
        text[to as int] == c,
        forall|j: int| from <= j < to ==> text[j] != c,
    ensures
        nth_occurrence(text, from, c, 0) == Some(to),
    decreases to - from,
{
    if from < to {
        lemma_resume_stands_behind_annotation(text, from + 1, to, c);
    }
}

/// What matching yields for a pattern whose text is a stretch without
/// tokens, the capture, its resume character somewhere behind it, and
/// directly behind that a wildcard that runs to the end.
proof fn lemma_capture_then_rest(p: PatternModel, tag: Seq<char>, at: nat, resumed: nat)
    requires
        at < resumed,
        resumed + 1 < p.text.len(),
        forall|i: int| 0 <= i < at ==> p.text[i] != '*' && p.text[i] != '#',
        p.text[at as int] == '#',
        p.capture matches Some(c) && c.resume != '#' && nth_occurrence(
            p.text,
            at + 1,
            c.resume,
            0,
        ) == Some(resumed),
        p.text[resumed as int + 1] == '*',
        p.wildcards.len() > 0,
        p.wildcards[0].resume == '*',
    ensures
        captures_up_to_resume(
            run_match(p, tag),
            tag,
            p.text.subrange(0, at as int),
            p.capture->0.resume,
            p.capture->0.skip,
        ),
{
    let capture = p.capture->0;
    lemma_nth_occurrence_bounds(tag, at + 1, capture.resume, capture.skip);
    if tag.len() > 0 {
        lemma_literal_stretch(p, tag, 0, at);
        if at < tag.len() && p.text.subrange(0, at as int) == tag.subrange(0, at as int) {
            let cur = Cursor { pattern_at: at, tag_at: at, ..start() };
            let started = Cursor { capture_start: Some(at), ..cur };
            match nth_occurrence(tag, at + 1, capture.resume, capture.skip) {
                Some(end) => {
                    let ended = Cursor { capture_end: Some(end), tag_at: end, ..started };
                    let resumed_at = Cursor { pattern_at: resumed, ..ended };
                    assert(token(p, tag, cur) == Progress::Continue(resumed_at));
                    if end + 1 < tag.len() {
                        let next = Cursor {
                            pattern_at: resumed + 1,
                            tag_at: end + 1,
                            ..resumed_at
                        };
                        assert(round(p, tag, cur) == Progress::Continue(next));
                        assert(token(p, tag, next) == done(next, true));
                        assert(scan_from(p, tag, next) == Ok::<Verdict, PatternMatchError>(
                            Verdict {
                                matches: true,
                                capture_start: Some(at),
                                capture_end: Some(end),
                            },
                        ));
                    } else {
                        assert(round(p, tag, cur) == done(resumed_at, false));
                    }
                },
                None => {
                    assert(round(p, tag, cur) == done(started, false));
                },
            }
        }
    }
}

/// `"python:#.*"` and its like: a plain text, the capture, a resume
/// character that is not reserved, and a trailing wildcard. The compiled
/// pattern matches exactly the candidates that begin with the text and hold,
/// behind the character that follows it, the resume character and at least
/// one more; the capture runs from behind the text to the first such resume
/// character.
pub proof fn law_capture_ends_at_resume(prefix: Seq<char>, resume: char, tag: Seq<char>)
    requires
        is_plain(prefix),
        !is_reserved(resume),
    ensures
        compile(capture_then_rest(prefix, Seq::empty(), resume)) matches Ok(p)
            && captures_up_to_resume(run_match(p, tag), tag, prefix, resume, 0),
{
    let text = capture_then_rest(prefix, Seq::empty(), resume);
    let n = prefix.len();
    assert(text =~= prefix + seq!['#', resume, '*']);
    assert forall|i: int| 0 <= i < n implies !is_reserved(#[trigger] text[i]) by {
        assert(text[i] == prefix[i]);
    }
    lemma_plain_prefix_leaves_state(text, n);
    let read_capture = step(initial_state(), n, '#');
    assert(scan(text, n + 1) == read_capture);
    let read_resume = step(read_capture->Ok_0, n + 1, resume);
    assert(scan(text, n + 2) == read_resume);
    assert(scan(text, n + 3) == step(read_resume->Ok_0, n + 2, '*'));
    let p = compile(text)->Ok_0;
    assert(p.capture == Some(CaptureModel { start: n, skip: 0, resume }));
    assert(p.wildcards[0].resume == '*');
    assert(nth_occurrence(text, n + 1, resume, 0) == Some(n + 1));
    lemma_capture_then_rest(p, tag, n, n + 1);
    assert(text.subrange(0, n as int) =~= prefix);
}

/// `"python:#<1>.*"` and its like: a plain text, the capture with a skip
/// annotation of decimal digits, a resume character that is neither reserved
/// nor a digit, and a trailing wildcard. The compiled pattern matches as the
/// one without annotation does, but the capture runs to the resume character
/// that follows as many earlier ones as the digits say.
pub proof fn law_capture_skips_resume_characters(
    prefix: Seq<char>,
    digits: Seq<char>,
    resume: char,
    tag: Seq<char>,
)
    requires
        is_plain(prefix),
        forall|i: int| 0 <= i < digits.len() ==> is_digit(#[trigger] digits[i]),
        !is_reserved(resume),
        !is_digit(resume),
    ensures
        compile(capture_then_rest(prefix, seq!['<'] + digits + seq!['>'], resume)) matches Ok(p)
            && captures_up_to_resume(run_match(p, tag), tag, prefix, resume, decimal(digits)),
{
    let text = capture_then_rest(prefix, seq!['<'] + digits + seq!['>'], resume);
    let n = prefix.len();
    let close = n + 2 + digits.len();
    assert(text.len() == close + 3);
    assert forall|i: int| 0 <= i < n implies !is_reserved(#[trigger] text[i]) by {
        assert(text[i] == prefix[i]);
    }
    assert(text[n as int] == '#');
    assert(text[n as int + 1] == '<');
    assert forall|j: int| n + 1 < j < close implies is_digit(#[trigger] text[j]) by {
        assert(text[j] == digits[j - n - 2]);
    }
    assert(text[close as int] == '>');
    assert(text[close as int + 1] == resume);
    assert(text[close as int + 2] == '*');
    lemma_plain_prefix_leaves_state(text, n);
    let read_capture = step(initial_state(), n, '#');
    assert(scan(text, n + 1) == read_capture);
    assert(scan(text, n + 2) == step(read_capture->Ok_0, n + 1, '<'));
    lemma_digits_are_accepted(text, n + 1, close);
    lemma_digits_accumulate(text, n + 1, close);
    let inside = scan(text, close)->Ok_0;
    let closed = step(inside, close, '>');
    assert(scan(text, close + 1) == closed);
    let read_resume = step(closed->Ok_0, close + 1, resume);
    assert(scan(text, close + 2) == read_resume);
    assert(scan(text, close + 3) == step(read_resume->Ok_0, close + 2, '*'));
    assert(text.subrange(n as int + 2, close as int) =~= digits);
    let p = compile(text)->Ok_0;
    assert(p.capture == Some(CaptureModel { start: n, skip: decimal(digits), resume }));
    assert(p.wildcards[0].resume == '*');
    lemma_resume_stands_behind_annotation(text, n + 1, close + 1, resume);
    lemma_capture_then_rest(p, tag, n, close + 1);
    assert(text.subrange(0, n as int) =~= prefix);
}

} // verus!
