use crate::counting::occurrences;
use crate::model::{CaptureModel, WildcardModel};
use crate::syntax::{
    compile, decimal, inside_annotation, is_digit, is_reserved, lemma_prefix_is_accepted,
    lemma_scan_error_persists, scan, skip_fits, step, with_last_resume, ScanState,
};
use crate::tokens::{lemma_scan_counts_tokens, lemma_with_last_resume};
use vstd::prelude::*;

verus! {

/// Before the capture is read, no skip annotation is open and no skip count
/// is held.
proof fn lemma_scan_before_capture(text: Seq<char>, n: nat)
    requires
        n <= text.len(),
    ensures
        scan(text, n) matches Ok(s) ==> (s.capture is None ==> s.skip == 0 && !s.in_skip
            && !s.after_capture && !s.after_skip),
    decreases n,
{
    if n > 0 {
        lemma_scan_before_capture(text, (n - 1) as nat);
    }
}

/// Whether the capture of `s` can change no more: another token has been
/// read behind it, no skip annotation is open, and the skip count read last
/// is the one it holds.
spec fn capture_settled(s: ScanState) -> bool {
    &&& s.capture matches Some(c) && s.skip == c.skip
    &&& !s.after_capture
    &&& !s.in_skip
}

/// A capture that is settled after `n` characters is the same, and settled,
/// after `m`.
proof fn lemma_settled_capture_stays(text: Seq<char>, n: nat, m: nat)
    requires
        n <= m <= text.len(),
        scan(text, m) is Ok,
        scan(text, n) matches Ok(s) && capture_settled(s),
    ensures
        capture_settled(scan(text, m)->Ok_0),
        scan(text, m)->Ok_0.capture == scan(text, n)->Ok_0.capture,
    decreases m,
{
    if n < m {
        if scan(text, (m - 1) as nat) is Err {
            lemma_scan_error_persists(text, (m - 1) as nat, m);
        }
        lemma_settled_capture_stays(text, n, (m - 1) as nat);
    }
}

/// A capture keeps its start.
proof fn lemma_capture_start_stays(text: Seq<char>, n: nat, m: nat)
    requires
        n <= m <= text.len(),
        scan(text, m) is Ok,
        scan(text, n) matches Ok(s) && s.capture is Some,
    ensures
        scan(text, m)->Ok_0.capture matches Some(c) && c.start == scan(
            text,
            n,
        )->Ok_0.capture->0.start,
    decreases m,
{
    if n < m {
        lemma_prefix_is_accepted(text, (m - 1) as nat, m);
        lemma_capture_start_stays(text, n, (m - 1) as nat);
    }
}

/// What the scan holds right behind an accepted `'#'`.
proof fn lemma_capture_token(text: Seq<char>, at: nat)
    requires
        at < text.len(),
        text[at as int] == '#',
        scan(text, at + 1) is Ok,
    ensures
        ({
            let s = scan(text, at + 1)->Ok_0;
            &&& s.capture == Some(CaptureModel { start: at, skip: 0, resume: '#' })
            &&& s.skip == 0
            &&& s.after_capture
            &&& !s.after_wildcard
            &&& !s.after_skip
            &&& !s.in_skip
        }),
{
    lemma_prefix_is_accepted(text, at, at + 1);
    lemma_scan_before_capture(text, at);
    assert(scan(text, at + 1) == step(scan(text, at)->Ok_0, at, text[at as int]));
}

/// The capture of a compiled pattern stands where the text has its `'#'`.
/// Where the text ends there, the capture resumes at `'#'` itself; where
/// another character than `'<'` or `'>'` follows, it resumes at that
/// character. Either way it skips nothing.
pub proof fn law_capture_resumes_behind_its_token(text: Seq<char>, at: nat)
    requires
        compile(text) is Ok,
        at < text.len(),
        text[at as int] == '#',
    ensures
        ({
            let p = compile(text)->Ok_0;
            &&& p.capture matches Some(c) && c.start == at
            &&& at + 1 == text.len() ==> p.capture == Some(
                CaptureModel { start: at, skip: 0, resume: '#' },
            )
            &&& at + 1 < text.len() && text[at as int + 1] != '<' && text[at as int + 1] != '>'
                ==> p.capture == Some(
                CaptureModel { start: at, skip: 0, resume: text[at as int + 1] },
            )
        }),
{
    lemma_prefix_is_accepted(text, at + 1, text.len());
    lemma_capture_token(text, at);
    if at + 1 < text.len() {
        lemma_prefix_is_accepted(text, at + 2, text.len());
        let s = scan(text, at + 1)->Ok_0;
        let follower = text[at as int + 1];
        assert(scan(text, at + 2) == step(s, at + 1, follower));
        if follower != '<' && follower != '>' {
            lemma_settled_capture_stays(text, at + 2, text.len());
        } else {
            lemma_capture_start_stays(text, at + 1, text.len());
        }
    }
}

/// Inside a skip annotation digits break no rule, as long as the skip count
/// is not asked to fit anywhere.
pub proof fn lemma_digits_are_accepted(text: Seq<char>, opening: nat, n: nat)
    requires
        opening < n <= text.len(),
        text[opening as int] == '<',
        forall|j: int| opening < j < n ==> is_digit(#[trigger] text[j]),
        scan(text, opening + 1) is Ok,
    ensures
        scan(text, n) is Ok,
        scan(text, n)->Ok_0.in_skip,
    decreases n,
{
    lemma_prefix_is_accepted(text, opening, opening + 1);
    assert(scan(text, opening + 1) == step(scan(text, opening)->Ok_0, opening, text[opening as int]));
    if n > opening + 1 {
        lemma_digits_are_accepted(text, opening, (n - 1) as nat);
        assert(is_digit(text[n - 1]));
    }
}

/// What the scan holds inside a skip annotation, behind the `'<'` at
/// `opening` and digits only: the decimal value of those digits as its skip
/// count, and the capture, the wildcards and the previous token as they
/// were.
pub proof fn lemma_digits_accumulate(text: Seq<char>, opening: nat, n: nat)
    requires
        opening < n <= text.len(),
        text[opening as int] == '<',
        forall|j: int| opening < j < n ==> is_digit(#[trigger] text[j]),
        scan(text, n) is Ok,
    ensures
        ({
            let opened = scan(text, opening + 1)->Ok_0;
            let s = scan(text, n)->Ok_0;
            &&& scan(text, opening + 1) is Ok
            &&& s.skip == decimal(text.subrange(opening as int + 1, n as int))
            &&& s.in_skip
            &&& s.after_skip
            &&& s.capture == opened.capture
            &&& s.wildcards == opened.wildcards
            &&& s.after_capture == opened.after_capture
            &&& s.after_wildcard == opened.after_wildcard
        }),
    decreases n,
{
    lemma_prefix_is_accepted(text, opening, n);
    lemma_prefix_is_accepted(text, opening + 1, n);
    assert(scan(text, opening + 1) == step(scan(text, opening)->Ok_0, opening, text[opening as int]));
    if n == opening + 1 {
        assert(text.subrange(opening as int + 1, n as int).len() == 0);
    } else {
        lemma_prefix_is_accepted(text, (n - 1) as nat, n);
        lemma_digits_accumulate(text, opening, (n - 1) as nat);
        let digits = text.subrange(opening as int + 1, n as int);
        assert(digits.drop_last() =~= text.subrange(opening as int + 1, n - 1));
        assert(digits.last() == text[n - 1]);
        assert(is_digit(text[n - 1]));
    }
}

/// A skip annotation directly behind the `'#'`: digits between `'<'` and
/// `'>'`, and then another character than `'<'` or `'>'`. The capture of the
/// compiled pattern skips as many resume characters as the digits say in
/// base ten, and resumes at the character behind the `'>'`.
pub proof fn law_skip_annotation_sets_skip_and_resume(text: Seq<char>, at: nat, close: nat)
    requires
        compile(text) is Ok,
        at + 1 < close,
        close + 1 < text.len(),
        text[at as int] == '#',
        text[at as int + 1] == '<',
        forall|j: int| at + 1 < j < close ==> is_digit(#[trigger] text[j]),
        text[close as int] == '>',
        text[close as int + 1] != '<',
        text[close as int + 1] != '>',
    ensures
        compile(text)->Ok_0.capture == Some(
            CaptureModel {
                start: at,
                skip: decimal(text.subrange(at as int + 2, close as int)),
                resume: text[close as int + 1],
            },
        ),
{
    lemma_prefix_is_accepted(text, at + 1, text.len());
    lemma_prefix_is_accepted(text, at + 2, text.len());
    lemma_prefix_is_accepted(text, close, text.len());
    lemma_prefix_is_accepted(text, close + 1, text.len());
    lemma_prefix_is_accepted(text, close + 2, text.len());
    lemma_capture_token(text, at);
    assert(scan(text, at + 2) == step(scan(text, at + 1)->Ok_0, at + 1, '<'));
    lemma_digits_accumulate(text, at + 1, close);
    let inside = scan(text, close)->Ok_0;
    assert(scan(text, close + 1) == step(inside, close, '>'));
    let closed = scan(text, close + 1)->Ok_0;
    assert(scan(text, close + 2) == step(closed, close + 1, text[close as int + 1]));
    lemma_settled_capture_stays(text, close + 2, text.len());
}

/// The scan stands inside a skip annotation exactly where the text says so,
/// and never behind a capture and a wildcard at once.
pub proof fn lemma_scan_knows_annotation(text: Seq<char>, n: nat)
    requires
        n <= text.len(),
    ensures
        scan(text, n) matches Ok(s) ==> s.in_skip == inside_annotation(text, n) && !(
        s.after_capture && s.after_wildcard),
    decreases n,
{
    if n > 0 {
        lemma_scan_knows_annotation(text, (n - 1) as nat);
    }
}

/// Whether the wildcard `w` stands at index `i` of `s` and can change no
/// more: a later wildcard has been read, or another token behind it.
spec fn wildcard_settled(s: ScanState, i: int, w: WildcardModel) -> bool {
    &&& 0 <= i < s.wildcards.len()
    &&& s.wildcards[i] == w
    &&& i < s.wildcards.len() - 1 || !s.after_wildcard
}

/// A wildcard that is settled after `n` characters is the same, and
/// settled, after `m`.
proof fn lemma_settled_wildcard_stays(
    text: Seq<char>,
    n: nat,
    m: nat,
    i: int,
    w: WildcardModel,
)
    requires
        n <= m <= text.len(),
        scan(text, m) is Ok,
        scan(text, n) matches Ok(s) && wildcard_settled(s, i, w),
    ensures
        wildcard_settled(scan(text, m)->Ok_0, i, w),
    decreases m,
{
    if n < m {
        lemma_prefix_is_accepted(text, (m - 1) as nat, m);
        lemma_settled_wildcard_stays(text, n, (m - 1) as nat, i, w);
        let before = scan(text, (m - 1) as nat)->Ok_0;
        lemma_with_last_resume(before.wildcards, text[m - 1]);
    }
}

/// A wildcard keeps its index and its start.
proof fn lemma_places_stay(text: Seq<char>, n: nat, m: nat, i: int)
    requires
        n <= m <= text.len(),
        scan(text, m) is Ok,
        scan(text, n) matches Ok(s) && 0 <= i < s.wildcards.len(),
    ensures
        i < scan(text, m)->Ok_0.wildcards.len(),
        scan(text, m)->Ok_0.wildcards[i].start == scan(text, n)->Ok_0.wildcards[i].start,
    decreases m,
{
    if n < m {
        lemma_prefix_is_accepted(text, (m - 1) as nat, m);
        lemma_places_stay(text, n, (m - 1) as nat, i);
        let before = scan(text, (m - 1) as nat)->Ok_0;
        lemma_with_last_resume(before.wildcards, text[m - 1]);
    }
}

/// Each `'*'` of the text has its wildcard in the compiled pattern: the
/// `'*'` with `k` others before it is recorded at index `k`. Where the text
/// ends there, the wildcard resumes at `'*'` itself; where a character
/// follows that is none of the reserved ones, outside of a skip annotation,
/// it resumes at that character.
pub proof fn law_wildcard_resumes_behind_its_token(text: Seq<char>, at: nat)
    requires
        compile(text) is Ok,
        at < text.len(),
        text[at as int] == '*',
    ensures
        ({
            let p = compile(text)->Ok_0;
            let k = occurrences(text, '*', 0, at) as int;
            &&& k < p.wildcards.len()
            &&& p.wildcards[k].start == at
            &&& at + 1 == text.len() ==> p.wildcards[k].resume == '*'
            &&& at + 1 < text.len() && !is_reserved(text[at as int + 1]) && !inside_annotation(
                text,
                at,
            ) ==> p.wildcards[k].resume == text[at as int + 1]
        }),
{
    let k = occurrences(text, '*', 0, at) as int;
    lemma_prefix_is_accepted(text, at, text.len());
    lemma_prefix_is_accepted(text, at + 1, text.len());
    lemma_scan_counts_tokens(text, at);
    lemma_scan_knows_annotation(text, at);
    let before = scan(text, at)->Ok_0;
    let pushed = scan(text, at + 1)->Ok_0;
    assert(scan(text, at + 1) == step(before, at, '*'));
    assert(pushed.wildcards == before.wildcards.push(WildcardModel { start: at, resume: '*' }));
    assert(pushed.wildcards[k] == WildcardModel { start: at, resume: '*' });
    if at + 1 < text.len() {
        lemma_prefix_is_accepted(text, at + 2, text.len());
        let follower = text[at as int + 1];
        let read = scan(text, at + 2)->Ok_0;
        assert(scan(text, at + 2) == step(pushed, at + 1, follower));
        lemma_with_last_resume(pushed.wildcards, follower);
        lemma_places_stay(text, at + 1, text.len(), k);
        if !is_reserved(follower) && !inside_annotation(text, at) {
            assert(read.wildcards == with_last_resume(pushed.wildcards, follower));
            assert(read.wildcards[k] == WildcardModel { start: at, resume: follower });
            lemma_settled_wildcard_stays(
                text,
                at + 2,
                text.len(),
                k,
                WildcardModel { start: at, resume: follower },
            );
        }
    }
}

/// Whether each wildcard of `s` resumes at `'*'` itself or at a character
/// that is not reserved; only the last one at `'*'`, and only while nothing
/// but `'>'` and digits has been read behind it.
spec fn resumes_are_sound(text: Seq<char>, n: nat, s: ScanState) -> bool {
    &&& forall|i: int|
        0 <= i < s.wildcards.len() ==> (#[trigger] s.wildcards[i]).resume == '*' || !is_reserved(
            s.wildcards[i].resume,
        )
    &&& forall|i: int|
        0 <= i < s.wildcards.len() && (#[trigger] s.wildcards[i]).resume == '*' ==> i
            == s.wildcards.len() - 1 && s.after_wildcard
    &&& s.after_wildcard ==> s.wildcards.len() > 0 && forall|j: int|
        s.wildcards.last().start < j < n ==> #[trigger] text[j] == '>' || is_digit(text[j])
    &&& !(s.after_capture && s.after_wildcard)
}

/// Reading one character keeps the resume characters sound.
proof fn lemma_step_keeps_resumes_sound(text: Seq<char>, at: nat, before: ScanState)
    requires
        at < text.len(),
        resumes_are_sound(text, at, before),
        step(before, at, text[at as int]) is Ok,
    ensures
        resumes_are_sound(text, at + 1, step(before, at, text[at as int])->Ok_0),
{
    let c = text[at as int];
    let after = step(before, at, c)->Ok_0;
    let earlier = before.wildcards;
    let later = after.wildcards;
    lemma_with_last_resume(earlier, c);
    if c == '*' {
        assert(later == earlier.push(WildcardModel { start: at, resume: '*' }));
        assert forall|i: int| 0 <= i < later.len() implies (#[trigger] later[i]).resume == '*'
            || !is_reserved(later[i].resume) by {
            if i < earlier.len() {
                assert(later[i] == earlier[i]);
            }
        }
        assert forall|i: int| 0 <= i < later.len() && (#[trigger] later[i]).resume
            == '*' implies i == later.len() - 1 && after.after_wildcard by {
            if i < earlier.len() {
                assert(later[i] == earlier[i]);
            }
        }
    } else if later != earlier {
        assert(later == with_last_resume(earlier, c));
        assert forall|i: int| 0 <= i < later.len() implies (#[trigger] later[i]).resume != '*'
            && !is_reserved(later[i].resume) by {
            if i < earlier.len() - 1 {
                assert(later[i] == earlier[i]);
            }
        }
    }
}

/// The resume characters are sound after every accepted prefix.
proof fn lemma_scan_keeps_resumes_sound(text: Seq<char>, n: nat)
    requires
        n <= text.len(),
    ensures
        scan(text, n) matches Ok(s) ==> resumes_are_sound(text, n, s),
    decreases n,
{
    if n > 0 {
        lemma_scan_keeps_resumes_sound(text, (n - 1) as nat);
        match scan(text, (n - 1) as nat) {
            Ok(before) => {
                assert(scan(text, n) == step(before, (n - 1) as nat, text[n - 1]));
                if step(before, (n - 1) as nat, text[n - 1]) is Ok {
                    lemma_step_keeps_resumes_sound(text, (n - 1) as nat, before);
                }
            },
            Err(_) => {},
        }
    }
}

/// A wildcard of a compiled pattern resumes at `'*'` itself or at a
/// character that is not reserved. One that resumes at `'*'` is the last
/// token of the text: no wildcard follows it, and no character but `'>'` and
/// digits.
pub proof fn law_open_wildcard_is_the_last_token(text: Seq<char>, i: int)
    requires
        compile(text) is Ok,
        0 <= i < compile(text)->Ok_0.wildcards.len(),
    ensures
        ({
            let p = compile(text)->Ok_0;
            &&& p.wildcards[i].resume == '*' || !is_reserved(p.wildcards[i].resume)
            &&& p.wildcards[i].resume == '*' ==> i == p.wildcards.len() - 1 && forall|j: int|
                p.wildcards[i].start < j < text.len() ==> #[trigger] text[j] == '>' || is_digit(
                    text[j],
                )
        }),
{
    lemma_scan_keeps_resumes_sound(text, text.len());
}

/// Without a `'<'` the skip count stays zero.
proof fn lemma_skip_stays_zero(text: Seq<char>, n: nat)
    requires
        n <= text.len(),
        forall|j: int| 0 <= j < text.len() ==> text[j] != '<',
    ensures
        scan(text, n) matches Ok(s) ==> s.skip == 0 && !s.in_skip,
    decreases n,
{
    if n > 0 {
        lemma_skip_stays_zero(text, (n - 1) as nat);
    }
}

/// A text without `'<'` holds no skip count, so that none is too large.
pub proof fn law_text_without_annotation_fits(text: Seq<char>)
    requires
        forall|j: int| 0 <= j < text.len() ==> text[j] != '<',
    ensures
        skip_fits(text),
{
    assert forall|n: nat| n <= text.len() implies match #[trigger] scan(text, n) {
        Ok(s) => s.skip <= usize::MAX,
        Err(_) => true,
    } by {
        lemma_skip_stays_zero(text, n);
    }
}

} // verus!
