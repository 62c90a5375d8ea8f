use crate::counting::occurrences;
use crate::model::{CaptureModel, PatternModel, WildcardModel};
use crate::syntax::{compile, scan, step, with_last_resume, with_resume, with_skip, ScanState};
use vstd::prelude::*;

verus! {

/// What `with_last_resume` changes: the resume character of the last
/// element, and nothing else.
pub proof fn lemma_with_last_resume(wildcards: Seq<WildcardModel>, resume: char)
    ensures
        with_last_resume(wildcards, resume).len() == wildcards.len(),
        forall|i: int|
            0 <= i < wildcards.len() ==> (#[trigger] with_last_resume(wildcards, resume)[i]).start
                == wildcards[i].start,
        forall|i: int|
            0 <= i < wildcards.len() - 1 ==> #[trigger] with_last_resume(wildcards, resume)[i]
                == wildcards[i],
        wildcards.len() > 0 ==> with_last_resume(wildcards, resume).last().resume == resume,
{
}

/// Whether the fields of `p` count the tokens of its text: one wildcard for
/// each `'*'`, and a capture where there is a `'#'`, of which there is at
/// most one.
pub open spec fn counts_its_tokens(p: PatternModel) -> bool {
    &&& p.wildcards.len() == occurrences(p.text, '*', 0, p.text.len())
    &&& occurrences(p.text, '#', 0, p.text.len()) == if p.capture is Some {
        1nat
    } else {
        0nat
    }
}

/// The state after a prefix counts the tokens of that prefix.
pub proof fn lemma_scan_counts_tokens(text: Seq<char>, n: nat)
    requires
        n <= text.len(),
    ensures
        scan(text, n) matches Ok(s) ==> s.wildcards.len() == occurrences(text, '*', 0, n)
            && occurrences(text, '#', 0, n) == if s.capture is Some {
            1nat
        } else {
            0nat
        },
    decreases n,
{
    if n > 0 {
        lemma_scan_counts_tokens(text, (n - 1) as nat);
        match scan(text, (n - 1) as nat) {
            Ok(before) => {
                let c = text[n - 1];
                assert(scan(text, n) == step(before, (n - 1) as nat, c));
                lemma_with_last_resume(before.wildcards, c);
                assert(with_resume(before.capture, c) is Some <==> before.capture is Some);
                assert(with_skip(before.capture, before.skip) is Some <==> before.capture
                    is Some);
            },
            Err(_) => {},
        }
    }
}

/// A compiled pattern counts the tokens of its text.
pub proof fn law_compiled_pattern_counts_its_tokens(text: Seq<char>)
    ensures
        compile(text) matches Ok(p) ==> p.text == text && counts_its_tokens(p),
{
    lemma_scan_counts_tokens(text, text.len());
}

/// Whether the tokens that `wildcards` and `capture` record stand in `text`
/// before offset `n`: each wildcard at a `'*'`, from left to right, and the
/// capture at a `'#'`.
pub open spec fn tokens_stand_before(
    text: Seq<char>,
    n: nat,
    wildcards: Seq<WildcardModel>,
    capture: Option<CaptureModel>,
) -> bool {
    &&& forall|i: int|
        0 <= i < wildcards.len() ==> (#[trigger] wildcards[i]).start < n && text[wildcards[i].start as int]
            == '*'
    &&& forall|i: int, j: int|
        0 <= i < j < wildcards.len() ==> (#[trigger] wildcards[i]).start < (
        #[trigger] wildcards[j]).start
    &&& capture matches Some(c) ==> c.start < n && text[c.start as int] == '#'
}

/// Reading one character keeps the tokens where the text has them.
proof fn lemma_step_places_tokens(text: Seq<char>, at: nat, before: ScanState)
    requires
        at < text.len(),
        tokens_stand_before(text, at, before.wildcards, before.capture),
        step(before, at, text[at as int]) is Ok,
    ensures
        ({
            let after = step(before, at, text[at as int])->Ok_0;
            tokens_stand_before(text, at + 1, after.wildcards, after.capture)
        }),
{
    let c = text[at as int];
    let after = step(before, at, c)->Ok_0;
    let earlier = before.wildcards;
    let later = after.wildcards;
    lemma_with_last_resume(earlier, c);
    if c == '*' {
        assert(later == earlier.push(WildcardModel { start: at, resume: '*' }));
    }
    assert forall|i: int| 0 <= i < later.len() implies (#[trigger] later[i]).start < at + 1
        && text[later[i].start as int] == '*' by {
        if i < earlier.len() {
            assert(later[i].start == earlier[i].start);
        }
    }
    assert forall|i: int, j: int| 0 <= i < j < later.len() implies (#[trigger] later[i]).start < (
    #[trigger] later[j]).start by {
        assert(later[i].start == earlier[i].start);
        if j < earlier.len() {
            assert(later[j].start == earlier[j].start);
        }
    }
}

/// The tokens read from an accepted prefix stand in that prefix.
proof fn lemma_scan_places_tokens(text: Seq<char>, n: nat)
    requires
        n <= text.len(),
    ensures
        scan(text, n) matches Ok(s) ==> tokens_stand_before(text, n, s.wildcards, s.capture),
    decreases n,
{
    if n > 0 {
        lemma_scan_places_tokens(text, (n - 1) as nat);
        match scan(text, (n - 1) as nat) {
            Ok(before) => {
                let c = text[n - 1];
                assert(scan(text, n) == step(before, (n - 1) as nat, c));
                match step(before, (n - 1) as nat, c) {
                    Ok(after) => {
                        lemma_step_places_tokens(text, (n - 1) as nat, before);
                    },
                    Err(_) => {},
                }
            },
            Err(_) => {},
        }
    }
}

/// Whether the tokens that `p` records stand in its text: each wildcard at a
/// `'*'`, from left to right, and the capture at a `'#'`.
pub open spec fn tokens_stand_in_text(p: PatternModel) -> bool {
    tokens_stand_before(p.text, p.text.len(), p.wildcards, p.capture)
}

/// The tokens of a compiled pattern stand in its text, where their `start`
/// says, in the order of the text.
pub proof fn law_compiled_tokens_stand_in_text(text: Seq<char>)
    ensures
        compile(text) matches Ok(p) ==> tokens_stand_in_text(p),
{
    lemma_scan_places_tokens(text, text.len());
}

} // verus!
