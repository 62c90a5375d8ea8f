use crate::model::{CaptureModel, PatternModel, WildcardModel};
use crate::patterns::PatternError;
use vstd::prelude::*;

verus! {

/// Whether `c` is one of the four characters that the pattern language
/// reserves.
pub open spec fn is_reserved(c: char) -> bool {
    c == '#' || c == '*' || c == '<' || c == '>'
}

/// Whether `c` is one of the ten decimal digits `'0'` to `'9'`.
pub open spec fn is_digit(c: char) -> bool {
    '0' <= c <= '9'
}

/// The number that a decimal digit stands for.
pub open spec fn digit_value(c: char) -> nat
    recommends
        is_digit(c),
{
    (c as int - '0' as int) as nat
}

/// What the compiler knows after reading a prefix of the pattern text.
pub struct ScanState {
    /// The capture read so far, if any.
    pub capture: Option<CaptureModel>,
    /// The wildcards read so far, from left to right.
    pub wildcards: Seq<WildcardModel>,
    /// The skip count accumulated since the last `'<'`; zero before the first.
    pub skip: nat,
    /// The previous token was a wildcard.
    pub after_wildcard: bool,
    /// The previous token was a capture.
    pub after_capture: bool,
    /// The previous token was a skip marker.
    pub after_skip: bool,
    /// The scan stands inside a skip annotation.
    pub in_skip: bool,
}

/// The state before any character is read.
pub open spec fn initial_state() -> ScanState {
    ScanState {
        capture: None,
        wildcards: Seq::empty(),
        skip: 0,
        after_wildcard: false,
        after_capture: false,
        after_skip: false,
        in_skip: false,
    }
}

/// `capture` with its resume character replaced.
pub open spec fn with_resume(capture: Option<CaptureModel>, resume: char) -> Option<CaptureModel> {
    match capture {
        Some(c) => Some(CaptureModel { start: c.start, skip: c.skip, resume }),
        None => None,
    }
}

/// `capture` with its skip count replaced.
pub open spec fn with_skip(capture: Option<CaptureModel>, skip: nat) -> Option<CaptureModel> {
    match capture {
        Some(c) => Some(CaptureModel { start: c.start, skip, resume: c.resume }),
        None => None,
    }
}

/// `wildcards` with the resume character of its last element replaced.
pub open spec fn with_last_resume(wildcards: Seq<WildcardModel>, resume: char) -> Seq<
    WildcardModel,
> {
    if wildcards.len() == 0 {
        wildcards
    } else {
        wildcards.drop_last().push(WildcardModel { start: wildcards.last().start, resume })
    }
}

/// Reads the character `c` found at offset `at` of the pattern text: the next
/// state, or the rule that `c` breaks at this place.
///
/// - `'#'` is refused where the previous token is a wildcard, where it is the
///   capture (with its skip annotation, if it has one), and wherever a
///   capture was read before. Else it is the capture, which resumes at `'#'`
///   itself and skips nothing until the text says otherwise.
/// - `'*'` is refused where the previous token is a wildcard. Else it is one
///   more wildcard, which resumes at `'*'` itself until the text says
///   otherwise, and the resume character of a capture that is the previous
///   token.
/// - `'<'` is refused unless the previous token is the capture. It opens a
///   skip annotation and sets the skip count to zero.
/// - `'>'` closes the skip annotation and gives the capture, if there is
///   one, the skip count read last. The previous token stays what it was.
/// - Inside a skip annotation a decimal digit is appended to the skip count,
///   and any other character that is not reserved is refused.
/// - Any other character is a literal: the resume character of the capture,
///   or else of the wildcard, that is the previous token.
pub open spec fn step(s: ScanState, at: nat, c: char) -> Result<ScanState, PatternError> {
    if c == '#' {
        if s.after_wildcard {
            Err(PatternError::CaptureImmediatelyAfterWildcardNotAllowed)
        } else if s.after_capture {
            Err(PatternError::CaptureImmediatelyAfterCaptureNotAllowed)
        } else if s.capture is Some {
            Err(PatternError::CaptureAfterCaptureNotAllowed)
        } else {
            Ok(
                ScanState {
                    capture: Some(CaptureModel { start: at, skip: 0, resume: '#' }),
                    after_wildcard: false,
                    after_capture: true,
                    after_skip: false,
                    ..s
                },
            )
        }
    } else if c == '*' {
        if s.after_wildcard {
            Err(PatternError::WildcardImmediatelyAfterWildcardNotAllowed)
        } else {
            Ok(
                ScanState {
                    capture: if s.after_capture {
                        with_resume(s.capture, '*')
                    } else {
                        s.capture
                    },
                    wildcards: s.wildcards.push(WildcardModel { start: at, resume: '*' }),
                    after_wildcard: true,
                    after_capture: false,
                    after_skip: false,
                    ..s
                },
            )
        }
    } else if c == '<' {
        if !s.after_capture {
            Err(PatternError::SkipAfterNonCaptureNotAllowed)
        } else {
            Ok(ScanState { skip: 0, after_skip: true, in_skip: true, ..s })
        }
    } else if c == '>' {
        Ok(ScanState { capture: with_skip(s.capture, s.skip), in_skip: false, ..s })
    } else if s.in_skip {
        if is_digit(c) {
            Ok(ScanState { skip: 10 * s.skip + digit_value(c), ..s })
        } else {
            Err(PatternError::NonNumericCharacterInSkip)
        }
    } else {
        Ok(
            ScanState {
                capture: if s.after_capture {
                    with_resume(s.capture, c)
                } else {
                    s.capture
                },
                wildcards: if !s.after_capture && s.after_wildcard {
                    with_last_resume(s.wildcards, c)
                } else {
                    s.wildcards
                },
                after_wildcard: false,
                after_capture: false,
                after_skip: false,
                ..s
            },
        )
    }
}

/// The state after the first `n` characters of `text`, or the first rule
/// that one of them breaks.
pub open spec fn scan(text: Seq<char>, n: nat) -> Result<ScanState, PatternError>
    recommends
        n <= text.len(),
    decreases n,
{
    if n == 0 {
        Ok(initial_state())
    } else {
        match scan(text, (n - 1) as nat) {
            Ok(s) => step(s, (n - 1) as nat, text[n - 1]),
            Err(e) => Err(e),
        }
    }
}

/// What compiling `text` yields: the pattern, or the first rule that the
/// text breaks. A text that ends with a skip marker as its previous token,
/// in or right behind a skip annotation, breaks the rule on trailing skips.
pub open spec fn compile(text: Seq<char>) -> Result<PatternModel, PatternError> {
    match scan(text, text.len()) {
        Ok(s) => if s.after_skip {
            Err(PatternError::TrailingSkipNotAllowed)
        } else {
            Ok(PatternModel { text, capture: s.capture, wildcards: s.wildcards })
        },
        Err(e) => Err(e),
    }
}

/// Every skip count that the compiler accumulates while it reads `text`
/// fits in a `usize`.
pub open spec fn skip_fits(text: Seq<char>) -> bool {
    forall|n: nat|
        n <= text.len() ==> match #[trigger] scan(text, n) {
            Ok(s) => s.skip <= usize::MAX,
            Err(_) => true,
        }
}

/// Whether offset `n` of `text` lies inside a skip annotation: the nearest
/// `'<'` or `'>'` before it is a `'<'`.
pub open spec fn inside_annotation(text: Seq<char>, n: nat) -> bool
    recommends
        n <= text.len(),
    decreases n,
{
    if n == 0 {
        false
    } else if text[n - 1] == '<' {
        true
    } else if text[n - 1] == '>' {
        false
    } else {
        inside_annotation(text, (n - 1) as nat)
    }
}

/// The number that a run of decimal digits stands for; zero for no digit.
pub open spec fn decimal(digits: Seq<char>) -> nat
    decreases digits.len(),
{
    if digits.len() == 0 {
        0
    } else {
        10 * decimal(digits.drop_last()) + digit_value(digits.last())
    }
}

/// Once a prefix of the text has broken a rule, every longer prefix reports
/// the same rule.
pub proof fn lemma_scan_error_persists(text: Seq<char>, n: nat, m: nat)
    requires
        n <= m,
        scan(text, n) is Err,
    ensures
        scan(text, m) == scan(text, n),
    decreases m,
{
    if n < m {
        lemma_scan_error_persists(text, n, (m - 1) as nat);
    }
}

/// A prefix of a text that breaks no rule breaks none.
pub proof fn lemma_prefix_is_accepted(text: Seq<char>, n: nat, m: nat)
    requires
        n <= m,
        scan(text, m) is Ok,
    ensures
        scan(text, n) is Ok,
{
    if scan(text, n) is Err {
        lemma_scan_error_persists(text, n, m);
    }
}

} // verus!
