use vstd::prelude::*;

verus! {

/// Mathematical value of a wildcard token: where it stands in the pattern
/// text and the character at which it stops. A wildcard whose `resume` is
/// `'*'` itself runs to the end of the candidate.
pub struct WildcardModel {
    pub start: nat,
    pub resume: char,
}

/// Mathematical value of the capture token. A capture whose `resume` is
/// `'#'` itself runs to the end of the candidate.
pub struct CaptureModel {
    pub start: nat,
    pub skip: nat,
    pub resume: char,
}

/// Mathematical value of a compiled pattern: the text as a sequence of
/// Unicode scalar values, the capture if there is one, and the wildcards
/// from left to right.
pub struct PatternModel {
    pub text: Seq<char>,
    pub capture: Option<CaptureModel>,
    pub wildcards: Seq<WildcardModel>,
}

/// Mathematical value of the result of one match. Offsets count Unicode
/// scalar values of the candidate.
pub struct MatchModel {
    pub pattern: Seq<char>,
    pub tag: Seq<char>,
    pub matches: bool,
    pub capture_start: Option<nat>,
    pub capture_end: Option<nat>,
}

} // verus!
