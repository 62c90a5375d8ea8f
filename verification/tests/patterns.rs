use buzz::patterns::{Capture, Pattern, PatternError, Wildcard, CAPTURE_CHAR, WILDCARD_CHAR};
use std::collections::VecDeque;

#[test]
fn read_valid_pattern_simple() {
    let raw_pattern = String::from("os:Linux");
    let result = Pattern::from(&raw_pattern);
    assert!(!result.is_err(), "Unexpected error: {:?}", result);

    let expected_wildcards_length = 0;

    let pattern = result.unwrap();
    assert_eq!(
        pattern.pattern, raw_pattern,
        "Pattern -- Expected: {}, Actual: {}",
        raw_pattern, pattern.pattern
    );
    assert!(
        pattern.capture.is_none(),
        "Capture -- Expected: No capture, Actual: {:?}",
        pattern.capture
    );
    assert_eq!(
        pattern.wildcards.len(),
        expected_wildcards_length,
        "Wildcards -- Expected: {}, Actual: {:?}",
        expected_wildcards_length,
        pattern.wildcards
    );
}

#[test]
fn read_valid_pattern_capture() {
    let raw_pattern = String::from("os:#");
    let result = Pattern::from(&raw_pattern);
    assert!(!result.is_err(), "Unexpected error: {:?}", result);

    let expected_capture_start = 3;
    let expected_capture_skip = 0;
    let expected_capture_resume = CAPTURE_CHAR;
    let expected_wildcards_length = 0;

    let pattern = result.unwrap();
    assert_eq!(
        pattern.pattern, raw_pattern,
        "Pattern -- Expected: {}, Actual: {}",
        raw_pattern, pattern.pattern
    );
    assert!(
        pattern.capture.is_some(),
        "Capture -- Expected: some capture, Actual: None"
    );
    let capture = pattern.capture.unwrap();
    assert_eq!(
        capture.start, expected_capture_start,
        "Capture start -- Expected: {}, Actual: {}",
        expected_capture_start, capture.start
    );
    assert_eq!(
        capture.skip, expected_capture_skip,
        "Capture skip -- Expected: {}, Actual: {}",
        expected_capture_skip, capture.skip
    );
    assert_eq!(
        capture.resume, expected_capture_resume,
        "Capture resume -- Expected: {}, Actual: {}",
        expected_capture_resume, capture.resume
    );
    assert_eq!(
        pattern.wildcards.len(),
        expected_wildcards_length,
        "Wildcards -- Expected length: {}, Actual: {:?}",
        expected_wildcards_length,
        pattern.wildcards
    );
}

#[test]
fn read_valid_pattern_major_version() {
    let raw_pattern = String::from("version:#.*");
    let result = Pattern::from(&raw_pattern);
    assert!(!result.is_err(), "Unexpected error: {:?}", result);

    let expected_capture_start = 8;
    let expected_capture_skip = 0;
    let expected_capture_resume = '.';
    let expected_wildcards_length = 1;

    let pattern = result.unwrap();
    assert_eq!(
        pattern.pattern, raw_pattern,
        "Pattern -- Expected: {}, Actual: {}",
        raw_pattern, pattern.pattern
    );

    assert!(
        pattern.capture.is_some(),
        "Capture -- Expected: some capture, Actual: None"
    );
    let capture = pattern.capture.unwrap();
    assert_eq!(
        capture.start, expected_capture_start,
        "Capture start -- Expected: {}, Actual: {}",
        expected_capture_start, capture.start
    );
    assert_eq!(
        capture.skip, expected_capture_skip,
        "Capture skip -- Expected: {}, Actual: {}",
        expected_capture_skip, capture.skip
    );
    assert_eq!(
        capture.resume, expected_capture_resume,
        "Capture resume -- Expected: {}, Actual: {}",
        expected_capture_resume, capture.resume
    );

    assert_eq!(
        pattern.wildcards.len(),
        expected_wildcards_length,
        "Wildcards -- Expected length: {}, Actual: {:?}",
        expected_wildcards_length,
        pattern.wildcards
    );
    let wildcard = pattern.wildcards.front().unwrap();
    let expected_wildcard_start = 10;
    let expected_wildcard_resume = WILDCARD_CHAR;
    assert_eq!(
        wildcard.start, expected_wildcard_start,
        "Wildcard start -- Expected: {}, Actual: {}",
        expected_wildcard_start, wildcard.start
    );
    assert_eq!(
        wildcard.resume, expected_wildcard_resume,
        "Wildcard resume -- Expected: {}, Actual: {}",
        expected_wildcard_resume, wildcard.resume
    );
}

#[test]
fn read_valid_pattern_capture_major_minor_version() {
    let raw_pattern = String::from("version:#<1>.*");
    let result = Pattern::from(&raw_pattern);
    assert!(!result.is_err(), "Unexpected error: {:?}", result);

    let expected_capture_start = 8;
    let expected_capture_skip = 1;
    let expected_capture_resume = '.';
    let expected_wildcards_length = 1;

    let pattern = result.unwrap();
    assert_eq!(
        pattern.pattern, raw_pattern,
        "Pattern -- Expected: {}, Actual: {}",
        raw_pattern, pattern.pattern
    );

    assert!(
        pattern.capture.is_some(),
        "Capture -- Expected: some capture, Actual: None"
    );
    let capture = pattern.capture.unwrap();
    assert_eq!(
        capture.start, expected_capture_start,
        "Capture start -- Expected: {}, Actual: {}",
        expected_capture_start, capture.start
    );
    assert_eq!(
        capture.skip, expected_capture_skip,
        "Capture skip -- Expected: {}, Actual: {}",
        expected_capture_skip, capture.skip
    );
    assert_eq!(
        capture.resume, expected_capture_resume,
        "Capture resume -- Expected: {}, Actual: {}",
        expected_capture_resume, capture.resume
    );

    assert_eq!(
        pattern.wildcards.len(),
        expected_wildcards_length,
        "Wildcards -- Expected length: {}, Actual: {:?}",
        expected_wildcards_length,
        pattern.wildcards
    );
    let wildcard = pattern.wildcards.front().unwrap();
    let expected_wildcard_start = 13;
    let expected_wildcard_resume = WILDCARD_CHAR;
    assert_eq!(
        wildcard.start, expected_wildcard_start,
        "Wildcard start -- Expected: {}, Actual: {}",
        expected_wildcard_start, wildcard.start
    );
    assert_eq!(
        wildcard.resume, expected_wildcard_resume,
        "Wildcard resume -- Expected: {}, Actual: {}",
        expected_wildcard_resume, wildcard.resume
    );
}

#[test]
fn read_valid_pattern_capture_5_chars() {
    let raw_pattern = String::from("version:#<5>*");
    let result = Pattern::from(&raw_pattern);
    assert!(!result.is_err(), "Unexpected error: {:?}", result);

    let expected_capture_start = 8;
    let expected_capture_skip = 5;
    let expected_capture_resume = WILDCARD_CHAR;
    let expected_wildcards_length = 1;

    let pattern = result.unwrap();
    assert_eq!(
        pattern.pattern, raw_pattern,
        "Pattern -- Expected: {}, Actual: {}",
        raw_pattern, pattern.pattern
    );

    assert!(
        pattern.capture.is_some(),
        "Capture -- Expected: some capture, Actual: None"
    );
    let capture = pattern.capture.unwrap();
    assert_eq!(
        capture.start, expected_capture_start,
        "Capture start -- Expected: {}, Actual: {}",
        expected_capture_start, capture.start
    );
    assert_eq!(
        capture.skip, expected_capture_skip,
        "Capture skip -- Expected: {}, Actual: {}",
        expected_capture_skip, capture.skip
    );
    assert_eq!(
        capture.resume, expected_capture_resume,
        "Capture resume -- Expected: {}, Actual: {}",
        expected_capture_resume, capture.resume
    );

    assert_eq!(
        pattern.wildcards.len(),
        expected_wildcards_length,
        "Wildcards -- Expected length: {}, Actual: {:?}",
        expected_wildcards_length,
        pattern.wildcards
    );
    let wildcard = pattern.wildcards.front().unwrap();
    let expected_wildcard_start = 12;
    let expected_wildcard_resume = WILDCARD_CHAR;
    assert_eq!(
        wildcard.start, expected_wildcard_start,
        "Wildcard start -- Expected: {}, Actual: {}",
        expected_wildcard_start, wildcard.start
    );
    assert_eq!(
        wildcard.resume, expected_wildcard_resume,
        "Wildcard resume -- Expected: {}, Actual: {}",
        expected_wildcard_resume, wildcard.resume
    );
}

#[test]
fn read_valid_pattern_semantic_dev_version() {
    let raw_pattern = String::from("version:*-dev");
    let result = Pattern::from(&raw_pattern);
    assert!(!result.is_err(), "Unexpected error: {:?}", result);

    let pattern = result.unwrap();
    assert_eq!(
        pattern.pattern, raw_pattern,
        "Pattern -- Expected: {}, Actual: {}",
        raw_pattern, pattern.pattern
    );

    assert!(
        pattern.capture.is_none(),
        "Capture -- Expected: None, Actual: {:?}",
        pattern.capture
    );

    let expected_wildcards_length = 1;
    assert_eq!(
        pattern.wildcards.len(),
        expected_wildcards_length,
        "Wildcards -- Expected length: {}, Actual: {:?}",
        expected_wildcards_length,
        pattern.wildcards
    );
    let wildcard = pattern.wildcards.front().unwrap();
    let expected_wildcard_start = 8;
    let expected_wildcard_resume = '-';
    assert_eq!(
        wildcard.start, expected_wildcard_start,
        "Wildcard start -- Expected: {}, Actual: {}",
        expected_wildcard_start, wildcard.start
    );
    assert_eq!(
        wildcard.resume, expected_wildcard_resume,
        "Wildcard resume -- Expected: {}, Actual: {}",
        expected_wildcard_resume, wildcard.resume
    );
}

#[test]
fn read_valid_pattern_wildcard_at_start() {
    let raw_pattern = String::from("*suffix");
    let result = Pattern::from(&raw_pattern);
    assert!(!result.is_err(), "Unexpected error: {:?}", result);

    let pattern = result.unwrap();
    assert_eq!(
        pattern.pattern, raw_pattern,
        "Pattern -- Expected: {}, Actual: {}",
        raw_pattern, pattern.pattern
    );

    assert!(
        pattern.capture.is_none(),
        "Capture -- Expected: None, Actual: {:?}",
        pattern.capture
    );

    let expected_wildcards_length = 1;
    assert_eq!(
        pattern.wildcards.len(),
        expected_wildcards_length,
        "Wildcards -- Expected length: {}, Actual: {:?}",
        expected_wildcards_length,
        pattern.wildcards
    );
    let wildcard = pattern.wildcards.front().unwrap();
    let expected_wildcard_start = 0;
    let expected_wildcard_resume = 's';
    assert_eq!(
        wildcard.start, expected_wildcard_start,
        "Wildcard start -- Expected: {}, Actual: {}",
        expected_wildcard_start, wildcard.start
    );
    assert_eq!(
        wildcard.resume, expected_wildcard_resume,
        "Wildcard resume -- Expected: {}, Actual: {}",
        expected_wildcard_resume, wildcard.resume
    );
}

#[test]
fn read_valid_pattern_wildcard_at_start_and_end() {
    let raw_pattern = String::from("*middle*");
    let result = Pattern::from(&raw_pattern);
    assert!(!result.is_err(), "Unexpected error: {:?}", result);

    let pattern = result.unwrap();
    assert_eq!(
        pattern.pattern, raw_pattern,
        "Pattern -- Expected: {}, Actual: {}",
        raw_pattern, pattern.pattern
    );

    assert!(
        pattern.capture.is_none(),
        "Capture -- Expected: None, Actual: {:?}",
        pattern.capture
    );

    let expected_wildcards_length = 2;
    assert_eq!(
        pattern.wildcards.len(),
        expected_wildcards_length,
        "Wildcards -- Expected length: {}, Actual: {:?}",
        expected_wildcards_length,
        pattern.wildcards
    );
    let mut wildcard_iterator = pattern.wildcards.iter();

    let mut wrapped_wildcard = wildcard_iterator.next();
    let mut wildcard = wrapped_wildcard.unwrap();
    let expected_wildcard_start = 0;
    let expected_wildcard_resume = 'm';
    assert_eq!(
        wildcard.start, expected_wildcard_start,
        "Wildcard start -- Expected: {}, Actual: {}",
        expected_wildcard_start, wildcard.start
    );
    assert_eq!(
        wildcard.resume, expected_wildcard_resume,
        "Wildcard resume -- Expected: {}, Actual: {}",
        expected_wildcard_resume, wildcard.resume
    );

    wrapped_wildcard = wildcard_iterator.next();
    wildcard = wrapped_wildcard.unwrap();
    let expected_wildcard_start = 7;
    let expected_wildcard_resume = WILDCARD_CHAR;
    assert_eq!(
        wildcard.start, expected_wildcard_start,
        "Wildcard start -- Expected: {}, Actual: {}",
        expected_wildcard_start, wildcard.start
    );
    assert_eq!(
        wildcard.resume, expected_wildcard_resume,
        "Wildcard resume -- Expected: {}, Actual: {}",
        expected_wildcard_resume, wildcard.resume
    );
}

#[test]
fn read_invalid_pattern_capture_immediately_after_capture() {
    let raw_pattern = String::from("os:##");
    let result = Pattern::from(&raw_pattern);
    assert!(result.is_err(), "Expected error. Actual: {:?}", result);
    let err = result.unwrap_err();
    assert!(
        match err {
            PatternError::CaptureImmediatelyAfterCaptureNotAllowed => true,
            _ => false,
        },
        "Error -- Expected: CaptureImmediatelyAfterCaptureNotAllowed, Actual: {:?}",
        err
    );
}

#[test]
fn read_invalid_pattern_capture_after_capture() {
    let raw_pattern = String::from("python:#.#.*");
    let result = Pattern::from(&raw_pattern);
    assert!(result.is_err(), "Expected error. Actual: {:?}", result);
    let err = result.unwrap_err();
    assert!(
        match err {
            PatternError::CaptureAfterCaptureNotAllowed => true,
            _ => false,
        },
        "Error -- Expected: CaptureAfterCaptureNotAllowed, Actual: {:?}",
        err
    );
}

#[test]
fn read_invalid_pattern_wildcard_immediately_after_wildcard() {
    let raw_pattern = String::from("os:**");
    let result = Pattern::from(&raw_pattern);
    assert!(result.is_err(), "Expected error. Actual: {:?}", result);
    let err = result.unwrap_err();
    assert!(
        match err {
            PatternError::WildcardImmediatelyAfterWildcardNotAllowed => true,
            _ => false,
        },
        "Error -- Expected: WildcardImmediatelyAfterWildcardNotAllowed, Actual: {:?}",
        err
    );
}

#[test]
fn read_invalid_pattern_capture_immediately_after_wildcard() {
    let raw_pattern = String::from("os:*#");
    let result = Pattern::from(&raw_pattern);
    assert!(result.is_err(), "Expected error. Actual: {:?}", result);
    let err = result.unwrap_err();
    assert!(
        match err {
            PatternError::CaptureImmediatelyAfterWildcardNotAllowed => true,
            _ => false,
        },
        "Error -- Expected: CaptureImmediatelyAfterWildcardNotAllowed, Actual: {:?}",
        err
    );
}

#[test]
fn read_invalid_pattern_trailing_skip() {
    let raw_pattern = String::from("os:#<5>");
    let result = Pattern::from(&raw_pattern);
    assert!(result.is_err(), "Expected error. Actual: {:?}", result);
    let err = result.unwrap_err();
    assert!(
        match err {
            PatternError::TrailingSkipNotAllowed => true,
            _ => false,
        },
        "Error -- Expected: TrailingSkipNotAllowed, Actual: {:?}",
        err
    );
}

#[test]
fn read_invalid_pattern_skip_after_noncapture() {
    let raw_pattern = String::from("os:<5>*");
    let result = Pattern::from(&raw_pattern);
    assert!(result.is_err(), "Expected error. Actual: {:?}", result);
    let err = result.unwrap_err();
    assert!(
        match err {
            PatternError::SkipAfterNonCaptureNotAllowed => true,
            _ => false,
        },
        "Error -- Expected: SkipAfterNonCaptureNotAllowed, Actual: {:?}",
        err
    );
}

#[test]
fn read_invalid_pattern_nonumeric_character_in_skip() {
    let raw_pattern = String::from("version:#<-1>.");
    let result = Pattern::from(&raw_pattern);
    assert!(result.is_err(), "Expected error. Actual: {:?}", result);
    let err = result.unwrap_err();
    assert!(
        match err {
            PatternError::NonNumericCharacterInSkip => true,
            _ => false,
        },
        "Error -- Expected: NonNumericCharacterInSkip, Actual: {:?}",
        err
    );
}

#[test]
fn process_matching_tag() {
    let wildcards: VecDeque<Wildcard> = VecDeque::new();
    let pattern = Pattern {
        pattern: String::from("matching_tag"),
        capture: None,
        wildcards: wildcards,
    };

    let tag = String::from("matching_tag");
    let result = pattern.process(&tag);

    assert!(
        result.is_ok(),
        "Process result -- Expected: No error, Actual: {:?}",
        result
    );

    let processed = result.unwrap();
    assert_eq!(
        processed.pattern, pattern.pattern,
        "Process pattern -- Expected: {}, Actual: {}",
        pattern.pattern, processed.pattern
    );
    assert_eq!(
        processed.tag, tag,
        "Process tag -- Expected: {}, Actual: {}",
        tag, processed.tag
    );
    assert!(
        processed.matches,
        "Process matches -- Expected: true, Actual processed: {:?}",
        processed
    );
}

#[test]
fn process_nonmatching_tag() {
    let wildcards: VecDeque<Wildcard> = VecDeque::new();
    let pattern = Pattern {
        pattern: String::from("matching_tag"),
        capture: None,
        wildcards: wildcards,
    };

    let tag = String::from("matching_not_lol_tag");
    let result = pattern.process(&tag);

    assert!(
        result.is_ok(),
        "Process result -- Expected: No error, Actual: {:?}",
        result
    );

    let processed = result.unwrap();
    assert_eq!(
        processed.pattern, pattern.pattern,
        "Process pattern -- Expected: {}, Actual: {}",
        pattern.pattern, processed.pattern
    );
    assert_eq!(
        processed.tag, tag,
        "Process tag -- Expected: {}, Actual: {}",
        tag, processed.tag
    );
    assert!(
        !processed.matches,
        "Process matches -- Expected: false, Actual processed: {:?}",
        processed
    );
}

#[test]
fn process_nonmatching_tag_due_to_suffix() {
    let wildcards: VecDeque<Wildcard> = VecDeque::new();
    let pattern = Pattern {
        pattern: String::from("matching_tag"),
        capture: None,
        wildcards: wildcards,
    };

    let tag = String::from("matching_tag_not!");
    let result = pattern.process(&tag);

    assert!(
        result.is_ok(),
        "Process result -- Expected: No error, Actual: {:?}",
        result
    );

    let processed = result.unwrap();
    assert_eq!(
        processed.pattern, pattern.pattern,
        "Process pattern -- Expected: {}, Actual: {}",
        pattern.pattern, processed.pattern
    );
    assert_eq!(
        processed.tag, tag,
        "Process tag -- Expected: {}, Actual: {}",
        tag, processed.tag
    );
    assert!(
        !processed.matches,
        "Process matches -- Expected: false, Actual processed: {:?}",
        processed
    );
}

#[test]
fn process_match_multiple_wildcards() {
    let mut wildcards: VecDeque<Wildcard> = VecDeque::new();
    wildcards.push_back(Wildcard {
        start: 8,
        resume: '.',
    });
    wildcards.push_back(Wildcard {
        start: 10,
        resume: '*',
    });
    let pattern = Pattern {
        pattern: String::from("version:*.*"),
        capture: None,
        wildcards: wildcards,
    };

    let tag = String::from("version:1.2");
    let result = pattern.process(&tag);

    assert!(
        result.is_ok(),
        "Process result -- Expected: No error, Actual: {:?}",
        result
    );

    let processed = result.unwrap();
    assert_eq!(
        processed.pattern, pattern.pattern,
        "Process pattern -- Expected: {}, Actual: {}",
        pattern.pattern, processed.pattern
    );
    assert_eq!(
        processed.tag, tag,
        "Process tag -- Expected: {}, Actual: {}",
        tag, processed.tag
    );
    assert!(
        processed.matches,
        "Process matches -- Expected: true, Actual processed: {:?}",
        processed
    );
}

#[test]
fn process_nonmatch_multiple_wildcards() {
    let mut wildcards: VecDeque<Wildcard> = VecDeque::new();
    wildcards.push_back(Wildcard {
        start: 8,
        resume: '.',
    });
    wildcards.push_back(Wildcard {
        start: 10,
        resume: '*',
    });
    let pattern = Pattern {
        pattern: String::from("version:*.*"),
        capture: None,
        wildcards: wildcards,
    };

    let tag = String::from("version:1-2");
    let result = pattern.process(&tag);

    assert!(
        result.is_ok(),
        "Process result -- Expected: No error, Actual: {:?}",
        result
    );

    let processed = result.unwrap();
    assert_eq!(
        processed.pattern, pattern.pattern,
        "Process pattern -- Expected: {}, Actual: {}",
        pattern.pattern, processed.pattern
    );
    assert_eq!(
        processed.tag, tag,
        "Process tag -- Expected: {}, Actual: {}",
        tag, processed.tag
    );
    assert!(
        !processed.matches,
        "Process matches -- Expected: false, Actual processed: {:?}",
        processed
    );
}


#[test]
fn process_python_major_version() {
    let mut wildcards: VecDeque<Wildcard> = VecDeque::new();
    wildcards.push_back(Wildcard {
        start: 9,
        resume: '*',
    });
    let pattern = Pattern {
        pattern: String::from("python:#.*"),
        capture: Some(Capture {
            start: 7,
            skip: 0,
            resume: '.',
        }),
        wildcards: wildcards,
    };

    let tag = String::from("python:3.8.5");
    let result = pattern.process(&tag);

    assert!(
        result.is_ok(),
        "Process result -- Expected: No error, Actual: {:?}",
        result
    );

    let processed = result.unwrap();
    assert_eq!(
        processed.pattern, pattern.pattern,
        "Process pattern -- Expected: {}, Actual: {}",
        pattern.pattern, processed.pattern
    );
    assert_eq!(
        processed.tag, tag,
        "Process tag -- Expected: {}, Actual: {}",
        tag, processed.tag
    );
    assert!(
        processed.matches,
        "Process matches -- Expected: true, Actual processed: {:?}",
        processed
    );
    assert!(
        processed.capture_start.is_some(),
        "Process capture_start -- Expected: Some, Actual: None"
    );
    assert!(
        processed.capture_end.is_some(),
        "Process capture_end -- Expected: Some, Actual: None"
    );

    let expected_capture_start: usize = 7;
    let expected_capture_end: usize = 8;
    assert_eq!(processed.capture_start.unwrap(), expected_capture_start);
    assert_eq!(processed.capture_end.unwrap(), expected_capture_end);
}

#[test]
fn process_python_major_minor_version() {
    let mut wildcards: VecDeque<Wildcard> = VecDeque::new();
    wildcards.push_back(Wildcard {
        start: 12,
        resume: '*',
    });
    let pattern = Pattern {
        pattern: String::from("python:#<1>.*"),
        capture: Some(Capture {
            start: 7,
            skip: 1,
            resume: '.',
        }),
        wildcards: wildcards,
    };

    let tag = String::from("python:3.8.5");
    let result = pattern.process(&tag);

    assert!(
        result.is_ok(),
        "Process result -- Expected: No error, Actual: {:?}",
        result
    );

    let processed = result.unwrap();
    assert_eq!(
        processed.pattern, pattern.pattern,
        "Process pattern -- Expected: {}, Actual: {}",
        pattern.pattern, processed.pattern
    );
    assert_eq!(
        processed.tag, tag,
        "Process tag -- Expected: {}, Actual: {}",
        tag, processed.tag
    );
    assert!(
        processed.matches,
        "Process matches -- Expected: true, Actual processed: {:?}",
        processed
    );
    assert!(
        processed.capture_start.is_some(),
        "Process capture_start -- Expected: Some, Actual: None"
    );
    assert!(
        processed.capture_end.is_some(),
        "Process capture_end -- Expected: Some, Actual: None"
    );

    let expected_capture_start: usize = 7;
    let expected_capture_end: usize = 10;
    assert_eq!(processed.capture_start.unwrap(), expected_capture_start);
    assert_eq!(processed.capture_end.unwrap(), expected_capture_end);
}

#[test]
fn process_python_version() {
    let wildcards: VecDeque<Wildcard> = VecDeque::new();
    let pattern = Pattern {
        pattern: String::from("python:#"),
        capture: Some(Capture {
            start: 7,
            skip: 0,
            resume: '#',
        }),
        wildcards: wildcards,
    };

    let tag = String::from("python:3.8.5");
    let result = pattern.process(&tag);

    assert!(
        result.is_ok(),
        "Process result -- Expected: No error, Actual: {:?}",
        result
    );

    let processed = result.unwrap();
    assert_eq!(
        processed.pattern, pattern.pattern,
        "Process pattern -- Expected: {}, Actual: {}",
        pattern.pattern, processed.pattern
    );
    assert_eq!(
        processed.tag, tag,
        "Process tag -- Expected: {}, Actual: {}",
        tag, processed.tag
    );
    assert!(
        processed.matches,
        "Process matches -- Expected: true, Actual processed: {:?}",
        processed
    );
    assert!(
        processed.capture_start.is_some(),
        "Process capture_start -- Expected: Some, Actual: None"
    );
    assert!(
        processed.capture_end.is_none(),
        "Process capture_end -- Expected: None, Actual processed: {:?}",
        processed
    );

    let expected_capture_start: usize = 7;
    assert_eq!(processed.capture_start.unwrap(), expected_capture_start);
}
