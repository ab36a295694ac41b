use pattern_engine::{
    ExpectedCharacter, MatchingError, MatchingErrorType, Pattern, Span,
};

#[test]
fn empty_pattern_matches_empty_string() {
    let pattern = Pattern::try_from("").unwrap();
    assert_eq!(pattern.check(""), Ok(()));
}

#[test]
fn empty_pattern_doesnt_match_non_empty_string() {
    let pattern = Pattern::try_from("").unwrap();
    assert_eq!(
        pattern.check("test"),
        Err(MatchingError {
            kind: MatchingErrorType::ExtraCharacters,
            location: Span { start: 0, end: 4 },
        })
    );
}

#[test]
fn simple_characters() {
    let pattern = Pattern::try_from("abc").unwrap();
    assert_eq!(pattern.check("abc"), Ok(()));
}

#[test]
fn wrong_character() {
    let pattern = Pattern::try_from("abc").unwrap();
    assert_eq!(
        pattern.check("afc"),
        Err(MatchingError {
            kind: MatchingErrorType::UnexpectedCharacter {
                expected: ExpectedCharacter::Specific('b')
            },
            location: Span { start: 1, end: 2 },
        })
    );
}

#[test]
fn unexpected_end_of_string() {
    let pattern = Pattern::try_from("abc").unwrap();
    assert_eq!(
        pattern.check("ab"),
        Err(MatchingError {
            kind: MatchingErrorType::UnexpectedCharacter {
                expected: ExpectedCharacter::Specific('c')
            },
            location: Span { start: 2, end: 3 },
        })
    );
}

#[test]
fn extra_characters() {
    let pattern = Pattern::try_from("abc").unwrap();
    assert_eq!(
        pattern.check("abcd"),
        Err(MatchingError {
            kind: MatchingErrorType::ExtraCharacters,
            location: Span { start: 3, end: 4 },
        })
    );
}

#[test]
fn matching_wildcard() {
    let pattern = Pattern::try_from("a.c").unwrap();
    assert_eq!(pattern.check("auc"), Ok(()));
}

#[test]
fn wildcard_but_string_ends() {
    let pattern = Pattern::try_from("ab.").unwrap();
    assert_eq!(
        pattern.check("ab"),
        Err(MatchingError {
            kind: MatchingErrorType::UnexpectedCharacter {
                expected: ExpectedCharacter::Any
            },
            location: Span { start: 2, end: 3 },
        })
    );
}

#[test]
fn quantified_pattern_accepts_each_shape() {
    let pattern = Pattern::try_from("a?b*c+").unwrap();
    assert_eq!(pattern.check("c"), Ok(()));
    assert_eq!(pattern.check("bc"), Ok(()));
    assert_eq!(pattern.check("abbccc"), Ok(()));
}

#[test]
fn quantified_pattern_rejects_missing_required_atom() {
    let pattern = Pattern::try_from("a?b*c+").unwrap();
    assert!(pattern.check("").is_err());
    assert!(pattern.check("a").is_err());
}

#[test]
fn star_backtracks_to_leave_input_for_the_rest() {
    let pattern = Pattern::try_from("a*a").unwrap();
    assert_eq!(pattern.check("aaa"), Ok(()));
}

#[test]
fn backtracking_failure_reports_the_greedy_attempt() {
    let pattern = Pattern::try_from("a*a").unwrap();
    assert_eq!(
        pattern.check("aab"),
        Err(MatchingError {
            kind: MatchingErrorType::UnexpectedCharacter {
                expected: ExpectedCharacter::Specific('a')
            },
            location: Span { start: 2, end: 3 },
        })
    );
}

#[test]
fn missing_atom_reported_where_matching_stalled() {
    let pattern = Pattern::try_from("a*a").unwrap();
    assert_eq!(
        pattern.check(""),
        Err(MatchingError {
            kind: MatchingErrorType::UnexpectedCharacter {
                expected: ExpectedCharacter::Specific('a')
            },
            location: Span { start: 0, end: 1 },
        })
    );
}

#[test]
fn optional_atom_cannot_absorb_extra_input() {
    let pattern = Pattern::try_from("a?").unwrap();
    assert_eq!(
        pattern.check("aa"),
        Err(MatchingError {
            kind: MatchingErrorType::ExtraCharacters,
            location: Span { start: 1, end: 2 },
        })
    );
}

#[test]
fn unbounded_quantifiers_consume_long_runs() {
    let pattern = Pattern::try_from("a+").unwrap();
    assert_eq!(pattern.check("aaaaaaaa"), Ok(()));
    let any = Pattern::try_from(".*").unwrap();
    assert_eq!(any.check(""), Ok(()));
    assert_eq!(any.check("xyz"), Ok(()));
}

#[test]
fn wildcard_plus_needs_one_code_point() {
    let pattern = Pattern::try_from(".+").unwrap();
    assert_eq!(
        pattern.check(""),
        Err(MatchingError {
            kind: MatchingErrorType::UnexpectedCharacter {
                expected: ExpectedCharacter::Any
            },
            location: Span { start: 0, end: 1 },
        })
    );
}

#[test]
fn locations_count_code_points_not_bytes() {
    let pattern = Pattern::try_from("a\u{00f1}c").unwrap();
    assert_eq!(pattern.check("a\u{00f1}c"), Ok(()));
    assert_eq!(
        pattern.check("a\u{00f1}d"),
        Err(MatchingError {
            kind: MatchingErrorType::UnexpectedCharacter {
                expected: ExpectedCharacter::Specific('c')
            },
            location: Span { start: 2, end: 3 },
        })
    );
}

#[test]
fn matching_twice_yields_the_same_result() {
    let pattern = Pattern::try_from("a?b*c+").unwrap();
    assert_eq!(pattern.check("abbc"), pattern.check("abbc"));
    assert_eq!(pattern.check("nope"), pattern.check("nope"));
}
