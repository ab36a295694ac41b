use pattern_engine::{Matching, Pattern, PatternParsingError, Quantifier, State};

#[test]
fn simple_letters() {
    let pattern = Pattern::try_from("abc");
    assert_eq!(
        pattern,
        Ok(Pattern {
            states: vec![
                State {
                    matching: Matching::Character { value: 'a' },
                    quantifier: Quantifier::exactly_one(),
                },
                State {
                    matching: Matching::Character { value: 'b' },
                    quantifier: Quantifier::exactly_one(),
                },
                State {
                    matching: Matching::Character { value: 'c' },
                    quantifier: Quantifier::exactly_one(),
                },
            ],
        })
    );
}

#[test]
fn quantifier_in_the_beginning_is_error() {
    let pattern = Pattern::try_from("?");
    assert_eq!(
        pattern,
        Err(PatternParsingError::LoneQuantifier { location: 0 })
    );
}

#[test]
fn two_quantifiers_is_error() {
    let pattern = Pattern::try_from("a?*b");
    assert_eq!(
        pattern,
        Err(PatternParsingError::LoneQuantifier { location: 2 })
    );
}

#[test]
fn right_quantifiers() {
    let pattern = Pattern::try_from("a?b*c+");
    assert_eq!(
        pattern,
        Ok(Pattern {
            states: vec![
                State {
                    matching: Matching::Character { value: 'a' },
                    quantifier: Quantifier::zero_or_one(),
                },
                State {
                    matching: Matching::Character { value: 'b' },
                    quantifier: Quantifier::zero_or_more(),
                },
                State {
                    matching: Matching::Character { value: 'c' },
                    quantifier: Quantifier::one_or_more(),
                },
            ],
        })
    );
}

#[test]
fn parsing_wildcard() {
    let pattern = Pattern::try_from(".*");
    assert_eq!(
        pattern,
        Ok(Pattern {
            states: vec![State {
                matching: Matching::Wildcard,
                quantifier: Quantifier::zero_or_more(),
            }],
        })
    );
}

#[test]
fn empty_pattern_parses_to_zero_states() {
    let pattern = Pattern::try_from("");
    assert_eq!(pattern, Ok(Pattern { states: vec![] }));
}

#[test]
fn lone_quantifier_reports_its_own_offset() {
    assert_eq!(
        Pattern::try_from("*"),
        Err(PatternParsingError::LoneQuantifier { location: 0 })
    );
    assert_eq!(
        Pattern::try_from("ab+*"),
        Err(PatternParsingError::LoneQuantifier { location: 3 })
    );
}

#[test]
fn quantifier_symbol_after_wildcard_binds_to_it() {
    let pattern = Pattern::try_from(".?");
    assert_eq!(
        pattern,
        Ok(Pattern {
            states: vec![State {
                matching: Matching::Wildcard,
                quantifier: Quantifier::zero_or_one(),
            }],
        })
    );
}

#[test]
fn parse_locations_count_code_points() {
    assert_eq!(
        Pattern::try_from("\u{00e9}\u{00e9}?*"),
        Err(PatternParsingError::LoneQuantifier { location: 3 })
    );
}

#[test]
fn compiling_twice_yields_equal_patterns() {
    assert_eq!(Pattern::try_from("a?b*c+"), Pattern::try_from("a?b*c+"));
    assert_eq!(Pattern::try_from("a?*b"), Pattern::try_from("a?*b"));
}
