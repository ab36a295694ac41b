//! A minimal pattern-matching engine.
//!
//! A pattern is a sequence of atoms -- literal characters or the
//! single-character wildcard `.` -- each with an optional postfix quantifier
//! (`?`, `*`, `+`). [`Pattern::try_from`] compiles pattern text into an
//! ordered program of [`State`]s; [`Pattern::check`] decides whether a subject
//! string is consumed in full by that program, under greedy backtracking
//! semantics, and reports a located error when it is not.

mod cursor;
mod matching;
mod parsing;

pub use matching::{
    ExpectedCharacter, MatchingError, MatchingErrorType, Span, all_match, check_result,
    count_succeeds, expected_for, greedy_count, head_count_matches, head_matches_upto,
    lemma_check_deterministic, lemma_check_result_matches, lemma_empty_pattern_matches_only_empty,
    lemma_pattern_matches_split,
    pattern_matches, run_length, try_counts,
};
pub use parsing::{
    PatternParsingError, compiles_to, has_quantifier_symbol, is_quantifier_symbol,
    lemma_parse_deterministic, lemma_spec_parse_wf, matching_for, quantifier_for, spec_parse_from,
    state_at, state_end,
};

use vstd::prelude::*;

verus! {

/// How many times one atom may be repeated: at least `min` times and,
/// when `max` is present, at most `max` times.
#[derive(Clone, Copy, PartialEq, Eq, Debug)]
pub struct Quantifier {
    pub min: usize,
    pub max: Option<usize>,
}

/// A quantifier is well formed when its bounds are ordered.
pub open spec fn quantifier_wf(q: Quantifier) -> bool {
    match q.max {
        Some(m) => q.min <= m,
        None => true,
    }
}

/// `k` repetitions satisfy the quantifier.
pub open spec fn quant_allows(q: Quantifier, k: int) -> bool {
    q.min <= k && (match q.max {
        Some(m) => k <= m,
        None => true,
    })
}

impl Quantifier {
    /// The quantifier of a bare atom: exactly one occurrence.
    pub fn exactly_one() -> (q: Quantifier)
        ensures
            q == (Quantifier { min: 1usize, max: Some(1usize) }),
    {
        Quantifier { min: 1, max: Some(1) }
    }

    /// The quantifier written `?`.
    pub fn zero_or_one() -> (q: Quantifier)
        ensures
            q == (Quantifier { min: 0usize, max: Some(1usize) }),
    {
        Quantifier { min: 0, max: Some(1) }
    }

    /// The quantifier written `*`.
    pub fn zero_or_more() -> (q: Quantifier)
        ensures
            q == (Quantifier { min: 0usize, max: None::<usize> }),
    {
        Quantifier { min: 0, max: None }
    }

    /// The quantifier written `+`.
    pub fn one_or_more() -> (q: Quantifier)
        ensures
            q == (Quantifier { min: 1usize, max: None::<usize> }),
    {
        Quantifier { min: 1, max: None }
    }
}

/// One matchable atom: a literal code point or the wildcard.
#[derive(Clone, Copy, PartialEq, Eq, Debug)]
pub enum Matching {
    Character { value: char },
    Wildcard,
}

/// Whether a single code point satisfies the atom.
pub open spec fn atom_matches(m: Matching, c: char) -> bool {
    match m {
        Matching::Character { value } => c == value,
        Matching::Wildcard => true,
    }
}

/// One compiled unit of a pattern: an atom and its repetition constraint.
#[derive(Clone, Copy, PartialEq, Eq, Debug)]
pub struct State {
    pub matching: Matching,
    pub quantifier: Quantifier,
}

/// Every quantifier of the program is well formed. The parser only ever
/// emits the four canonical quantifiers, which all satisfy this.
pub open spec fn pattern_wf(states: Seq<State>) -> bool {
    forall|i: int| 0 <= i < states.len() ==> quantifier_wf(#[trigger] states[i].quantifier)
}

/// A compiled pattern: the ordered program of match states, left to right
/// as written in the pattern text.
#[derive(Clone, PartialEq, Eq, Debug)]
pub struct Pattern {
    pub states: Vec<State>,
}

impl View for Pattern {
    type V = Seq<State>;

    open spec fn view(&self) -> Seq<State> {
        self.states@
    }
}

} // verus!
