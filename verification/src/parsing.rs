//! The parser: deterministic single-pass translation of pattern text into
//! the compiled state program.
//!
//! Parsing is greedy and left to right: each atom is read first, then the
//! single quantifier symbol that may follow it. A quantifier symbol found
//! where an atom was expected -- at the start of the pattern or right after
//! another quantifier -- is the one parse failure, [`PatternParsingError`].

use crate::cursor::Cursor;
use crate::{Matching, Pattern, Quantifier, State, pattern_wf, quantifier_wf};
use vstd::prelude::*;

verus! {

/// The only parse failure: a quantifier symbol with no atom of its own to
/// bind to, at the given code-point offset of the pattern text.
#[derive(Clone, Copy, PartialEq, Eq, Debug)]
pub enum PatternParsingError {
    LoneQuantifier { location: usize },
}

/// The three postfix quantifier symbols.
pub open spec fn is_quantifier_symbol(c: char) -> bool {
    c == '?' || c == '*' || c == '+'
}

/// The canonical quantifier a symbol denotes.
pub open spec fn quantifier_for(c: char) -> Quantifier {
    if c == '?' {
        Quantifier { min: 0, max: Some(1) }
    } else if c == '*' {
        Quantifier { min: 0, max: None }
    } else {
        Quantifier { min: 1, max: None }
    }
}

/// The atom a non-quantifier code point denotes.
pub open spec fn matching_for(c: char) -> Matching {
    if c == '.' {
        Matching::Wildcard
    } else {
        Matching::Character { value: c }
    }
}

/// Whether the atom starting at `pos` carries a quantifier symbol.
pub open spec fn has_quantifier_symbol(s: Seq<char>, pos: int) -> bool {
    pos + 1 < s.len() && is_quantifier_symbol(s[pos + 1])
}

/// The state compiled from the atom at `pos` (which must not be a
/// quantifier symbol) and the quantifier symbol that may follow it.
pub open spec fn state_at(s: Seq<char>, pos: int) -> State {
    State {
        matching: matching_for(s[pos]),
        quantifier: if has_quantifier_symbol(s, pos) {
            quantifier_for(s[pos + 1])
        } else {
            Quantifier { min: 1, max: Some(1) }
        },
    }
}

/// The offset of the first code point after the state starting at `pos`.
pub open spec fn state_end(s: Seq<char>, pos: int) -> int {
    if has_quantifier_symbol(s, pos) {
        pos + 2
    } else {
        pos + 1
    }
}

/// What parsing the pattern text from offset `pos` onward yields: the
/// remaining state program, or the first lone-quantifier error.
pub open spec fn spec_parse_from(s: Seq<char>, pos: int) -> Result<Seq<State>, PatternParsingError>
    decreases s.len() - pos,
{
    if pos < 0 || pos >= s.len() {
        Ok(Seq::empty())
    } else if is_quantifier_symbol(s[pos]) {
        Err(PatternParsingError::LoneQuantifier { location: pos as usize })
    } else {
        match spec_parse_from(s, state_end(s, pos)) {
            Ok(rest) => Ok(seq![state_at(s, pos)] + rest),
            Err(e) => Err(e),
        }
    }
}

/// `r` is the outcome of compiling the pattern text `text`.
pub open spec fn compiles_to(text: Seq<char>, r: Result<Pattern, PatternParsingError>) -> bool {
    match spec_parse_from(text, 0) {
        Ok(states) => r matches Ok(p) && p@ == states,
        Err(e) => r == Err::<Pattern, PatternParsingError>(e),
    }
}

/// Compiling the same pattern text twice yields the same outcome: two
/// results of compiling `text` succeed or fail together, successes carry
/// equal state programs, and failures are the same error.
pub proof fn lemma_parse_deterministic(
    text: Seq<char>,
    r1: Result<Pattern, PatternParsingError>,
    r2: Result<Pattern, PatternParsingError>,
)
    requires
        compiles_to(text, r1),
        compiles_to(text, r2),
    ensures
        r1 is Ok <==> r2 is Ok,
        r1 matches Ok(p1) ==> r2 matches Ok(p2) && p1@ == p2@,
        r1 is Err ==> r1 == r2,
{
}

/// Every state program the parser yields has well-formed quantifiers: the
/// four canonical quantifiers are the only ones it emits.
pub proof fn lemma_spec_parse_wf(s: Seq<char>, pos: int)
    requires
        spec_parse_from(s, pos) is Ok,
    ensures
        pattern_wf(spec_parse_from(s, pos)->Ok_0),
    decreases s.len() - pos,
{
    if pos < 0 || pos >= s.len() {
    } else {
        lemma_spec_parse_wf(s, state_end(s, pos));
        let head = state_at(s, pos);
        assert(quantifier_wf(head.quantifier));
        let states = spec_parse_from(s, pos)->Ok_0;
        let rest = spec_parse_from(s, state_end(s, pos))->Ok_0;
        assert forall|i: int| 0 <= i < states.len() implies quantifier_wf(
            #[trigger] states[i].quantifier,
        ) by {
            if i > 0 {
                assert(states[i] == rest[i - 1]);
            }
        }
    }
}

/// The parser proper: a cursor over the pattern text.
pub(crate) struct PatternParser<'a>(pub(crate) Cursor<'a>);

impl<'a> PatternParser<'a> {
    /// Consumes one code point and interprets it as an atom; a quantifier
    /// symbol here has no atom to bind to and is the lone-quantifier error.
    fn parse_matching(&mut self) -> (r: Result<Matching, PatternParsingError>)
        requires
            old(self).0.wf(),
            old(self).0.pos() < old(self).0.text().len(),
        ensures
            final(self).0.wf(),
            final(self).0.text() == old(self).0.text(),
            final(self).0.pos() == old(self).0.pos() + 1,
            r == (if is_quantifier_symbol(old(self).0.text()[old(self).0.pos()]) {
                Err::<Matching, PatternParsingError>(PatternParsingError::LoneQuantifier {
                    location: old(self).0.pos() as usize,
                })
            } else {
                Ok::<Matching, PatternParsingError>(matching_for(
                    old(self).0.text()[old(self).0.pos()],
                ))
            }),
    {
        let c = self.0.next().unwrap();
        if c == '?' || c == '*' || c == '+' {
            Err(PatternParsingError::LoneQuantifier { location: self.0.get_next_location() - 1 })
        } else if c == '.' {
            Ok(Matching::Wildcard)
        } else {
            Ok(Matching::Character { value: c })
        }
    }

    /// Peeks the next code point; a quantifier symbol is consumed and
    /// yields its canonical quantifier, anything else leaves the cursor
    /// alone and yields exactly-one.
    fn parse_quantifier(&mut self) -> (q: Quantifier)
        requires
            old(self).0.wf(),
        ensures
            final(self).0.wf(),
            final(self).0.text() == old(self).0.text(),
            (if old(self).0.pos() < old(self).0.text().len() && is_quantifier_symbol(
                old(self).0.text()[old(self).0.pos()],
            ) {
                q == quantifier_for(old(self).0.text()[old(self).0.pos()])
                    && final(self).0.pos() == old(self).0.pos() + 1
            } else {
                q == (Quantifier { min: 1usize, max: Some(1usize) }) && final(self).0.pos() == old(
                    self,
                ).0.pos()
            }),
    {
        let quantifier = match self.0.peek() {
            Some(c) => {
                if c == '?' {
                    Quantifier::zero_or_one()
                } else if c == '*' {
                    Quantifier::zero_or_more()
                } else if c == '+' {
                    Quantifier::one_or_more()
                } else {
                    return Quantifier::exactly_one();
                }
            },
            None => {
                return Quantifier::exactly_one();
            },
        };
        self.0.next();
        quantifier
    }

    /// Parses one atom plus its repetition constraint.
    fn parse_state(&mut self) -> (r: Result<State, PatternParsingError>)
        requires
            old(self).0.wf(),
            old(self).0.pos() < old(self).0.text().len(),
        ensures
            final(self).0.wf(),
            final(self).0.text() == old(self).0.text(),
            (if is_quantifier_symbol(old(self).0.text()[old(self).0.pos()]) {
                r == Err::<State, PatternParsingError>(PatternParsingError::LoneQuantifier {
                    location: old(self).0.pos() as usize,
                })
            } else {
                r == Ok::<State, PatternParsingError>(state_at(old(self).0.text(), old(self).0.pos()))
                    && final(self).0.pos() == state_end(old(self).0.text(), old(self).0.pos())
            }),
    {
        let matching = match self.parse_matching() {
            Ok(matching) => matching,
            Err(e) => {
                return Err(e);
            },
        };
        Ok(State { matching, quantifier: self.parse_quantifier() })
    }

    /// Repeats `parse_state` until the pattern text is exhausted. An empty
    /// pattern yields the empty program.
    #[verifier::loop_isolation(false)]
    fn parse_pattern(&mut self) -> (r: Result<Pattern, PatternParsingError>)
        requires
            old(self).0.wf(),
            old(self).0.pos() == 0,
        ensures
            compiles_to(old(self).0.text(), r),
    {
        let ghost text = self.0.text();
        let mut states: Vec<State> = Vec::new();
        proof {
            assert(states@ + spec_parse_from(text, 0)->Ok_0 =~= spec_parse_from(text, 0)->Ok_0);
        }
        while self.0.peek().is_some()
            invariant
                self.0.wf(),
                self.0.text() == text,
                0 <= self.0.pos() <= text.len(),
                (match spec_parse_from(text, self.0.pos()) {
                    Ok(rest) => spec_parse_from(text, 0) == Ok::<Seq<State>, PatternParsingError>(
                        states@ + rest,
                    ),
                    Err(e) => spec_parse_from(text, 0) == Err::<Seq<State>, PatternParsingError>(e),
                }),
            decreases text.len() - self.0.pos(),
        {
            let ghost pos = self.0.pos();
            let state = match self.parse_state() {
                Ok(state) => state,
                Err(e) => {
                    proof {
                        assert(is_quantifier_symbol(text[pos]));
                        assert(spec_parse_from(text, pos) == Err::<
                            Seq<State>,
                            PatternParsingError,
                        >(e));
                    }
                    return Err(e);
                },
            };
            let ghost prev = states@;
            states.push(state);
            proof {
                let head = state_at(text, pos);
                assert(states@ =~= prev + seq![head]);
                if spec_parse_from(text, state_end(text, pos)) is Ok {
                    let rest = spec_parse_from(text, state_end(text, pos))->Ok_0;
                    assert(spec_parse_from(text, pos) == Ok::<Seq<State>, PatternParsingError>(
                        seq![head] + rest,
                    ));
                    assert(prev + (seq![head] + rest) =~= (prev + seq![head]) + rest);
                }
            }
        }
        Ok(Pattern { states })
    }
}

impl Pattern {
    /// Compiles pattern text into a pattern, or reports the first lone
    /// quantifier. The program it yields has only well-formed quantifiers.
    pub fn try_from(input: &str) -> (r: Result<Pattern, PatternParsingError>)
        ensures
            compiles_to(input@, r),
            r matches Ok(p) ==> pattern_wf(p@),
    {
        let mut parser = PatternParser(Cursor::new(input));
        let r = parser.parse_pattern();
        proof {
            if spec_parse_from(input@, 0) is Ok {
                lemma_spec_parse_wf(input@, 0);
            }
        }
        r
    }
}

} // verus!
