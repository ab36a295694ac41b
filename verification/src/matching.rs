//! The matcher: deciding whether a subject string is consumed in full by a
//! compiled pattern, under greedy backtracking semantics.
//!
//! The semantics are given twice. [`check_result`] is the operational
//! specification: greedy repetition counts, descending backtracking, and
//! the exact located error of the greedy attempt when every count fails.
//! [`pattern_matches`] is the declarative relation: some split of the
//! subject satisfies every state in order. [`lemma_check_result_matches`]
//! proves that the two agree on success for every well-formed pattern.

use crate::cursor::Cursor;
use crate::{Matching, Pattern, Quantifier, State, atom_matches, pattern_wf, quant_allows,
    quantifier_wf};
use vstd::prelude::*;

verus! {

/// What the pattern required at the point of a failed match.
#[derive(Clone, Copy, PartialEq, Eq, Debug)]
pub enum ExpectedCharacter {
    Specific(char),
    Any,
}

/// The two ways a match can fail.
#[derive(Clone, Copy, PartialEq, Eq, Debug)]
pub enum MatchingErrorType {
    ExtraCharacters,
    UnexpectedCharacter { expected: ExpectedCharacter },
}

/// A half-open range of code-point offsets into the subject.
#[derive(Clone, Copy, PartialEq, Eq, Debug)]
pub struct Span {
    pub start: usize,
    pub end: usize,
}

/// A failed match: its kind and the offending span of the subject.
#[derive(Clone, Copy, PartialEq, Eq, Debug)]
pub struct MatchingError {
    pub kind: MatchingErrorType,
    pub location: Span,
}

/// The error payload that names the failed atom.
pub open spec fn expected_for(m: Matching) -> ExpectedCharacter {
    match m {
        Matching::Character { value } => ExpectedCharacter::Specific(value),
        Matching::Wildcard => ExpectedCharacter::Any,
    }
}

/// The number of consecutive code points of `s`, starting at `pos`, that
/// satisfy the atom `m`.
pub open spec fn run_length(m: Matching, s: Seq<char>, pos: int) -> int
    decreases s.len() - pos,
{
    if pos < 0 || pos >= s.len() {
        0
    } else if atom_matches(m, s[pos]) {
        1 + run_length(m, s, pos + 1)
    } else {
        0
    }
}

/// The largest repetition count the greedy attempt uses: the available
/// count, capped by the quantifier's upper bound.
pub open spec fn greedy_count(q: Quantifier, avail: int) -> int {
    match q.max {
        Some(m) => if m < avail {
            m as int
        } else {
            avail
        },
        None => avail,
    }
}

/// What backtracking over the repetition counts `k` down to the
/// quantifier's minimum yields: success as soon as one count lets the
/// rest of the pattern consume the rest of the subject, and otherwise the
/// error of the largest (greediest) count tried.
pub open spec fn try_counts(states: Seq<State>, s: Seq<char>, i: int, pos: int, k: int) -> Result<
    (),
    MatchingError,
>
    decreases states.len() - i, 0int, (if k >= 0 { k } else { 0int }),
{
    if 0 <= i < states.len() && k >= 0 {
        if k <= states[i].quantifier.min {
            check_result(states, s, i + 1, pos + k)
        } else {
            match try_counts(states, s, i, pos, k - 1) {
                Ok(()) => Ok(()),
                Err(_) => check_result(states, s, i + 1, pos + k),
            }
        }
    } else {
        // outside the range the matcher ever uses
        Ok(())
    }
}

/// What matching states `i..` of the pattern against code points `pos..`
/// of the subject yields, under greedy backtracking.
///
/// With no states left, success means the subject is exhausted; leftover
/// input is the extra-characters error over the whole unconsumed tail.
/// Otherwise the first state may consume between `min` and `max`
/// repetitions, one code point each: if fewer than `min` satisfying code
/// points are available the greedy attempt fails right there, at the
/// first offending offset; otherwise the largest feasible count down to
/// `min` are tried in turn, and when none lets the continuation succeed,
/// the error reported is the greedy (largest-count) attempt's.
pub open spec fn check_result(states: Seq<State>, s: Seq<char>, i: int, pos: int) -> Result<
    (),
    MatchingError,
>
    decreases states.len() - i, 1int, 0int,
{
    if i < 0 || i >= states.len() {
        if pos >= s.len() {
            Ok(())
        } else {
            Err(MatchingError {
                kind: MatchingErrorType::ExtraCharacters,
                location: Span { start: pos as usize, end: s.len() as usize },
            })
        }
    } else {
        let st = states[i];
        let run = run_length(st.matching, s, pos);
        if run < st.quantifier.min {
            Err(MatchingError {
                kind: MatchingErrorType::UnexpectedCharacter { expected: expected_for(st.matching) },
                location: Span { start: (pos + run) as usize, end: (pos + run + 1) as usize },
            })
        } else {
            try_counts(states, s, i, pos, greedy_count(st.quantifier, run))
        }
    }
}

/// Taking `k` repetitions of the state at `i` lets the rest of the
/// pattern consume the rest of the subject.
pub open spec fn count_succeeds(states: Seq<State>, s: Seq<char>, i: int, pos: int, k: int) -> bool {
    0 <= i < states.len() && check_result(states, s, i + 1, pos + k) is Ok
}

/// Every code point of `s` satisfies the atom `m`.
pub open spec fn all_match(m: Matching, s: Seq<char>) -> bool {
    forall|j: int| 0 <= j < s.len() ==> atom_matches(m, #[trigger] s[j])
}

/// Some repetition count of the first state, at most `k`, consumes a
/// prefix of the subject whose remainder the remaining states match.
pub open spec fn head_matches_upto(states: Seq<State>, s: Seq<char>, k: int) -> bool
    decreases states.len(), 0int, (if k >= 0 { k } else { 0int }),
{
    if states.len() > 0 && 0 <= k {
        (k <= s.len() && quant_allows(states[0].quantifier, k) && all_match(
            states[0].matching,
            s.subrange(0, k),
        ) && pattern_matches(states.drop_first(), s.subrange(k, s.len() as int))) || (k
            > states[0].quantifier.min && head_matches_upto(states, s, k - 1))
    } else {
        false
    }
}

/// The declarative matching relation: the subject can be split into
/// consecutive runs, one per state in order, each run satisfying its
/// state's atom with a repetition count its quantifier allows, such that
/// the whole subject is consumed. The empty pattern matches only the
/// empty subject.
pub open spec fn pattern_matches(states: Seq<State>, s: Seq<char>) -> bool
    decreases states.len(), 1int, 0int,
{
    if states.len() == 0 {
        s.len() == 0
    } else {
        head_matches_upto(states, s, greedy_count(states[0].quantifier, s.len() as int))
    }
}

/// The first state consumes exactly `k` code points of the subject and
/// the remaining states consume the rest.
pub open spec fn head_count_matches(states: Seq<State>, s: Seq<char>, k: int) -> bool {
    &&& states.len() > 0
    &&& 0 <= k <= s.len()
    &&& quant_allows(states[0].quantifier, k)
    &&& all_match(states[0].matching, s.subrange(0, k))
    &&& pattern_matches(states.drop_first(), s.subrange(k, s.len() as int))
}

/// The run of satisfying code points is within bounds, all its code
/// points satisfy the atom, and it is maximal: it ends at the end of the
/// subject or at a code point that does not satisfy the atom.
proof fn lemma_run_length_props(m: Matching, s: Seq<char>, pos: int)
    requires
        0 <= pos <= s.len(),
    ensures
        0 <= run_length(m, s, pos) <= s.len() - pos,
        forall|j: int| pos <= j < pos + run_length(m, s, pos) ==> atom_matches(m, #[trigger] s[j]),
        pos + run_length(m, s, pos) == s.len() || !atom_matches(m, s[pos + run_length(m, s, pos)]),
    decreases s.len() - pos,
{
    if pos < s.len() && atom_matches(m, s[pos]) {
        lemma_run_length_props(m, s, pos + 1);
    }
}

/// A stretch of satisfying code points that ends at the subject's end or
/// at a non-satisfying code point is exactly the run.
proof fn lemma_run_length_is(m: Matching, s: Seq<char>, pos: int, end: int)
    requires
        0 <= pos <= end <= s.len(),
        forall|j: int| pos <= j < end ==> atom_matches(m, #[trigger] s[j]),
        end == s.len() || !atom_matches(m, s[end]),
    ensures
        run_length(m, s, pos) == end - pos,
    decreases end - pos,
{
    if pos < end {
        assert(atom_matches(m, s[pos]));
        lemma_run_length_is(m, s, pos + 1, end);
    }
}

/// Backtracking from count `k` succeeds exactly when some count between
/// the quantifier's minimum and `k` lets the rest of the pattern succeed,
/// and when none does its error is the count-`k` attempt's.
proof fn lemma_try_counts_characterizes(states: Seq<State>, s: Seq<char>, i: int, pos: int, k: int)
    requires
        0 <= i < states.len(),
        k >= states[i].quantifier.min,
    ensures
        try_counts(states, s, i, pos, k) is Ok <==> (exists|j: int|
            #[trigger] count_succeeds(states, s, i, pos, j) && states[i].quantifier.min <= j <= k),
        !(try_counts(states, s, i, pos, k) is Ok) ==> try_counts(states, s, i, pos, k)
            == check_result(states, s, i + 1, pos + k),
    decreases (if k >= 0 { k } else { 0int }),
{
    let lo = states[i].quantifier.min as int;
    if k > lo {
        lemma_try_counts_characterizes(states, s, i, pos, k - 1);
        if try_counts(states, s, i, pos, k) is Ok {
            if try_counts(states, s, i, pos, k - 1) is Ok {
                let j = choose|j: int|
                    #[trigger] count_succeeds(states, s, i, pos, j) && lo <= j <= k - 1;
                assert(count_succeeds(states, s, i, pos, j) && lo <= j <= k);
            } else {
                assert(check_result(states, s, i + 1, pos + k) is Ok);
                assert(count_succeeds(states, s, i, pos, k) && lo <= k <= k);
            }
        } else {
            assert(!(try_counts(states, s, i, pos, k - 1) is Ok));
            assert forall|j: int|
                #[trigger] count_succeeds(states, s, i, pos, j) && lo <= j <= k implies false by {
                if j <= k - 1 {
                    assert(try_counts(states, s, i, pos, k - 1) is Ok);
                } else {
                    assert(check_result(states, s, i + 1, pos + k) is Ok);
                }
            }
        }
    } else {
        assert(k == lo);
        assert(try_counts(states, s, i, pos, k) == check_result(states, s, i + 1, pos + k));
        if try_counts(states, s, i, pos, k) is Ok {
            assert(count_succeeds(states, s, i, pos, k) && lo <= k <= k);
        }
    }
}

/// Some count at most `k` works exactly when some exact count at most
/// `k` splits the subject as the declarative relation asks.
proof fn lemma_head_upto_characterizes(states: Seq<State>, s: Seq<char>, k: int)
    requires
        states.len() > 0,
    ensures
        head_matches_upto(states, s, k) <==> (exists|j: int|
            #[trigger] head_count_matches(states, s, j) && j <= k),
    decreases (if k >= 0 { k } else { 0int }),
{
    if k >= 1 {
        lemma_head_upto_characterizes(states, s, k - 1);
    }
    if head_matches_upto(states, s, k) {
        if head_count_matches(states, s, k) {
            assert(head_count_matches(states, s, k) && k <= k);
        } else {
            assert(k > states[0].quantifier.min && head_matches_upto(states, s, k - 1));
            let j = choose|j: int| #[trigger] head_count_matches(states, s, j) && j <= k - 1;
            assert(head_count_matches(states, s, j) && j <= k);
        }
    }
    if exists|j: int| #[trigger] head_count_matches(states, s, j) && j <= k {
        let j = choose|j: int| #[trigger] head_count_matches(states, s, j) && j <= k;
        if j == k {
            assert(head_matches_upto(states, s, k));
        } else {
            assert(head_count_matches(states, s, j) && j <= k - 1);
            assert(head_matches_upto(states, s, k - 1));
            assert(k > states[0].quantifier.min);
            assert(head_matches_upto(states, s, k));
        }
    }
}

/// The declarative relation unpacked: a non-empty pattern matches the
/// subject exactly when some repetition count of its first state
/// consumes a prefix whose remainder the remaining states match.
pub proof fn lemma_pattern_matches_split(states: Seq<State>, s: Seq<char>)
    requires
        states.len() > 0,
    ensures
        pattern_matches(states, s) <==> (exists|k: int| #[trigger] head_count_matches(states, s, k)),
{
    let cap = greedy_count(states[0].quantifier, s.len() as int);
    lemma_head_upto_characterizes(states, s, cap);
    if exists|k: int| #[trigger] head_count_matches(states, s, k) {
        let k = choose|k: int| #[trigger] head_count_matches(states, s, k);
        assert(k <= cap);
        assert(head_count_matches(states, s, k) && k <= cap);
    }
    if pattern_matches(states, s) {
        let k = choose|k: int| #[trigger] head_count_matches(states, s, k) && k <= cap;
        assert(head_count_matches(states, s, k));
    }
}

/// The greedy backtracking check and the declarative matching relation
/// agree on success: matching states `i..` against code points `pos..`
/// yields `Ok` exactly when the declarative relation holds of the same
/// suffixes. In particular a subject that the greedy attempt alone would
/// reject is still accepted whenever some smaller repetition count fits.
pub proof fn lemma_check_result_matches(states: Seq<State>, s: Seq<char>, i: int, pos: int)
    requires
        0 <= i <= states.len(),
        0 <= pos <= s.len(),
        pattern_wf(states),
    ensures
        check_result(states, s, i, pos) is Ok <==> pattern_matches(states.skip(i), s.skip(pos)),
    decreases states.len() - i,
{
    let tail_states = states.skip(i);
    let tail = s.skip(pos);
    assert(tail_states.len() == states.len() - i);
    assert(tail.len() == s.len() - pos);
    if i == states.len() {
        assert(check_result(states, s, i, pos) is Ok <==> pos >= s.len());
        assert(pattern_matches(tail_states, tail) <==> tail.len() == 0);
    } else {
        let st = states[i];
        assert(tail_states[0] == st);
        assert(quantifier_wf(st.quantifier));
        let run = run_length(st.matching, s, pos);
        lemma_run_length_props(st.matching, s, pos);
        let lo = st.quantifier.min as int;
        let hi = greedy_count(st.quantifier, run);
        let cap = greedy_count(st.quantifier, tail.len() as int);
        assert(tail_states.drop_first() =~= states.skip(i + 1));
        lemma_head_upto_characterizes(tail_states, tail, cap);

        if check_result(states, s, i, pos) is Ok {
            assert(run >= lo);
            assert(lo <= hi);
            lemma_try_counts_characterizes(states, s, i, pos, hi);
            let k = choose|j: int|
                #[trigger] count_succeeds(states, s, i, pos, j) && lo <= j <= hi;
            assert(count_succeeds(states, s, i, pos, k) && lo <= k <= hi);
            assert(check_result(states, s, i + 1, pos + k) is Ok);
            lemma_check_result_matches(states, s, i + 1, pos + k);
            assert(pattern_matches(states.skip(i + 1), s.skip(pos + k)));
            assert(tail.subrange(k, tail.len() as int) =~= s.skip(pos + k));
            assert forall|j: int| 0 <= j < k implies atom_matches(
                st.matching,
                #[trigger] tail.subrange(0, k)[j],
            ) by {
                assert(tail.subrange(0, k)[j] == s[pos + j]);
            }
            assert(head_count_matches(tail_states, tail, k));
            assert(k <= cap);
            assert(head_matches_upto(tail_states, tail, cap));
            assert(pattern_matches(tail_states, tail));
        }

        if pattern_matches(tail_states, tail) {
            assert(head_matches_upto(tail_states, tail, cap));
            let k = choose|j: int| #[trigger] head_count_matches(tail_states, tail, j) && j <= cap;
            assert(head_count_matches(tail_states, tail, k));
            assert(0 <= k <= tail.len());
            assert(quant_allows(st.quantifier, k));
            assert forall|j: int| pos <= j < pos + k implies atom_matches(
                st.matching,
                #[trigger] s[j],
            ) by {
                assert(s[j] == tail.subrange(0, k)[j - pos]);
            }
            if k > run {
                assert(atom_matches(st.matching, s[pos + run]));
                assert(false);
            }
            assert(lo <= k <= run);
            assert(k <= hi);
            assert(pattern_matches(tail_states.drop_first(), tail.subrange(k, tail.len() as int)));
            assert(tail.subrange(k, tail.len() as int) =~= s.skip(pos + k));
            lemma_check_result_matches(states, s, i + 1, pos + k);
            assert(check_result(states, s, i + 1, pos + k) is Ok);
            assert(count_succeeds(states, s, i, pos, k));
            lemma_try_counts_characterizes(states, s, i, pos, hi);
            assert(try_counts(states, s, i, pos, hi) is Ok);
            assert(check_result(states, s, i, pos) is Ok);
        }
    }
}

/// Matching is a pure function of the compiled pattern and the subject:
/// checking patterns with equal state programs against the same subject
/// yields the same value, with no state retained between calls.
pub proof fn lemma_check_deterministic(
    states1: Seq<State>,
    states2: Seq<State>,
    s: Seq<char>,
    r1: Result<(), MatchingError>,
    r2: Result<(), MatchingError>,
)
    requires
        states1 == states2,
        r1 == check_result(states1, s, 0, 0),
        r2 == check_result(states2, s, 0, 0),
    ensures
        r1 == r2,
{
}

/// The empty pattern matches only the empty subject; any non-empty
/// subject yields the extra-characters error over the whole of it.
pub proof fn lemma_empty_pattern_matches_only_empty(states: Seq<State>, s: Seq<char>)
    requires
        states.len() == 0,
    ensures
        s.len() == 0 ==> check_result(states, s, 0, 0) == Ok::<(), MatchingError>(()),
        s.len() > 0 ==> check_result(states, s, 0, 0) == Err::<(), MatchingError>(
            MatchingError {
                kind: MatchingErrorType::ExtraCharacters,
                location: Span { start: 0, end: s.len() as usize },
            },
        ),
{
}

/// A successful match result carries no payload: there is only one `Ok`.
proof fn lemma_ok_is_unit(r: Result<(), MatchingError>)
    requires
        r is Ok,
    ensures
        r == Ok::<(), MatchingError>(()),
{
    let u = r->Ok_0;
    assert(u == ());
}

/// Whether one code point satisfies the atom.
fn matching_accepts(m: &Matching, c: char) -> (b: bool)
    ensures
        b == atom_matches(*m, c),
{
    match m {
        Matching::Character { value } => c == *value,
        Matching::Wildcard => true,
    }
}

/// The error payload that names the failed atom.
fn expected_character_for(m: &Matching) -> (e: ExpectedCharacter)
    ensures
        e == expected_for(*m),
{
    match m {
        Matching::Character { value } => ExpectedCharacter::Specific(*value),
        Matching::Wildcard => ExpectedCharacter::Any,
    }
}

/// Whether the next code point exists and satisfies the atom.
fn peek_matches(cursor: &Cursor<'_>, m: &Matching) -> (b: bool)
    requires
        cursor.wf(),
    ensures
        b == (cursor.pos() < cursor.text().len() && atom_matches(
            *m,
            cursor.text()[cursor.pos()],
        )),
{
    match cursor.peek() {
        Some(c) => matching_accepts(m, c),
        None => false,
    }
}

/// Counts the run of code points satisfying the atom from the cursor's
/// position, without committing the cursor.
#[verifier::loop_isolation(false)]
fn scan_run(cursor: Cursor<'_>, m: &Matching) -> (run: usize)
    requires
        cursor.wf(),
    ensures
        run == run_length(*m, cursor.text(), cursor.pos()),
        cursor.pos() + run <= cursor.text().len(),
{
    let mut scan = cursor;
    while peek_matches(&scan, m)
        invariant
            scan.wf(),
            scan.text() == cursor.text(),
            cursor.pos() <= scan.pos() <= cursor.text().len(),
            forall|j: int| cursor.pos() <= j < scan.pos() ==> atom_matches(
                *m,
                #[trigger] cursor.text()[j],
            ),
        decreases cursor.text().len() - scan.pos(),
    {
        scan.next();
    }
    proof {
        lemma_run_length_is(*m, cursor.text(), cursor.pos(), scan.pos());
    }
    scan.get_next_location() - cursor.get_next_location()
}

/// A copy of the cursor moved forward by `steps` code points.
#[verifier::loop_isolation(false)]
fn advance<'a>(cursor: Cursor<'a>, steps: usize) -> (c: Cursor<'a>)
    requires
        cursor.wf(),
        cursor.pos() + steps <= cursor.text().len(),
    ensures
        c.wf(),
        c.text() == cursor.text(),
        c.pos() == cursor.pos() + steps,
{
    let mut c = cursor;
    let mut taken: usize = 0;
    while taken < steps
        invariant
            c.wf(),
            c.text() == cursor.text(),
            taken <= steps,
            c.pos() == cursor.pos() + taken,
        decreases steps - taken,
    {
        c.next();
        taken = taken + 1;
    }
    c
}

/// Matches states `i..` of the pattern against the subject from the
/// cursor's position onward, returning exactly what the operational
/// specification prescribes.
#[verifier::loop_isolation(false)]
fn check_from(states: &Vec<State>, i: usize, cursor: Cursor<'_>) -> (r: Result<(), MatchingError>)
    requires
        i <= states@.len(),
        cursor.wf(),
        cursor.text().len() < usize::MAX,
    ensures
        r == check_result(states@, cursor.text(), i as int, cursor.pos()),
    decreases states@.len() - i,
{
    let ghost s = cursor.text();
    let ghost pos = cursor.pos();
    if i == states.len() {
        if cursor.peek().is_none() {
            Ok(())
        } else {
            let location = cursor.get_next_location();
            Err(MatchingError {
                kind: MatchingErrorType::ExtraCharacters,
                location: Span { start: location, end: location + cursor.len_left() },
            })
        }
    } else {
        let st = &states[i];
        let run = scan_run(cursor, &st.matching);
        if run < st.quantifier.min {
            let fail_at = cursor.get_next_location() + run;
            Err(MatchingError {
                kind: MatchingErrorType::UnexpectedCharacter {
                    expected: expected_character_for(&st.matching),
                },
                location: Span { start: fail_at, end: fail_at + 1 },
            })
        } else {
            let lo = st.quantifier.min;
            let hi = match st.quantifier.max {
                Some(m) => if m < run {
                    m
                } else {
                    run
                },
                None => run,
            };
            proof {
                assert(hi as int == greedy_count(states@[i as int].quantifier, run as int));
                assert(check_result(states@, s, i as int, pos) == try_counts(
                    states@,
                    s,
                    i as int,
                    pos,
                    hi as int,
                ));
            }
            match check_from(states, i + 1, advance(cursor, hi)) {
                Ok(()) => {
                    proof {
                        if hi > lo {
                            lemma_try_counts_characterizes(states@, s, i as int, pos, hi as int);
                            assert(count_succeeds(states@, s, i as int, pos, hi as int));
                        }
                        lemma_ok_is_unit(check_result(states@, s, i as int, pos));
                    }
                    Ok(())
                },
                Err(e) => {
                    if hi <= lo {
                        return Err(e);
                    }
                    proof {
                        lemma_try_counts_characterizes(states@, s, i as int, pos, hi as int);
                    }
                    let mut k = hi;
                    while k > lo
                        invariant
                            lo <= k <= hi,
                            forall|kk: int| k <= kk <= (hi as int) ==> !count_succeeds(
                                states@,
                                s,
                                i as int,
                                pos,
                                kk,
                            ),
                        decreases k,
                    {
                        k = k - 1;
                        let attempt = check_from(states, i + 1, advance(cursor, k));
                        if attempt.is_ok() {
                            proof {
                                assert(count_succeeds(states@, s, i as int, pos, k as int));
                            }
                            return Ok(());
                        }
                    }
                    Err(e)
                },
            }
        }
    }
}

impl Pattern {
    /// Full-string acceptance: does the pattern consume the subject in
    /// its entirety? The result is exactly the operational specification
    /// [`check_result`], a pure function of the pattern and the subject;
    /// for every pattern with well-formed quantifiers -- every pattern the
    /// parser yields -- success coincides with the declarative relation
    /// [`pattern_matches`].
    ///
    /// The one precondition is a machine limit: error spans carry a
    /// one-past-the-end offset, so the subject's code-point count must
    /// leave room for it in `usize`.
    pub fn check(&self, string: &str) -> (r: Result<(), MatchingError>)
        requires
            string@.len() < usize::MAX,
        ensures
            r == check_result(self@, string@, 0, 0),
            pattern_wf(self@) ==> (r is Ok <==> pattern_matches(self@, string@)),
    {
        let cursor = Cursor::new(string);
        let r = check_from(&self.states, 0, cursor);
        proof {
            if pattern_wf(self@) {
                lemma_check_result_matches(self@, string@, 0, 0);
                assert(self@.skip(0) =~= self@);
                assert(string@.skip(0) =~= string@);
            }
        }
        r
    }
}

} // verus!
