//! Which suites of a run are executed.
//!
//! A run may carry a regular expression; only suites whose name it matches
//! are executed, and the others leave no trace.

use vstd::prelude::*;
use crate::test_suite::TestSuite;

verus! {

/// Why no suite can be selected.
#[derive(PartialEq, Eq, Structural, Debug, Clone, Copy)]
pub enum SelectionError {
    /// The pattern is not a regular expression that can be compiled.
    InvalidPattern,
}

/// Whether `pattern` is a regular expression that compiles.
pub uninterp spec fn pattern_compiles(pattern: Seq<char>) -> bool;

/// Whether the regular expression `pattern`, which compiles, matches
/// somewhere in `text`.
pub uninterp spec fn pattern_matches(pattern: Seq<char>, text: Seq<char>) -> bool;

/// What matching `pattern` against `text` gives: nothing if the pattern does
/// not compile, whatever the text; else whether it matches.
pub open spec fn pattern_verdict(pattern: Seq<char>, text: Seq<char>) -> Option<bool> {
    if pattern_compiles(pattern) {
        Some(pattern_matches(pattern, text))
    } else {
        None
    }
}

/// Compiles `pattern` with `regex::Regex::new` and, if that succeeds,
/// searches `text` with `Regex::is_match`. Each depends on its arguments
/// alone, so each result is given a name; nothing else is claimed of them.
#[verifier::external_body]
fn match_pattern(pattern: &str, text: &str) -> (r: Option<bool>)
    ensures
        r is Some <==> pattern_compiles(pattern@),
        r is Some ==> r.unwrap() == pattern_matches(pattern@, text@),
{
    match regex::Regex::new(pattern) {
        Ok(re) => Some(re.is_match(text)),
        Err(_) => None,
    }
}

/// The verdict on one suite name: that of the pattern, or a match where
/// there is no pattern.
pub open spec fn name_verdict(pattern: Option<String>, name: Seq<char>) -> Option<bool> {
    match pattern {
        Some(p) => pattern_verdict(p@, name),
        None => Some(true),
    }
}

/// The verdicts on the names of `suites`, in order.
pub open spec fn suite_verdicts(suites: Seq<TestSuite>, pattern: Option<String>) -> Seq<
    Option<bool>,
> {
    Seq::new(suites.len(), |i: int| name_verdict(pattern, suites[i].name@))
}

/// Whether the pattern, if there is one, compiles.
pub open spec fn pattern_usable(pattern: Option<String>) -> bool {
    match pattern {
        Some(p) => pattern_compiles(p@),
        None => true,
    }
}

/// The positions of the verdicts that are a match, in increasing order.
pub open spec fn selected(verdicts: Seq<Option<bool>>) -> Seq<usize>
    decreases verdicts.len(),
{
    if verdicts.len() == 0 {
        Seq::empty()
    } else if verdicts.last() == Some(true) {
        selected(verdicts.drop_last()).push((verdicts.len() - 1) as usize)
    } else {
        selected(verdicts.drop_last())
    }
}

/// Whether some verdict is missing because the pattern did not compile.
pub open spec fn any_invalid(verdicts: Seq<Option<bool>>) -> bool {
    exists|i: int| 0 <= i < verdicts.len() && verdicts[i] is None
}

/// The positions to execute, given the verdict on each suite name: every
/// position with a match, in order; or an error if a verdict is missing.
pub fn select(verdicts: &Vec<Option<bool>>) -> (r: Result<Vec<usize>, SelectionError>)
    ensures
        r is Err <==> any_invalid(verdicts@),
        r is Ok ==> r.unwrap()@ == selected(verdicts@),
{
    let mut out: Vec<usize> = Vec::new();
    let mut i: usize = 0;
    while i < verdicts.len()
        invariant
            i <= verdicts.len(),
            out@ == selected(verdicts@.take(i as int)),
            forall|j: int| 0 <= j < i ==> verdicts@[j] is Some,
        decreases verdicts.len() - i,
    {
        assert(verdicts@.take(i + 1).drop_last() =~= verdicts@.take(i as int));
        match verdicts[i] {
            Some(true) => {
                out.push(i);
            },
            Some(false) => {},
            None => {
                return Err(SelectionError::InvalidPattern);
            },
        }
        i = i + 1;
    }
    assert(verdicts@.take(i as int) =~= verdicts@);
    Ok(out)
}

/// The positions in `test_suites` of the suites to execute, in order: all of
/// them without a pattern, else those whose name the pattern matches. Fails
/// exactly if there is a pattern that does not compile, whether or not there
/// is a suite.
pub fn run(test_suites: &Vec<TestSuite>, pattern: &Option<String>) -> (r: Result<
    Vec<usize>,
    SelectionError,
>)
    ensures
        r is Ok <==> pattern_usable(*pattern),
        r is Ok ==> r.unwrap()@ == selected(suite_verdicts(test_suites@, *pattern)),
{
    if let Some(p) = pattern {
        // The verdict on the empty name tells whether the pattern compiles.
        if match_pattern(p.as_str(), "").is_none() {
            return Err(SelectionError::InvalidPattern);
        }
    }
    let mut verdicts: Vec<Option<bool>> = Vec::new();
    let mut i: usize = 0;
    while i < test_suites.len()
        invariant
            i <= test_suites.len(),
            verdicts@.len() == i,
            pattern_usable(*pattern),
            forall|j: int|
                0 <= j < i ==> #[trigger] verdicts@[j] == name_verdict(*pattern, test_suites@[j].name@),
        decreases test_suites.len() - i,
    {
        let verdict = match pattern {
            Some(p) => match_pattern(p.as_str(), test_suites[i].name.as_str()),
            None => Some(true),
        };
        verdicts.push(verdict);
        i = i + 1;
    }
    assert(verdicts@ =~= suite_verdicts(test_suites@, *pattern));
    assert(!any_invalid(verdicts@));
    select(&verdicts)
}

/// A pattern that does not compile gives no verdict on any name, and one that
/// compiles gives a verdict on every name.
pub proof fn lemma_verdicts_of_pattern(suites: Seq<TestSuite>, pattern: Option<String>)
    ensures
        pattern_usable(pattern) ==> !any_invalid(suite_verdicts(suites, pattern)),
        !pattern_usable(pattern) ==> forall|i: int|
            0 <= i < suites.len() ==> (#[trigger] suite_verdicts(suites, pattern)[i]) is None,
{
}

/// A suite is selected exactly if its verdict is a match, and the selected
/// positions increase.
pub proof fn lemma_selected(verdicts: Seq<Option<bool>>)
    requires
        verdicts.len() <= usize::MAX,
    ensures
        forall|i: int|
            0 <= i < verdicts.len() ==> (verdicts[i] == Some(true) <==> selected(verdicts).contains(
                i as usize,
            )),
        forall|k: int|
            0 <= k < selected(verdicts).len() ==> (#[trigger] selected(verdicts)[k]) < verdicts.len(),
        forall|k: int, m: int|
            0 <= k < m < selected(verdicts).len() ==> selected(verdicts)[k] < selected(verdicts)[m],
    decreases verdicts.len(),
{
    if verdicts.len() > 0 {
        let init = verdicts.drop_last();
        let last = verdicts.len() - 1;
        lemma_selected(init);
        let s = selected(verdicts);
        let t = selected(init);
        assert forall|i: int| 0 <= i < verdicts.len() implies (verdicts[i] == Some(true)
            <==> s.contains(i as usize)) by {
            if i < last {
                assert(init[i] == verdicts[i]);
                if t.contains(i as usize) {
                    let k = choose|k: int| 0 <= k < t.len() && t[k] == i as usize;
                    assert(s[k] == i as usize);
                }
                if s.contains(i as usize) {
                    let k = choose|k: int| 0 <= k < s.len() && s[k] == i as usize;
                    if k < t.len() {
                        assert(t[k] == i as usize);
                    }
                }
            } else {
                if verdicts[i] == Some(true) {
                    assert(s[s.len() - 1] == i as usize);
                }
                if s.contains(i as usize) {
                    let k = choose|k: int| 0 <= k < s.len() && s[k] == i as usize;
                    if k < t.len() {
                        assert(t[k] < init.len());
                    }
                }
            }
        }
    }
}

} // verus!
