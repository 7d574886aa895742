//! The line-based marker protocol by which a command reports its outcome.
//!
//! A line that begins with one of three prefixes carries a message: the rest
//! of the line, with surrounding whitespace removed. Every other line is
//! ignored.

use vstd::prelude::*;
use vstd::string::StrSliceExecFns;
use vstd::string::StringExecFns;
use crate::test_results::TestResult;
use crate::test_results::AssertModel;

verus! {

/// Prefix of a line that is shown to the user and does not affect the result.
pub open spec fn print_prefix() -> Seq<char> {
    "WEAVE-TEST:PRINT:"@
}

/// Prefix of a line that reports a failed assertion.
pub open spec fn fail_prefix() -> Seq<char> {
    "WEAVE-TEST:FAIL:"@
}

/// Prefix of a line that reports a successful assertion.
pub open spec fn pass_prefix() -> Seq<char> {
    "WEAVE-TEST:PASS:"@
}

/// Whether `c` has the Unicode property `White_Space`.
pub open spec fn is_whitespace(c: char) -> bool {
    let n = c as u32;
    (0x09 <= n <= 0x0d) || n == 0x20 || n == 0x85 || n == 0xa0 || n == 0x1680 || (0x2000 <= n
        <= 0x200a) || n == 0x2028 || n == 0x2029 || n == 0x202f || n == 0x205f || n == 0x3000
}

/// `s` without its leading whitespace.
pub open spec fn trim_start(s: Seq<char>) -> Seq<char>
    decreases s.len(),
{
    if s.len() > 0 && is_whitespace(s.first()) {
        trim_start(s.drop_first())
    } else {
        s
    }
}

/// `s` without its trailing whitespace.
pub open spec fn trim_end(s: Seq<char>) -> Seq<char>
    decreases s.len(),
{
    if s.len() > 0 && is_whitespace(s.last()) {
        trim_end(s.drop_last())
    } else {
        s
    }
}

/// `s` without leading and trailing whitespace.
pub open spec fn trimmed(s: Seq<char>) -> Seq<char> {
    trim_end(trim_start(s))
}

/// The message of a line that begins with `prefix`.
pub open spec fn payload(line: Seq<char>, prefix: Seq<char>) -> Seq<char> {
    trimmed(line.skip(prefix.len() as int))
}

/// What one line of output means.
#[derive(Debug, Clone, PartialEq, Eq)]
pub enum Marker {
    /// Informational text for the user.
    Print(String),
    /// A failed assertion with its message.
    Fail(String),
    /// A successful assertion with its message.
    Pass(String),
    /// Anything else; ignored.
    Other,
}

/// Mathematical value of a [`Marker`].
pub enum MarkerModel {
    Print(Seq<char>),
    Fail(Seq<char>),
    Pass(Seq<char>),
    Other,
}

impl View for Marker {
    type V = MarkerModel;

    open spec fn view(&self) -> MarkerModel {
        match self {
            Marker::Print(s) => MarkerModel::Print(s@),
            Marker::Fail(s) => MarkerModel::Fail(s@),
            Marker::Pass(s) => MarkerModel::Pass(s@),
            Marker::Other => MarkerModel::Other,
        }
    }
}

/// The meaning of `line` under the marker protocol.
pub open spec fn classify(line: Seq<char>) -> MarkerModel {
    if print_prefix().is_prefix_of(line) {
        MarkerModel::Print(payload(line, print_prefix()))
    } else if fail_prefix().is_prefix_of(line) {
        MarkerModel::Fail(payload(line, fail_prefix()))
    } else if pass_prefix().is_prefix_of(line) {
        MarkerModel::Pass(payload(line, pass_prefix()))
    } else {
        MarkerModel::Other
    }
}

/// The running result of an invocation after one more line.
pub open spec fn line_result(result: TestResult, line: Seq<char>) -> TestResult {
    match classify(line) {
        MarkerModel::Fail(_) => TestResult::Fail,
        MarkerModel::Pass(_) => if result == TestResult::Fail {
            TestResult::Fail
        } else {
            TestResult::Pass
        },
        _ => result,
    }
}

/// The assertion that a line contributes, if any, for an invocation in the
/// given data-set row.
pub open spec fn line_assert(line: Seq<char>, row: Option<usize>) -> Option<AssertModel> {
    match classify(line) {
        MarkerModel::Fail(m) => Some(AssertModel { message: m, success: false, data_set_row: row }),
        MarkerModel::Pass(m) => Some(AssertModel { message: m, success: true, data_set_row: row }),
        _ => None,
    }
}

/// The running result after the lines `lines`, in order, starting from
/// `start`.
pub open spec fn lines_result(start: TestResult, lines: Seq<Seq<char>>) -> TestResult
    decreases lines.len(),
{
    if lines.len() == 0 {
        start
    } else {
        line_result(lines_result(start, lines.drop_last()), lines.last())
    }
}

/// The assertions that the lines `lines` contribute, in order.
pub open spec fn lines_asserts(lines: Seq<Seq<char>>, row: Option<usize>) -> Seq<AssertModel>
    decreases lines.len(),
{
    if lines.len() == 0 {
        Seq::empty()
    } else {
        let before = lines_asserts(lines.drop_last(), row);
        match line_assert(lines.last(), row) {
            Some(a) => before.push(a),
            None => before,
        }
    }
}

/// Whether some line of `lines` reports a failed assertion.
pub open spec fn any_fail(lines: Seq<Seq<char>>) -> bool {
    exists|i: int| 0 <= i < lines.len() && #[trigger] classify(lines[i]) is Fail
}

/// Whether some line of `lines` reports a successful assertion.
pub open spec fn any_pass(lines: Seq<Seq<char>>) -> bool {
    exists|i: int| 0 <= i < lines.len() && #[trigger] classify(lines[i]) is Pass
}

/// Whether `c` is a whitespace character.
pub fn char_is_whitespace(c: char) -> (r: bool)
    ensures
        r == is_whitespace(c),
{
    let n: u32 = c as u32;
    (0x09 <= n && n <= 0x0d) || n == 0x20 || n == 0x85 || n == 0xa0 || n == 0x1680 || (0x2000 <= n
        && n <= 0x200a) || n == 0x2028 || n == 0x2029 || n == 0x202f || n == 0x205f || n == 0x3000
}

/// Removes leading and trailing whitespace.
pub fn trim<'a>(s: &'a str) -> (r: &'a str)
    ensures
        r@ == trimmed(s@),
{
    let n: usize = s.unicode_len();
    let mut start: usize = 0;
    assert(s@.subrange(0, n as int) =~= s@);
    while start < n
        invariant
            start <= n,
            n == s@.len(),
            trim_start(s@) == trim_start(s@.subrange(start as int, n as int)),
        ensures
            start == n || !is_whitespace(s@[start as int]),
        decreases n - start,
    {
        let c = s.get_char(start);
        let ghost rest = s@.subrange(start as int, n as int);
        assert(rest.first() == c);
        if !char_is_whitespace(c) {
            break;
        }
        assert(rest.drop_first() =~= s@.subrange(start + 1, n as int));
        start = start + 1;
    }
    let ghost front = s@.subrange(start as int, n as int);
    assert(start < n ==> front.first() == s@[start as int]);
    assert(trim_start(s@) == front);
    let mut end: usize = n;
    while end > start
        invariant
            start <= end <= n,
            n == s@.len(),
            trim_end(front) == trim_end(s@.subrange(start as int, end as int)),
            front == s@.subrange(start as int, n as int),
        ensures
            end == start || !is_whitespace(s@[end - 1]),
        decreases end,
    {
        let c = s.get_char(end - 1);
        let ghost part = s@.subrange(start as int, end as int);
        assert(part.last() == c);
        if !char_is_whitespace(c) {
            break;
        }
        assert(part.drop_last() =~= s@.subrange(start as int, end - 1));
        end = end - 1;
    }
    assert(end > start ==> s@.subrange(start as int, end as int).last() == s@[end - 1]);
    s.substring_char(start, end)
}

/// The rest of `line` after `prefix`, if `line` begins with it.
pub fn strip_prefix<'a>(line: &'a str, prefix: &str) -> (r: Option<&'a str>)
    ensures
        r is Some <==> prefix@.is_prefix_of(line@),
        r is Some ==> r.unwrap()@ == line@.skip(prefix@.len() as int),
{
    let n: usize = line.unicode_len();
    let m: usize = prefix.unicode_len();
    if m > n {
        return None;
    }
    let mut i: usize = 0;
    while i < m
        invariant
            i <= m <= n,
            n == line@.len(),
            m == prefix@.len(),
            forall|j: int| 0 <= j < i ==> line@[j] == prefix@[j],
        decreases m - i,
    {
        if line.get_char(i) != prefix.get_char(i) {
            assert(line@.subrange(0, m as int)[i as int] != prefix@[i as int]);
            return None;
        }
        i = i + 1;
    }
    assert(prefix@ =~= line@.subrange(0, m as int));
    Some(line.substring_char(m, n))
}

/// Classifies one line of output.
pub fn classify_line(line: &str) -> (m: Marker)
    ensures
        m@ == classify(line@),
{
    if let Some(rest) = strip_prefix(line, "WEAVE-TEST:PRINT:") {
        return Marker::Print(String::from_str(trim(rest)));
    }
    if let Some(rest) = strip_prefix(line, "WEAVE-TEST:FAIL:") {
        return Marker::Fail(String::from_str(trim(rest)));
    }
    if let Some(rest) = strip_prefix(line, "WEAVE-TEST:PASS:") {
        return Marker::Pass(String::from_str(trim(rest)));
    }
    Marker::Other
}

/// Starting from `Inconclusive`, the lines of an invocation give `Fail` if any
/// of them reports a failure, wherever it stands; else `Pass` if any reports
/// a success; else `Inconclusive`.
pub proof fn lemma_lines_result(lines: Seq<Seq<char>>)
    ensures
        lines_result(TestResult::Inconclusive, lines) == if any_fail(lines) {
            TestResult::Fail
        } else if any_pass(lines) {
            TestResult::Pass
        } else {
            TestResult::Inconclusive
        },
    decreases lines.len(),
{
    if lines.len() > 0 {
        let init = lines.drop_last();
        lemma_lines_result(init);
        if any_fail(init) {
            let i = choose|i: int| 0 <= i < init.len() && #[trigger] classify(init[i]) is Fail;
            assert(classify(lines[i]) is Fail);
        }
        if any_pass(init) {
            let i = choose|i: int| 0 <= i < init.len() && #[trigger] classify(init[i]) is Pass;
            assert(classify(lines[i]) is Pass);
        }
        if any_fail(lines) {
            let i = choose|i: int| 0 <= i < lines.len() && #[trigger] classify(lines[i]) is Fail;
            if i < init.len() {
                assert(classify(init[i]) is Fail);
            }
        }
        if any_pass(lines) {
            let i = choose|i: int| 0 <= i < lines.len() && #[trigger] classify(lines[i]) is Pass;
            if i < init.len() {
                assert(classify(init[i]) is Pass);
            }
        }
        assert(lines.last() == lines[lines.len() - 1]);
    }
}

} // verus!
