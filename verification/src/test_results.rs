//! Result values and the rules by which they aggregate.

use vstd::prelude::*;

verus! {

/// Outcome of an invocation, a step or a suite.
#[derive(PartialEq, Eq, Structural, Debug, Clone, Copy)]
pub enum TestResult {
    Pass,
    Fail,
    NotRun,
    Inconclusive,
    Skip,
}

/// Result of folding one data-set row's outcome into a step's running result.
///
/// A failing row wins over everything; an inconclusive row wins unless the
/// step has already failed; a passing row only lifts a step that is neither
/// failed nor inconclusive. Neutral rows (`NotRun`, `Skip`) change nothing.
pub open spec fn row_aggregate(step: TestResult, row: TestResult) -> TestResult {
    match row {
        TestResult::Fail => TestResult::Fail,
        TestResult::Inconclusive => if step == TestResult::Fail {
            TestResult::Fail
        } else {
            TestResult::Inconclusive
        },
        TestResult::Pass => if step == TestResult::Fail || step == TestResult::Inconclusive {
            step
        } else {
            TestResult::Pass
        },
        _ => step,
    }
}

/// A step's result after the given rows, in order, starting from `NotRun`.
pub open spec fn rows_aggregate(rows: Seq<TestResult>) -> TestResult
    decreases rows.len(),
{
    if rows.len() == 0 {
        TestResult::NotRun
    } else {
        row_aggregate(rows_aggregate(rows.drop_last()), rows.last())
    }
}

/// A suite's overall result after one more executed step.
pub open spec fn suite_aggregate(overall: TestResult, step: TestResult) -> TestResult {
    match step {
        TestResult::Fail => TestResult::Fail,
        TestResult::Inconclusive => if overall == TestResult::Fail {
            TestResult::Fail
        } else {
            TestResult::Inconclusive
        },
        _ => overall,
    }
}

/// The overall result of a suite whose steps resolved to `steps`: `Fail` if
/// any step failed, else `Inconclusive` if any step was inconclusive, else
/// `Pass`.
pub open spec fn suite_overall(steps: Seq<TestResult>) -> TestResult {
    if steps.contains(TestResult::Fail) {
        TestResult::Fail
    } else if steps.contains(TestResult::Inconclusive) {
        TestResult::Inconclusive
    } else {
        TestResult::Pass
    }
}

impl TestResult {
    /// The result's name, as it is shown to users.
    pub fn name(&self) -> (s: &'static str)
        ensures
            s@ == self.spec_name(),
    {
        match self {
            TestResult::Pass => "Pass",
            TestResult::Fail => "Fail",
            TestResult::NotRun => "NotRun",
            TestResult::Inconclusive => "Inconclusive",
            TestResult::Skip => "Skip",
        }
    }

    pub open spec fn spec_name(&self) -> Seq<char> {
        match self {
            TestResult::Pass => "Pass"@,
            TestResult::Fail => "Fail"@,
            TestResult::NotRun => "NotRun"@,
            TestResult::Inconclusive => "Inconclusive"@,
            TestResult::Skip => "Skip"@,
        }
    }

    /// Position in the severity order used for aggregation:
    /// `Fail` > `Inconclusive` > `Pass` > `NotRun`, `Skip`.
    pub open spec fn severity(self) -> nat {
        match self {
            TestResult::Fail => 3,
            TestResult::Inconclusive => 2,
            TestResult::Pass => 1,
            _ => 0,
        }
    }

    /// Folds one data-set row's outcome into this running step result.
    pub fn with_row(self, row: TestResult) -> (r: TestResult)
        ensures
            r == row_aggregate(self, row),
    {
        match row {
            TestResult::Fail => TestResult::Fail,
            TestResult::Inconclusive => if self == TestResult::Fail {
                TestResult::Fail
            } else {
                TestResult::Inconclusive
            },
            TestResult::Pass => if self == TestResult::Fail || self == TestResult::Inconclusive {
                self
            } else {
                TestResult::Pass
            },
            _ => self,
        }
    }

    /// Folds one executed step's result into this running suite result.
    pub fn with_step(self, step: TestResult) -> (r: TestResult)
        ensures
            r == suite_aggregate(self, step),
    {
        match step {
            TestResult::Fail => TestResult::Fail,
            TestResult::Inconclusive => if self == TestResult::Fail {
                TestResult::Fail
            } else {
                TestResult::Inconclusive
            },
            _ => self,
        }
    }
}

/// One assertion reported by a command, or injected by the engine.
#[derive(Debug, Clone, PartialEq, Eq)]
pub struct AssertResult {
    pub message: String,
    pub success: bool,
    /// Index of the data-set row the invocation belonged to, if any.
    pub data_set_row: Option<usize>,
}

/// Mathematical value of an [`AssertResult`].
pub struct AssertModel {
    pub message: Seq<char>,
    pub success: bool,
    pub data_set_row: Option<usize>,
}

impl View for AssertResult {
    type V = AssertModel;

    open spec fn view(&self) -> AssertModel {
        AssertModel {
            message: self.message@,
            success: self.success,
            data_set_row: self.data_set_row,
        }
    }
}

/// Views of a list of assertions, in order.
pub open spec fn asserts_view(asserts: Seq<AssertResult>) -> Seq<AssertModel> {
    asserts.map_values(|a: AssertResult| a@)
}

/// Result of one step: its aggregated result and every assertion collected
/// across its invocations.
#[derive(Debug, Clone, PartialEq, Eq)]
pub struct TestStepResult {
    pub name: Option<String>,
    pub result: TestResult,
    pub asserts: Vec<AssertResult>,
}

/// Result of one suite, with one entry per step.
#[derive(Debug, Clone, PartialEq, Eq)]
pub struct TestSuiteResult {
    pub name: String,
    pub overall_result: TestResult,
    pub steps: Vec<TestStepResult>,
}

/// The results of a list of step results, in order.
pub open spec fn step_results(steps: Seq<TestStepResult>) -> Seq<TestResult> {
    steps.map_values(|s: TestStepResult| s.result)
}

/// A step's running result never becomes less severe when a row is folded in,
/// and a failed step stays failed.
pub proof fn lemma_row_aggregate_monotone(step: TestResult, row: TestResult)
    ensures
        row_aggregate(step, row).severity() >= step.severity(),
        row_aggregate(step, row).severity() >= row.severity(),
        step == TestResult::Fail ==> row_aggregate(step, row) == TestResult::Fail,
{
}

/// Over any rows, the step result is `Fail` if a row failed, else
/// `Inconclusive` if a row was inconclusive, else `Pass` if a row passed,
/// else `NotRun`.
pub proof fn lemma_rows_aggregate(rows: Seq<TestResult>)
    ensures
        rows_aggregate(rows) == if rows.contains(TestResult::Fail) {
            TestResult::Fail
        } else if rows.contains(TestResult::Inconclusive) {
            TestResult::Inconclusive
        } else if rows.contains(TestResult::Pass) {
            TestResult::Pass
        } else {
            TestResult::NotRun
        },
    decreases rows.len(),
{
    if rows.len() > 0 {
        let init = rows.drop_last();
        lemma_rows_aggregate(init);
        assert forall|r: TestResult| rows.contains(r) <==> (init.contains(r) || rows.last() == r) by {
            if rows.contains(r) {
                let i = choose|i: int| 0 <= i < rows.len() && rows[i] == r;
                if i < rows.len() - 1 {
                    assert(init[i] == r);
                }
            }
            if init.contains(r) {
                let i = choose|i: int| 0 <= i < init.len() && init[i] == r;
                assert(rows[i] == r);
            }
            if rows.last() == r {
                assert(rows[rows.len() - 1] == r);
            }
        }
    }
}

/// Folding one more step into the overall result of the steps before it gives
/// the overall result of all of them.
pub proof fn lemma_suite_overall_push(steps: Seq<TestResult>, step: TestResult)
    ensures
        suite_overall(steps.push(step)) == suite_aggregate(suite_overall(steps), step),
{
    let all = steps.push(step);
    assert(all.last() == step);
    assert(all.drop_last() =~= steps);
    assert forall|r: TestResult| all.contains(r) <==> (steps.contains(r) || step == r) by {
        if all.contains(r) {
            let i = choose|i: int| 0 <= i < all.len() && all[i] == r;
            if i < steps.len() {
                assert(steps[i] == r);
            }
        }
        if steps.contains(r) {
            let i = choose|i: int| 0 <= i < steps.len() && steps[i] == r;
            assert(all[i] == r);
        }
        if step == r {
            assert(all[all.len() - 1] == r);
        }
    }
}

} // verus!
