//! The suite runner: a state machine that sequences the steps of one suite.
//!
//! The runner never starts a process. [`SuiteRunner::step`] moves the suite
//! forward by one decision and says when a command has to be run; the caller
//! runs it and hands back each line with [`SuiteRunner::feed_line`] and the way
//! the output ended with [`SuiteRunner::end_invocation`]. Notifications for
//! the reporter are appended, in order, to a list that the caller delivers.

use vstd::prelude::*;
use vstd::string::StringExecFns;
use crate::data_sets::DataSets;
use crate::data_sets::duplicate_rows;
use crate::data_sets::rows_view;
use crate::data_sets::sets_layer;
use crate::environment::Environment;
use crate::environment::HashMapExt;
use crate::environment::composed;
use crate::environment::layer;
use crate::protocol::Marker;
use crate::protocol::MarkerModel;
use crate::protocol::classify;
use crate::protocol::classify_line;
use crate::protocol::line_assert;
use crate::protocol::line_result;
use crate::protocol::lines_asserts;
use crate::protocol::lines_result;
use crate::reporter::EventModel;
use crate::reporter::ReporterEvent;
use crate::reporter::events_view;
use crate::test_results::AssertModel;
use crate::test_results::AssertResult;
use crate::test_results::TestResult;
use crate::test_results::TestStepResult;
use crate::test_results::TestSuiteResult;
use crate::test_results::asserts_view;
use crate::test_results::row_aggregate;
use crate::test_results::rows_aggregate;
use crate::test_results::step_results;
use crate::test_results::suite_aggregate;
use crate::test_results::suite_overall;
use crate::test_suite::TestStep;
use crate::test_suite::TestSuite;
use crate::test_suite::ValuesFile;

verus! {

/// Why a run cannot go on.
#[derive(Debug, Clone, PartialEq, Eq)]
pub enum RunError {
    /// The step at index `step` names a data set that nothing defines.
    MissingDataSet { step: usize, name: String },
    /// The command of the current invocation could not be started.
    SpawnFailed,
    /// The runner was asked to move on while a command is running.
    InvocationRunning,
    /// The runner was handed output while no command is running.
    NoInvocation,
}

/// A command that the caller has to run now.
#[derive(Debug, Clone)]
pub struct CommandRequest {
    pub command: String,
    pub environment: Environment,
    /// Time budget of this invocation, in seconds.
    pub timeout_secs: u64,
}

/// What the caller has to do after a step of the runner.
#[derive(Debug, Clone)]
pub enum Action {
    /// Nothing: call `step` again.
    Continue,
    /// Run this command and feed its output back.
    Run(CommandRequest),
    /// The suite is complete.
    Finished,
}

/// How the output of an invocation ended.
#[derive(PartialEq, Eq, Structural, Debug, Clone, Copy)]
pub enum Ending {
    /// The process terminated and its output is exhausted.
    Exhausted,
    /// The time budget ran out.
    TimedOut,
    /// The process could not be started.
    SpawnFailed,
}

/// The invocation in progress.
#[derive(Debug, Clone, PartialEq, Eq)]
pub struct Invocation {
    /// Index of the data-set row it runs for, if any.
    pub row: Option<usize>,
    /// Its running result.
    pub result: TestResult,
}

/// The step in progress.
#[derive(Clone)]
pub struct StepRun {
    /// Name, running result, and the assertions collected so far.
    pub result: TestStepResult,
    /// The step's environment, without any row.
    pub env: Environment,
    /// The rows to run over, if the step names a data set.
    pub rows: Option<Vec<Environment>>,
    /// Number of invocations started so far.
    pub next_row: usize,
    pub invocation: Option<Invocation>,
    /// The results of the invocations that have ended, in order.
    pub outcomes: Ghost<Seq<TestResult>>,
}

/// State of the run of one suite.
#[derive(Clone)]
pub struct SuiteRunner {
    pub suite: TestSuite,
    /// Environment of the values file, if there is one.
    pub global_env: Option<Environment>,
    /// The data sets in effect for the suite.
    pub data_sets: DataSets,
    pub started: bool,
    pub finished: bool,
    /// Whether a step has failed, so that the remaining ones are not run.
    pub abort: bool,
    /// The results of the steps resolved so far.
    pub result: TestSuiteResult,
    pub current: Option<StepRun>,
}

/// Message of the assertion recorded when an invocation runs out of time.
pub open spec fn timeout_message() -> Seq<char> {
    "Test timed out"@
}

/// Message of the assertion recorded when a command cannot be started.
pub open spec fn spawn_message() -> Seq<char> {
    "Test spawn failed"@
}

/// The result of an invocation whose running result was `running` when its
/// output ended with `ending`.
pub open spec fn ended_result(running: TestResult, ending: Ending) -> TestResult {
    match ending {
        Ending::Exhausted => running,
        _ => TestResult::Fail,
    }
}

/// The assertions that the end of an invocation adds: none when the output
/// was exhausted, else exactly one, tagged with the invocation's row.
pub open spec fn ending_asserts(ending: Ending, row: Option<usize>) -> Seq<AssertModel> {
    match ending {
        Ending::Exhausted => seq![],
        Ending::TimedOut => seq![
            AssertModel { message: timeout_message(), success: false, data_set_row: row },
        ],
        Ending::SpawnFailed => seq![
            AssertModel { message: spawn_message(), success: false, data_set_row: row },
        ],
    }
}

/// The notifications that the end of an invocation issues.
pub open spec fn ending_events(ending: Ending) -> Seq<EventModel> {
    match ending {
        Ending::Exhausted => seq![],
        Ending::TimedOut => seq![EventModel::Assertion { message: timeout_message(), success: false }],
        Ending::SpawnFailed => seq![
            EventModel::Assertion { message: spawn_message(), success: false },
        ],
    }
}

/// The notifications that one line of output issues.
pub open spec fn line_events(line: Seq<char>) -> Seq<EventModel> {
    match classify(line) {
        MarkerModel::Print(t) => seq![EventModel::Print { text: t }],
        MarkerModel::Fail(m) => seq![EventModel::Assertion { message: m, success: false }],
        MarkerModel::Pass(m) => seq![EventModel::Assertion { message: m, success: true }],
        MarkerModel::Other => seq![],
    }
}

/// The assertions that one line of output adds.
pub open spec fn line_asserts(line: Seq<char>, row: Option<usize>) -> Seq<AssertModel> {
    match line_assert(line, row) {
        Some(a) => seq![a],
        None => seq![],
    }
}

/// After a failed step, every later step is `NotRun` and has no assertions.
pub open spec fn cascades(steps: Seq<TestStepResult>) -> bool {
    forall|i: int, j: int|
        #![trigger steps[i], steps[j]]
        0 <= i < j < steps.len() && steps[i].result == TestResult::Fail ==> steps[j].result
            == TestResult::NotRun && steps[j].asserts@.len() == 0
}

/// The row that an assertion is tagged with, as a number; 0 without a tag.
pub open spec fn row_index(assertion: AssertModel) -> int {
    match assertion.data_set_row {
        Some(row) => row as int,
        None => 0,
    }
}

/// Whether the assertions of a step carry the tags that they should: none
/// without a data set; with one, the index of a row below `rows`, and never a
/// lower index than the assertion before.
pub open spec fn tags_in_order(asserts: Seq<AssertModel>, in_set: bool, rows: int) -> bool {
    &&& forall|j: int|
        0 <= j < asserts.len() ==> match (#[trigger] asserts[j]).data_set_row {
            Some(row) => in_set && row < rows,
            None => !in_set,
        }
    &&& forall|j: int, k: int|
        #![trigger asserts[j], asserts[k]]
        0 <= j < k < asserts.len() ==> row_index(asserts[j]) <= row_index(asserts[k])
}

/// Whether a step before position `i` failed.
pub open spec fn failed_before(steps: Seq<TestStepResult>, i: int) -> bool {
    exists|k: int| 0 <= k < i && k < steps.len() && (#[trigger] steps[k]).result == TestResult::Fail
}

impl StepRun {
    /// Whether the step runs over a data set.
    pub open spec fn has_set(&self) -> bool {
        self.rows is Some
    }

    /// Whether an invocation of the step is still to be started.
    pub open spec fn has_next(&self) -> bool {
        match self.rows {
            Some(rows) => self.next_row < rows@.len(),
            None => self.next_row == 0,
        }
    }

    /// The row that the next invocation runs for.
    pub open spec fn next_tag(&self) -> Option<usize> {
        if self.has_set() {
            Some(self.next_row)
        } else {
            None
        }
    }

    /// The mapping of the row that the next invocation runs for: nothing if
    /// the step has no data set.
    pub open spec fn next_row_map(&self) -> Map<Seq<char>, Seq<char>> {
        match self.rows {
            Some(rows) => rows@[self.next_row as int]@,
            None => Map::empty(),
        }
    }

    /// Consistency of the step in progress with its definition.
    pub open spec fn wf(&self, step: TestStep) -> bool {
        &&& self.result.name == step.name
        &&& self.has_set() == (step.data_set is Some)
        &&& match self.rows {
            Some(rows) => self.next_row <= rows@.len() <= usize::MAX,
            None => self.next_row <= 1,
        }
        &&& match self.invocation {
            Some(inv) => self.next_row >= 1 && inv.row == (if self.has_set() {
                Some((self.next_row - 1) as usize)
            } else {
                None
            }) && inv.result != TestResult::NotRun && inv.result != TestResult::Skip,
            None => true,
        }
        &&& self.result.result != TestResult::Skip
        &&& (self.next_row == 0 ==> self.result.asserts@.len() == 0)
        &&& (self.result.result == TestResult::NotRun ==> self.has_set() && (self.invocation is None
            ==> self.next_row == 0))
        &&& tags_in_order(asserts_view(self.result.asserts@), self.has_set(), self.next_row as int)
        &&& self.outcomes@.len() + (if self.invocation is Some {
            1int
        } else {
            0int
        }) == self.next_row
        &&& if self.has_set() {
            self.result.result == rows_aggregate(self.outcomes@)
        } else {
            self.outcomes@.len() == 1 ==> self.result.result == self.outcomes@[0]
        }
    }
}

impl SuiteRunner {
    /// Number of steps resolved so far, which is the index of the next one.
    pub open spec fn resolved(&self) -> int {
        self.result.steps@.len() as int
    }

    /// Whether a command is running.
    pub open spec fn invocation_running(&self) -> bool {
        self.current is Some && self.current.unwrap().invocation is Some
    }

    /// The environment of the step at position `i`, without any row: the
    /// values file's, overlaid by the suite's, overlaid by the step's.
    pub open spec fn step_env(&self, i: int) -> Map<Seq<char>, Seq<char>> {
        composed(
            layer(self.global_env),
            layer(self.suite.env),
            layer(self.suite.steps@[i].env),
            Map::empty(),
        )
    }

    /// The rows that the step at position `i` runs over: those of the data
    /// set it names, none if it names none.
    pub open spec fn step_rows(&self, i: int) -> Seq<Map<Seq<char>, Seq<char>>> {
        match self.suite.steps@[i].data_set {
            Some(name) => if self.data_sets@.contains_key(name@) {
                self.data_sets@[name@]
            } else {
                Seq::empty()
            },
            None => Seq::empty(),
        }
    }

    /// The invariant of the run.
    pub open spec fn wf(&self) -> bool {
        let done = self.result.steps@;
        &&& done.len() <= self.suite.steps@.len()
        &&& self.result.name@ == self.suite.name@
        &&& self.result.overall_result == suite_overall(step_results(done))
        &&& self.abort == step_results(done).contains(TestResult::Fail)
        &&& cascades(done)
        &&& forall|i: int|
            0 <= i < done.len() ==> (#[trigger] done[i]).name == self.suite.steps@[i].name
        &&& forall|i: int|
            0 <= i < done.len() && self.suite.steps@[i].skipped() && !failed_before(done, i) ==> (
            #[trigger] done[i]).result == TestResult::Skip && done[i].asserts@.len() == 0
        &&& forall|i: int|
            0 <= i < done.len() && ((#[trigger] done[i]).result == TestResult::NotRun
                || done[i].result == TestResult::Skip) ==> done[i].asserts@.len() == 0
        &&& forall|i: int|
            0 <= i < done.len() ==> tags_in_order(
                asserts_view((#[trigger] done[i]).asserts@),
                self.suite.steps@[i].data_set is Some,
                self.step_rows(i).len() as int,
            )
        &&& (!self.started ==> done.len() == 0 && self.current is None && !self.finished)
        &&& (self.finished ==> done.len() == self.suite.steps@.len() && self.current is None)
        &&& match self.current {
            Some(cur) => {
                &&& !self.abort
                &&& done.len() < self.suite.steps@.len()
                &&& !self.suite.steps@[done.len() as int].skipped()
                &&& cur.wf(self.suite.steps@[done.len() as int])
                &&& cur.env@ == self.step_env(done.len() as int)
                &&& match self.suite.steps@[done.len() as int].data_set {
                    Some(name) => self.data_sets@.contains_key(name@) && cur.rows is Some
                        && rows_view(cur.rows.unwrap()@) == self.data_sets@[name@],
                    None => true,
                }
            },
            None => true,
        }
    }

    /// Whether `post` differs from `pre` at most in the step in progress and
    /// in what the steps resolved so far gave.
    pub open spec fn same_definitions(pre: SuiteRunner, post: SuiteRunner) -> bool {
        &&& post.suite == pre.suite
        &&& post.global_env == pre.global_env
        &&& post.data_sets == pre.data_sets
        &&& post.result.name == pre.result.name
    }

    /// The notifications that a step of the runner issues from the state
    /// `pre`.
    pub open spec fn step_events(pre: SuiteRunner) -> Seq<EventModel> {
        let idx = pre.resolved();
        if pre.invocation_running() {
            seq![]
        } else if !pre.started {
            seq![EventModel::SuiteStarted { name: pre.suite.name@ }]
        } else if pre.current is Some {
            let cur = pre.current.unwrap();
            let step = pre.suite.steps@[idx];
            if cur.has_next() {
                if cur.has_set() {
                    seq![EventModel::SetRowReported { index: cur.next_row }]
                } else {
                    seq![]
                }
            } else {
                let finished = EventModel::StepFinished {
                    name: step.display_name(),
                    result: cur.result.result,
                };
                if cur.has_set() {
                    seq![EventModel::SetFinished, finished]
                } else {
                    seq![finished]
                }
            }
        } else if idx < pre.suite.steps@.len() {
            let step = pre.suite.steps@[idx];
            if pre.abort || step.skipped() {
                seq![]
            } else {
                match step.data_set {
                    Some(name) => if pre.data_sets@.contains_key(name@) {
                        seq![
                            EventModel::StepStarted { name: step.display_name() },
                            EventModel::SetStarted { name: name@ },
                        ]
                    } else {
                        seq![EventModel::StepStarted { name: step.display_name() }]
                    },
                    None => seq![EventModel::StepStarted { name: step.display_name() }],
                }
            }
        } else if !pre.finished {
            seq![
                EventModel::SuiteFinished {
                    name: pre.suite.name@,
                    result: pre.result.overall_result,
                },
            ]
        } else {
            seq![]
        }
    }

    /// Whether a step of the runner from the state `pre` gives the state
    /// `post` and the answer `r`.
    pub open spec fn step_transition(
        pre: SuiteRunner,
        post: SuiteRunner,
        r: Result<Action, RunError>,
    ) -> bool {
        let idx = pre.resolved();
        if pre.invocation_running() {
            // A command is running: nothing moves.
            r is Err && r.unwrap_err() is InvocationRunning && post == pre
        } else if !pre.started {
            r is Ok && r.unwrap() is Continue && post == (SuiteRunner { started: true, ..pre })
        } else if pre.current is Some {
            let cur = pre.current.unwrap();
            let step = pre.suite.steps@[idx];
            if cur.has_next() {
                // The next invocation of the step in progress starts.
                &&& r is Ok
                &&& r.unwrap() is Run
                &&& r.unwrap()->Run_0.command@ == step.command@
                &&& r.unwrap()->Run_0.timeout_secs == step.timeout_secs()
                &&& r.unwrap()->Run_0.environment@ == cur.env@.union_prefer_right(cur.next_row_map())
                &&& post == (SuiteRunner {
                    current: Some(
                        StepRun {
                            next_row: (cur.next_row + 1) as usize,
                            invocation: Some(
                                Invocation { row: cur.next_tag(), result: TestResult::Inconclusive },
                            ),
                            ..cur
                        },
                    ),
                    ..pre
                })
            } else {
                // The step in progress is complete.
                &&& r is Ok
                &&& r.unwrap() is Continue
                &&& post.current is None
                &&& post.result.steps@ == pre.result.steps@.push(cur.result)
                &&& post.result.overall_result == suite_aggregate(
                    pre.result.overall_result,
                    cur.result.result,
                )
                &&& post.abort == (cur.result.result == TestResult::Fail)
                &&& post.started == pre.started
                &&& post.finished == pre.finished
                &&& Self::same_definitions(pre, post)
            }
        } else if idx < pre.suite.steps@.len() {
            let step = pre.suite.steps@[idx];
            if pre.abort || step.skipped() {
                // The step is not executed.
                &&& r is Ok
                &&& r.unwrap() is Continue
                &&& post.current is None
                &&& post.result.steps@.len() == idx + 1
                &&& post.result.steps@.drop_last() == pre.result.steps@
                &&& post.result.steps@.last().name == step.name
                &&& post.result.steps@.last().result == (if pre.abort {
                    TestResult::NotRun
                } else {
                    TestResult::Skip
                })
                &&& post.result.steps@.last().asserts@.len() == 0
                &&& post.result.overall_result == pre.result.overall_result
                &&& post.abort == pre.abort
                &&& post.started == pre.started
                &&& post.finished == pre.finished
                &&& Self::same_definitions(pre, post)
            } else if step.data_set is Some && !pre.data_sets@.contains_key(
                step.data_set.unwrap()@,
            ) {
                // The step names a data set that nothing defines: it is
                // announced, and the run ends.
                &&& r is Err
                &&& r.unwrap_err() is MissingDataSet
                &&& r.unwrap_err()->MissingDataSet_step == idx
                &&& r.unwrap_err()->MissingDataSet_name@ == step.data_set.unwrap()@
                &&& post == pre
            } else {
                // The step begins.
                &&& r is Ok
                &&& r.unwrap() is Continue
                &&& post.current is Some
                &&& post.current.unwrap().result.name == step.name
                &&& post.current.unwrap().result.asserts@.len() == 0
                &&& post.current.unwrap().result.result == (if step.data_set is Some {
                    TestResult::NotRun
                } else {
                    TestResult::Inconclusive
                })
                &&& post.current.unwrap().env@ == composed(
                    layer(pre.global_env),
                    layer(pre.suite.env),
                    layer(step.env),
                    Map::empty(),
                )
                &&& match step.data_set {
                    Some(name) => post.current.unwrap().rows is Some && rows_view(
                        post.current.unwrap().rows.unwrap()@,
                    ) == pre.data_sets@[name@],
                    None => post.current.unwrap().rows is None,
                }
                &&& post.current.unwrap().next_row == 0
                &&& post.current.unwrap().invocation is None
                &&& post.current.unwrap().outcomes@.len() == 0
                &&& post.result == pre.result
                &&& post.abort == pre.abort
                &&& post.started == pre.started
                &&& post.finished == pre.finished
                &&& Self::same_definitions(pre, post)
            }
        } else {
            // Every step is resolved.
            r is Ok && r.unwrap() is Finished && post == (SuiteRunner { finished: true, ..pre })
        }
    }

    /// Whether feeding `line` in the state `pre` gives the state `post`.
    pub open spec fn line_transition(pre: SuiteRunner, post: SuiteRunner, line: Seq<char>) -> bool {
        let cur = pre.current.unwrap();
        let inv = cur.invocation.unwrap();
        &&& post.current is Some
        &&& post.current.unwrap().invocation == Some(
            Invocation { row: inv.row, result: line_result(inv.result, line) },
        )
        &&& asserts_view(post.current.unwrap().result.asserts@) == asserts_view(cur.result.asserts@)
            + line_asserts(line, inv.row)
        &&& post.current.unwrap().result.name == cur.result.name
        &&& post.current.unwrap().result.result == cur.result.result
        &&& post.current.unwrap().outcomes == cur.outcomes
        &&& post.current.unwrap().env == cur.env
        &&& post.current.unwrap().rows == cur.rows
        &&& post.current.unwrap().next_row == cur.next_row
        &&& post.result == pre.result
        &&& post.abort == pre.abort
        &&& post.started == pre.started
        &&& post.finished == pre.finished
        &&& Self::same_definitions(pre, post)
    }

    /// Whether the end `ending` of the invocation running in the state `pre`
    /// gives the state `post`.
    pub open spec fn ending_transition(pre: SuiteRunner, post: SuiteRunner, ending: Ending) -> bool {
        let cur = pre.current.unwrap();
        let inv = cur.invocation.unwrap();
        let outcome = ended_result(inv.result, ending);
        &&& post.current is Some
        &&& post.current.unwrap().invocation is None
        &&& asserts_view(post.current.unwrap().result.asserts@) == asserts_view(cur.result.asserts@)
            + ending_asserts(ending, inv.row)
        &&& post.current.unwrap().result.name == cur.result.name
        &&& post.current.unwrap().result.result == (if cur.has_set() {
            row_aggregate(cur.result.result, outcome)
        } else {
            outcome
        })
        &&& post.current.unwrap().outcomes@ == cur.outcomes@.push(outcome)
        &&& post.current.unwrap().env == cur.env
        &&& post.current.unwrap().rows == cur.rows
        &&& post.current.unwrap().next_row == cur.next_row
        &&& post.result == pre.result
        &&& post.abort == pre.abort
        &&& post.started == pre.started
        &&& post.finished == pre.finished
        &&& Self::same_definitions(pre, post)
    }
}

/// Appends one notification.
fn emit(events: &mut Vec<ReporterEvent>, event: ReporterEvent)
    ensures
        events_view(final(events)@) == events_view(old(events)@).push(event@),
{
    events.push(event);
    assert(events_view(events@) =~= events_view(old(events)@).push(event@));
}

/// Appends one assertion.
fn record(asserts: &mut Vec<AssertResult>, assertion: AssertResult)
    ensures
        asserts_view(final(asserts)@) == asserts_view(old(asserts)@).push(assertion@),
{
    asserts.push(assertion);
    assert(asserts_view(asserts@) =~= asserts_view(old(asserts)@).push(assertion@));
}

/// A copy of an optional name.
fn copy_name(name: &Option<String>) -> (r: Option<String>)
    ensures
        r == *name,
{
    match name {
        Some(n) => Some(n.clone()),
        None => None,
    }
}

/// Assertions of the invocation in progress, appended to a step's, keep the
/// tags in order.
proof fn lemma_tags_appended(
    asserts: Seq<AssertModel>,
    more: Seq<AssertModel>,
    in_set: bool,
    started: int,
)
    requires
        tags_in_order(asserts, in_set, started),
        1 <= started <= usize::MAX,
        more.len() <= 1,
        forall|j: int|
            0 <= j < more.len() ==> (#[trigger] more[j]).data_set_row == (if in_set {
                Some((started - 1) as usize)
            } else {
                None
            }),
    ensures
        tags_in_order(asserts + more, in_set, started),
{
    let all = asserts + more;
    assert forall|j: int| 0 <= j < all.len() implies match (#[trigger] all[j]).data_set_row {
        Some(row) => in_set && row < started,
        None => !in_set,
    } by {
        if j < asserts.len() {
            assert(all[j] == asserts[j]);
        } else {
            assert(all[j] == more[j - asserts.len()]);
        }
    }
    assert forall|j: int, k: int|
        #![trigger all[j], all[k]]
        0 <= j < k < all.len() implies row_index(all[j]) <= row_index(all[k]) by {
        assert(all[j] == asserts[j]);
        if k < asserts.len() {
            assert(all[k] == asserts[k]);
        } else {
            assert(all[k] == more[k - asserts.len()]);
        }
    }
}

/// The results of a list of steps extended by one.
proof fn lemma_step_results_push(steps: Seq<TestStepResult>, step: TestStepResult)
    ensures
        step_results(steps.push(step)) == step_results(steps).push(step.result),
        step_results(steps.push(step)).contains(TestResult::Fail) == (step_results(steps).contains(
            TestResult::Fail,
        ) || step.result == TestResult::Fail),
        suite_overall(step_results(steps.push(step))) == suite_aggregate(
            suite_overall(step_results(steps)),
            step.result,
        ),
        forall|i: int| 0 <= i <= steps.len() ==> (failed_before(steps.push(step), i) <==> failed_before(steps, i)),
        failed_before(steps, steps.len() as int) <==> step_results(steps).contains(TestResult::Fail),
{
    let all = steps.push(step);
    assert(step_results(all) =~= step_results(steps).push(step.result));
    crate::test_results::lemma_suite_overall_push(step_results(steps), step.result);
    let rs = step_results(steps);
    if rs.contains(TestResult::Fail) {
        let k = choose|k: int| 0 <= k < rs.len() && rs[k] == TestResult::Fail;
        assert(steps[k].result == TestResult::Fail);
        assert(step_results(all)[k] == TestResult::Fail);
    }
    if step.result == TestResult::Fail {
        assert(step_results(all)[steps.len() as int] == TestResult::Fail);
    }
    if step_results(all).contains(TestResult::Fail) {
        let k = choose|k: int| 0 <= k < all.len() && step_results(all)[k] == TestResult::Fail;
        if k < steps.len() {
            assert(rs[k] == TestResult::Fail);
        }
    }
    if failed_before(steps, steps.len() as int) {
        let k = choose|k: int|
            0 <= k < steps.len() && k < steps.len() && (#[trigger] steps[k]).result
                == TestResult::Fail;
        assert(rs[k] == TestResult::Fail);
    }
    assert forall|i: int| 0 <= i <= steps.len() implies (failed_before(all, i) <==> failed_before(
        steps,
        i,
    )) by {
        if failed_before(all, i) {
            let k = choose|k: int|
                0 <= k < i && k < all.len() && (#[trigger] all[k]).result == TestResult::Fail;
            assert(steps[k].result == TestResult::Fail);
        }
        if failed_before(steps, i) {
            let k = choose|k: int|
                0 <= k < i && k < steps.len() && (#[trigger] steps[k]).result == TestResult::Fail;
            assert(all[k].result == TestResult::Fail);
        }
    }
}

impl SuiteRunner {
    /// A runner for `suite`, with the values file `values` if there is one.
    /// Nothing has happened yet: no step is resolved and the overall result
    /// is `Pass`.
    pub fn new(suite: TestSuite, values: Option<ValuesFile>) -> (r: SuiteRunner)
        ensures
            r.wf(),
            r.suite == suite,
            r.global_env == (match values {
                Some(v) => Some(v.env),
                None => None,
            }),
            r.data_sets@ == (match values {
                Some(v) => sets_layer(v.data_sets),
                None => Map::empty(),
            }).union_prefer_right(sets_layer(suite.data_sets)),
            !r.started,
            !r.finished,
            !r.abort,
            r.current is None,
            r.result.steps@.len() == 0,
            r.result.overall_result == TestResult::Pass,
    {
        let (global_env, value_sets) = match values {
            Some(v) => (Some(v.env), v.data_sets),
            None => (None, None),
        };
        let data_sets = DataSets::resolve(&value_sets, &suite.data_sets);
        let result = TestSuiteResult {
            name: suite.name.clone(),
            overall_result: TestResult::Pass,
            steps: Vec::new(),
        };
        let r = SuiteRunner {
            suite,
            global_env,
            data_sets,
            started: false,
            finished: false,
            abort: false,
            result,
            current: None,
        };
        assert(step_results(r.result.steps@) =~= Seq::empty());
        r
    }

    /// Whether a command is running, so that output is expected.
    pub fn is_invocation_running(&self) -> (r: bool)
        ensures
            r == self.invocation_running(),
    {
        match &self.current {
            Some(cur) => cur.invocation.is_some(),
            None => false,
        }
    }

    /// Whether the suite is complete.
    pub fn is_finished(&self) -> (r: bool)
        ensures
            r == self.finished,
    {
        self.finished
    }

    /// The results so far; once the suite is finished, its final result.
    pub fn into_result(self) -> (r: TestSuiteResult)
        ensures
            r == self.result,
    {
        self.result
    }

    /// Resolves the next step without executing it: `NotRun` after a failure,
    /// else `Skip`.
    fn pass_over(&mut self)
        requires
            old(self).wf(),
            old(self).started,
            old(self).current is None,
            old(self).resolved() < old(self).suite.steps@.len(),
            old(self).abort || old(self).suite.steps@[old(self).resolved()].skipped(),
        ensures
            final(self).wf(),
            Self::step_transition(*old(self), *final(self), Ok(Action::Continue)),
    {
        let idx = self.result.steps.len();
        let step = &self.suite.steps[idx];
        let entry = TestStepResult {
            name: copy_name(&step.name),
            result: if self.abort {
                TestResult::NotRun
            } else {
                TestResult::Skip
            },
            asserts: Vec::new(),
        };
        proof {
            lemma_step_results_push(self.result.steps@, entry);
            assert(asserts_view(entry.asserts@) =~= Seq::empty());
        }
        self.result.steps.push(entry);
        assert(self.result.steps@.drop_last() =~= old(self).result.steps@);
    }

    /// Closes the step in progress and folds its result into the suite's.
    fn close_step(&mut self, events: &mut Vec<ReporterEvent>)
        requires
            old(self).wf(),
            old(self).started,
            old(self).current is Some,
            !old(self).invocation_running(),
            !old(self).current.unwrap().has_next(),
        ensures
            final(self).wf(),
            Self::step_transition(*old(self), *final(self), Ok(Action::Continue)),
            events_view(final(events)@) == events_view(old(events)@) + Self::step_events(*old(self)),
    {
        let idx = self.result.steps.len();
        let mut taken: Option<StepRun> = None;
        std::mem::swap(&mut self.current, &mut taken);
        let cur = taken.unwrap();
        if cur.rows.is_some() {
            emit(events, ReporterEvent::SetFinished);
        }
        let name = self.suite.steps[idx].reported_name();
        emit(events, ReporterEvent::StepFinished { name, result: cur.result.result });
        assert(events_view(events@) =~= events_view(old(events)@) + Self::step_events(*old(self)));
        if cur.result.result == TestResult::Fail {
            self.abort = true;
        }
        self.result.overall_result = self.result.overall_result.with_step(cur.result.result);
        proof {
            lemma_step_results_push(self.result.steps@, cur.result);
            if cur.rows is Some {
                assert(rows_view(cur.rows.unwrap()@).len() == cur.rows.unwrap()@.len());
            }
        }
        self.result.steps.push(cur.result);
    }

    /// Begins the next step, which is to be executed.
    fn open_step(&mut self, events: &mut Vec<ReporterEvent>) -> (r: Result<Action, RunError>)
        requires
            old(self).wf(),
            old(self).started,
            old(self).current is None,
            old(self).resolved() < old(self).suite.steps@.len(),
            !old(self).abort,
            !old(self).suite.steps@[old(self).resolved()].skipped(),
        ensures
            final(self).wf(),
            Self::step_transition(*old(self), *final(self), r),
            events_view(final(events)@) == events_view(old(events)@) + Self::step_events(*old(self)),
    {
        let idx = self.result.steps.len();
        let step = &self.suite.steps[idx];
        emit(events, ReporterEvent::StepStarted { name: step.reported_name() });
        let rows = match &step.data_set {
            Some(name) => match self.data_sets.get(name) {
                Some(rows) => Some(duplicate_rows(rows)),
                None => {
                    assert(events_view(events@) =~= events_view(old(events)@) + Self::step_events(
                        *old(self),
                    ));
                    return Err(RunError::MissingDataSet { step: idx, name: name.clone() });
                },
            },
            None => None,
        };
        let env = Environment::compose(&self.global_env, &self.suite.env, &step.env, &None);
        if let Some(name) = &step.data_set {
            emit(events, ReporterEvent::SetStarted { name: name.clone() });
        }
        assert(events_view(events@) =~= events_view(old(events)@) + Self::step_events(*old(self)));
        if let Some(found) = &rows {
            assert(found@.len() == found.len());
        }
        let result = TestStepResult {
            name: copy_name(&step.name),
            result: if rows.is_some() {
                TestResult::NotRun
            } else {
                TestResult::Inconclusive
            },
            asserts: Vec::new(),
        };
        assert(asserts_view(result.asserts@) =~= Seq::empty());
        self.current = Some(
            StepRun {
                result,
                env,
                rows,
                next_row: 0,
                invocation: None,
                outcomes: Ghost(Seq::empty()),
            },
        );
        Ok(Action::Continue)
    }

    /// Starts the next invocation of the step in progress.
    fn start_invocation(&mut self, events: &mut Vec<ReporterEvent>) -> (r: Result<Action, RunError>)
        requires
            old(self).wf(),
            old(self).started,
            old(self).current is Some,
            !old(self).invocation_running(),
            old(self).current.unwrap().has_next(),
        ensures
            final(self).wf(),
            Self::step_transition(*old(self), *final(self), r),
            events_view(final(events)@) == events_view(old(events)@) + Self::step_events(*old(self)),
    {
        let idx = self.result.steps.len();
        let mut taken: Option<StepRun> = None;
        std::mem::swap(&mut self.current, &mut taken);
        let mut cur = taken.unwrap();
        assert(cur.has_next());
        let step = &self.suite.steps[idx];
        let mut environment = cur.env.duplicate();
        let row = match &cur.rows {
            Some(rows) => {
                assert(cur.next_row < rows.len());
                emit(events, ReporterEvent::SetRowReported { index: cur.next_row });
                environment.append(&rows[cur.next_row]);
                Some(cur.next_row)
            },
            None => {
                assert(environment@ =~= cur.env@.union_prefer_right(Map::empty()));
                None
            },
        };
        assert(events_view(events@) =~= events_view(old(events)@) + Self::step_events(*old(self)));
        cur.invocation = Some(Invocation { row, result: TestResult::Inconclusive });
        cur.next_row = cur.next_row + 1;
        self.current = Some(cur);
        Ok(
            Action::Run(
                CommandRequest {
                    command: step.command.clone(),
                    environment,
                    timeout_secs: step.effective_timeout(),
                },
            ),
        )
    }

    /// Moves the suite forward by one decision.
    ///
    /// In order: the suite starts; each step is resolved as `NotRun` after a
    /// failure, as `Skip` if it is marked so, or is begun, run once or once
    /// per row of its data set, and closed; at last the suite finishes. The
    /// answer says whether a command has to be run before the next call.
    pub fn step(&mut self, events: &mut Vec<ReporterEvent>) -> (r: Result<Action, RunError>)
        requires
            old(self).wf(),
        ensures
            final(self).wf(),
            Self::step_transition(*old(self), *final(self), r),
            events_view(final(events)@) == events_view(old(events)@) + Self::step_events(*old(self)),
    {
        if self.is_invocation_running() {
            assert(events_view(events@) =~= events_view(old(events)@) + Self::step_events(*old(self)));
            return Err(RunError::InvocationRunning);
        }
        if !self.started {
            emit(events, ReporterEvent::SuiteStarted { name: self.suite.name.clone() });
            assert(events_view(events@) =~= events_view(old(events)@) + Self::step_events(*old(self)));
            self.started = true;
            return Ok(Action::Continue);
        }
        let idx = self.result.steps.len();
        let has_next = match &self.current {
            Some(cur) => Some(
                match &cur.rows {
                    Some(rows) => cur.next_row < rows.len(),
                    None => cur.next_row == 0,
                },
            ),
            None => None,
        };
        match has_next {
            Some(true) => self.start_invocation(events),
            Some(false) => {
                self.close_step(events);
                Ok(Action::Continue)
            },
            None => {
                if idx < self.suite.steps.len() {
                    if self.abort || self.suite.steps[idx].is_skipped() {
                        self.pass_over();
                        assert(events_view(events@) =~= events_view(old(events)@)
                            + Self::step_events(*old(self)));
                        Ok(Action::Continue)
                    } else {
                        self.open_step(events)
                    }
                } else {
                    if !self.finished {
                        emit(
                            events,
                            ReporterEvent::SuiteFinished {
                                name: self.suite.name.clone(),
                                result: self.result.overall_result,
                            },
                        );
                        self.finished = true;
                    }
                    assert(events_view(events@) =~= events_view(old(events)@) + Self::step_events(
                        *old(self),
                    ));
                    Ok(Action::Finished)
                }
            },
        }
    }

    /// Takes one line of the running command's output: classifies it, updates
    /// the invocation's running result, and records and reports what it
    /// carries. Without a running command nothing changes.
    pub fn feed_line(&mut self, line: &str, events: &mut Vec<ReporterEvent>) -> (r: Result<
        (),
        RunError,
    >)
        requires
            old(self).wf(),
        ensures
            final(self).wf(),
            old(self).invocation_running() ==> r is Ok && Self::line_transition(
                *old(self),
                *final(self),
                line@,
            ) && events_view(final(events)@) == events_view(old(events)@) + line_events(line@),
            !old(self).invocation_running() ==> r is Err && r.unwrap_err() is NoInvocation
                && *final(self) == *old(self) && *final(events) == *old(events),
    {
        if !self.is_invocation_running() {
            return Err(RunError::NoInvocation);
        }
        let mut taken: Option<StepRun> = None;
        std::mem::swap(&mut self.current, &mut taken);
        let mut cur = taken.unwrap();
        let mut inv = cur.invocation.unwrap();
        let ghost old_asserts = asserts_view(cur.result.asserts@);
        match classify_line(line) {
            Marker::Print(text) => {
                emit(events, ReporterEvent::Print { text });
            },
            Marker::Fail(message) => {
                inv.result = TestResult::Fail;
                emit(events, ReporterEvent::Assertion { message: message.clone(), success: false });
                record(
                    &mut cur.result.asserts,
                    AssertResult { message, success: false, data_set_row: inv.row },
                );
            },
            Marker::Pass(message) => {
                if inv.result != TestResult::Fail {
                    inv.result = TestResult::Pass;
                }
                emit(events, ReporterEvent::Assertion { message: message.clone(), success: true });
                record(
                    &mut cur.result.asserts,
                    AssertResult { message, success: true, data_set_row: inv.row },
                );
            },
            Marker::Other => {},
        }
        assert(events_view(events@) =~= events_view(old(events)@) + line_events(line@));
        assert(asserts_view(cur.result.asserts@) =~= old_asserts + line_asserts(line@, inv.row));
        proof {
            lemma_tags_appended(
                old_asserts,
                line_asserts(line@, inv.row),
                cur.rows is Some,
                cur.next_row as int,
            );
        }
        cur.invocation = Some(inv);
        self.current = Some(cur);
        Ok(())
    }

    /// Closes the running invocation.
    ///
    /// When the output was exhausted, the invocation's result is its running
    /// result. A timeout or a failure to start makes it `Fail` and adds
    /// exactly one assertion that says so. A step without a data set takes
    /// the result as its own; a data-set step folds it into its running
    /// result, and its remaining rows still run. A failure to start is
    /// answered with an error, after it has been recorded.
    pub fn end_invocation(&mut self, ending: Ending, events: &mut Vec<ReporterEvent>) -> (r: Result<
        (),
        RunError,
    >)
        requires
            old(self).wf(),
        ensures
            final(self).wf(),
            old(self).invocation_running() ==> Self::ending_transition(
                *old(self),
                *final(self),
                ending,
            ) && events_view(final(events)@) == events_view(old(events)@) + ending_events(ending)
                && (ending == Ending::SpawnFailed ==> r is Err && r.unwrap_err() is SpawnFailed)
                && (ending != Ending::SpawnFailed ==> r is Ok),
            !old(self).invocation_running() ==> r is Err && r.unwrap_err() is NoInvocation
                && *final(self) == *old(self) && *final(events) == *old(events),
    {
        if !self.is_invocation_running() {
            return Err(RunError::NoInvocation);
        }
        let mut taken: Option<StepRun> = None;
        std::mem::swap(&mut self.current, &mut taken);
        let mut cur = taken.unwrap();
        let inv = cur.invocation.unwrap();
        let ghost old_asserts = asserts_view(cur.result.asserts@);
        let outcome = match ending {
            Ending::Exhausted => inv.result,
            Ending::TimedOut => {
                emit(
                    events,
                    ReporterEvent::Assertion {
                        message: String::from_str("Test timed out"),
                        success: false,
                    },
                );
                record(
                    &mut cur.result.asserts,
                    AssertResult {
                        message: String::from_str("Test timed out"),
                        success: false,
                        data_set_row: inv.row,
                    },
                );
                TestResult::Fail
            },
            Ending::SpawnFailed => {
                emit(
                    events,
                    ReporterEvent::Assertion {
                        message: String::from_str("Test spawn failed"),
                        success: false,
                    },
                );
                record(
                    &mut cur.result.asserts,
                    AssertResult {
                        message: String::from_str("Test spawn failed"),
                        success: false,
                        data_set_row: inv.row,
                    },
                );
                TestResult::Fail
            },
        };
        assert(events_view(events@) =~= events_view(old(events)@) + ending_events(ending));
        assert(asserts_view(cur.result.asserts@) =~= old_asserts + ending_asserts(ending, inv.row));
        proof {
            assert(cur.outcomes@.push(outcome).drop_last() =~= cur.outcomes@);
            lemma_tags_appended(
                old_asserts,
                ending_asserts(ending, inv.row),
                cur.rows is Some,
                cur.next_row as int,
            );
        }
        cur.result.result = if cur.rows.is_some() {
            cur.result.result.with_row(outcome)
        } else {
            outcome
        };
        cur.outcomes = Ghost(cur.outcomes@.push(outcome));
        cur.invocation = None;
        self.current = Some(cur);
        match ending {
            Ending::SpawnFailed => Err(RunError::SpawnFailed),
            _ => Ok(()),
        }
    }
}

/// Once a step has failed, every later step is `NotRun` and has no
/// assertions, whatever its skip flag or command.
pub proof fn lemma_failure_cascades(runner: SuiteRunner, i: int, j: int)
    requires
        runner.wf(),
        0 <= i < j < runner.result.steps@.len(),
        runner.result.steps@[i].result == TestResult::Fail,
    ensures
        runner.result.steps@[j].result == TestResult::NotRun,
        runner.result.steps@[j].asserts@.len() == 0,
{
}

/// A step that is marked to be skipped, and that no failed step precedes, is
/// `Skip` and has no assertions.
pub proof fn lemma_skipped_step(runner: SuiteRunner, i: int)
    requires
        runner.wf(),
        0 <= i < runner.result.steps@.len(),
        runner.suite.steps@[i].skipped(),
        !failed_before(runner.result.steps@, i),
    ensures
        runner.result.steps@[i].result == TestResult::Skip,
        runner.result.steps@[i].asserts@.len() == 0,
{
}

/// The runner asks for a command only for a step that is not marked to be
/// skipped, and only while no step has failed.
pub proof fn lemma_run_only_live_steps(
    pre: SuiteRunner,
    post: SuiteRunner,
    r: Result<Action, RunError>,
)
    requires
        pre.wf(),
        SuiteRunner::step_transition(pre, post, r),
        r is Ok,
        r.unwrap() is Run,
    ensures
        !pre.abort,
        pre.resolved() < pre.suite.steps@.len(),
        !pre.suite.steps@[pre.resolved()].skipped(),
{
}

/// The overall result is `Fail` if a resolved step failed, else
/// `Inconclusive` if one was inconclusive, else `Pass`; and there is at most
/// one result per step of the suite, exactly one once the suite is finished,
/// each under the name of its step.
pub proof fn lemma_overall_result(runner: SuiteRunner)
    requires
        runner.wf(),
    ensures
        runner.result.overall_result == suite_overall(step_results(runner.result.steps@)),
        runner.result.steps@.len() <= runner.suite.steps@.len(),
        runner.finished ==> runner.result.steps@.len() == runner.suite.steps@.len(),
        forall|i: int|
            0 <= i < runner.result.steps@.len() ==> (#[trigger] runner.result.steps@[i]).name
                == runner.suite.steps@[i].name,
{
}

/// Whether feeding the line at position `i` of `lines` takes the runner from
/// the state at position `i` of `states` to the next one.
pub open spec fn fed_at(states: Seq<SuiteRunner>, lines: Seq<Seq<char>>, i: int) -> bool {
    &&& states[i].invocation_running()
    &&& SuiteRunner::line_transition(states[i], states[i + 1], lines[i])
}

/// Whether `states` are the states that the runner passes through while the
/// lines `lines` of one invocation are fed to it in order.
pub open spec fn fed_in_turn(states: Seq<SuiteRunner>, lines: Seq<Seq<char>>) -> bool {
    &&& states.len() == lines.len() + 1
    &&& forall|i: int| 0 <= i < lines.len() ==> #[trigger] fed_at(states, lines, i)
}

/// Feeding the lines of an invocation one by one gives the running result
/// and the assertions of the lines taken together: the result folds over
/// the lines, the assertions come in the order of the lines and carry the
/// invocation's row, and the step's own result waits for the invocation's
/// end.
pub proof fn lemma_lines_fed(states: Seq<SuiteRunner>, lines: Seq<Seq<char>>)
    requires
        fed_in_turn(states, lines),
        states[0].invocation_running(),
    ensures
        states.last().invocation_running(),
        states.last().current.unwrap().invocation.unwrap().row
            == states[0].current.unwrap().invocation.unwrap().row,
        states.last().current.unwrap().invocation.unwrap().result == lines_result(
            states[0].current.unwrap().invocation.unwrap().result,
            lines,
        ),
        asserts_view(states.last().current.unwrap().result.asserts@) == asserts_view(
            states[0].current.unwrap().result.asserts@,
        ) + lines_asserts(lines, states[0].current.unwrap().invocation.unwrap().row),
        states.last().current.unwrap().result.result == states[0].current.unwrap().result.result,
    decreases lines.len(),
{
    let row = states[0].current.unwrap().invocation.unwrap().row;
    let start = asserts_view(states[0].current.unwrap().result.asserts@);
    if lines.len() == 0 {
        assert(start + lines_asserts(lines, row) =~= start);
    } else {
        let n = lines.len() - 1;
        let before = states.drop_last();
        let init = lines.drop_last();
        assert forall|i: int| 0 <= i < init.len() implies #[trigger] fed_at(before, init, i) by {
            assert(fed_at(states, lines, i));
        }
        lemma_lines_fed(before, init);
        assert(before.last() == states[n]);
        assert(fed_at(states, lines, n));
        assert(states.last() == states[n + 1]);
        assert(start + lines_asserts(init, row) + line_asserts(lines[n], row) =~= start
            + lines_asserts(lines, row));
    }
}

/// A bound on how many times in a row the runner can answer `Continue`.
pub open spec fn decisions_left(runner: SuiteRunner) -> int {
    2 * (runner.suite.steps@.len() - runner.resolved()) + (if runner.started {
        0int
    } else {
        1int
    }) - (if runner.current is Some {
        1int
    } else {
        0int
    })
}

/// The number of invocations that the step in progress has not started yet.
pub open spec fn invocations_left(runner: SuiteRunner) -> int {
    match runner.current {
        Some(cur) => match cur.rows {
            Some(rows) => rows@.len() - cur.next_row,
            None => 1 - cur.next_row,
        },
        None => 0,
    }
}

/// The runner cannot answer `Continue` for ever, nor ask for commands for
/// ever: each `Continue` takes one off a bound that is never negative, and
/// each command takes one off the invocations left for the step in progress
/// and leaves that bound alone.
pub proof fn lemma_step_progress(pre: SuiteRunner, post: SuiteRunner, r: Result<Action, RunError>)
    requires
        pre.wf(),
        SuiteRunner::step_transition(pre, post, r),
    ensures
        decisions_left(pre) >= 0,
        invocations_left(pre) >= 0,
        r is Ok && r.unwrap() is Continue ==> decisions_left(post) < decisions_left(pre),
        r is Ok && r.unwrap() is Run ==> decisions_left(post) == decisions_left(pre)
            && invocations_left(post) == invocations_left(pre) - 1,
{
}

/// An invocation that runs out of time is `Fail` whatever it printed, adds
/// exactly one assertion, tagged with its row, and makes its step `Fail`;
/// the invocations that the step has not started yet are still to come.
pub proof fn lemma_timeout(pre: SuiteRunner, post: SuiteRunner)
    requires
        pre.wf(),
        pre.invocation_running(),
        SuiteRunner::ending_transition(pre, post, Ending::TimedOut),
    ensures
        !post.invocation_running(),
        post.current.unwrap().result.result == TestResult::Fail,
        asserts_view(post.current.unwrap().result.asserts@) == asserts_view(
            pre.current.unwrap().result.asserts@,
        ).push(
            AssertModel {
                message: timeout_message(),
                success: false,
                data_set_row: pre.current.unwrap().invocation.unwrap().row,
            },
        ),
        invocations_left(post) == invocations_left(pre),
        post.current.unwrap().outcomes@ == pre.current.unwrap().outcomes@.push(TestResult::Fail),
{
    let before = asserts_view(pre.current.unwrap().result.asserts@);
    let row = pre.current.unwrap().invocation.unwrap().row;
    assert(before + ending_asserts(Ending::TimedOut, row) =~= before.push(
        AssertModel { message: timeout_message(), success: false, data_set_row: row },
    ));
}

/// The environment handed out with a command is that of the values file,
/// overlaid by the suite's, the step's, and the one row that the invocation
/// runs for, in this order; no other row has a part in it. The row is one of
/// the data set that the step names.
pub proof fn lemma_row_environment(pre: SuiteRunner, post: SuiteRunner, r: Result<Action, RunError>)
    requires
        pre.wf(),
        SuiteRunner::step_transition(pre, post, r),
        r is Ok,
        r.unwrap() is Run,
    ensures
        pre.current is Some,
        match pre.suite.steps@[pre.resolved()].data_set {
            Some(name) => {
                &&& pre.current.unwrap().next_row < pre.data_sets@[name@].len()
                &&& r.unwrap()->Run_0.environment@ == composed(
                    layer(pre.global_env),
                    layer(pre.suite.env),
                    layer(pre.suite.steps@[pre.resolved()].env),
                    pre.data_sets@[name@][pre.current.unwrap().next_row as int],
                )
            },
            None => r.unwrap()->Run_0.environment@ == composed(
                layer(pre.global_env),
                layer(pre.suite.env),
                layer(pre.suite.steps@[pre.resolved()].env),
                Map::empty(),
            ),
        },
{
    let cur = pre.current.unwrap();
    if cur.rows is Some {
        let rows = cur.rows.unwrap()@;
        assert(rows_view(rows).len() == rows.len());
        assert(rows_view(rows)[cur.next_row as int] == rows[cur.next_row as int]@);
    } else {
        assert(cur.env@.union_prefer_right(Map::empty()) =~= cur.env@);
        assert(r.unwrap()->Run_0.environment@ =~= pre.step_env(pre.resolved()).union_prefer_right(
            Map::empty(),
        ));
    }
}

/// When a step is closed, every one of its invocations has been started and
/// has ended: one without a data set, else one for each row of the set, in
/// order. The step's result is that of the one invocation, or the fold of
/// the rows' results, so `Fail` if any row failed or ran out of time; its
/// assertions carry no tag, or the index of their row, never decreasing and
/// below the number of rows.
pub proof fn lemma_step_closed(pre: SuiteRunner, post: SuiteRunner, r: Result<Action, RunError>)
    requires
        pre.wf(),
        pre.started,
        pre.current is Some,
        !pre.invocation_running(),
        !pre.current.unwrap().has_next(),
        SuiteRunner::step_transition(pre, post, r),
    ensures
        post.result.steps@.last() == pre.current.unwrap().result,
        match pre.suite.steps@[pre.resolved()].data_set {
            Some(name) => {
                &&& pre.current.unwrap().outcomes@.len() == pre.data_sets@[name@].len()
                &&& pre.current.unwrap().result.result == rows_aggregate(
                    pre.current.unwrap().outcomes@,
                )
            },
            None => {
                &&& pre.current.unwrap().outcomes@.len() == 1
                &&& pre.current.unwrap().result.result == pre.current.unwrap().outcomes@[0]
            },
        },
        tags_in_order(
            asserts_view(pre.current.unwrap().result.asserts@),
            pre.suite.steps@[pre.resolved()].data_set is Some,
            pre.step_rows(pre.resolved()).len() as int,
        ),
        pre.suite.steps@[pre.resolved()].data_set is Some && pre.current.unwrap().outcomes@.contains(
            TestResult::Fail,
        ) ==> pre.current.unwrap().result.result == TestResult::Fail,
{
    let cur = pre.current.unwrap();
    if cur.rows is Some {
        assert(rows_view(cur.rows.unwrap()@).len() == cur.rows.unwrap()@.len());
        crate::test_results::lemma_rows_aggregate(cur.outcomes@);
    }
}

/// Of every resolved step: one that is `NotRun` or `Skip` has no assertions;
/// the assertions of one without a data set carry no tag; those of one with
/// a data set carry the index of a row of that set, and the indices never
/// decrease along the list.
pub proof fn lemma_resolved_step(runner: SuiteRunner, i: int)
    requires
        runner.wf(),
        0 <= i < runner.result.steps@.len(),
    ensures
        runner.result.steps@[i].result == TestResult::NotRun || runner.result.steps@[i].result
            == TestResult::Skip ==> runner.result.steps@[i].asserts@.len() == 0,
        tags_in_order(
            asserts_view(runner.result.steps@[i].asserts@),
            runner.suite.steps@[i].data_set is Some,
            runner.step_rows(i).len() as int,
        ),
{
}

} // verus!
