use weave_test::data_sets::DataSets;
use weave_test::environment::Environment;
use weave_test::reporter::ReporterEvent;
use weave_test::runner::{Action, CommandRequest, Ending, RunError, SuiteRunner};
use weave_test::test_results::{AssertResult, TestResult, TestSuiteResult};
use weave_test::test_suite::{TestStep, TestSuite, ValuesFile};

fn env_of(pairs: &[(&str, &str)]) -> Environment {
    let mut env = Environment::new();
    for (k, v) in pairs {
        env.insert(k.to_string(), v.to_string());
    }
    env
}

fn step(name: &str, command: &str) -> TestStep {
    TestStep {
        name: Some(name.to_string()),
        description: None,
        skip: None,
        command: command.to_string(),
        env: None,
        data_set: None,
        timeout: None,
    }
}

fn suite(name: &str, steps: Vec<TestStep>) -> TestSuite {
    TestSuite {
        name: name.to_string(),
        author: None,
        description: None,
        env: None,
        steps,
        data_sets: None,
    }
}

// Stands in for the process: the command text is the output, one line per
// `|`; the command `$OUT` prints the value of OUT; `<timeout>` and `<spawn>`
// end the output in that way.
fn play(request: &CommandRequest) -> (Vec<String>, Ending) {
    let text = if request.command == "$OUT" {
        request.environment.get(&"OUT".to_string()).cloned().unwrap_or_default()
    } else {
        request.command.clone()
    };
    let mut lines = Vec::new();
    for part in text.split('|') {
        if part == "<timeout>" {
            return (lines, Ending::TimedOut);
        }
        if part == "<spawn>" {
            return (lines, Ending::SpawnFailed);
        }
        if !part.is_empty() {
            lines.push(part.to_string());
        }
    }
    (lines, Ending::Exhausted)
}

struct Outcome {
    result: Result<TestSuiteResult, RunError>,
    events: Vec<ReporterEvent>,
    requests: Vec<CommandRequest>,
}

fn drive(suite: TestSuite, values: Option<ValuesFile>) -> Outcome {
    let mut runner = SuiteRunner::new(suite, values);
    let mut events = Vec::new();
    let mut requests = Vec::new();
    let mut turns = 0;
    loop {
        turns += 1;
        assert!(turns < 10_000);
        match runner.step(&mut events) {
            Ok(Action::Continue) => {}
            Ok(Action::Finished) => {
                assert!(runner.is_finished());
                return Outcome { result: Ok(runner.into_result()), events, requests };
            }
            Ok(Action::Run(request)) => {
                assert!(runner.is_invocation_running());
                let (lines, ending) = play(&request);
                requests.push(request);
                for line in lines {
                    runner.feed_line(&line, &mut events).unwrap();
                }
                if let Err(e) = runner.end_invocation(ending, &mut events) {
                    return Outcome { result: Err(e), events, requests };
                }
            }
            Err(e) => return Outcome { result: Err(e), events, requests },
        }
    }
}

fn assertion(message: &str, success: bool, row: Option<usize>) -> AssertResult {
    AssertResult { message: message.to_string(), success, data_set_row: row }
}

fn results(outcome: &Outcome) -> Vec<TestResult> {
    outcome.result.as_ref().unwrap().steps.iter().map(|s| s.result).collect()
}

#[test]
fn single_pass_line_gives_pass_with_one_assertion() {
    let out = drive(suite("s", vec![step("a", "WEAVE-TEST:PASS:ok")]), None);
    let result = out.result.unwrap();
    assert_eq!(result.name, "s");
    assert_eq!(result.overall_result, TestResult::Pass);
    assert_eq!(result.steps.len(), 1);
    assert_eq!(result.steps[0].name, Some("a".to_string()));
    assert_eq!(result.steps[0].result, TestResult::Pass);
    assert_eq!(result.steps[0].asserts, vec![assertion("ok", true, None)]);
    assert_eq!(
        out.events,
        vec![
            ReporterEvent::SuiteStarted { name: "s".to_string() },
            ReporterEvent::StepStarted { name: "a".to_string() },
            ReporterEvent::Assertion { message: "ok".to_string(), success: true },
            ReporterEvent::StepFinished { name: "a".to_string(), result: TestResult::Pass },
            ReporterEvent::SuiteFinished { name: "s".to_string(), result: TestResult::Pass },
        ]
    );
    assert_eq!(out.requests.len(), 1);
    assert_eq!(out.requests[0].timeout_secs, 300);
}

#[test]
fn nothing_recognized_gives_inconclusive() {
    let out = drive(suite("s", vec![step("a", "hello|world")]), None);
    let result = out.result.unwrap();
    assert_eq!(result.steps[0].result, TestResult::Inconclusive);
    assert!(result.steps[0].asserts.is_empty());
    assert_eq!(result.overall_result, TestResult::Inconclusive);
}

#[test]
fn no_output_at_all_gives_inconclusive() {
    let out = drive(suite("s", vec![step("a", "")]), None);
    assert_eq!(results(&out), vec![TestResult::Inconclusive]);
}

#[test]
fn fail_then_pass_is_fail() {
    let out = drive(suite("s", vec![step("a", "WEAVE-TEST:FAIL:no|WEAVE-TEST:PASS:yes")]), None);
    let result = out.result.unwrap();
    assert_eq!(result.steps[0].result, TestResult::Fail);
    assert_eq!(
        result.steps[0].asserts,
        vec![assertion("no", false, None), assertion("yes", true, None)]
    );
    assert_eq!(result.overall_result, TestResult::Fail);
}

#[test]
fn pass_then_fail_is_fail() {
    let out = drive(suite("s", vec![step("a", "WEAVE-TEST:PASS:yes|WEAVE-TEST:FAIL:no")]), None);
    let result = out.result.unwrap();
    assert_eq!(result.steps[0].result, TestResult::Fail);
    assert_eq!(
        result.steps[0].asserts,
        vec![assertion("yes", true, None), assertion("no", false, None)]
    );
}

#[test]
fn print_lines_are_reported_and_do_not_count() {
    let out = drive(suite("s", vec![step("a", "WEAVE-TEST:PRINT: note |noise")]), None);
    assert_eq!(results(&out), vec![TestResult::Inconclusive]);
    assert!(out.events.contains(&ReporterEvent::Print { text: "note".to_string() }));
    assert_eq!(out.events.len(), 5);
}

fn three_rows() -> DataSets {
    let mut sets = DataSets::new();
    sets.insert(
        "rows".to_string(),
        vec![
            env_of(&[("OUT", "WEAVE-TEST:PASS:first")]),
            env_of(&[("OUT", "plain text")]),
            env_of(&[("OUT", "WEAVE-TEST:FAIL:third")]),
        ],
    );
    sets
}

#[test]
fn data_set_rows_aggregate_and_tag_assertions() {
    let mut s = suite("s", vec![step("a", "$OUT")]);
    s.steps[0].data_set = Some("rows".to_string());
    let mut sets = DataSets::new();
    sets.insert(
        "rows".to_string(),
        vec![
            env_of(&[("OUT", "WEAVE-TEST:PASS:zero")]),
            env_of(&[("OUT", "<timeout>")]),
            env_of(&[("OUT", "WEAVE-TEST:FAIL:two")]),
        ],
    );
    s.data_sets = Some(sets);
    let out = drive(s, None);
    let result = out.result.unwrap();
    assert_eq!(result.steps[0].result, TestResult::Fail);
    assert_eq!(
        result.steps[0].asserts,
        vec![
            assertion("zero", true, Some(0)),
            assertion("Test timed out", false, Some(1)),
            assertion("two", false, Some(2)),
        ]
    );
}

#[test]
fn data_set_pass_inconclusive_fail_is_fail() {
    let mut s = suite("s", vec![step("a", "$OUT")]);
    s.steps[0].data_set = Some("rows".to_string());
    s.data_sets = Some(three_rows());
    let out = drive(s, None);
    let result = out.result.unwrap();
    assert_eq!(result.steps[0].result, TestResult::Fail);
    assert_eq!(
        result.steps[0].asserts,
        vec![assertion("first", true, Some(0)), assertion("third", false, Some(2))]
    );
    assert_eq!(out.requests.len(), 3);
    assert_eq!(
        out.events,
        vec![
            ReporterEvent::SuiteStarted { name: "s".to_string() },
            ReporterEvent::StepStarted { name: "a".to_string() },
            ReporterEvent::SetStarted { name: "rows".to_string() },
            ReporterEvent::SetRowReported { index: 0 },
            ReporterEvent::Assertion { message: "first".to_string(), success: true },
            ReporterEvent::SetRowReported { index: 1 },
            ReporterEvent::SetRowReported { index: 2 },
            ReporterEvent::Assertion { message: "third".to_string(), success: false },
            ReporterEvent::SetFinished,
            ReporterEvent::StepFinished { name: "a".to_string(), result: TestResult::Fail },
            ReporterEvent::SuiteFinished { name: "s".to_string(), result: TestResult::Fail },
        ]
    );
}

#[test]
fn data_set_pass_then_inconclusive_is_inconclusive() {
    let mut s = suite("s", vec![step("a", "$OUT")]);
    s.steps[0].data_set = Some("rows".to_string());
    let mut sets = DataSets::new();
    sets.insert(
        "rows".to_string(),
        vec![env_of(&[("OUT", "WEAVE-TEST:PASS:a")]), env_of(&[("OUT", "x")]), env_of(&[("OUT", "WEAVE-TEST:PASS:b")])],
    );
    s.data_sets = Some(sets);
    let out = drive(s, None);
    assert_eq!(results(&out), vec![TestResult::Inconclusive]);
    assert_eq!(out.result.unwrap().overall_result, TestResult::Inconclusive);
}

#[test]
fn empty_data_set_leaves_the_step_not_run() {
    let mut s = suite("s", vec![step("a", "WEAVE-TEST:PASS:never")]);
    s.steps[0].data_set = Some("rows".to_string());
    let mut sets = DataSets::new();
    sets.insert("rows".to_string(), vec![]);
    s.data_sets = Some(sets);
    let out = drive(s, None);
    assert!(out.requests.is_empty());
    let result = out.result.unwrap();
    assert_eq!(result.steps[0].result, TestResult::NotRun);
    assert_eq!(result.overall_result, TestResult::Pass);
}

#[test]
fn timeout_gives_fail_with_one_synthetic_assertion() {
    let out = drive(
        suite("s", vec![step("a", "WEAVE-TEST:PASS:early|<timeout>|WEAVE-TEST:PASS:late")]),
        None,
    );
    let result = out.result.unwrap();
    assert_eq!(result.steps[0].result, TestResult::Fail);
    assert_eq!(
        result.steps[0].asserts,
        vec![assertion("early", true, None), assertion("Test timed out", false, None)]
    );
    assert!(out
        .events
        .contains(&ReporterEvent::Assertion { message: "Test timed out".to_string(), success: false }));
}

#[test]
fn rows_after_a_timed_out_row_still_run() {
    let mut s = suite("s", vec![step("a", "$OUT")]);
    s.steps[0].data_set = Some("rows".to_string());
    s.steps[0].timeout = Some(7);
    let mut sets = DataSets::new();
    sets.insert(
        "rows".to_string(),
        vec![env_of(&[("OUT", "<timeout>")]), env_of(&[("OUT", "WEAVE-TEST:PASS:after")])],
    );
    s.data_sets = Some(sets);
    let out = drive(s, None);
    assert_eq!(out.requests.len(), 2);
    assert_eq!(out.requests[1].timeout_secs, 7);
    let result = out.result.unwrap();
    assert_eq!(result.steps[0].result, TestResult::Fail);
    assert_eq!(
        result.steps[0].asserts,
        vec![assertion("Test timed out", false, Some(0)), assertion("after", true, Some(1))]
    );
}

#[test]
fn steps_after_a_failure_are_not_run() {
    let mut skipped = step("c", "WEAVE-TEST:PASS:never");
    skipped.skip = Some(true);
    let out = drive(
        suite(
            "s",
            vec![
                step("a", "WEAVE-TEST:PASS:ok"),
                step("b", "WEAVE-TEST:FAIL:no"),
                skipped,
                step("d", "WEAVE-TEST:PASS:never"),
            ],
        ),
        None,
    );
    assert_eq!(out.requests.len(), 2);
    assert_eq!(
        results(&out),
        vec![TestResult::Pass, TestResult::Fail, TestResult::NotRun, TestResult::NotRun]
    );
    let result = out.result.unwrap();
    assert!(result.steps[2].asserts.is_empty());
    assert!(result.steps[3].asserts.is_empty());
    assert_eq!(result.steps[3].name, Some("d".to_string()));
    assert_eq!(result.overall_result, TestResult::Fail);
    assert!(!out.events.contains(&ReporterEvent::StepStarted { name: "d".to_string() }));
}

#[test]
fn skipped_step_is_not_invoked() {
    let mut skipped = step("a", "WEAVE-TEST:FAIL:never");
    skipped.skip = Some(true);
    let out = drive(suite("s", vec![skipped, step("b", "WEAVE-TEST:PASS:ok")]), None);
    assert_eq!(out.requests.len(), 1);
    assert_eq!(out.requests[0].command, "WEAVE-TEST:PASS:ok");
    assert_eq!(results(&out), vec![TestResult::Skip, TestResult::Pass]);
    let result = out.result.unwrap();
    assert!(result.steps[0].asserts.is_empty());
    assert_eq!(result.overall_result, TestResult::Pass);
    assert!(!out.events.contains(&ReporterEvent::StepStarted { name: "a".to_string() }));
}

#[test]
fn skip_false_runs_the_step() {
    let mut s = step("a", "WEAVE-TEST:PASS:ok");
    s.skip = Some(false);
    let out = drive(suite("s", vec![s]), None);
    assert_eq!(results(&out), vec![TestResult::Pass]);
}

#[test]
fn overall_is_inconclusive_without_failure() {
    let out = drive(
        suite("s", vec![step("a", "WEAVE-TEST:PASS:ok"), step("b", "x"), step("c", "WEAVE-TEST:PASS:ok")]),
        None,
    );
    assert_eq!(
        results(&out),
        vec![TestResult::Pass, TestResult::Inconclusive, TestResult::Pass]
    );
    assert_eq!(out.result.unwrap().overall_result, TestResult::Inconclusive);
}

#[test]
fn fail_after_inconclusive_is_overall_fail() {
    let out = drive(suite("s", vec![step("a", "x"), step("b", "WEAVE-TEST:FAIL:no")]), None);
    assert_eq!(out.result.unwrap().overall_result, TestResult::Fail);
}

#[test]
fn empty_suite_passes() {
    let out = drive(suite("empty", vec![]), None);
    let result = out.result.unwrap();
    assert_eq!(result.overall_result, TestResult::Pass);
    assert!(result.steps.is_empty());
    assert_eq!(out.events.len(), 2);
}

#[test]
fn missing_data_set_is_an_error() {
    let mut s = suite("s", vec![step("a", "WEAVE-TEST:PASS:ok"), step("b", "x")]);
    s.steps[1].data_set = Some("absent".to_string());
    let out = drive(s, None);
    assert_eq!(
        out.result.unwrap_err(),
        RunError::MissingDataSet { step: 1, name: "absent".to_string() }
    );
    assert_eq!(out.requests.len(), 1);
    assert_eq!(out.events.last(), Some(&ReporterEvent::StepStarted { name: "b".to_string() }));
}

#[test]
fn spawn_failure_is_recorded_and_ends_the_run() {
    let mut runner = SuiteRunner::new(suite("s", vec![step("a", "<spawn>")]), None);
    let mut events = Vec::new();
    assert!(matches!(runner.step(&mut events), Ok(Action::Continue)));
    assert!(matches!(runner.step(&mut events), Ok(Action::Continue)));
    assert!(matches!(runner.step(&mut events), Ok(Action::Run(_))));
    assert_eq!(runner.end_invocation(Ending::SpawnFailed, &mut events), Err(RunError::SpawnFailed));
    let cur = runner.current.as_ref().unwrap();
    assert_eq!(cur.result.result, TestResult::Fail);
    assert_eq!(cur.result.asserts, vec![assertion("Test spawn failed", false, None)]);
}

#[test]
fn output_without_a_running_command_is_refused() {
    let mut runner = SuiteRunner::new(suite("s", vec![step("a", "x")]), None);
    let mut events = Vec::new();
    assert_eq!(runner.feed_line("WEAVE-TEST:PASS:ok", &mut events), Err(RunError::NoInvocation));
    assert_eq!(runner.end_invocation(Ending::Exhausted, &mut events), Err(RunError::NoInvocation));
    assert!(events.is_empty());
    assert!(!runner.is_invocation_running());
}

#[test]
fn stepping_while_a_command_runs_is_refused() {
    let mut runner = SuiteRunner::new(suite("s", vec![step("a", "x")]), None);
    let mut events = Vec::new();
    runner.step(&mut events).unwrap();
    runner.step(&mut events).unwrap();
    assert!(matches!(runner.step(&mut events), Ok(Action::Run(_))));
    let before = events.len();
    assert!(matches!(runner.step(&mut events), Err(RunError::InvocationRunning)));
    assert_eq!(events.len(), before);
}

#[test]
fn environment_layers_reach_the_command() {
    let mut s = suite("s", vec![step("a", "$OUT")]);
    s.env = Some(env_of(&[("K", "suite"), ("S", "s"), ("OUT", "WEAVE-TEST:FAIL:suite")]));
    s.steps[0].env = Some(env_of(&[("K", "step"), ("T", "t")]));
    s.steps[0].data_set = Some("rows".to_string());
    let mut sets = DataSets::new();
    sets.insert(
        "rows".to_string(),
        vec![env_of(&[("K", "row0"), ("ONLY0", "x"), ("OUT", "WEAVE-TEST:PASS:row")]), env_of(&[("R", "r")])],
    );
    let values = ValuesFile {
        env: env_of(&[("K", "global"), ("G", "g"), ("S", "global")]),
        data_sets: Some(sets),
    };
    let out = drive(s, Some(values));
    assert_eq!(out.requests.len(), 2);
    let get = |i: usize, k: &str| out.requests[i].environment.get(&k.to_string()).cloned();
    assert_eq!(get(0, "K"), Some("row0".to_string()));
    assert_eq!(get(0, "G"), Some("g".to_string()));
    assert_eq!(get(0, "S"), Some("s".to_string()));
    assert_eq!(get(0, "T"), Some("t".to_string()));
    assert_eq!(get(0, "ONLY0"), Some("x".to_string()));
    assert_eq!(get(1, "K"), Some("step".to_string()));
    assert_eq!(get(1, "ONLY0"), None);
    assert_eq!(get(1, "R"), Some("r".to_string()));
    assert_eq!(results(&out), vec![TestResult::Fail]);
}

#[test]
fn suite_data_set_replaces_the_values_file_one() {
    let mut s = suite("s", vec![step("a", "$OUT")]);
    s.steps[0].data_set = Some("rows".to_string());
    let mut own = DataSets::new();
    own.insert("rows".to_string(), vec![env_of(&[("OUT", "WEAVE-TEST:PASS:own")])]);
    s.data_sets = Some(own);
    let values = ValuesFile { env: Environment::new(), data_sets: Some(three_rows()) };
    let out = drive(s, Some(values));
    assert_eq!(out.requests.len(), 1);
    assert_eq!(results(&out), vec![TestResult::Pass]);
}

#[test]
fn unnamed_step_is_reported_with_an_empty_name() {
    let mut s = step("a", "WEAVE-TEST:PASS:ok");
    s.name = None;
    let out = drive(suite("s", vec![s]), None);
    assert!(out.events.contains(&ReporterEvent::StepStarted { name: String::new() }));
    assert_eq!(out.result.unwrap().steps[0].name, None);
}
