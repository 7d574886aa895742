//! Lifecycle notifications that the engine issues while a suite runs.

use vstd::prelude::*;
use crate::test_results::TestResult;

verus! {

/// One notification for the reporter. The engine issues them in the order in
/// which they are to be delivered.
#[derive(Debug, Clone, PartialEq, Eq)]
pub enum ReporterEvent {
    SuiteStarted { name: String },
    SuiteFinished { name: String, result: TestResult },
    StepStarted { name: String },
    StepFinished { name: String, result: TestResult },
    SetStarted { name: String },
    SetRowReported { index: usize },
    SetFinished,
    Print { text: String },
    Assertion { message: String, success: bool },
}

/// Mathematical value of a [`ReporterEvent`].
pub enum EventModel {
    SuiteStarted { name: Seq<char> },
    SuiteFinished { name: Seq<char>, result: TestResult },
    StepStarted { name: Seq<char> },
    StepFinished { name: Seq<char>, result: TestResult },
    SetStarted { name: Seq<char> },
    SetRowReported { index: usize },
    SetFinished,
    Print { text: Seq<char> },
    Assertion { message: Seq<char>, success: bool },
}

impl View for ReporterEvent {
    type V = EventModel;

    open spec fn view(&self) -> EventModel {
        match self {
            ReporterEvent::SuiteStarted { name } => EventModel::SuiteStarted { name: name@ },
            ReporterEvent::SuiteFinished { name, result } => EventModel::SuiteFinished {
                name: name@,
                result: *result,
            },
            ReporterEvent::StepStarted { name } => EventModel::StepStarted { name: name@ },
            ReporterEvent::StepFinished { name, result } => EventModel::StepFinished {
                name: name@,
                result: *result,
            },
            ReporterEvent::SetStarted { name } => EventModel::SetStarted { name: name@ },
            ReporterEvent::SetRowReported { index } => EventModel::SetRowReported { index: *index },
            ReporterEvent::SetFinished => EventModel::SetFinished,
            ReporterEvent::Print { text } => EventModel::Print { text: text@ },
            ReporterEvent::Assertion { message, success } => EventModel::Assertion {
                message: message@,
                success: *success,
            },
        }
    }
}

/// Views of a list of notifications, in order.
pub open spec fn events_view(events: Seq<ReporterEvent>) -> Seq<EventModel> {
    events.map_values(|e: ReporterEvent| e@)
}

} // verus!
