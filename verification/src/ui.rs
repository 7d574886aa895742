//! How progress is shown, and the messages that drive the display.

use vstd::prelude::*;
use vstd::string::StringExecFns;
use crate::protocol::trim;
use crate::protocol::trimmed;
use crate::reporter::ReporterEvent;
use crate::reporter::EventModel;
use crate::test_results::TestResult;

verus! {

/// The ways in which progress can be shown.
#[derive(PartialEq, Eq, Structural, Debug, Clone, Copy)]
pub enum UIFormat {
    Colour,
    Plain,
    /// Nothing is shown.
    Silent,
    Json,
}

/// The lower-case form of `text`.
pub uninterp spec fn lowercase_of(text: Seq<char>) -> Seq<char>;

/// Calls `str::to_lowercase`, which depends on its argument alone; its
/// result is given a name, and nothing else is claimed of it.
#[verifier::external_body]
fn lowercase(text: &str) -> (r: String)
    ensures
        r@ == lowercase_of(text@),
{
    text.to_lowercase()
}

/// The format that a lower-case name stands for, if any; whitespace around
/// the name does not count.
pub open spec fn format_named(text: Seq<char>) -> Option<UIFormat> {
    let name = trimmed(text);
    if name == "colour"@ || name == "color"@ {
        Some(UIFormat::Colour)
    } else if name == "plain"@ {
        Some(UIFormat::Plain)
    } else if name == "none"@ {
        Some(UIFormat::Silent)
    } else if name == "json"@ {
        Some(UIFormat::Json)
    } else {
        None
    }
}

impl UIFormat {
    /// The format that the lower-case name `text` stands for.
    pub fn from_lowercase(text: &str) -> (r: Option<UIFormat>)
        ensures
            r == format_named(text@),
    {
        let name = String::from_str(trim(text));
        if name == String::from_str("colour") || name == String::from_str("color") {
            Some(UIFormat::Colour)
        } else if name == String::from_str("plain") {
            Some(UIFormat::Plain)
        } else if name == String::from_str("none") {
            Some(UIFormat::Silent)
        } else if name == String::from_str("json") {
            Some(UIFormat::Json)
        } else {
            None
        }
    }

    /// The format that `s` names, in any case of letters.
    pub fn from_str(s: &str) -> (r: Option<UIFormat>)
        ensures
            r == format_named(lowercase_of(s@)),
    {
        let text = lowercase(s);
        UIFormat::from_lowercase(text.as_str())
    }
}

/// A message to the display.
#[derive(Debug, Clone, PartialEq, Eq)]
pub enum UIMessage {
    Text { message: String },
    StartSuite { name: String },
    FinishSuite { name: String, state: TestResult, lines: u16 },
    StartStep { name: String },
    FinishStep { name: String, state: TestResult, lines: u16 },
    Finish,
    Assert { message: String, success: bool },
    ReportSetInstance { index: usize },
    StartSet { name: String },
    FinishSet,
}

/// Mathematical value of a [`UIMessage`].
pub enum MessageModel {
    Text { message: Seq<char> },
    StartSuite { name: Seq<char> },
    FinishSuite { name: Seq<char>, state: TestResult, lines: u16 },
    StartStep { name: Seq<char> },
    FinishStep { name: Seq<char>, state: TestResult, lines: u16 },
    Finish,
    Assert { message: Seq<char>, success: bool },
    ReportSetInstance { index: usize },
    StartSet { name: Seq<char> },
    FinishSet,
}

impl View for UIMessage {
    type V = MessageModel;

    open spec fn view(&self) -> MessageModel {
        match self {
            UIMessage::Text { message } => MessageModel::Text { message: message@ },
            UIMessage::StartSuite { name } => MessageModel::StartSuite { name: name@ },
            UIMessage::FinishSuite { name, state, lines } => MessageModel::FinishSuite {
                name: name@,
                state: *state,
                lines: *lines,
            },
            UIMessage::StartStep { name } => MessageModel::StartStep { name: name@ },
            UIMessage::FinishStep { name, state, lines } => MessageModel::FinishStep {
                name: name@,
                state: *state,
                lines: *lines,
            },
            UIMessage::Finish => MessageModel::Finish,
            UIMessage::Assert { message, success } => MessageModel::Assert {
                message: message@,
                success: *success,
            },
            UIMessage::ReportSetInstance { index } => MessageModel::ReportSetInstance {
                index: *index,
            },
            UIMessage::StartSet { name } => MessageModel::StartSet { name: name@ },
            UIMessage::FinishSet => MessageModel::FinishSet,
        }
    }
}

/// The words that the display puts in a header for a result.
pub open spec fn label_of(state: TestResult) -> Seq<char> {
    match state {
        TestResult::Pass => "Pass"@,
        TestResult::Fail => "Fail"@,
        TestResult::NotRun => "Not Run"@,
        TestResult::Inconclusive => "Inconclusive"@,
        TestResult::Skip => "Skipped"@,
    }
}

/// The words that the display puts in a header for a result.
pub fn state_label(state: TestResult) -> (s: &'static str)
    ensures
        s@ == label_of(state),
{
    match state {
        TestResult::Pass => "Pass",
        TestResult::Fail => "Fail",
        TestResult::NotRun => "Not Run",
        TestResult::Inconclusive => "Inconclusive",
        TestResult::Skip => "Skipped",
    }
}

/// One more line, up to the largest count that can be kept.
pub open spec fn one_more(lines: u16) -> u16 {
    if lines == u16::MAX {
        lines
    } else {
        (lines + 1) as u16
    }
}

/// How many lines the display has written since the current suite and the
/// current step began, so that their headers can be rewritten in place.
#[derive(PartialEq, Eq, Structural, Debug, Clone, Copy)]
pub struct LineCount {
    pub lines_to_suite: u16,
    pub lines_to_step: u16,
}

/// The line counts after the notification `event`.
pub open spec fn count_after(count: LineCount, event: EventModel) -> LineCount {
    match event {
        EventModel::SuiteStarted { .. } => LineCount { lines_to_suite: 1, ..count },
        EventModel::SuiteFinished { .. } => LineCount { lines_to_suite: 0, ..count },
        EventModel::StepStarted { .. } => LineCount {
            lines_to_suite: one_more(count.lines_to_suite),
            lines_to_step: 1,
        },
        EventModel::StepFinished { .. } => LineCount { lines_to_step: 0, ..count },
        _ => LineCount {
            lines_to_suite: one_more(count.lines_to_suite),
            lines_to_step: one_more(count.lines_to_step),
        },
    }
}

/// The message that tells the display of the notification `event`.
pub open spec fn message_for(count: LineCount, event: EventModel) -> MessageModel {
    match event {
        EventModel::SuiteStarted { name } => MessageModel::StartSuite { name },
        EventModel::SuiteFinished { name, result } => MessageModel::FinishSuite {
            name,
            state: result,
            lines: count.lines_to_suite,
        },
        EventModel::StepStarted { name } => MessageModel::StartStep { name },
        EventModel::StepFinished { name, result } => MessageModel::FinishStep {
            name,
            state: result,
            lines: count.lines_to_step,
        },
        EventModel::SetStarted { name } => MessageModel::StartSet { name },
        EventModel::SetRowReported { index } => MessageModel::ReportSetInstance { index },
        EventModel::SetFinished => MessageModel::FinishSet,
        EventModel::Print { text } => MessageModel::Text { message: text },
        EventModel::Assertion { message, success } => MessageModel::Assert { message, success },
    }
}

fn bump(lines: u16) -> (r: u16)
    ensures
        r == one_more(lines),
{
    if lines == u16::MAX {
        lines
    } else {
        lines + 1
    }
}

impl LineCount {
    /// Nothing written yet.
    pub fn new() -> (r: LineCount)
        ensures
            r == (LineCount { lines_to_suite: 0, lines_to_step: 0 }),
    {
        LineCount { lines_to_suite: 0, lines_to_step: 0 }
    }

    /// The message that tells the display of `event`, with the line counts
    /// as they stand; the counts then take the event into account.
    pub fn message(&mut self, event: &ReporterEvent) -> (m: UIMessage)
        ensures
            m@ == message_for(*old(self), event@),
            *final(self) == count_after(*old(self), event@),
    {
        match event {
            ReporterEvent::SuiteStarted { name } => {
                self.lines_to_suite = 1;
                UIMessage::StartSuite { name: name.clone() }
            },
            ReporterEvent::SuiteFinished { name, result } => {
                let lines = self.lines_to_suite;
                self.lines_to_suite = 0;
                UIMessage::FinishSuite { name: name.clone(), state: *result, lines }
            },
            ReporterEvent::StepStarted { name } => {
                self.lines_to_step = 1;
                self.lines_to_suite = bump(self.lines_to_suite);
                UIMessage::StartStep { name: name.clone() }
            },
            ReporterEvent::StepFinished { name, result } => {
                let lines = self.lines_to_step;
                self.lines_to_step = 0;
                UIMessage::FinishStep { name: name.clone(), state: *result, lines }
            },
            ReporterEvent::SetStarted { name } => {
                self.count_line();
                UIMessage::StartSet { name: name.clone() }
            },
            ReporterEvent::SetRowReported { index } => {
                self.count_line();
                UIMessage::ReportSetInstance { index: *index }
            },
            ReporterEvent::SetFinished => {
                self.count_line();
                UIMessage::FinishSet
            },
            ReporterEvent::Print { text } => {
                self.count_line();
                UIMessage::Text { message: text.clone() }
            },
            ReporterEvent::Assertion { message, success } => {
                self.count_line();
                UIMessage::Assert { message: message.clone(), success: *success }
            },
        }
    }

    /// Counts one line written below both headers.
    fn count_line(&mut self)
        ensures
            *final(self) == (LineCount {
                lines_to_suite: one_more(old(self).lines_to_suite),
                lines_to_step: one_more(old(self).lines_to_step),
            }),
    {
        self.lines_to_suite = bump(self.lines_to_suite);
        self.lines_to_step = bump(self.lines_to_step);
    }
}

} // verus!
