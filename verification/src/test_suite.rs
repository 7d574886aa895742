//! Suite definitions: what is to be run.

use vstd::prelude::*;
use crate::environment::Environment;
use crate::data_sets::DataSets;

verus! {

/// Seconds a step may take when it configures no timeout.
pub const DEFAULT_TIMEOUT_SECS: u64 = 300;

/// One step of a suite: a shell command and how to run it.
#[derive(Debug, Clone)]
pub struct TestStep {
    pub name: Option<String>,
    pub description: Option<String>,
    pub skip: Option<bool>,
    pub command: String,
    pub env: Option<Environment>,
    /// Name of the data set whose rows the command is run over, if any.
    pub data_set: Option<String>,
    /// Timeout of one invocation, in seconds.
    pub timeout: Option<u64>,
}

/// A named, ordered list of steps.
#[derive(Debug, Clone)]
pub struct TestSuite {
    pub name: String,
    pub author: Option<String>,
    pub description: Option<String>,
    pub env: Option<Environment>,
    pub steps: Vec<TestStep>,
    pub data_sets: Option<DataSets>,
}

/// Values supplied once per run and available to every suite.
#[derive(Debug, Clone)]
pub struct ValuesFile {
    pub env: Environment,
    pub data_sets: Option<DataSets>,
}

impl TestStep {
    /// The name under which the step is reported: its name, or the empty
    /// string if it has none.
    pub open spec fn display_name(&self) -> Seq<char> {
        match self.name {
            Some(n) => n@,
            None => Seq::empty(),
        }
    }

    /// Whether the step is marked to be skipped.
    pub open spec fn skipped(&self) -> bool {
        self.skip == Some(true)
    }

    /// Seconds one invocation of the step may take.
    pub open spec fn timeout_secs(&self) -> u64 {
        match self.timeout {
            Some(t) => t,
            None => DEFAULT_TIMEOUT_SECS,
        }
    }

    /// Whether the step is marked to be skipped.
    pub fn is_skipped(&self) -> (r: bool)
        ensures
            r == self.skipped(),
    {
        match self.skip {
            Some(v) => v,
            None => false,
        }
    }

    /// Seconds one invocation of the step may take: the configured timeout,
    /// or the default.
    pub fn effective_timeout(&self) -> (t: u64)
        ensures
            t == self.timeout_secs(),
    {
        match self.timeout {
            Some(t) => t,
            None => DEFAULT_TIMEOUT_SECS,
        }
    }

    /// The name under which the step is reported.
    pub fn reported_name(&self) -> (s: String)
        ensures
            s@ == self.display_name(),
    {
        match &self.name {
            Some(n) => n.clone(),
            None => String::new(),
        }
    }
}

} // verus!
