//! What a run is asked to do.

use vstd::prelude::*;
use crate::ui::UIFormat;

verus! {

/// The settings of one run.
#[derive(Debug, Clone)]
pub struct TestSession {
    pub ui_format: UIFormat,
    /// Folder that holds the suites.
    pub path: String,
    /// Regular expression that the names of the suites to run must match.
    pub pattern: Option<String>,
    /// Location of the values file.
    pub values_file: Option<String>,
}

} // verus!
