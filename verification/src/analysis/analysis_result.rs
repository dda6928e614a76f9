use vstd::prelude::*;
use std::time::Duration;

verus! {

/// Why an analysis stopped without a result.
#[derive(Clone, Copy, Debug, PartialEq, Eq, Structural)]
pub enum AnalysisError {
    /// The analysis ran out of time.
    TimeOut,
    /// The fixed-point iteration did not converge within its bound.
    MaxIteration,
}

/// The message that reports an analysis error.
pub open spec fn analysis_error_message(e: AnalysisError) -> Seq<char> {
    match e {
        AnalysisError::TimeOut => "Analysis timeout"@,
        AnalysisError::MaxIteration => "The fixed-point algorithm reached the maximum iteration, abort"@,
    }
}

impl AnalysisError {
    /// The message that reports this error.
    pub fn message(&self) -> (r: &'static str)
        ensures
            r@ == analysis_error_message(*self),
    {
        match self {
            AnalysisError::TimeOut => "Analysis timeout",
            AnalysisError::MaxIteration => "The fixed-point algorithm reached the maximum iteration, abort",
        }
    }
}

/// What a completed analysis reports.
pub struct AnalysisInfo {
    /// How long the analysis took.
    pub analysis_time: Duration,
}

} // verus!
