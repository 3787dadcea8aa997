//! The result model: test cases, per-case execution results, and the
//! run-aborting engine errors.

use crate::markers::extract_heurs_markers;
use crate::markers::markers_of;
use vstd::prelude::*;

verus! {

/// One opaque input payload for the graded program, identified by a stable
/// id and a display filename.
#[derive(Debug, Clone)]
pub struct TestCase {
    pub id: u32,
    pub input: String,
    pub filename: String,
}

/// What one attempt at one test case produced.  `score` and
/// `execution_time_ms` are zero unless the process reported them through the
/// marker protocol; a zero score is not itself evidence of failure.
#[derive(Debug, Clone)]
pub struct ExecutionResult {
    pub test_case_id: u32,
    pub success: bool,
    pub stdout: String,
    pub stderr: String,
    pub execution_time_ms: u32,
    pub score: i64,
}

/// What running one external command produced.
#[derive(Debug)]
pub struct CommandResult {
    pub success: bool,
    pub stdout: String,
    pub stderr: String,
    pub exit_code: Option<i32>,
}

/// A fatal, run-aborting failure: no per-case results accompany it.
#[derive(Debug)]
pub enum EngineError {
    /// The toolchain exited non-zero; the payload is its diagnostic stream.
    CompileFailed { diagnostics: String },
    /// The remote scheduler returned no job handle on submission.
    JobSubmissionFailed,
}

impl EngineError {
    /// A human-readable account of the error.
    pub fn message(&self) -> (r: String)
        ensures
            match self {
                EngineError::CompileFailed { diagnostics } => r@ == "Compilation failed: "@
                    + diagnostics@,
                EngineError::JobSubmissionFailed => r@
                    == "Failed to retrieve job_id on submission"@,
            },
    {
        match self {
            EngineError::CompileFailed { diagnostics } => {
                let mut m = String::from_str("Compilation failed: ");
                m.append(diagnostics.as_str());
                m
            },
            EngineError::JobSubmissionFailed => String::from_str(
                "Failed to retrieve job_id on submission",
            ),
        }
    }
}

impl ExecutionResult {
    /// The result of a test case whose process ran to exit: `success`
    /// mirrors the exit status, and score and timing are whatever the
    /// diagnostic stream reports through the marker protocol.
    pub fn from_captured(test_case_id: u32, success: bool, stdout: String, stderr: String) -> (r:
        ExecutionResult)
        ensures
            r.test_case_id == test_case_id,
            r.success == success,
            r.stdout@ == stdout@,
            r.stderr@ == stderr@,
            (r.score, r.execution_time_ms) == markers_of(stderr@),
    {
        let pair = extract_heurs_markers(stderr.as_str());
        ExecutionResult {
            test_case_id,
            success,
            stdout,
            stderr,
            execution_time_ms: pair.1,
            score: pair.0,
        }
    }

    /// The result of a test case whose process could not be spawned at all:
    /// a failure with a diagnostic, never a dropped test case.
    pub fn from_spawn_failure(test_case_id: u32, error_text: &str) -> (r: ExecutionResult)
        ensures
            r.test_case_id == test_case_id,
            !r.success,
            r.stdout@ == Seq::<char>::empty(),
            r.stderr@ == "Error spawning process: "@ + error_text@,
            r.execution_time_ms == 0,
            r.score == 0,
    {
        let mut stderr = String::from_str("Error spawning process: ");
        stderr.append(error_text);
        ExecutionResult {
            test_case_id,
            success: false,
            stdout: String::new(),
            stderr,
            execution_time_ms: 0,
            score: 0,
        }
    }
}

} // verus!
