//! The message shapes the HTTP front end exchanges with the engine's
//! callers.  The transport and its serialization live outside this crate.

use vstd::prelude::*;

verus! {

/// A request to grade one submission: the source code, how many test cases
/// to run, the parallelism budget, and a timeout hint in seconds.
pub struct RunRequest {
    pub source_code: String,
    pub cases: u32,
    pub parallel: u32,
    pub timeout: u32,
    pub problem_id: i32,
}

/// What a run request answers: whether the run went through, a display
/// message, the error text of a failed run, and the stored submission's id.
pub struct RunResponse {
    pub success: bool,
    pub result: String,
    pub error: Option<String>,
    pub submission_id: Option<i32>,
}

/// One stored execution result, as the detail views list them.
pub struct ExecutionResultMeta {
    pub test_case_id: i32,
    pub score: i64,
    pub execution_time_ms: i32,
}

} // verus!
