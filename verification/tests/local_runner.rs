use heurs_core::execution::EngineError;
use heurs_core::execution::ExecutionResult;
use heurs_core::local::LocalRun;
use heurs_core::local::LocalRunner;

fn ok_result(id: u32, stdout: &str, stderr: &str) -> ExecutionResult {
    ExecutionResult::from_captured(id, true, stdout.to_string(), stderr.to_string())
}

#[test]
fn every_case_reports_exactly_once() {
    let ids: Vec<u32> = vec![1, 2, 3];
    let mut run = LocalRun::new(&ids);
    assert!(!run.is_complete());
    assert!(run.record(ok_result(2, "", "")));
    assert!(run.record(ok_result(3, "", "")));
    assert!(!run.is_complete());
    assert!(run.record(ok_result(1, "", "")));
    assert!(run.is_complete());
    let results = run.into_results();
    assert_eq!(results.len(), 3);
    let mut got: Vec<u32> = results.iter().map(|r| r.test_case_id).collect();
    got.sort();
    assert_eq!(got, vec![1, 2, 3]);
}

#[test]
fn a_result_for_an_unknown_case_is_refused() {
    let ids: Vec<u32> = vec![1, 2];
    let mut run = LocalRun::new(&ids);
    assert!(!run.record(ok_result(9, "", "")));
    assert!(run.record(ok_result(1, "", "")));
    assert!(!run.record(ok_result(1, "", "")));
    assert!(run.record(ok_result(2, "", "")));
    assert!(run.is_complete());
    assert_eq!(run.into_results().len(), 2);
}

#[test]
fn compile_failure_aborts_with_zero_results() {
    let runner = LocalRunner::new();
    let ids: Vec<u32> = vec![1, 2, 3];
    let started = runner.start_run(false, "main.cpp:3: expected ';'".to_string(), &ids);
    match started {
        Ok(_) => panic!("a failed compilation must abort the run"),
        Err(e) => {
            assert_eq!(e.message(), "Compilation failed: main.cpp:3: expected ';'");
            match e {
                EngineError::CompileFailed { diagnostics } => {
                    assert_eq!(diagnostics, "main.cpp:3: expected ';'");
                }
                _ => panic!("wrong error variant"),
            }
        }
    }
}

#[test]
fn successful_compilation_starts_an_empty_run() {
    let runner = LocalRunner::new();
    let ids: Vec<u32> = vec![5];
    let run = match runner.start_run(true, String::new(), &ids) {
        Ok(run) => run,
        Err(_) => panic!("compilation succeeded"),
    };
    assert!(!run.is_complete());
    assert_eq!(run.into_results().len(), 0);
}

#[test]
fn a_missing_job_handle_has_its_own_message() {
    let e = EngineError::JobSubmissionFailed;
    assert_eq!(e.message(), "Failed to retrieve job_id on submission");
}

#[test]
fn failing_case_without_markers_scores_zero() {
    let r = ExecutionResult::from_captured(
        7,
        false,
        String::new(),
        "segmentation fault".to_string(),
    );
    assert_eq!(r.test_case_id, 7);
    assert!(!r.success);
    assert_eq!(r.score, 0);
    assert_eq!(r.execution_time_ms, 0);
}

#[test]
fn spawn_failure_degrades_to_one_failed_result() {
    let r = ExecutionResult::from_spawn_failure(4, "No such file or directory");
    assert_eq!(r.test_case_id, 4);
    assert!(!r.success);
    assert_eq!(r.stdout, "");
    assert_eq!(r.stderr, "Error spawning process: No such file or directory");
    assert_eq!(r.score, 0);
    assert_eq!(r.execution_time_ms, 0);
}

#[test]
fn three_echoing_cases_in_completion_order() {
    // three test cases, parallelism two: the executable echoes its stdin and
    // reports a score of 100 in 5 ms; results arrive in completion order
    let ids: Vec<u32> = vec![10, 20, 30];
    let inputs = ["alpha", "beta", "gamma"];
    let mut run = LocalRun::new(&ids);
    for k in [1usize, 2, 0] {
        let r = ExecutionResult::from_captured(
            ids[k],
            true,
            inputs[k].to_string(),
            "@@HEURS_SCORE=100\n@@HEURS_TIME_MS=5".to_string(),
        );
        assert!(run.record(r));
    }
    assert!(run.is_complete());
    let results = run.into_results();
    assert_eq!(results.len(), 3);
    let mut seen: Vec<u32> = Vec::new();
    for r in &results {
        assert!(r.success);
        assert_eq!(r.score, 100);
        assert_eq!(r.execution_time_ms, 5);
        let k = ids.iter().position(|&id| id == r.test_case_id).unwrap();
        assert_eq!(r.stdout, inputs[k]);
        assert!(!seen.contains(&r.test_case_id));
        seen.push(r.test_case_id);
    }
    assert_eq!(seen.len(), 3);
}
