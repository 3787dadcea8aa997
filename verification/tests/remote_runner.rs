use heurs_core::chunks::Chunk;
use heurs_core::remote::AWSRunner;
use heurs_core::remote::CaseOutcome;
use heurs_core::remote::chunk_job_env;
use heurs_core::remote::error_object_key;
use heurs_core::remote::job_name;
use heurs_core::remote::output_object_key;
use heurs_core::remote::resolve_remote_case;
use heurs_core::remote::source_object_key;

fn fetched(stdout: &str) -> CaseOutcome {
    CaseOutcome { stdout_fetch: Ok(stdout.to_string()), stderr_fetch: None }
}

#[test]
fn five_cases_two_ways_make_two_jobs() {
    let runner = AWSRunner::new();
    let ids: Vec<u32> = vec![100, 101, 102, 103, 104];
    let mut run = runner.start_run(ids, 2);
    assert_eq!(run.next_unsubmitted(), Some(Chunk { start: 0, end: 2 }));
    run.mark_submitted("job-a".to_string());
    assert_eq!(run.next_unsubmitted(), Some(Chunk { start: 3, end: 4 }));
    run.mark_submitted("job-b".to_string());
    assert_eq!(run.next_unsubmitted(), None);
    assert!(!run.is_done());
    assert_eq!(run.pending_job_ids(), vec!["job-a".to_string(), "job-b".to_string()]);

    assert_eq!(run.job_chunk(&"job-b".to_string()), Some(Chunk { start: 3, end: 4 }));
    assert_eq!(run.job_chunk(&"job-x".to_string()), None);

    let outcomes_b = vec![fetched("out3"), fetched("out4")];
    assert!(run.resolve_job(&"job-b".to_string(), true, outcomes_b, None));
    assert!(!run.is_done());

    let outcomes_a = vec![fetched("out0"), fetched("out1"), fetched("out2")];
    assert!(run.resolve_job(&"job-a".to_string(), true, outcomes_a, None));
    assert!(run.is_done());

    let results = run.into_results();
    assert_eq!(results.len(), 5);
    let mut got: Vec<(u32, String)> = results
        .iter()
        .map(|r| (r.test_case_id, r.stdout.clone()))
        .collect();
    got.sort();
    assert_eq!(
        got,
        vec![
            (100, "out0".to_string()),
            (101, "out1".to_string()),
            (102, "out2".to_string()),
            (103, "out3".to_string()),
            (104, "out4".to_string()),
        ]
    );
    for r in &results {
        assert!(r.success);
    }
}

#[test]
fn a_failed_job_still_yields_one_result_per_case() {
    let runner = AWSRunner::new();
    let mut run = runner.start_run(vec![1, 2], 1);
    run.mark_submitted("job-a".to_string());
    let outcomes = vec![
        CaseOutcome { stdout_fetch: Ok(String::new()), stderr_fetch: None },
        CaseOutcome { stdout_fetch: Ok(String::new()), stderr_fetch: None },
    ];
    assert!(run.resolve_job(
        &"job-a".to_string(),
        false,
        outcomes,
        Some("Essential container in task exited".to_string()),
    ));
    assert!(run.is_done());
    let results = run.into_results();
    assert_eq!(results.len(), 2);
    for r in &results {
        assert!(!r.success);
        assert_eq!(r.stdout, "");
        assert_eq!(r.stderr, "Essential container in task exited");
        assert_eq!(r.score, 0);
    }
}

#[test]
fn an_unknown_job_id_resolves_nothing() {
    let runner = AWSRunner::new();
    let mut run = runner.start_run(vec![1], 1);
    run.mark_submitted("job-a".to_string());
    assert!(!run.resolve_job(&"job-z".to_string(), true, vec![], None));
    assert!(!run.is_done());
}

#[test]
fn an_empty_run_is_done_before_any_submission() {
    let runner = AWSRunner::new();
    let run = runner.start_run(Vec::new(), 4);
    assert!(run.is_done());
    assert_eq!(run.into_results().len(), 0);
}

#[test]
fn missing_stdout_artifact_degrades_the_one_case() {
    let r = resolve_remote_case(
        9,
        true,
        CaseOutcome {
            stdout_fetch: Err("dispatch failure".to_string()),
            stderr_fetch: None,
        },
        &None,
    );
    assert_eq!(r.test_case_id, 9);
    assert!(!r.success);
    assert_eq!(r.stdout, "");
    assert_eq!(r.stderr, "Failed to fetch output from S3: dispatch failure");
}

#[test]
fn the_stderr_artifact_carries_the_markers() {
    let r = resolve_remote_case(
        3,
        true,
        CaseOutcome {
            stdout_fetch: Ok("answer".to_string()),
            stderr_fetch: Some("@@HEURS_SCORE=77\n@@HEURS_TIME_MS=12".to_string()),
        },
        &None,
    );
    assert!(r.success);
    assert_eq!(r.stdout, "answer");
    assert_eq!(r.score, 77);
    assert_eq!(r.execution_time_ms, 12);
}

#[test]
fn a_failed_job_without_any_diagnostic_reports_generically() {
    let r = resolve_remote_case(
        5,
        false,
        CaseOutcome { stdout_fetch: Ok(String::new()), stderr_fetch: None },
        &None,
    );
    assert!(!r.success);
    assert_eq!(r.stderr, "Job failed");
}

#[test]
fn a_failed_job_prefers_the_error_artifact_over_the_reason() {
    let r = resolve_remote_case(
        5,
        false,
        CaseOutcome {
            stdout_fetch: Ok(String::new()),
            stderr_fetch: Some("@@HEURS_SCORE=8".to_string()),
        },
        &Some("some reason".to_string()),
    );
    assert!(!r.success);
    assert_eq!(r.stderr, "@@HEURS_SCORE=8");
    assert_eq!(r.score, 8);
}

#[test]
fn object_keys_and_job_names() {
    assert_eq!(source_object_key(1700000000, "main.cpp"), "1700000000-main.cpp");
    assert_eq!(source_object_key(0, "source"), "0-source");
    assert_eq!(
        source_object_key(18446744073709551615, "x"),
        "18446744073709551615-x"
    );
    assert_eq!(output_object_key(3), "outputs/output_3.txt");
    assert_eq!(error_object_key(12), "errors/error_12.txt");
    assert_eq!(job_name(0), "aws-runner-chunk-0");
    assert_eq!(job_name(17), "aws-runner-chunk-17");
}

#[test]
fn job_environment_carries_the_chunk_bounds() {
    let env = chunk_job_env("heurs-fs", "1700000000-main.cpp", &Chunk { start: 3, end: 4 });
    let expect = vec![
        ("CODE_BUCKET", "heurs-fs"),
        ("CODE_KEY", "1700000000-main.cpp"),
        ("IO_BUCKET", "heurs-fs"),
        ("SEED_START", "3"),
        ("SEED_END", "4"),
    ];
    assert_eq!(env.len(), expect.len());
    for (pair, (name, value)) in env.iter().zip(expect.iter()) {
        assert_eq!(pair.0, *name);
        assert_eq!(pair.1, *value);
    }
}
