use heurs_core::api::ExecutionResultMeta;
use heurs_core::api::RunRequest;
use heurs_core::api::RunResponse;
use heurs_core::compiler::CppCompiler;
use heurs_core::compiler::render_compile_cmd;
use heurs_core::config::Config;
use heurs_core::config::Database;
use heurs_core::config::Execution;
use heurs_core::execution::CommandResult;
use heurs_core::timefmt::format_datetime_minute;

#[test]
fn the_fixed_toolchain_invocation() {
    let compiler = CppCompiler::new();
    let argv = compiler.compile_argv("main.cpp", "a.out");
    assert_eq!(argv, vec!["g++", "main.cpp", "-std=c++20", "-O2", "-o", "a.out"]);
}

#[test]
fn default_builds_the_same_compiler() {
    let compiler: CppCompiler = Default::default();
    let argv = compiler.compile_argv("x.cpp", "x.bin");
    assert_eq!(argv[1], "x.cpp");
    assert_eq!(argv[5], "x.bin");
}

#[test]
fn the_placeholder_is_substituted() {
    assert_eq!(
        render_compile_cmd("g++ {{src}} -O2 -o a.out", "main.cpp"),
        "g++ main.cpp -O2 -o a.out"
    );
}

#[test]
fn every_occurrence_is_substituted() {
    assert_eq!(render_compile_cmd("{{src}} {{src}}", "a"), "a a");
    assert_eq!(render_compile_cmd("{{src}}{{src}}", "ab"), "abab");
}

#[test]
fn a_template_without_the_placeholder_stays_as_it_is() {
    assert_eq!(render_compile_cmd("g++ main.cpp", "other.cpp"), "g++ main.cpp");
    assert_eq!(render_compile_cmd("", "x"), "");
    assert_eq!(render_compile_cmd("{{src}", "x"), "{{src}");
    assert_eq!(render_compile_cmd("{src}}", "x"), "{src}}");
}

#[test]
fn datetimes_render_to_minute_precision() {
    assert_eq!(format_datetime_minute("2024-07-24T10:39:12Z"), "2024-07-24 10:39");
    assert_eq!(format_datetime_minute("2024-07-24T10:39:12.123+09:00"), "2024-07-24 10:39");
    assert_eq!(format_datetime_minute("2024-07-24T10:39"), "2024-07-24 10:39");
}

#[test]
fn datetimes_without_a_full_time_stay_as_they_are() {
    assert_eq!(format_datetime_minute("2024-07-24"), "2024-07-24");
    assert_eq!(format_datetime_minute("2024-07-24T10:3"), "2024-07-24T10:3");
    assert_eq!(format_datetime_minute("2024-07-24T10+39:00"), "2024-07-24T10+39:00");
    assert_eq!(format_datetime_minute(""), "");
}

#[test]
fn the_engine_data_shapes_hold_their_fields() {
    let request = RunRequest {
        source_code: "int main() {}".to_string(),
        cases: 10,
        parallel: 2,
        timeout: 10,
        problem_id: 1,
    };
    assert_eq!(request.cases, 10);
    let response = RunResponse {
        success: true,
        result: "ok".to_string(),
        error: None,
        submission_id: Some(3),
    };
    assert_eq!(response.submission_id, Some(3));
    let meta = ExecutionResultMeta { test_case_id: 1, score: 50, execution_time_ms: 9 };
    assert_eq!(meta.score, 50);
    let command = CommandResult {
        success: false,
        stdout: String::new(),
        stderr: "boom".to_string(),
        exit_code: Some(1),
    };
    assert_eq!(command.exit_code, Some(1));
    let config = Config {
        database: Database { url: "sqlite://heurs.db".to_string() },
        execution: Execution {
            compile_cmd: "g++ {{src}} -o a.out".to_string(),
            exec_cmd: "./a.out".to_string(),
        },
    };
    assert_eq!(config.database.url, "sqlite://heurs.db");
    assert_eq!(config.execution.exec_cmd, "./a.out");
}
