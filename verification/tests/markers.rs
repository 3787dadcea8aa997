use heurs_core::markers::extract_heurs_markers;

#[test]
fn score_and_time_in_either_order() {
    assert_eq!(extract_heurs_markers("@@HEURS_SCORE=42\n@@HEURS_TIME_MS=7"), (42, 7));
    assert_eq!(extract_heurs_markers("@@HEURS_TIME_MS=7\n@@HEURS_SCORE=42"), (42, 7));
}

#[test]
fn no_matching_line_yields_zero() {
    assert_eq!(extract_heurs_markers(""), (0, 0));
    assert_eq!(extract_heurs_markers("hello\nworld"), (0, 0));
    assert_eq!(extract_heurs_markers("SCORE=42"), (0, 0));
    assert_eq!(extract_heurs_markers("@@HEURS"), (0, 0));
}

#[test]
fn non_numeric_payload_yields_zero_score() {
    assert_eq!(extract_heurs_markers("@@HEURS_SCORE=abc"), (0, 0));
}

#[test]
fn unrecognized_keys_are_ignored() {
    assert_eq!(extract_heurs_markers("@@HEURS_FOO=5\n@@HEURS_SCORE=3"), (3, 0));
    assert_eq!(extract_heurs_markers("@@HEURS_SCORE2=5"), (0, 0));
}

#[test]
fn later_lines_overwrite_earlier_ones() {
    assert_eq!(extract_heurs_markers("@@HEURS_SCORE=1\n@@HEURS_SCORE=2"), (2, 0));
}

#[test]
fn surrounding_whitespace_is_trimmed() {
    assert_eq!(extract_heurs_markers("   @@HEURS_SCORE=9   \n\t@@HEURS_TIME_MS=4\t"), (9, 4));
}

#[test]
fn marker_must_fill_the_whole_line() {
    assert_eq!(extract_heurs_markers("x @@HEURS_SCORE=5"), (0, 0));
    assert_eq!(extract_heurs_markers("@@HEURS_SCORE=5 points"), (0, 0));
    assert_eq!(extract_heurs_markers("@@HEURS_SCORE=12a"), (0, 0));
}

#[test]
fn empty_key_or_payload_is_no_marker() {
    assert_eq!(extract_heurs_markers("@@HEURS_=5"), (0, 0));
    assert_eq!(extract_heurs_markers("@@HEURS_SCORE="), (0, 0));
}

#[test]
fn oversized_payloads_degrade_to_zero() {
    assert_eq!(extract_heurs_markers("@@HEURS_SCORE=99999999999999999999"), (0, 0));
    assert_eq!(extract_heurs_markers("@@HEURS_TIME_MS=4294967296"), (0, 0));
}

#[test]
fn payload_bounds_are_inclusive() {
    assert_eq!(
        extract_heurs_markers("@@HEURS_SCORE=9223372036854775807"),
        (9223372036854775807, 0)
    );
    assert_eq!(extract_heurs_markers("@@HEURS_TIME_MS=4294967295"), (0, 4294967295));
}

#[test]
fn carriage_returns_do_not_break_lines() {
    assert_eq!(extract_heurs_markers("@@HEURS_SCORE=3\r\n@@HEURS_TIME_MS=4\r\n"), (3, 4));
}

#[test]
fn trimming_covers_unicode_whitespace() {
    assert_eq!(extract_heurs_markers("\u{3000}@@HEURS_SCORE=1\u{3000}"), (1, 0));
    assert_eq!(extract_heurs_markers("\u{a0}\u{2003}@@HEURS_TIME_MS=2"), (0, 2));
}

#[test]
fn markers_amid_ordinary_diagnostics() {
    let text = "starting up\nprogress 50%\n@@HEURS_SCORE=1234\ndone\n@@HEURS_TIME_MS=250";
    assert_eq!(extract_heurs_markers(text), (1234, 250));
}
