use browseros_agent::tools::grep::{
    clamp_limit, clamp_text, compile_pattern, definition, grep_lines, grep_report, grep_saved_note,
    grep_truncated_text, grep_unsaved_note, over_name, NO_MATCHES_TEXT, split_lines_of, take_flagged, GrepOver,
    GREP_MATCH_LINE_MAX_CHARS,
};

#[test]
fn clamp_text_marks_cut_lines() {
    let clamped = clamp_text(&"x".repeat(520), 500);
    assert_eq!(clamped.len(), 500);
    assert!(clamped.ends_with("... [truncated]"));
    assert_eq!(clamp_text("short", 500), "short");
    // A cut inside a multi-byte character backs off to its start.
    let clamped = clamp_text(&"é".repeat(20), 20);
    assert_eq!(clamped, format!("{}... [truncated]", "é".repeat(2)));
    assert!(clamped.len() <= 20);
}

#[test]
fn over_names() {
    assert_eq!(over_name(&GrepOver::Ax), "ax");
    assert_eq!(over_name(&GrepOver::Content), "content");
}

#[test]
fn lines_split_like_str_split() {
    assert_eq!(split_lines_of("a\nb"), vec!["a", "b"]);
    assert_eq!(split_lines_of(""), vec![""]);
    assert_eq!(split_lines_of("a\n"), vec!["a", ""]);
}

#[test]
fn grep_matches_case_insensitively_up_to_the_limit() {
    let p = match compile_pattern("save") {
        Ok(p) => p,
        Err(e) => panic!("{e}"),
    };
    let hay = "- button \"Save\" [ref=e1]\n- link \"Home\"\n- button \"SAVE all\" [ref=e3]\n- saved";
    let all = grep_lines(&p, hay, 50);
    assert_eq!(all, vec!["- button \"Save\" [ref=e1]", "- button \"SAVE all\" [ref=e3]", "- saved"]);
    let two = grep_lines(&p, hay, 2);
    assert_eq!(two.len(), 2);
    assert!(grep_lines(&p, hay, 0).is_empty());
}

#[test]
fn invalid_patterns_are_refused() {
    match compile_pattern("(") {
        Err(e) => assert!(e.starts_with("grep: invalid regex - ")),
        Ok(_) => panic!("expected a refusal"),
    }
}

#[test]
fn flagged_lines_are_taken_in_order() {
    let lines = vec!["a".to_string(), "b".to_string(), "c".to_string()];
    assert_eq!(take_flagged(&lines, &vec![true, false, true], 5), vec!["a", "c"]);
    assert_eq!(take_flagged(&lines, &vec![true, true, true], 2), vec!["a", "b"]);
}

#[test]
fn report_cuts_long_lines_and_keeps_the_full_text() {
    let long = "y".repeat(GREP_MATCH_LINE_MAX_CHARS + 10);
    let matches = vec!["first".to_string(), long.clone()];
    let r = grep_report(&matches);
    assert_eq!(r.count, 2);
    assert!(r.truncated);
    assert_eq!(r.full_text, format!("first\n{long}"));
    assert!(r.rendered_text.starts_with("first\n"));
    assert!(r.rendered_text.ends_with("... [truncated]"));
    let small = grep_report(&vec!["a".to_string(), "b".to_string()]);
    assert!(!small.truncated);
    assert_eq!(small.inline_text, "a\nb");
}

#[test]
fn truncation_notes() {
    assert_eq!(
        grep_saved_note(2, "ab\ncd", "/tmp/x.txt"),
        "Grep output truncated for 2 match(es). Full matches (5 chars) saved to: /tmp/x.txt"
    );
    assert_eq!(
        grep_unsaved_note(1, "é", "disk full"),
        "Grep output truncated for 1 match(es). Full matches (2 chars) could not be saved to a BrowserOS output file: disk full"
    );
}

#[test]
fn grep_is_announced_read_only() {
    let d = definition();
    assert_eq!(d.name, "grep");
    assert!(d.metadata.accepts_page_arg);
}

/// The caller's limit floored, as the server reads it.
fn floored(limit: Option<f64>) -> Option<i64> {
    limit.filter(|l| l.is_finite()).map(|l| l.floor() as i64)
}

#[test]
fn grep_clamps_limits_and_lines_like_ts() {
    assert_eq!(clamp_limit(floored(None)), 50);
    assert_eq!(clamp_limit(floored(Some(-10.0))), 0);
    assert_eq!(clamp_limit(floored(Some(999.0))), 200);
    let clamped = clamp_text(&"x".repeat(520), 500);
    assert_eq!(clamped.len(), 500);
    assert!(clamped.ends_with("... [truncated]"));
}

#[test]
fn refusals_name_the_engine_error() {
    assert_eq!(
        browseros_agent::tools::grep::invalid_regex_message("unclosed group"),
        "grep: invalid regex - unclosed group"
    );
}

#[test]
fn a_cut_report_joins_the_inline_text_and_the_note() {
    let saved: Result<String, String> = Ok("/tmp/out.txt".to_string());
    assert_eq!(
        grep_truncated_text("L1: a", 3, "abcdef", &saved),
        format!("L1: a\n\n{}", grep_saved_note(3, "abcdef", "/tmp/out.txt"))
    );
    let failed: Result<String, String> = Err("disk full".to_string());
    assert_eq!(
        grep_truncated_text("L1: a", 3, "abcdef", &failed),
        format!("L1: a\n\n{}", grep_unsaved_note(3, "abcdef", "disk full"))
    );
    assert_eq!(NO_MATCHES_TEXT, "no matches");
}
