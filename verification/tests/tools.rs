use browseros_agent::framework::{clamp_timeout_ms, BrowserToolDefaults, ToolHints};
use browseros_agent::navigation::{history_expression, LoadAction, LoadWait};
use browseros_agent::pages::PageInfo;
use browseros_agent::tools::navigate::{navigated_message, navigation_request, NavigateAction, NavigationRequest};
use browseros_agent::tools::poll::{job_probe_expression, requested_job, unknown_job_message};
use browseros_agent::tools::tabs::{
    activated_message, active_message, closed_message, format_page_line, listing, opened_message,
    tabs_request, TabsAction, TabsRequest,
};
use browseros_agent::tools::wait::{
    parse_wait_ms, pause_ms, signal_probe, wait_for_name, waited_text, SignalStep, SignalWait, WaitFor,
};
use browseros_agent::tools::{act, evaluate, grep, navigate, poll, tabs, wait};

fn page(page_id: u32, url: &str, title: &str) -> PageInfo {
    PageInfo {
        page_id,
        target_id: "t".to_string(),
        tab_id: 1,
        url: url.to_string(),
        title: title.to_string(),
        is_active: false,
        is_loading: false,
        load_progress_ppm: 1_000_000,
        load_progress_bits: 1.0f64.to_bits(),
        is_pinned: false,
        window_id: None,
        index: None,
        group_id: None,
    }
}

#[test]
fn page_lines() {
    assert_eq!(format_page_line(&page(2, "https://a.example/", "")), "[2] https://a.example/");
    assert_eq!(format_page_line(&page(3, "https://b.example/", "B")), "[3] https://b.example/ (B)");
    assert_eq!(listing(&Vec::new()), "(no open pages)");
    assert_eq!(
        listing(&vec![page(1, "u1", ""), page(2, "u2", "T")]),
        "[1] u1\n[2] u2 (T)"
    );
    assert_eq!(active_message(&page(4, "u", "")), "Active page: [4] u");
    assert_eq!(opened_message(2), "opened page 2");
    assert_eq!(closed_message(9), "closed page 9");
    assert_eq!(activated_message(1), "activated page 1");
}

#[test]
fn new_tabs_open_in_the_background() {
    let defaults = BrowserToolDefaults { default_window_id: Some(5), default_tab_group_id: Some("g1".to_string()) };
    match tabs_request(TabsAction::New, None, None, &defaults) {
        Ok(TabsRequest::New { url, options }) => {
            assert_eq!(url, "about:blank");
            assert_eq!(options.background, Some(true));
            assert_eq!(options.window_id, Some(5));
            assert_eq!(options.tab_group_id.as_deref(), Some("g1"));
        }
        _ => panic!("expected a new page"),
    }
    match tabs_request(TabsAction::Close, None, None, &defaults) {
        Err(e) => assert_eq!(e, "tabs close: page is required."),
        Ok(_) => panic!("expected a refusal"),
    }
    match tabs_request(TabsAction::Activate, None, None, &defaults) {
        Err(e) => assert_eq!(e, "tabs activate: page is required."),
        Ok(_) => panic!("expected a refusal"),
    }
    assert!(matches!(tabs_request(TabsAction::Close, None, Some(3), &defaults), Ok(TabsRequest::Close { page: 3 })));
}

#[test]
fn navigation_requests() {
    match navigation_request(NavigateAction::Url, Some(String::new())) {
        Err(e) => assert_eq!(e, "navigate: url is required for action=\"url\"."),
        Ok(_) => panic!("expected a refusal"),
    }
    assert!(matches!(navigation_request(NavigateAction::Url, Some("https://x".to_string())), Ok(NavigationRequest::Goto(u)) if u == "https://x"));
    assert!(matches!(navigation_request(NavigateAction::Back, None), Ok(NavigationRequest::Back)));
    assert_eq!(navigated_message(NavigateAction::Reload, None), "navigated (reload) -> unknown");
    assert_eq!(navigated_message(NavigateAction::Url, Some("https://x/")), "navigated (url) -> https://x/");
    assert_eq!(history_expression("back"), "history.back()");
}

#[test]
fn the_load_wait_gives_up_after_eight_seconds() {
    let (mut w, first) = LoadWait::start();
    assert!(matches!(first, LoadAction::Sleep { ms: 50 }));
    assert!(matches!(w.on_look(50, None), LoadAction::ReadReadyState { timeout_ms: 250 }));
    assert!(matches!(w.on_ready_state(Some("loading".to_string())), LoadAction::Sleep { ms: 150 }));
    assert!(matches!(w.on_ready_state(None), LoadAction::Sleep { ms: 150 }));
    assert!(matches!(w.on_look(8_049, None), LoadAction::ReadReadyState { .. }));
    assert!(matches!(w.on_look(8_050, None), LoadAction::StopLoading));
    assert!(matches!(w.on_stopped(), LoadAction::Finish(Ok(()))));
}

#[test]
fn the_load_wait_ends_on_interactive_or_a_dialog() {
    let (mut w, _) = LoadWait::start();
    assert!(matches!(w.on_look(0, None), LoadAction::ReadReadyState { .. }));
    assert!(matches!(w.on_ready_state(Some("interactive".to_string())), LoadAction::Finish(Ok(()))));
    let (mut d, _) = LoadWait::start();
    match d.on_look(0, Some("[page 1 dialog open] confirm: \"Leave site?\"".to_string())) {
        LoadAction::Finish(Err(line)) => assert!(line.contains("dialog open")),
        _ => panic!("expected the dialog"),
    }
}

#[test]
fn waits() {
    assert_eq!(wait_for_name(&WaitFor::Selector), "selector");
    assert_eq!(pause_ms(1_500), 1_500);
    assert_eq!(pause_ms(8_000), 2_000);
    assert_eq!(waited_text(0), "waited 0ms");
    match signal_probe(WaitFor::Text, Some("")) {
        Err(e) => assert_eq!(
            e,
            "wait: \"value\" is required for for=\"text\" (the text or CSS selector to wait for). To just pause, use for=\"time\"."
        ),
        Ok(_) => panic!("expected a refusal"),
    }
    assert_eq!(
        signal_probe(WaitFor::Text, Some("Saved \"ok\"")).unwrap_or_default(),
        "(document.body?.innerText ?? '').includes(\"Saved \\\"ok\\\"\")"
    );
    assert_eq!(signal_probe(WaitFor::Selector, Some("#a")).unwrap_or_default(), "!!document.querySelector(\"#a\")");
    let w = SignalWait::start(WaitFor::Text, 2_000, 100);
    assert!(matches!(w.on_look(100, false), SignalStep::Probe));
    assert!(matches!(w.on_look(100, true), SignalStep::Cancelled));
    assert!(matches!(w.on_probe(false, 100), SignalStep::Sleep { ms: 300 }));
    assert!(matches!(w.on_probe(false, 1_950), SignalStep::Sleep { ms: 150 }));
    assert!(matches!(w.on_probe(true, 200), SignalStep::Matched(t) if t == "matched (text)"));
    assert!(matches!(w.on_look(2_100, false), SignalStep::TimedOut(t) if t == "timed out after 2000ms waiting for text"));
}

#[test]
fn polls() {
    assert_eq!(requested_job("  job-1 \n").unwrap_or_default(), "job-1");
    match requested_job("   ") {
        Err(e) => assert_eq!(e, "poll: jobId is required"),
        Ok(_) => panic!("expected a refusal"),
    }
    assert_eq!(
        unknown_job_message("job-x"),
        "poll: unknown jobId job-x. If this was an evaluate job, pass `page` as well."
    );
    assert_eq!(
        job_probe_expression("job-ev-1"),
        "(function() { var t = globalThis.__browserosJobs && globalThis.__browserosJobs[\"job-ev-1\"]; return t || { jobId: \"job-ev-1\", status: 'unknown' }; })()"
    );
}

#[test]
fn definitions() {
    let all = [
        act::definition(),
        evaluate::definition(),
        grep::definition(),
        navigate::definition(),
        poll::definition(),
        tabs::definition(),
        wait::definition(),
    ];
    let names: Vec<&str> = all.iter().map(|d| d.name).collect();
    assert_eq!(names, vec!["act", "evaluate", "grep", "navigate", "poll", "tabs", "wait"]);
    assert!(!poll::definition().metadata.accepts_page_arg);
    assert!(tabs::definition().metadata.accepts_page_arg);
    assert_eq!(tabs::definition().hints, ToolHints::OpenWorld);
    assert_eq!(poll::definition().hints, ToolHints::ReadOnly);
    assert_eq!(act::definition().hints, ToolHints::Unannotated);
    assert!(wait::definition().description.contains("(default 2000, max 2000)"));
    assert!(poll::definition().description.contains("Poll at most twice"));
    assert!(navigate::definition().description.contains("Waits at most ~8s"));
}

/// The caller's pause read as milliseconds, as the server reads it.
fn rounded(value: Option<&str>) -> Option<u64> {
    value
        .and_then(|text| text.parse::<f64>().ok())
        .filter(|ms| ms.is_finite() && *ms >= 0.0)
        .map(|ms| ms.round() as u64)
}

#[test]
fn wait_parse_ms_matches_ts_fallback_rules() {
    assert_eq!(parse_wait_ms(None, rounded(None), 2_000), 2_000);
    assert_eq!(parse_wait_ms(Some(""), rounded(Some("")), 2_000), 2_000);
    assert_eq!(parse_wait_ms(Some("-1"), rounded(Some("-1")), 2_000), 2_000);
    assert_eq!(parse_wait_ms(Some("1500.6"), rounded(Some("1500.6")), 2_000), 1_501);
}

#[test]
fn timeouts_default_and_cap() {
    assert_eq!(clamp_timeout_ms(None, 2_000, 8_000), 2_000);
    assert_eq!(clamp_timeout_ms(Some(500), 2_000, 8_000), 500);
    assert_eq!(clamp_timeout_ms(Some(60_000), 2_000, 8_000), 8_000);
}

#[test]
fn scripts_around_json_values() {
    assert_eq!(
        browseros_agent::tools::poll::job_probe_script("\"j\""),
        "(function() { var t = globalThis.__browserosJobs && globalThis.__browserosJobs[\"j\"]; return t || { jobId: \"j\", status: 'unknown' }; })()"
    );
    assert_eq!(
        browseros_agent::tools::wait::probe_expression(WaitFor::Selector, "\"#x\""),
        "!!document.querySelector(\"#x\")"
    );
    assert_eq!(browseros_agent::tools::wait::probe_expression(WaitFor::Time, "\"x\""), "");
    assert_eq!(signal_probe(WaitFor::Time, None).unwrap_or_default(), "");
}
