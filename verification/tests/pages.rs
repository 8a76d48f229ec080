use browseros_agent::page_requests::{
    connection_wait_step, create_tab_params, move_tab_params, no_active_tab_message,
    session_needs_listing, tab_not_found_message, unresolved_target_message, ConnectionWait,
    MovePageOptions, NewPageOptions, NewTabStep, NewTabWait, NEW_PAGE_READY_ATTEMPTS,
};
use browseros_agent::pages::{tab_is_loading, PageTable, TabInfo};
use browseros_agent::schema::JsonValue;

fn tab(tab_id: i64, target: &str, url: &str) -> TabInfo {
    TabInfo {
        tab_id,
        target_id: target.to_string(),
        url: url.to_string(),
        title: "T".to_string(),
        is_active: false,
        is_loading: false,
        load_progress_ppm: 1_000_000,
        load_progress_bits: 1.0f64.to_bits(),
        is_pinned: false,
        window_id: Some(3),
        index: Some(0),
        group_id: None,
    }
}

fn excluded() -> Vec<String> {
    vec!["chrome://".to_string(), "chrome-extension://".to_string()]
}

#[test]
fn listing_assigns_ids_and_skips_excluded_urls() {
    let mut t = PageTable::new(1);
    let l = t.reconcile(
        vec![tab(7, "target-7", "https://example.com"), tab(8, "target-8", "chrome://newtab")],
        &excluded(),
    );
    assert_eq!(l.pages.len(), 1);
    assert_eq!(l.pages[0].page_id, 1);
    assert_eq!(l.pages[0].tab_id, 7);
    assert!(l.detached.is_empty());
    // The same target keeps its id; a new one gets the next.
    let l = t.reconcile(
        vec![tab(9, "target-9", "https://b.example"), tab(7, "target-7", "https://example.com/x")],
        &excluded(),
    );
    assert_eq!(l.pages.len(), 2);
    assert_eq!(l.pages[0].page_id, 1);
    assert_eq!(l.pages[0].url, "https://example.com/x");
    assert_eq!(l.pages[1].page_id, 2);
    // A vanished target is dropped and reported.
    let l = t.reconcile(vec![tab(9, "target-9", "https://b.example")], &excluded());
    assert_eq!(l.detached, vec![1]);
    assert_eq!(l.pages.len(), 1);
    assert_eq!(t.get_tab_id(2), Some(9));
    assert_eq!(t.get_tab_id(1), None);
}

#[test]
fn sessions_are_recorded_and_forgotten() {
    let mut t = PageTable::new(1);
    t.reconcile(vec![tab(7, "target-7", "https://example.com")], &excluded());
    assert_eq!(t.get_attached_session(1), None);
    t.record_session("target-7".to_string(), "session-1".to_string());
    assert_eq!(t.cached_session("target-7").as_deref(), Some("session-1"));
    assert_eq!(t.get_attached_session(1).as_deref(), Some("session-1"));
    t.detach_session("session-1");
    assert_eq!(t.cached_session("target-7"), None);
    t.record_session("target-7".to_string(), "session-2".to_string());
    // A reconnect forgets every session.
    assert!(t.observe_epoch(2));
    assert_eq!(t.cached_session("target-7"), None);
    assert!(!t.observe_epoch(2));
}

#[test]
fn new_pages_take_the_next_id_and_the_requested_url() {
    let mut t = PageTable::new(1);
    let mut fresh = tab(11, "target-11", "");
    fresh.window_id = None;
    let id = t.register_new_page(fresh, "https://new.example/");
    assert_eq!(id, 1);
    match t.get_info(1) {
        Some(p) => assert_eq!(p.url, "https://new.example/"),
        None => panic!("page missing"),
    }
    assert_eq!(t.find_page_for_target("target-11"), Some(1));
    let pairs = t.resolve_tab_ids(&vec![11, 99]);
    assert_eq!(pairs, vec![(11, 1)]);
    t.forget_page(1, "target-11");
    assert!(t.get_info(1).is_none());
}

#[test]
fn settle_and_report_loading_thresholds() {
    let mut t = PageTable::new(1);
    let mut loading = tab(5, "target-5", "https://x.example");
    loading.is_loading = true;
    loading.load_progress_ppm = 899_999;
    t.reconcile(vec![loading], &excluded());
    let info = t.get_info(1).unwrap_or_else(|| panic!("page"));
    assert!(tab_is_loading(&info));
    let mut nearly = tab(5, "target-5", "https://x.example");
    nearly.is_loading = true;
    nearly.load_progress_ppm = 900_000;
    t.reconcile(vec![nearly], &excluded());
    let info = t.get_info(1).unwrap_or_else(|| panic!("page"));
    assert!(!tab_is_loading(&info));
}

fn object_keys(v: &JsonValue) -> Vec<String> {
    match v {
        JsonValue::Object(es) => es.iter().map(|(k, _)| k.clone()).collect(),
        _ => Vec::new(),
    }
}

#[test]
fn tab_creation_and_move_parameters() {
    let bare = create_tab_params(
        "about:blank",
        &NewPageOptions { background: None, window_id: None, tab_group_id: None },
    );
    assert_eq!(object_keys(&bare), vec!["url"]);
    let full = create_tab_params(
        "https://a.example",
        &NewPageOptions { background: Some(true), window_id: Some(4), tab_group_id: Some("g".to_string()) },
    );
    assert_eq!(object_keys(&full), vec!["url", "background", "windowId"]);
    match &full {
        JsonValue::Object(es) => assert!(matches!(&es[2].1, JsonValue::Number(n) if n == "4")),
        _ => panic!("object"),
    }
    let mv = move_tab_params(12, &MovePageOptions { window_id: None, index: Some(-1) });
    assert_eq!(object_keys(&mv), vec!["tabId", "windowId", "index"]);
    match &mv {
        JsonValue::Object(es) => {
            assert!(matches!(es[1].1, JsonValue::Null));
            assert!(matches!(&es[2].1, JsonValue::Number(n) if n == "-1"));
        }
        _ => panic!("object"),
    }
}

#[test]
fn a_new_tab_is_awaited_until_ready() {
    let (mut w, step) = NewTabWait::new(42);
    assert!(matches!(step, NewTabStep::Query));
    let mut loading = tab(42, "t", "https://a");
    loading.is_loading = true;
    loading.load_progress_ppm = 300_000;
    assert!(matches!(w.on_answer(Some(loading)), NewTabStep::Sleep { ms: 100 }));
    assert!(matches!(w.on_slept(), NewTabStep::Query));
    match w.on_answer(Some(tab(42, "t", "https://a"))) {
        NewTabStep::Done(Ok(t)) => assert_eq!(t.tab_id, 42),
        _ => panic!("expected a ready tab"),
    }
}

#[test]
fn a_new_tab_that_never_answers_is_not_found() {
    let (mut w, _) = NewTabWait::new(42);
    for _ in 0..NEW_PAGE_READY_ATTEMPTS - 1 {
        assert!(matches!(w.on_answer(None), NewTabStep::Sleep { .. }));
        assert!(matches!(w.on_slept(), NewTabStep::Query));
    }
    assert!(matches!(w.on_answer(None), NewTabStep::Sleep { .. }));
    match w.on_slept() {
        NewTabStep::Done(Err(m)) => assert_eq!(m, "Tab 42 not found after creation"),
        _ => panic!("expected the not-found message"),
    }
    assert_eq!(tab_not_found_message(-3), "Tab -3 not found after creation");
}

#[test]
fn a_slow_new_tab_is_taken_as_last_seen() {
    let (mut w, _) = NewTabWait::new(1);
    let mut loading = tab(1, "t", "https://a");
    loading.is_loading = true;
    loading.load_progress_ppm = 10;
    for _ in 0..NEW_PAGE_READY_ATTEMPTS {
        let mut again = tab(1, "t", "https://a");
        again.is_loading = true;
        again.load_progress_ppm = 10;
        assert!(matches!(w.on_answer(Some(again)), NewTabStep::Sleep { .. }));
        if w.attempts < NEW_PAGE_READY_ATTEMPTS {
            assert!(matches!(w.on_slept(), NewTabStep::Query));
        }
    }
    match w.on_slept() {
        NewTabStep::Done(Ok(t)) => assert!(t.is_loading),
        _ => panic!("expected the last answer"),
    }
}

#[test]
fn request_messages_and_waits() {
    assert_eq!(no_active_tab_message(3), "No active tab in window 3");
    assert_eq!(unresolved_target_message("T1"), "Could not resolve pageId for target T1");
    assert_eq!(connection_wait_step(true, 9_999), ConnectionWait::Ready);
    assert_eq!(connection_wait_step(false, 10), ConnectionWait::Sleep { ms: 50 });
    assert_eq!(connection_wait_step(false, 5_000), ConnectionWait::NotConnected);
    assert!(session_needs_listing(false, false));
    assert!(session_needs_listing(true, true));
    assert!(!session_needs_listing(true, false));
}

#[test]
fn a_refresh_yields_to_a_page_whose_progress_moved_meanwhile() {
    let mut t = PageTable::new(1);
    let mut first = tab(7, "target-7", "https://example.com");
    first.is_loading = true;
    first.load_progress_ppm = 500_000;
    first.load_progress_bits = 0.5f64.to_bits();
    let before = t.reconcile(vec![first], &excluded()).pages.remove(0);
    // A later listing reports a progress that differs below a millionth.
    let mut moved = tab(7, "target-7", "https://example.com");
    moved.is_loading = true;
    moved.load_progress_ppm = 500_000;
    moved.load_progress_bits = 0.500_000_1f64.to_bits();
    t.reconcile(vec![moved], &excluded());
    // The refresh that went out before it does not overwrite the page.
    let answer = tab(7, "target-7", "https://example.com/late");
    let page = t.apply_refresh(1, &before, answer).expect("the page is known");
    assert_eq!(page.url, "https://example.com");
    assert_eq!(page.load_progress_bits, 0.500_000_1f64.to_bits());
    // With the current page as the base, the answer is applied.
    let answer = tab(7, "target-7", "https://example.com/late");
    let page = t.apply_refresh(1, &page, answer).expect("the page is known");
    assert_eq!(page.url, "https://example.com/late");
}

#[test]
fn a_page_matched_by_tab_id_keeps_its_id_and_every_tab_gets_a_page() {
    let mut t = PageTable::new(1);
    t.reconcile(vec![tab(7, "target-7", "https://a"), tab(8, "target-8", "https://b")], &excluded());
    // Tab 7 now shows another target; tab 9 is new.
    let l = t.reconcile(
        vec![tab(9, "target-9", "https://c"), tab(7, "target-7b", "https://a2"), tab(8, "target-8", "https://b")],
        &excluded(),
    );
    let ids: Vec<(u32, &str)> = l.pages.iter().map(|p| (p.page_id, p.target_id.as_str())).collect();
    assert_eq!(ids, vec![(1, "target-7b"), (2, "target-8"), (3, "target-9")]);
    assert!(l.detached.is_empty());
}
