use browseros_agent::settle::{
    timed_out_message, CallResult, LoadState, SettleAction, SettleEvent, SettleMachine,
    SettleOutcome, DEFAULT_BUDGET_MS,
};

/// A simulated page: the tab's loading states in turn (then ready), the
/// mutation counter's reads in turn (then unchanged), and whether
/// `Runtime.evaluate` fails.
struct Harness {
    tab_loads: Vec<LoadState>,
    mutation_reads: Vec<u64>,
    counter: u64,
    fail_evaluate: bool,
}

/// Drives a settle on a simulated clock in which calls take no time;
/// returns the outcome and the time it took.
fn run_settle(mut h: Harness, budget_ms: u64) -> (SettleOutcome, u64) {
    let mut now: u64 = 0;
    let (mut m, mut action) = SettleMachine::start(1, now, budget_ms);
    let mut steps = 0;
    loop {
        steps += 1;
        assert!(steps < 10_000, "settle did not end");
        let event = match action {
            SettleAction::Finish(outcome) => return (outcome, now),
            SettleAction::Sleep { ms } => {
                now += ms;
                SettleEvent::Slept { now_ms: now }
            }
            SettleAction::RefreshPage { .. } => {
                let state = if h.tab_loads.is_empty() {
                    LoadState { is_loading: false, load_progress_ppm: 1_000_000 }
                } else {
                    h.tab_loads.remove(0)
                };
                SettleEvent::Refreshed { now_ms: now, result: CallResult::Done(Some(state)) }
            }
            SettleAction::GetSession { .. } => SettleEvent::SessionReady {
                now_ms: now,
                result: CallResult::Done(()),
            },
            SettleAction::InstallObserver { .. } => {
                if h.fail_evaluate {
                    SettleEvent::Counted {
                        now_ms: now,
                        result: CallResult::Failed("CDP protocol error -32000: evaluate failed".to_string()),
                    }
                } else {
                    h.counter = 0;
                    SettleEvent::Counted { now_ms: now, result: CallResult::Done(0) }
                }
            }
            SettleAction::ReadCounter { .. } => {
                if !h.mutation_reads.is_empty() {
                    h.counter = h.mutation_reads.remove(0);
                }
                SettleEvent::Counted { now_ms: now, result: CallResult::Done(h.counter) }
            }
        };
        action = m.step(event);
    }
}

fn harness(mutation_reads: Vec<u64>) -> Harness {
    Harness { tab_loads: Vec::new(), mutation_reads, counter: 0, fail_evaluate: false }
}

#[test]
fn quiet_dom_settles_before_budget() {
    let (outcome, elapsed) = run_settle(harness(Vec::new()), 900);
    assert_eq!(outcome, SettleOutcome::Settled { navigation_observed: false });
    assert!(elapsed < 500);
}

#[test]
fn mutations_delay_settle_until_one_quiet_interval() {
    let (outcome, elapsed) = run_settle(harness(vec![1, 2, 2]), 1_000);
    assert_eq!(outcome, SettleOutcome::Settled { navigation_observed: false });
    assert!(elapsed >= 400);
    assert!(elapsed < 800);
}

#[test]
fn automatic_settle_respects_50ms_total_budget() {
    let budget = DEFAULT_BUDGET_MS;
    assert_eq!(budget, 50);
    let (outcome, elapsed) = run_settle(harness(vec![1, 2, 3]), budget);
    assert_eq!(outcome, SettleOutcome::BudgetExpired);
    assert!(elapsed >= budget);
    assert!(elapsed < 150);
}

#[test]
fn evaluate_failure_is_advisory() {
    let mut h = harness(Vec::new());
    h.fail_evaluate = true;
    let (outcome, _) = run_settle(h, 900);
    assert!(matches!(outcome, SettleOutcome::Skipped { reason } if reason.contains("evaluate failed")));
}

#[test]
fn a_started_navigation_is_observed_and_awaited() {
    let mut h = harness(Vec::new());
    h.tab_loads = vec![
        LoadState { is_loading: true, load_progress_ppm: 100_000 },
        LoadState { is_loading: true, load_progress_ppm: 500_000 },
        LoadState { is_loading: false, load_progress_ppm: 1_000_000 },
    ];
    let (outcome, _) = run_settle(h, 2_000);
    assert_eq!(outcome, SettleOutcome::Settled { navigation_observed: true });
}

#[test]
fn high_progress_counts_as_loaded() {
    let mut h = harness(Vec::new());
    h.tab_loads = vec![LoadState { is_loading: true, load_progress_ppm: 950_000 }];
    let (outcome, _) = run_settle(h, 900);
    assert_eq!(outcome, SettleOutcome::Settled { navigation_observed: false });
}

#[test]
fn zero_budget_expires_at_once() {
    let (_, action) = SettleMachine::start(1, 0, 0);
    assert!(matches!(action, SettleAction::Finish(SettleOutcome::BudgetExpired)));
}

#[test]
fn a_missing_page_skips_the_settle() {
    let (mut m, _) = SettleMachine::start(7, 0, 900);
    let action = m.step(SettleEvent::Refreshed { now_ms: 0, result: CallResult::Done(None) });
    match action {
        SettleAction::Finish(SettleOutcome::Skipped { reason }) => assert_eq!(reason, "page 7 not found"),
        _ => panic!("expected a skipped settle"),
    }
}

#[test]
fn a_timed_out_call_names_its_budget() {
    assert_eq!(timed_out_message(250), "CDP call timed out after 250ms");
    let (mut m, _) = SettleMachine::start(1, 0, 900);
    let action = m.step(SettleEvent::Refreshed { now_ms: 250, result: CallResult::TimedOut });
    match action {
        SettleAction::Finish(SettleOutcome::Skipped { reason }) => {
            assert_eq!(reason, "CDP call timed out after 250ms")
        }
        _ => panic!("expected a skipped settle"),
    }
}

#[test]
fn each_step_hands_out_the_next_action() {
    let ready = || CallResult::Done(Some(LoadState { is_loading: false, load_progress_ppm: 1_000_000 }));
    let (mut m, a) = SettleMachine::start(1, 0, 900);
    assert!(matches!(a, SettleAction::RefreshPage { timeout_ms: 250 }));
    // While watching for a navigation, a ready tab is polled again.
    for t in [0, 50, 100] {
        assert!(matches!(m.step(SettleEvent::Refreshed { now_ms: t, result: ready() }), SettleAction::Sleep { ms: 50 }));
        assert!(matches!(m.step(SettleEvent::Slept { now_ms: t + 50 }), SettleAction::RefreshPage { timeout_ms: 250 }));
    }
    // The watch is over: attach, install the counter, wait a quiet interval, read.
    assert!(matches!(m.step(SettleEvent::Refreshed { now_ms: 150, result: ready() }), SettleAction::GetSession { timeout_ms: 250 }));
    assert!(matches!(
        m.step(SettleEvent::SessionReady { now_ms: 150, result: CallResult::Done(()) }),
        SettleAction::InstallObserver { timeout_ms: 250 }
    ));
    assert!(matches!(m.step(SettleEvent::Counted { now_ms: 150, result: CallResult::Done(0) }), SettleAction::Sleep { ms: 100 }));
    assert!(matches!(m.step(SettleEvent::Slept { now_ms: 250 }), SettleAction::ReadCounter { timeout_ms: 250 }));
    // A changed count waits another interval; two equal reads settle.
    assert!(matches!(m.step(SettleEvent::Counted { now_ms: 250, result: CallResult::Done(4) }), SettleAction::Sleep { ms: 100 }));
    assert!(matches!(m.step(SettleEvent::Slept { now_ms: 350 }), SettleAction::ReadCounter { timeout_ms: 250 }));
    assert!(matches!(
        m.step(SettleEvent::Counted { now_ms: 350, result: CallResult::Done(4) }),
        SettleAction::Finish(SettleOutcome::Settled { navigation_observed: false })
    ));
}

#[test]
fn a_quiet_interval_cut_by_the_deadline_expires_the_budget() {
    let (mut m, _) = SettleMachine::start(1, 0, 200);
    m.step(SettleEvent::Refreshed { now_ms: 150, result: CallResult::Done(Some(LoadState { is_loading: false, load_progress_ppm: 1_000_000 })) });
    m.step(SettleEvent::SessionReady { now_ms: 150, result: CallResult::Done(()) });
    // Only 30 ms are left of the quiet interval's 100.
    assert!(matches!(m.step(SettleEvent::Counted { now_ms: 170, result: CallResult::Done(0) }), SettleAction::Sleep { ms: 30 }));
    assert!(matches!(m.step(SettleEvent::Slept { now_ms: 200 }), SettleAction::Finish(SettleOutcome::BudgetExpired)));
}
