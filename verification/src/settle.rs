//! Post-action settle: after an input action, wait (within a short budget)
//! for a navigation the action may have started and then for the DOM to stop
//! mutating.
//!
//! The decisions stand here as a state machine; the driver performs each
//! action (a CDP call raced against its timeout, or a sleep) and hands back
//! what came of it together with the current time in milliseconds.

use vstd::prelude::*;

use crate::text::{push_str, u64_decimal};

verus! {

/// How long the settle watches for a navigation to start.
pub const NAVIGATION_DETECT_MS: u64 = 150;
/// Poll interval while watching the tab's loading state.
pub const NAVIGATION_POLL_MS: u64 = 50;
/// How long the DOM must stay unchanged to count as quiet.
pub const DOM_QUIET_MS: u64 = 100;
/// Ceiling of a single CDP call during the settle.
pub const CDP_CALL_TIMEOUT_MS: u64 = 250;
/// Total automatic settle budget after an action, deliberately short.
pub const DEFAULT_BUDGET_MS: u64 = 50;

/// Installs a mutation counter on the page and reads it.
pub const INSTALL_OBSERVER_JS: &'static str = "
(() => {
  const root = document.body || document.documentElement;
  const previous = globalThis.__browseros_settle;
  if (previous && previous.observer) {
    try { previous.observer.disconnect(); } catch (_) {}
  }
  const state = { n: 0, observer: null };
  if (!root || typeof MutationObserver === 'undefined') {
    globalThis.__browseros_settle = state;
    return state.n;
  }
  state.observer = new MutationObserver(() => { state.n += 1; });
  state.observer.observe(root, {
    childList: true,
    subtree: true,
    attributes: true,
    characterData: true
  });
  globalThis.__browseros_settle = state;
  return state.n;
})()
";

/// Reads the page's mutation counter.
pub const READ_COUNTER_JS: &'static str = "
(() => {
  const state = globalThis.__browseros_settle;
  return state && typeof state.n === 'number' ? state.n : 0;
})()
";

/// How a settle ended.
#[derive(Debug, PartialEq, Eq)]
pub enum SettleOutcome {
    Settled { navigation_observed: bool },
    BudgetExpired,
    Skipped { reason: String },
}

/// What became of a CDP call raced against its timeout.
pub enum CallResult<T> {
    Done(T),
    Failed(String),
    TimedOut,
}

/// A tab's loading state as a refresh reports it.
pub struct LoadState {
    pub is_loading: bool,
    pub load_progress_ppm: u32,
}

/// What the driver does next.
pub enum SettleAction {
    /// Refresh the page's tab info (`None` when the page is gone).
    RefreshPage { timeout_ms: u64 },
    /// Attach to the page.
    GetSession { timeout_ms: u64 },
    /// Install the mutation counter and read it.
    InstallObserver { timeout_ms: u64 },
    /// Read the mutation counter.
    ReadCounter { timeout_ms: u64 },
    /// Sleep, then report [`SettleEvent::Slept`].
    Sleep { ms: u64 },
    /// The settle is over.
    Finish(SettleOutcome),
}

/// What the driver reports back, with the time it observed.
pub enum SettleEvent {
    Refreshed { now_ms: u64, result: CallResult<Option<LoadState>> },
    SessionReady { now_ms: u64, result: CallResult<()> },
    Counted { now_ms: u64, result: CallResult<u64> },
    Slept { now_ms: u64 },
}

/// Where the settle stands.
pub enum SettlePhase {
    /// Waiting for a refresh while watching for a navigation to start.
    Detect,
    /// Sleeping between refreshes while watching for a navigation.
    DetectPause,
    /// Waiting for a refresh while a navigation loads.
    Load,
    /// Sleeping between refreshes while a navigation loads.
    LoadPause,
    /// Waiting for the page session.
    Session,
    /// Waiting for the mutation counter to be installed.
    Install,
    /// Sleeping through a quiet interval.
    Quiet,
    /// Waiting for the mutation counter.
    Read,
    /// Sleeping out the rest of the budget before reporting it expired.
    Expiring,
    /// Finished.
    Done,
}

pub struct SettleMachine {
    pub page_id: u32,
    pub deadline_ms: u64,
    pub detect_until_ms: u64,
    pub phase: SettlePhase,
    pub navigation_observed: bool,
    pub previous_count: u64,
    pub call_budget_ms: u64,
}

pub open spec fn is_loading(s: LoadState) -> bool {
    crate::pages::settle_sees_loading(s.is_loading, s.load_progress_ppm)
}

pub open spec fn min(a: u64, b: u64) -> u64 {
    if a <= b { a } else { b }
}

/// How long an action may keep the driver waiting.
pub open spec fn wait_of(a: SettleAction) -> u64 {
    match a {
        SettleAction::RefreshPage { timeout_ms } => timeout_ms,
        SettleAction::GetSession { timeout_ms } => timeout_ms,
        SettleAction::InstallObserver { timeout_ms } => timeout_ms,
        SettleAction::ReadCounter { timeout_ms } => timeout_ms,
        SettleAction::Sleep { ms } => ms,
        SettleAction::Finish(_) => 0,
    }
}

/// The event the machine waits for in its phase.
pub open spec fn expects(phase: SettlePhase, e: SettleEvent) -> bool {
    match phase {
        SettlePhase::Detect | SettlePhase::Load => e is Refreshed,
        SettlePhase::Session => e is SessionReady,
        SettlePhase::Install | SettlePhase::Read => e is Counted,
        SettlePhase::DetectPause | SettlePhase::LoadPause | SettlePhase::Quiet | SettlePhase::Expiring => e is Slept,
        SettlePhase::Done => false,
    }
}

pub open spec fn event_time(e: SettleEvent) -> u64 {
    match e {
        SettleEvent::Refreshed { now_ms, .. } => now_ms,
        SettleEvent::SessionReady { now_ms, .. } => now_ms,
        SettleEvent::Counted { now_ms, .. } => now_ms,
        SettleEvent::Slept { now_ms } => now_ms,
    }
}

/// The phase the machine is in after handing out an action: finished after a
/// `Finish`, waiting for the matching answer otherwise.
pub open spec fn consistent(phase: SettlePhase, a: SettleAction) -> bool {
    match a {
        SettleAction::Finish(_) => phase is Done,
        SettleAction::RefreshPage { .. } => phase is Detect || phase is Load,
        SettleAction::GetSession { .. } => phase is Session,
        SettleAction::InstallObserver { .. } => phase is Install,
        SettleAction::ReadCounter { .. } => phase is Read,
        SettleAction::Sleep { .. } => phase is DetectPause || phase is LoadPause || phase is Quiet
            || phase is Expiring,
    }
}

/// The CDP call of `phase` issued at `now` by machine `m`, leaving `after`:
/// once the deadline has come the budget has expired; otherwise the call's
/// timeout is the time left, capped at [`CDP_CALL_TIMEOUT_MS`].
pub open spec fn calls(m: SettleMachine, now: u64, phase: SettlePhase, after: SettleMachine, a: SettleAction) -> bool {
    if now >= m.deadline_ms {
        a == SettleAction::Finish(SettleOutcome::BudgetExpired) && after.phase is Done
    } else {
        let t = min((m.deadline_ms - now) as u64, CDP_CALL_TIMEOUT_MS);
        &&& after.phase == phase
        &&& after.call_budget_ms == t
        &&& a == match phase {
            SettlePhase::Detect | SettlePhase::Load => SettleAction::RefreshPage { timeout_ms: t },
            SettlePhase::Session => SettleAction::GetSession { timeout_ms: t },
            SettlePhase::Install => SettleAction::InstallObserver { timeout_ms: t },
            _ => SettleAction::ReadCounter { timeout_ms: t },
        }
    }
}

/// A sleep of `ms` into `phase` at `now` by machine `m`, leaving `after`:
/// once the deadline has come the budget has expired; with less time left
/// than `ms`, the rest is slept and the budget expires after it.
pub open spec fn pauses(m: SettleMachine, now: u64, ms: u64, phase: SettlePhase, after: SettleMachine, a: SettleAction) -> bool {
    if now >= m.deadline_ms {
        a == SettleAction::Finish(SettleOutcome::BudgetExpired) && after.phase is Done
    } else if m.deadline_ms - now < ms {
        a == (SettleAction::Sleep { ms: (m.deadline_ms - now) as u64 }) && after.phase is Expiring
    } else {
        a == (SettleAction::Sleep { ms }) && after.phase == phase
    }
}

/// The end of a settle whose call failed with `failure`, or ran out of time
/// (`None`): a failure skips the settle with its message; a call that ran
/// out of time skips it with the call's budget named, unless the deadline
/// has come.
pub open spec fn fails(m: SettleMachine, now: u64, failure: Option<String>, a: SettleAction) -> bool {
    match failure {
        Some(reason) => a == SettleAction::Finish(SettleOutcome::Skipped { reason }),
        None => if now >= m.deadline_ms {
            a == SettleAction::Finish(SettleOutcome::BudgetExpired)
        } else {
            a matches SettleAction::Finish(SettleOutcome::Skipped { reason: r })
                && r@ == timed_out_reason(m.call_budget_ms)
        },
    }
}

/// The mutation count the machine remembers after the event.
pub open spec fn next_count(m: SettleMachine, e: SettleEvent) -> u64 {
    match e {
        SettleEvent::Counted { result: CallResult::Done(n), .. } => n,
        _ => m.previous_count,
    }
}

/// One step of the settle from `m` on event `e`, leaving `after` and handing
/// out `a`.
pub open spec fn stepped(m: SettleMachine, e: SettleEvent, after: SettleMachine, a: SettleAction) -> bool {
    match e {
        SettleEvent::Refreshed { now_ms, result } => match result {
            CallResult::TimedOut => fails(m, now_ms, None, a),
            CallResult::Failed(reason) => fails(m, now_ms, Some(reason), a),
            CallResult::Done(None) => a matches SettleAction::Finish(SettleOutcome::Skipped { reason })
                && reason@ == page_not_found_reason(m.page_id),
            CallResult::Done(Some(s)) => if m.phase is Detect {
                if is_loading(s) {
                    calls(m, now_ms, SettlePhase::Load, after, a)
                } else if now_ms >= m.detect_until_ms {
                    calls(m, now_ms, SettlePhase::Session, after, a)
                } else {
                    let until = min(m.detect_until_ms, (now_ms + NAVIGATION_POLL_MS) as u64);
                    let capped = min(until, m.deadline_ms);
                    if capped <= now_ms {
                        calls(m, now_ms, SettlePhase::Detect, after, a)
                    } else {
                        pauses(m, now_ms, (capped - now_ms) as u64, SettlePhase::DetectPause, after, a)
                    }
                }
            } else if !is_loading(s) {
                calls(m, now_ms, SettlePhase::Session, after, a)
            } else {
                pauses(m, now_ms, NAVIGATION_POLL_MS, SettlePhase::LoadPause, after, a)
            },
        },
        SettleEvent::SessionReady { now_ms, result } => match result {
            CallResult::TimedOut => fails(m, now_ms, None, a),
            CallResult::Failed(reason) => fails(m, now_ms, Some(reason), a),
            CallResult::Done(_) => calls(m, now_ms, SettlePhase::Install, after, a),
        },
        SettleEvent::Counted { now_ms, result } => match result {
            CallResult::TimedOut => fails(m, now_ms, None, a),
            CallResult::Failed(reason) => fails(m, now_ms, Some(reason), a),
            CallResult::Done(n) => if m.phase is Read && n == m.previous_count {
                a == SettleAction::Finish(SettleOutcome::Settled { navigation_observed: m.navigation_observed })
            } else {
                pauses(m, now_ms, DOM_QUIET_MS, SettlePhase::Quiet, after, a)
            },
        },
        SettleEvent::Slept { now_ms } => match m.phase {
            SettlePhase::DetectPause => calls(m, now_ms, SettlePhase::Detect, after, a),
            SettlePhase::LoadPause => calls(m, now_ms, SettlePhase::Load, after, a),
            SettlePhase::Quiet => calls(m, now_ms, SettlePhase::Read, after, a),
            _ => a == SettleAction::Finish(SettleOutcome::BudgetExpired),
        },
    }
}

impl SettleMachine {
    /// What an action that starts at `now` may cost: nothing once the deadline
    /// has come, else the time left.
    pub open spec fn fits(&self, now: u64, a: SettleAction) -> bool {
        now < self.deadline_ms ==> now + wait_of(a) <= self.deadline_ms
    }

    /// Starts a settle for `page_id` at time `now_ms` with `budget_ms`. A zero
    /// budget expires at once; otherwise the first step refreshes the page to
    /// see whether the action started a navigation, watching for
    /// [`NAVIGATION_DETECT_MS`] at most.
    pub fn start(page_id: u32, now_ms: u64, budget_ms: u64) -> (r: (SettleMachine, SettleAction))
        requires
            now_ms + budget_ms + NAVIGATION_DETECT_MS <= u64::MAX,
        ensures
            budget_ms == 0 ==> r.1 == SettleAction::Finish(SettleOutcome::BudgetExpired),
            budget_ms > 0 ==> r.1 == (SettleAction::RefreshPage { timeout_ms: min(budget_ms, CDP_CALL_TIMEOUT_MS) }),
            r.0.deadline_ms == now_ms + budget_ms,
            // The watch for a navigation ends NAVIGATION_DETECT_MS after the
            // start, or at the deadline if that comes first.
            r.0.detect_until_ms == min((now_ms + budget_ms) as u64, (now_ms + NAVIGATION_DETECT_MS) as u64),
            r.0.page_id == page_id,
            !r.0.navigation_observed,
            r.0.previous_count == 0,
            budget_ms == 0 ==> r.0.phase is Done,
            budget_ms > 0 ==> r.0.phase is Detect && r.0.call_budget_ms == min(budget_ms, CDP_CALL_TIMEOUT_MS),
            consistent(r.0.phase, r.1),
            r.0.fits(now_ms, r.1),
    {
        let deadline = now_ms + budget_ms;
        let detect = now_ms + NAVIGATION_DETECT_MS;
        let mut m = SettleMachine {
            page_id,
            deadline_ms: deadline,
            detect_until_ms: if deadline <= detect { deadline } else { detect },
            phase: SettlePhase::Detect,
            navigation_observed: false,
            previous_count: 0,
            call_budget_ms: 0,
        };
        if budget_ms == 0 {
            m.phase = SettlePhase::Done;
            return (m, SettleAction::Finish(SettleOutcome::BudgetExpired));
        }
        let a = m.call(now_ms, SettlePhase::Detect);
        (m, a)
    }

    /// Ends the settle with `outcome`.
    fn finish(&mut self, outcome: SettleOutcome) -> (a: SettleAction)
        ensures
            a == SettleAction::Finish(outcome),
            final(self).phase is Done,
            final(self).deadline_ms == old(self).deadline_ms,
            final(self).page_id == old(self).page_id,
            final(self).detect_until_ms == old(self).detect_until_ms,
            final(self).navigation_observed == old(self).navigation_observed,
            final(self).previous_count == old(self).previous_count,
    {
        self.phase = SettlePhase::Done;
        SettleAction::Finish(outcome)
    }

    /// Issues the CDP call of `phase`: its timeout is the time left, capped
    /// at [`CDP_CALL_TIMEOUT_MS`]; with no time left the budget has expired.
    fn call(&mut self, now: u64, phase: SettlePhase) -> (a: SettleAction)
        requires
            phase is Detect || phase is Load || phase is Session || phase is Install || phase is Read,
        ensures
            consistent(final(self).phase, a),
            final(self).fits(now, a),
            final(self).deadline_ms == old(self).deadline_ms,
            final(self).page_id == old(self).page_id,
            final(self).detect_until_ms == old(self).detect_until_ms,
            final(self).navigation_observed == old(self).navigation_observed,
            final(self).previous_count == old(self).previous_count,
            calls(*old(self), now, phase, *final(self), a),
    {
        if now >= self.deadline_ms {
            return self.finish(SettleOutcome::BudgetExpired);
        }
        let left = self.deadline_ms - now;
        let budget = if left <= CDP_CALL_TIMEOUT_MS { left } else { CDP_CALL_TIMEOUT_MS };
        self.call_budget_ms = budget;
        let a = match phase {
            SettlePhase::Detect | SettlePhase::Load => SettleAction::RefreshPage { timeout_ms: budget },
            SettlePhase::Session => SettleAction::GetSession { timeout_ms: budget },
            SettlePhase::Install => SettleAction::InstallObserver { timeout_ms: budget },
            _ => SettleAction::ReadCounter { timeout_ms: budget },
        };
        self.phase = phase;
        a
    }

    /// Sleeps `ms` within the budget: with no time left the budget has
    /// expired; with less time left than `ms`, the rest is slept and the
    /// budget expires after it.
    fn pause(&mut self, now: u64, ms: u64, phase: SettlePhase) -> (a: SettleAction)
        requires
            phase is DetectPause || phase is LoadPause || phase is Quiet,
        ensures
            consistent(final(self).phase, a),
            final(self).fits(now, a),
            final(self).deadline_ms == old(self).deadline_ms,
            final(self).page_id == old(self).page_id,
            final(self).detect_until_ms == old(self).detect_until_ms,
            final(self).navigation_observed == old(self).navigation_observed,
            final(self).previous_count == old(self).previous_count,
            pauses(*old(self), now, ms, phase, *final(self), a),
    {
        if now >= self.deadline_ms {
            return self.finish(SettleOutcome::BudgetExpired);
        }
        let left = self.deadline_ms - now;
        if left < ms {
            self.phase = SettlePhase::Expiring;
            SettleAction::Sleep { ms: left }
        } else {
            self.phase = phase;
            SettleAction::Sleep { ms }
        }
    }

    /// The outcome of a call that failed or ran out of time.
    fn call_failed(&mut self, now: u64, failure: Option<String>) -> (a: SettleAction)
        ensures
            consistent(final(self).phase, a),
            final(self).fits(now, a),
            final(self).deadline_ms == old(self).deadline_ms,
            final(self).page_id == old(self).page_id,
            final(self).detect_until_ms == old(self).detect_until_ms,
            final(self).navigation_observed == old(self).navigation_observed,
            final(self).previous_count == old(self).previous_count,
            fails(*old(self), now, failure, a),
    {
        match failure {
            Some(reason) => self.finish(SettleOutcome::Skipped { reason }),
            None => {
                if now >= self.deadline_ms {
                    self.finish(SettleOutcome::BudgetExpired)
                } else {
                    let reason = timed_out_message(self.call_budget_ms);
                    self.finish(SettleOutcome::Skipped { reason })
                }
            },
        }
    }

    /// Advances the settle by one reported event.
    pub fn step(&mut self, event: SettleEvent) -> (a: SettleAction)
        requires
            expects(old(self).phase, event),
            old(self).deadline_ms + NAVIGATION_POLL_MS <= u64::MAX,
            event_time(event) + NAVIGATION_POLL_MS <= u64::MAX,
        ensures
            consistent(final(self).phase, a),
            final(self).fits(event_time(event), a),
            final(self).deadline_ms == old(self).deadline_ms,
            final(self).detect_until_ms == old(self).detect_until_ms,
            // The DOM counts as quiet only when two reads a quiet interval
            // apart agree.
            settled_flag(a) is Some ==> old(self).phase is Read && counted_equal(event, old(self).previous_count),
            settled_flag(a) is Some ==> settled_flag(a) == Some(old(self).navigation_observed),
            // A navigation counts as observed once a refresh saw the tab loading.
            final(self).navigation_observed == (old(self).navigation_observed || saw_loading(old(self).phase, event)),
            // The budget expires when the deadline has come.
            old(self).phase is Expiring ==> a == SettleAction::Finish(SettleOutcome::BudgetExpired),
            // The next action, for each phase and event.
            stepped(*old(self), event, *final(self), a),
            final(self).previous_count == next_count(*old(self), event),
            final(self).page_id == old(self).page_id,
    {
        match event {
            SettleEvent::Refreshed { now_ms, result } => match result {
                CallResult::TimedOut => self.call_failed(now_ms, None),
                CallResult::Failed(reason) => self.call_failed(now_ms, Some(reason)),
                CallResult::Done(None) => {
                    let reason = page_not_found_message(self.page_id);
                    self.finish(SettleOutcome::Skipped { reason })
                },
                CallResult::Done(Some(state)) => {
                    let loading = state.is_loading && state.load_progress_ppm < crate::pages::SETTLE_LOADED_PPM;
                    match self.phase {
                        SettlePhase::Detect => {
                            if loading {
                                self.navigation_observed = true;
                                self.call(now_ms, SettlePhase::Load)
                            } else if now_ms >= self.detect_until_ms {
                                self.call(now_ms, SettlePhase::Session)
                            } else {
                                let next_poll = now_ms + NAVIGATION_POLL_MS;
                                let until = if self.detect_until_ms <= next_poll { self.detect_until_ms } else { next_poll };
                                let capped = if until <= self.deadline_ms { until } else { self.deadline_ms };
                                if capped <= now_ms {
                                    self.call(now_ms, SettlePhase::Detect)
                                } else {
                                    self.pause(now_ms, capped - now_ms, SettlePhase::DetectPause)
                                }
                            }
                        },
                        _ => {
                            if !loading {
                                self.call(now_ms, SettlePhase::Session)
                            } else {
                                self.pause(now_ms, NAVIGATION_POLL_MS, SettlePhase::LoadPause)
                            }
                        },
                    }
                },
            },
            SettleEvent::SessionReady { now_ms, result } => match result {
                CallResult::TimedOut => self.call_failed(now_ms, None),
                CallResult::Failed(reason) => self.call_failed(now_ms, Some(reason)),
                CallResult::Done(()) => self.call(now_ms, SettlePhase::Install),
            },
            SettleEvent::Counted { now_ms, result } => match result {
                CallResult::TimedOut => self.call_failed(now_ms, None),
                CallResult::Failed(reason) => self.call_failed(now_ms, Some(reason)),
                CallResult::Done(n) => {
                    let settled = match self.phase {
                        SettlePhase::Read => n == self.previous_count,
                        _ => false,
                    };
                    if settled {
                        let nav = self.navigation_observed;
                        self.finish(SettleOutcome::Settled { navigation_observed: nav })
                    } else {
                        self.previous_count = n;
                        self.pause(now_ms, DOM_QUIET_MS, SettlePhase::Quiet)
                    }
                },
            },
            SettleEvent::Slept { now_ms } => match self.phase {
                SettlePhase::DetectPause => self.call(now_ms, SettlePhase::Detect),
                SettlePhase::LoadPause => self.call(now_ms, SettlePhase::Load),
                SettlePhase::Quiet => self.call(now_ms, SettlePhase::Read),
                _ => self.finish(SettleOutcome::BudgetExpired),
            },
        }
    }
}

/// Whether a refresh answer shows the tab still loading: its loading flag is
/// set and its progress is below 90%.
pub open spec fn shows_loading(e: SettleEvent) -> bool {
    e matches SettleEvent::Refreshed { result: CallResult::Done(Some(s)), .. } && s.is_loading
        && s.load_progress_ppm < 900_000
}

/// While a navigation loads, a refresh that shows the tab still loading
/// keeps the settle waiting for the load: the next action is a sleep
/// before the next refresh (or the rest of the budget), or the end of the
/// budget, and never a move on to the DOM watch.
pub proof fn law_a_loading_tab_is_waited_for(m: SettleMachine, e: SettleEvent, after: SettleMachine, a: SettleAction)
    requires
        stepped(m, e, after, a),
        m.phase is Load,
        shows_loading(e),
    ensures
        a is Sleep || a == SettleAction::Finish(SettleOutcome::BudgetExpired),
        a is Sleep ==> after.phase is LoadPause || after.phase is Expiring,
        !(a is GetSession),
        event_time(e) + 50 <= m.deadline_ms ==> a == (SettleAction::Sleep { ms: 50 }) && after.phase is LoadPause,
        event_time(e) >= m.deadline_ms ==> a == SettleAction::Finish(SettleOutcome::BudgetExpired),
{
}

/// While watching for a navigation, a refresh that shows the tab loading
/// marks the navigation observed (see [`saw_loading`]) and turns the settle
/// to waiting for the load: the next action refreshes the page again, or
/// ends the budget once the deadline has come.
pub proof fn law_a_started_navigation_is_awaited(m: SettleMachine, e: SettleEvent, after: SettleMachine, a: SettleAction)
    requires
        stepped(m, e, after, a),
        m.phase is Detect,
        shows_loading(e),
    ensures
        saw_loading(m.phase, e),
        event_time(e) < m.deadline_ms ==> a is RefreshPage && after.phase is Load,
        event_time(e) >= m.deadline_ms ==> a == SettleAction::Finish(SettleOutcome::BudgetExpired),
{
}

/// The DOM watch starts only after a refresh that showed the tab not
/// loading: a step that asks for the page session answered a refresh whose
/// tab had stopped loading or reached 90% progress. So no settle reaches
/// `Settled` while its last look at the tab saw it loading.
pub proof fn law_the_dom_watch_starts_on_a_loaded_tab(m: SettleMachine, e: SettleEvent, after: SettleMachine, a: SettleAction)
    requires
        stepped(m, e, after, a),
        expects(m.phase, e),
        a is GetSession,
    ensures
        e matches SettleEvent::Refreshed { result: CallResult::Done(Some(s)), .. },
        !shows_loading(e),
{
}

/// Two equal mutation counts a quiet interval apart settle the page, with
/// the navigation flag as it stood; a count that differs from the last one
/// is remembered and waits another interval (or the rest of the budget).
pub proof fn law_a_quiet_dom_settles(m: SettleMachine, e: SettleEvent, after: SettleMachine, a: SettleAction)
    requires
        stepped(m, e, after, a),
        m.phase is Read || m.phase is Install,
        e matches SettleEvent::Counted { result: CallResult::Done(_), .. },
    ensures
        (m.phase is Read && e->Counted_result == CallResult::<u64>::Done(m.previous_count)) ==> a == SettleAction::Finish(
            SettleOutcome::Settled { navigation_observed: m.navigation_observed },
        ),
        !(m.phase is Read && e->Counted_result == CallResult::<u64>::Done(m.previous_count)) ==> (a is Sleep
            || a == SettleAction::Finish(SettleOutcome::BudgetExpired)),
        !(m.phase is Read && e->Counted_result == CallResult::<u64>::Done(m.previous_count)) && event_time(e) + 100
            <= m.deadline_ms ==> a == (SettleAction::Sleep { ms: 100 }) && after.phase is Quiet,
{
}

/// The failure a call reported, if the event carries one.
pub open spec fn failure_of(e: SettleEvent) -> Option<String> {
    match e {
        SettleEvent::Refreshed { result: CallResult::Failed(r), .. } => Some(r),
        SettleEvent::SessionReady { result: CallResult::Failed(r), .. } => Some(r),
        SettleEvent::Counted { result: CallResult::Failed(r), .. } => Some(r),
        _ => None,
    }
}

/// A failed CDP call is advisory: it ends the settle as skipped, carrying
/// the failure's message, whatever phase the settle was in.
pub proof fn law_a_failed_call_skips_the_settle(m: SettleMachine, e: SettleEvent, after: SettleMachine, a: SettleAction)
    requires
        stepped(m, e, after, a),
        failure_of(e) is Some,
    ensures
        a == SettleAction::Finish(SettleOutcome::Skipped { reason: failure_of(e)->Some_0 }),
{
}

/// Whether the action ends the settle as settled, and with which navigation flag.
pub open spec fn settled_flag(a: SettleAction) -> Option<bool> {
    match a {
        SettleAction::Finish(SettleOutcome::Settled { navigation_observed }) => Some(navigation_observed),
        _ => None,
    }
}

/// Whether the event is a mutation count equal to `previous`.
pub open spec fn counted_equal(e: SettleEvent, previous: u64) -> bool {
    match e {
        SettleEvent::Counted { result: CallResult::Done(n), .. } => n == previous,
        _ => false,
    }
}

/// Whether the event is a refresh, while watching for a navigation, that
/// shows the tab loading.
pub open spec fn saw_loading(phase: SettlePhase, e: SettleEvent) -> bool {
    phase is Detect && match e {
        SettleEvent::Refreshed { result: CallResult::Done(Some(s)), .. } => is_loading(s),
        _ => false,
    }
}

pub open spec fn timed_out_reason(ms: u64) -> Seq<char> {
    "CDP call timed out after "@ + crate::text::decimal(ms as nat) + "ms"@
}

/// "CDP call timed out after {ms}ms".
pub fn timed_out_message(ms: u64) -> (s: String)
    ensures
        s@ == timed_out_reason(ms),
{
    let mut s = "CDP call timed out after ".to_owned();
    let digits = u64_decimal(ms);
    push_str(&mut s, digits.as_str());
    push_str(&mut s, "ms");
    s
}

pub open spec fn page_not_found_reason(page_id: u32) -> Seq<char> {
    "page "@ + crate::text::decimal(page_id as nat) + " not found"@
}

/// "page {page_id} not found".
pub fn page_not_found_message(page_id: u32) -> (s: String)
    ensures
        s@ == page_not_found_reason(page_id),
{
    let mut s = "page ".to_owned();
    let digits = u64_decimal(page_id as u64);
    push_str(&mut s, digits.as_str());
    push_str(&mut s, " not found");
    s
}

} // verus!
