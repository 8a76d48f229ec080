//! Page navigation: the script behind back and forward, and the wait for a
//! navigated document to become usable.
//!
//! The wait stands as a state machine. The driver sleeps, reads the page's
//! pending dialog, asks for `document.readyState` (raced against a short
//! timeout) or stops the load, and hands back what came of it.

use vstd::prelude::*;

use crate::text::{push_str, same_text};

verus! {

/// Pause before the first look at a navigated page.
pub const LOAD_START_PAUSE_MS: u64 = 50;
/// How long a navigation is waited for: about 8 s, after which the current
/// document is worked with as it is.
pub const WAIT_FOR_LOAD_TIMEOUT_MS: u64 = 8000;
/// Pause between two looks at `document.readyState`.
pub const WAIT_FOR_LOAD_POLL_MS: u64 = 150;
/// Ceiling of one `document.readyState` call.
pub const READY_STATE_CALL_TIMEOUT_MS: u64 = 250;

/// "history.{direction}()".
pub open spec fn history_script(direction: Seq<char>) -> Seq<char> {
    "history."@ + direction + "()"@
}

/// The script that moves a page through its history, `direction` being
/// "back" or "forward".
pub fn history_expression(direction: &str) -> (r: String)
    ensures
        r@ == history_script(direction@),
{
    let mut s = "history.".to_owned();
    push_str(&mut s, direction);
    push_str(&mut s, "()");
    s
}

/// What the driver does next while waiting for a load.
pub enum LoadAction {
    /// Sleep, then report the time and the page's pending dialog.
    Sleep { ms: u64 },
    /// Evaluate `document.readyState` within the timeout and report the
    /// string it gave (`None` when the call failed or timed out).
    ReadReadyState { timeout_ms: u64 },
    /// Send `Page.stopLoading` (its outcome does not matter), then report it.
    StopLoading,
    /// The wait is over: `Err` with the line of a dialog that blocks the page.
    Finish(Result<(), String>),
}

/// The wait for a navigated page.
pub struct LoadWait {
    /// Set at the first look: the time the wait gives up.
    pub deadline_ms: Option<u64>,
}

/// Whether a ready state lets the agent act: "complete", or "interactive"
/// (single-page apps often never reach "complete").
pub open spec fn usable_state(state: Option<Seq<char>>) -> bool {
    state == Some("complete"@) || state == Some("interactive"@)
}

pub open spec fn opt_text(s: Option<String>) -> Option<Seq<char>> {
    match s {
        Some(t) => Some(t@),
        None => None,
    }
}

impl LoadWait {
    /// Starts the wait: a short pause first.
    pub fn start() -> (r: (LoadWait, LoadAction))
        ensures
            r.0.deadline_ms is None,
            r.1 == (LoadAction::Sleep { ms: LOAD_START_PAUSE_MS }),
    {
        (LoadWait { deadline_ms: None }, LoadAction::Sleep { ms: LOAD_START_PAUSE_MS })
    }

    /// A look at the page at `now_ms`: the first one sets the deadline. Past
    /// the deadline the load is stopped; a pending dialog ends the wait with
    /// its line; otherwise the ready state is read.
    pub fn on_look(&mut self, now_ms: u64, dialog: Option<String>) -> (r: LoadAction)
        ensures
            final(self).deadline_ms == Some(match old(self).deadline_ms {
                Some(d) => d,
                None => if now_ms <= u64::MAX - WAIT_FOR_LOAD_TIMEOUT_MS {
                    (now_ms + WAIT_FOR_LOAD_TIMEOUT_MS) as u64
                } else {
                    u64::MAX
                },
            }),
            ({
                let d = final(self).deadline_ms->Some_0;
                if now_ms >= d {
                    r is StopLoading
                } else {
                    match dialog {
                        Some(line) => r matches LoadAction::Finish(Err(e)) && e@ == line@,
                        None => r == (LoadAction::ReadReadyState { timeout_ms: READY_STATE_CALL_TIMEOUT_MS }),
                    }
                }
            }),
    {
        let deadline = match self.deadline_ms {
            Some(d) => d,
            None => {
                let d = if now_ms <= u64::MAX - WAIT_FOR_LOAD_TIMEOUT_MS {
                    now_ms + WAIT_FOR_LOAD_TIMEOUT_MS
                } else {
                    u64::MAX
                };
                self.deadline_ms = Some(d);
                d
            },
        };
        if now_ms >= deadline {
            return LoadAction::StopLoading;
        }
        match dialog {
            Some(line) => LoadAction::Finish(Err(line)),
            None => LoadAction::ReadReadyState { timeout_ms: READY_STATE_CALL_TIMEOUT_MS },
        }
    }

    /// The ready state came back (`None`: the call failed or timed out,
    /// which navigation tearing down the context causes): a usable state
    /// ends the wait, anything else waits a poll interval.
    pub fn on_ready_state(&mut self, state: Option<String>) -> (r: LoadAction)
        ensures
            final(self).deadline_ms == old(self).deadline_ms,
            usable_state(opt_text(state)) ==> r matches LoadAction::Finish(Ok(())),
            opt_text(state) == Some("complete"@) ==> r matches LoadAction::Finish(Ok(())),
            opt_text(state) == Some("interactive"@) ==> r matches LoadAction::Finish(Ok(())),
            !usable_state(opt_text(state)) ==> r == (LoadAction::Sleep { ms: WAIT_FOR_LOAD_POLL_MS }),
    {
        match state {
            Some(s) => {
                if same_text(s.as_str(), "complete") || same_text(s.as_str(), "interactive") {
                    LoadAction::Finish(Ok(()))
                } else {
                    LoadAction::Sleep { ms: WAIT_FOR_LOAD_POLL_MS }
                }
            },
            None => LoadAction::Sleep { ms: WAIT_FOR_LOAD_POLL_MS },
        }
    }

    /// The load was stopped after the deadline: the wait ends without error.
    pub fn on_stopped(&mut self) -> (r: LoadAction)
        ensures
            final(self).deadline_ms == old(self).deadline_ms,
            r matches LoadAction::Finish(Ok(())),
    {
        LoadAction::Finish(Ok(()))
    }
}

/// The ready states that end the load wait are exactly "complete" and
/// "interactive": a loaded document ends it at once, and any other state (or
/// a failed read) keeps it polling.
pub proof fn law_loaded_document_ends_the_wait(state: Option<Seq<char>>)
    ensures
        state == Some("complete"@) ==> usable_state(state),
        state == Some("interactive"@) ==> usable_state(state),
        state is None ==> !usable_state(state),
        usable_state(state) ==> state == Some("complete"@) || state == Some("interactive"@),
{
}

} // verus!
