//! `wait`: a pause, or a wait for text or a CSS selector to appear.
//!
//! A blind pause is capped short; a wait for a signal polls the page until
//! it matches or its timeout passes, then the agent goes on with whatever
//! is on the page.

use vstd::prelude::*;

use crate::framework::{tool_def, takes_page, ToolHints, ToolDef};
use crate::text::{decimal, push_str, u64_decimal};

verus! {

/// Default pause, and default timeout of a wait for a signal.
pub const DEFAULT_PAUSE_MS: u64 = 2_000;
/// Ceiling of a blind pause.
pub const MAX_PAUSE_MS: u64 = 2_000;
/// Default timeout of a wait for text or a selector.
pub const DEFAULT_WAIT_TIMEOUT_MS: u64 = 2_000;
/// Ceiling of the timeout of a wait for text or a selector.
pub const MAX_WAIT_TIMEOUT_MS: u64 = 8_000;
/// Longest pause between two looks at the page.
pub const WAIT_POLL_MS: u64 = 300;

pub const DESCRIPTION: &'static str = "Wait on a signal: for=\"text\" (substring appears) or for=\"selector\" (CSS selector matches) beat a blind pause. for=\"time\" (default) pauses `value` ms (default 2000, max 2000). Never wait for the tab spinner or document.complete — those often never finish. If the wait times out, continue with whatever is on the page. Last resort. Best of all: act and read the diff instead of waiting.";

/// What a wait waits for.
#[derive(Clone, Copy, PartialEq, Eq, Structural, Debug)]
pub enum WaitFor {
    Text,
    Selector,
    Time,
}

pub open spec fn wait_for_text(w: WaitFor) -> Seq<char> {
    match w {
        WaitFor::Text => "text"@,
        WaitFor::Selector => "selector"@,
        WaitFor::Time => "time"@,
    }
}

/// The wire name of what is waited for.
pub fn wait_for_name(wait_for: &WaitFor) -> (r: &'static str)
    ensures
        r@ == wait_for_text(*wait_for),
{
    match wait_for {
        WaitFor::Text => "text",
        WaitFor::Selector => "selector",
        WaitFor::Time => "time",
    }
}

/// How `wait` is announced.
pub fn definition() -> (r: ToolDef)
    ensures
        r.name@ == "wait"@,
        r.description@ == DESCRIPTION@,
        r.hints == ToolHints::ReadOnly,
        r.metadata.accepts_page_arg == takes_page("wait"@),
{
    tool_def("wait", DESCRIPTION, ToolHints::ReadOnly)
}

/// A blind pause of the requested length, capped at [`MAX_PAUSE_MS`].
pub fn pause_ms(requested_ms: u64) -> (r: u64)
    ensures
        r == (if requested_ms <= MAX_PAUSE_MS { requested_ms } else { MAX_PAUSE_MS }),
{
    if requested_ms <= MAX_PAUSE_MS {
        requested_ms
    } else {
        MAX_PAUSE_MS
    }
}

/// "waited {ms}ms".
pub fn waited_text(ms: u64) -> (r: String)
    ensures
        r@ == "waited "@ + decimal(ms as nat) + "ms"@,
{
    let mut s = "waited ".to_owned();
    let d = u64_decimal(ms);
    push_str(&mut s, d.as_str());
    push_str(&mut s, "ms");
    s
}

pub open spec fn missing_value_text(w: WaitFor) -> Seq<char> {
    "wait: \"value\" is required for for=\""@ + wait_for_text(w)
        + "\" (the text or CSS selector to wait for). To just pause, use for=\"time\"."@
}

/// The page script that tells whether the signal is there, around the
/// value written as JSON: the body text contains it, or a node matches it
/// as a selector.
pub open spec fn probe_around(w: WaitFor, value_json: Seq<char>) -> Seq<char> {
    match w {
        WaitFor::Text => "(document.body?.innerText ?? '').includes("@ + value_json + ")"@,
        WaitFor::Selector => "!!document.querySelector("@ + value_json + ")"@,
        WaitFor::Time => Seq::empty(),
    }
}

/// The probe script of a value, written as a JSON string.
pub open spec fn probe_script(w: WaitFor, value: Seq<char>) -> Seq<char> {
    probe_around(w, crate::cdp::json_string_text(value))
}

/// Builds the probe script around a value already written as JSON.
pub fn probe_expression(wait_for: WaitFor, value_json: &str) -> (r: String)
    ensures
        r@ == probe_around(wait_for, value_json@),
{
    let mut s = match wait_for {
        WaitFor::Text => "(document.body?.innerText ?? '').includes(".to_owned(),
        WaitFor::Selector => "!!document.querySelector(".to_owned(),
        WaitFor::Time => return String::new(),
    };
    push_str(&mut s, value_json);
    push_str(&mut s, ")");
    s
}

/// How a wait for a signal begins: refused without a nonempty value, else
/// the script that probes for it. A pause probes nothing.
pub fn signal_probe(wait_for: WaitFor, value: Option<&str>) -> (r: Result<String, String>)
    ensures
        wait_for == WaitFor::Time ==> (r matches Ok(s) && s@.len() == 0),
        wait_for != WaitFor::Time ==> match value {
            Some(v) if v@.len() > 0 => r matches Ok(s) && s@ == probe_script(wait_for, v@),
            _ => r matches Err(e) && e@ == missing_value_text(wait_for),
        },
{
    if wait_for == WaitFor::Time {
        return Ok(String::new());
    }
    let v = match value {
        Some(v) => if crate::text::chars_of(v).len() > 0 {
            v
        } else {
            return Err(missing_value_message(wait_for));
        },
        None => return Err(missing_value_message(wait_for)),
    };
    let quoted = crate::cdp::quote_json(v);
    Ok(probe_expression(wait_for, quoted.as_str()))
}

fn missing_value_message(wait_for: WaitFor) -> (r: String)
    ensures
        r@ == missing_value_text(wait_for),
{
    let mut s = "wait: \"value\" is required for for=\"".to_owned();
    push_str(&mut s, wait_for_name(&wait_for));
    push_str(&mut s, "\" (the text or CSS selector to wait for). To just pause, use for=\"time\".");
    s
}

/// What the driver does next while waiting for a signal.
pub enum SignalStep {
    /// Evaluate the probe script and report whether it answered `true`.
    Probe,
    /// Sleep, then look again.
    Sleep { ms: u64 },
    /// The signal is there: "matched ({name})".
    Matched(String),
    /// The timeout passed: "timed out after {timeout}ms waiting for {name}".
    TimedOut(String),
    /// The call was cancelled.
    Cancelled,
}

/// The wait for a signal, between its start and its deadline.
pub struct SignalWait {
    pub wait_for: WaitFor,
    pub timeout_ms: u64,
    pub deadline_ms: u64,
}

pub open spec fn matched_text(w: WaitFor) -> Seq<char> {
    "matched ("@ + wait_for_text(w) + ")"@
}

pub open spec fn timed_out_text(w: WaitFor, timeout_ms: u64) -> Seq<char> {
    "timed out after "@ + decimal(timeout_ms as nat) + "ms waiting for "@ + wait_for_text(w)
}

impl SignalWait {
    /// Starts waiting at `now_ms` for `timeout_ms`.
    pub fn start(wait_for: WaitFor, timeout_ms: u64, now_ms: u64) -> (r: SignalWait)
        ensures
            r.wait_for == wait_for,
            r.timeout_ms == timeout_ms,
            r.deadline_ms == (if now_ms <= u64::MAX - timeout_ms { (now_ms + timeout_ms) as u64 } else { u64::MAX }),
    {
        let deadline = if now_ms <= u64::MAX - timeout_ms {
            now_ms + timeout_ms
        } else {
            u64::MAX
        };
        SignalWait { wait_for, timeout_ms, deadline_ms: deadline }
    }

    /// A look at `now_ms`: a cancelled call stops, a passed deadline times
    /// out, otherwise the page is probed.
    pub fn on_look(&self, now_ms: u64, cancelled: bool) -> (r: SignalStep)
        ensures
            now_ms < self.deadline_ms && cancelled ==> r is Cancelled,
            now_ms < self.deadline_ms && !cancelled ==> r is Probe,
            now_ms >= self.deadline_ms ==> (r matches SignalStep::TimedOut(t) && t@ == timed_out_text(self.wait_for, self.timeout_ms)),
    {
        if now_ms >= self.deadline_ms {
            let mut s = "timed out after ".to_owned();
            let d = u64_decimal(self.timeout_ms);
            push_str(&mut s, d.as_str());
            push_str(&mut s, "ms waiting for ");
            push_str(&mut s, wait_for_name(&self.wait_for));
            return SignalStep::TimedOut(s);
        }
        if cancelled {
            SignalStep::Cancelled
        } else {
            SignalStep::Probe
        }
    }

    /// The probe answered at `now_ms`: a match ends the wait, otherwise it
    /// sleeps what is left of the timeout, [`WAIT_POLL_MS`] at most.
    pub fn on_probe(&self, matched: bool, now_ms: u64) -> (r: SignalStep)
        ensures
            matched ==> (r matches SignalStep::Matched(t) && t@ == matched_text(self.wait_for)),
            !matched ==> r == (SignalStep::Sleep {
                ms: if now_ms >= self.deadline_ms {
                    0
                } else if self.deadline_ms - now_ms <= WAIT_POLL_MS {
                    (self.deadline_ms - now_ms) as u64
                } else {
                    WAIT_POLL_MS
                },
            }),
    {
        if matched {
            let mut s = "matched (".to_owned();
            push_str(&mut s, wait_for_name(&self.wait_for));
            push_str(&mut s, ")");
            return SignalStep::Matched(s);
        }
        let remaining = if now_ms >= self.deadline_ms {
            0
        } else {
            self.deadline_ms - now_ms
        };
        SignalStep::Sleep { ms: if remaining <= WAIT_POLL_MS { remaining } else { WAIT_POLL_MS } }
    }
}


/// The pause a call asks for: the fallback without a value or with a blank
/// one; else the value read as a number of milliseconds (`rounded`: `None`
/// when it is no finite, nonnegative number), the fallback when it is not one.
pub fn parse_wait_ms(value: Option<&str>, rounded: Option<u64>, fallback: u64) -> (r: u64)
    ensures
        r == match value {
            None => fallback,
            Some(v) => if crate::text::trimmed(v@).len() == 0 {
                fallback
            } else {
                match rounded {
                    Some(ms) => ms,
                    None => fallback,
                }
            },
        },
{
    match value {
        None => fallback,
        Some(v) => {
            let t = crate::text::trim_text(v);
            if crate::text::chars_of(t.as_str()).len() == 0 {
                fallback
            } else {
                match rounded {
                    Some(ms) => ms,
                    None => fallback,
                }
            }
        },
    }
}

} // verus!
