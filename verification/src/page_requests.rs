//! The browser requests a page manager makes around its table: the
//! parameters of a tab creation or move, the wait for a new tab to be ready,
//! the wait for the CDP connection, and the messages a failed request
//! answers with.
//!
//! Each wait stands as a state machine; the driver makes the request or
//! sleeps, and hands back what came of it.

use vstd::prelude::*;

use crate::pages::{new_tab_ready, TabInfo, TabView, FULL_LOAD_PPM};
use crate::schema::{entries_view, json_view, lemma_object_view, JsonValue, JsonView};
use crate::text::{decimal, i64_decimal, push_str, signed_decimal};

verus! {

/// How often a new tab is asked for before giving up.
pub const NEW_PAGE_READY_ATTEMPTS: usize = 30;
/// Pause between two questions about a new tab.
pub const NEW_PAGE_READY_POLL_MS: u64 = 100;
/// How long a request waits for the CDP connection to come back.
pub const WAIT_FOR_CONNECTION_TIMEOUT_MS: u64 = 5000;
/// Poll interval while waiting for the CDP connection.
pub const WAIT_FOR_CONNECTION_POLL_MS: u64 = 50;

/// Options of a new page.
pub struct NewPageOptions {
    pub background: Option<bool>,
    pub window_id: Option<i64>,
    pub tab_group_id: Option<String>,
}

/// Where a page is moved.
pub struct MovePageOptions {
    pub window_id: Option<i64>,
    pub index: Option<i64>,
}

/// A page with the CDP session attached to it.
pub struct PageSession {
    pub target_id: String,
    pub session_id: String,
    pub url: String,
}

pub open spec fn number(n: i64) -> JsonView {
    JsonView::Number(signed_decimal(n as int))
}

/// `Browser.createTab` parameters: the url, then `background` and `windowId`
/// when given.
pub open spec fn create_tab_params_of(url: Seq<char>, background: Option<bool>, window_id: Option<i64>) -> JsonView {
    let base = seq![("url"@, JsonView::Str(url))];
    let with_bg = match background {
        Some(b) => base.push(("background"@, JsonView::Bool(b))),
        None => base,
    };
    JsonView::Object(
        match window_id {
            Some(w) => with_bg.push(("windowId"@, number(w))),
            None => with_bg,
        },
    )
}

/// The parameters of the `Browser.createTab` call for a new page.
pub fn create_tab_params(url: &str, options: &NewPageOptions) -> (r: JsonValue)
    ensures
        json_view(r) == create_tab_params_of(url@, options.background, options.window_id),
{
    let mut entries: Vec<(String, JsonValue)> = Vec::new();
    entries.push(("url".to_owned(), JsonValue::String(url.to_string())));
    if let Some(b) = options.background {
        entries.push(("background".to_owned(), JsonValue::Bool(b)));
    }
    if let Some(w) = options.window_id {
        entries.push(("windowId".to_owned(), JsonValue::Number(i64_decimal(w))));
    }
    let r = JsonValue::Object(entries);
    proof {
        lemma_object_view(r);
        assert(entries_view(r->Object_0@) =~= create_tab_params_of(url@, options.background, options.window_id)->Object_0);
    }
    assert(json_view(r) =~= create_tab_params_of(url@, options.background, options.window_id));
    r
}

/// `Browser.moveTab` parameters; an absent window or index is `null`.
pub open spec fn move_tab_params_of(tab_id: i64, window_id: Option<i64>, index: Option<i64>) -> JsonView {
    JsonView::Object(
        seq![
            ("tabId"@, number(tab_id)),
            ("windowId"@, match window_id { Some(w) => number(w), None => JsonView::Null }),
            ("index"@, match index { Some(i) => number(i), None => JsonView::Null }),
        ],
    )
}

/// The parameters of the `Browser.moveTab` call that moves a page's tab.
pub fn move_tab_params(tab_id: i64, options: &MovePageOptions) -> (r: JsonValue)
    ensures
        json_view(r) == move_tab_params_of(tab_id, options.window_id, options.index),
{
    let mut entries: Vec<(String, JsonValue)> = Vec::new();
    entries.push(("tabId".to_owned(), JsonValue::Number(i64_decimal(tab_id))));
    entries.push(
        (
            "windowId".to_owned(),
            match options.window_id {
                Some(w) => JsonValue::Number(i64_decimal(w)),
                None => JsonValue::Null,
            },
        ),
    );
    entries.push(
        (
            "index".to_owned(),
            match options.index {
                Some(i) => JsonValue::Number(i64_decimal(i)),
                None => JsonValue::Null,
            },
        ),
    );
    let r = JsonValue::Object(entries);
    proof {
        lemma_object_view(r);
        assert(entries_view(r->Object_0@) =~= move_tab_params_of(tab_id, options.window_id, options.index)->Object_0);
    }
    assert(json_view(r) =~= move_tab_params_of(tab_id, options.window_id, options.index));
    r
}

/// What the driver does next while a new tab gets ready.
pub enum NewTabStep {
    /// Ask for the tab's info (`Browser.getTabInfo`).
    Query,
    /// Sleep [`NEW_PAGE_READY_POLL_MS`], then report it.
    Sleep { ms: u64 },
    /// The wait is over: the tab to register, or the message of a tab that
    /// never answered.
    Done(Result<TabInfo, String>),
}

/// The wait for a freshly created tab: it is asked for up to
/// [`NEW_PAGE_READY_ATTEMPTS`] times, a pause after each answer that does not
/// show it ready, and the last answer is kept.
pub struct NewTabWait {
    pub tab_id: i64,
    /// Questions answered or failed so far.
    pub attempts: usize,
    /// The last tab info the browser answered.
    pub last: Option<TabInfo>,
}

pub open spec fn tab_not_found_text(tab_id: i64) -> Seq<char> {
    "Tab "@ + signed_decimal(tab_id as int) + " not found after creation"@
}

/// "Tab {tab_id} not found after creation".
pub fn tab_not_found_message(tab_id: i64) -> (r: String)
    ensures
        r@ == tab_not_found_text(tab_id),
{
    let mut s = "Tab ".to_owned();
    let d = i64_decimal(tab_id);
    push_str(&mut s, d.as_str());
    push_str(&mut s, " not found after creation");
    s
}

pub open spec fn opt_tab_view(t: Option<TabInfo>) -> Option<TabView> {
    match t {
        Some(x) => Some(x@),
        None => None,
    }
}

impl NewTabWait {
    /// Starts waiting for the tab `tab_id`; the first step asks for it.
    pub fn new(tab_id: i64) -> (r: (NewTabWait, NewTabStep))
        ensures
            r.0.tab_id == tab_id,
            r.0.attempts == 0,
            r.0.last is None,
            r.1 is Query,
    {
        (NewTabWait { tab_id, attempts: 0, last: None }, NewTabStep::Query)
    }

    /// Takes the answer to a question: `Some` tab info, or `None` when the
    /// call failed. A ready tab ends the wait; otherwise the driver sleeps.
    pub fn on_answer(&mut self, answer: Option<TabInfo>) -> (r: NewTabStep)
        requires
            old(self).attempts < NEW_PAGE_READY_ATTEMPTS,
        ensures
            final(self).tab_id == old(self).tab_id,
            final(self).attempts == old(self).attempts + 1,
            opt_tab_view(final(self).last) == match answer {
                Some(t) => Some(t@),
                None => opt_tab_view(old(self).last),
            },
            match answer {
                Some(t) if new_tab_ready(t@) => r matches NewTabStep::Done(Ok(done)) && done@ == t@,
                _ => r == (NewTabStep::Sleep { ms: NEW_PAGE_READY_POLL_MS }),
            },
    {
        self.attempts = self.attempts + 1;
        match answer {
            Some(t) => {
                let ready = !t.is_loading || t.load_progress_ppm >= FULL_LOAD_PPM;
                if ready {
                    let done = t.clone();
                    self.last = Some(t);
                    NewTabStep::Done(Ok(done))
                } else {
                    self.last = Some(t);
                    NewTabStep::Sleep { ms: NEW_PAGE_READY_POLL_MS }
                }
            },
            None => NewTabStep::Sleep { ms: NEW_PAGE_READY_POLL_MS },
        }
    }

    /// After a pause: ask again while attempts are left, else end with the
    /// last tab answered, or the message of a tab never found.
    pub fn on_slept(&mut self) -> (r: NewTabStep)
        requires
            old(self).attempts <= NEW_PAGE_READY_ATTEMPTS,
        ensures
            final(self).tab_id == old(self).tab_id,
            final(self).attempts == old(self).attempts,
            opt_tab_view(final(self).last) == opt_tab_view(old(self).last),
            old(self).attempts < NEW_PAGE_READY_ATTEMPTS ==> r is Query,
            old(self).attempts == NEW_PAGE_READY_ATTEMPTS ==> match old(self).last {
                Some(t) => r matches NewTabStep::Done(Ok(done)) && done@ == t@,
                None => r matches NewTabStep::Done(Err(msg)) && msg@ == tab_not_found_text(old(self).tab_id),
            },
    {
        if self.attempts < NEW_PAGE_READY_ATTEMPTS {
            return NewTabStep::Query;
        }
        match &self.last {
            Some(t) => NewTabStep::Done(Ok(t.clone())),
            None => NewTabStep::Done(Err(tab_not_found_message(self.tab_id))),
        }
    }
}

/// What a request does while the CDP connection is down.
#[derive(Clone, Copy, PartialEq, Eq, Structural, Debug)]
pub enum ConnectionWait {
    /// Connected: go on.
    Ready,
    /// Sleep [`WAIT_FOR_CONNECTION_POLL_MS`], then look again.
    Sleep { ms: u64 },
    /// Give up: the connection is not there.
    NotConnected,
}

/// One look at the connection, `elapsed_ms` after the wait began: go on when
/// connected; else sleep while the wait's time is not over, and give up
/// once it is.
pub fn connection_wait_step(connected: bool, elapsed_ms: u64) -> (r: ConnectionWait)
    ensures
        r == (if connected {
            ConnectionWait::Ready
        } else if elapsed_ms < WAIT_FOR_CONNECTION_TIMEOUT_MS {
            ConnectionWait::Sleep { ms: WAIT_FOR_CONNECTION_POLL_MS }
        } else {
            ConnectionWait::NotConnected
        }),
{
    if connected {
        ConnectionWait::Ready
    } else if elapsed_ms < WAIT_FOR_CONNECTION_TIMEOUT_MS {
        ConnectionWait::Sleep { ms: WAIT_FOR_CONNECTION_POLL_MS }
    } else {
        ConnectionWait::NotConnected
    }
}

pub open spec fn no_active_tab_text(window_id: i64) -> Seq<char> {
    "No active tab in window "@ + signed_decimal(window_id as int)
}

/// "No active tab in window {window_id}".
pub fn no_active_tab_message(window_id: i64) -> (r: String)
    ensures
        r@ == no_active_tab_text(window_id),
{
    let mut s = "No active tab in window ".to_owned();
    let d = i64_decimal(window_id);
    push_str(&mut s, d.as_str());
    s
}

pub open spec fn unresolved_target_text(target_id: Seq<char>) -> Seq<char> {
    "Could not resolve pageId for target "@ + target_id
}

/// "Could not resolve pageId for target {target_id}".
pub fn unresolved_target_message(target_id: &str) -> (r: String)
    ensures
        r@ == unresolved_target_text(target_id@),
{
    let mut s = "Could not resolve pageId for target ".to_owned();
    push_str(&mut s, target_id);
    s
}

/// Whether a request for a page's session lists the tabs again before
/// attaching: when the page is unknown, or the connection came back.
pub fn session_needs_listing(page_known: bool, reconnected: bool) -> (r: bool)
    ensures
        r == (!page_known || reconnected),
{
    !page_known || reconnected
}

} // verus!
