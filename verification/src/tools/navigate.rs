//! `navigate`: loading a url in a page, or going back, forward or reloading.

use vstd::prelude::*;

use crate::framework::{tool_def, takes_page, ToolHints, ToolDef};
use crate::text::push_str;

verus! {

pub const DESCRIPTION: &'static str = "Navigate a page: load a url, or go back/forward/reload. Waits at most ~8s for document interactive (not the tab spinner). SPAs/ads often never reach complete — then work with the current DOM. Returns a fresh snapshot of the resulting page (navigation invalidates refs, so old [ref=eN] handles no longer apply).";

/// What a navigation does.
#[derive(Clone, Copy, PartialEq, Eq, Structural, Debug)]
pub enum NavigateAction {
    Url,
    Back,
    Forward,
    Reload,
}

pub open spec fn action_text(a: NavigateAction) -> Seq<char> {
    match a {
        NavigateAction::Url => "url"@,
        NavigateAction::Back => "back"@,
        NavigateAction::Forward => "forward"@,
        NavigateAction::Reload => "reload"@,
    }
}

/// How `navigate` is announced.
pub fn definition() -> (r: ToolDef)
    ensures
        r.name@ == "navigate"@,
        r.description@ == DESCRIPTION@,
        r.hints == ToolHints::Unannotated,
        r.metadata.accepts_page_arg == takes_page("navigate"@),
{
    tool_def("navigate", DESCRIPTION, ToolHints::Unannotated)
}

/// A navigation to carry out.
pub enum NavigationRequest {
    Goto(String),
    Back,
    Forward,
    Reload,
}

/// The navigation a call asks for: loading a url needs a nonempty one.
pub fn navigation_request(action: NavigateAction, url: Option<String>) -> (r: Result<NavigationRequest, String>)
    ensures
        match action {
            NavigateAction::Url => match url {
                Some(u) if u@.len() > 0 => r matches Ok(NavigationRequest::Goto(g)) && g@ == u@,
                _ => r matches Err(e) && e@ == "navigate: url is required for action=\"url\"."@,
            },
            NavigateAction::Back => r matches Ok(NavigationRequest::Back),
            NavigateAction::Forward => r matches Ok(NavigationRequest::Forward),
            NavigateAction::Reload => r matches Ok(NavigationRequest::Reload),
        },
{
    match action {
        NavigateAction::Url => match url {
            Some(u) => if crate::text::chars_of(u.as_str()).len() > 0 {
                Ok(NavigationRequest::Goto(u))
            } else {
                Err("navigate: url is required for action=\"url\".".to_owned())
            },
            None => Err("navigate: url is required for action=\"url\".".to_owned()),
        },
        NavigateAction::Back => Ok(NavigationRequest::Back),
        NavigateAction::Forward => Ok(NavigationRequest::Forward),
        NavigateAction::Reload => Ok(NavigationRequest::Reload),
    }
}

pub open spec fn navigated_text(a: NavigateAction, origin: Option<Seq<char>>) -> Seq<char> {
    "navigated ("@ + action_text(a) + ") -> "@ + match origin {
        Some(o) => o,
        None => "unknown"@,
    }
}

/// "navigated ({action}) -> {origin}", the origin being the page's url
/// after the navigation, or "unknown".
pub fn navigated_message(action: NavigateAction, origin: Option<&str>) -> (r: String)
    ensures
        r@ == navigated_text(action, match origin { Some(o) => Some(o@), None => None }),
{
    let mut s = "navigated (".to_owned();
    let name = match action {
        NavigateAction::Url => "url",
        NavigateAction::Back => "back",
        NavigateAction::Forward => "forward",
        NavigateAction::Reload => "reload",
    };
    push_str(&mut s, name);
    push_str(&mut s, ") -> ");
    match origin {
        Some(o) => push_str(&mut s, o),
        None => push_str(&mut s, "unknown"),
    }
    s
}

} // verus!
