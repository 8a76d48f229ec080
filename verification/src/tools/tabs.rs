//! `tabs`: listing, opening, closing and activating browser tabs.

use vstd::prelude::*;

use crate::framework::{tool_def, takes_page, BrowserToolDefaults, ToolHints, ToolDef};
use crate::page_requests::NewPageOptions;
use crate::pages::PageInfo;
use crate::text::{decimal, push_str, u64_decimal};

verus! {

pub const DESCRIPTION: &'static str = "Manage browser tabs: list open pages (with their page ids), show the active page, open a new page in the background (snapshot attached), close one, or activate a page (bring it to the front). Use the returned page id with snapshot/act/navigate.";

/// What a call to `tabs` does.
#[derive(Clone, Copy, PartialEq, Eq, Structural, Debug)]
pub enum TabsAction {
    List,
    Active,
    New,
    Close,
    Activate,
}

/// How `tabs` is announced.
pub fn definition() -> (r: ToolDef)
    ensures
        r.name@ == "tabs"@,
        r.description@ == DESCRIPTION@,
        r.hints == ToolHints::OpenWorld,
        r.metadata.accepts_page_arg == takes_page("tabs"@),
{
    tool_def("tabs", DESCRIPTION, ToolHints::OpenWorld)
}

/// "[{page}] {url}", with " ({title})" when the title is not empty.
pub open spec fn page_line(page_id: u32, url: Seq<char>, title: Seq<char>) -> Seq<char> {
    "["@ + decimal(page_id as nat) + "] "@ + url + if title.len() == 0 {
        Seq::empty()
    } else {
        " ("@ + title + ")"@
    }
}

/// One page as a line of the listing.
pub fn format_page_line(page: &PageInfo) -> (r: String)
    ensures
        r@ == page_line(page.page_id, page.url@, page.title@),
{
    let mut s = "[".to_owned();
    let d = u64_decimal(page.page_id as u64);
    push_str(&mut s, d.as_str());
    push_str(&mut s, "] ");
    push_str(&mut s, page.url.as_str());
    if crate::text::chars_of(page.title.as_str()).len() > 0 {
        push_str(&mut s, " (");
        push_str(&mut s, page.title.as_str());
        push_str(&mut s, ")");
    }
    s
}

/// A request `tabs` makes of the page manager.
pub enum TabsRequest {
    List,
    Active,
    /// Open a page in the background, on the host's window and tab group.
    New { url: String, options: NewPageOptions },
    Close { page: u32 },
    Activate { page: u32 },
}

/// What a call asks for: a new page opens `about:blank` by default and
/// always in the background, so that the agent never takes the user's tab;
/// closing and activating need a page.
pub fn tabs_request(
    action: TabsAction,
    url: Option<String>,
    page: Option<u32>,
    defaults: &BrowserToolDefaults,
) -> (r: Result<TabsRequest, String>)
    ensures
        match action {
            TabsAction::List => r matches Ok(TabsRequest::List),
            TabsAction::Active => r matches Ok(TabsRequest::Active),
            TabsAction::New => r matches Ok(TabsRequest::New { url: u, options })
                && u@ == (match url { Some(x) => x@, None => "about:blank"@ })
                && options.background == Some(true)
                && options.window_id == defaults.default_window_id
                && options.tab_group_id == defaults.default_tab_group_id,
            TabsAction::Close => match page {
                Some(p) => r matches Ok(TabsRequest::Close { page: q }) && q == p,
                None => r matches Err(e) && e@ == "tabs close: page is required."@,
            },
            TabsAction::Activate => match page {
                Some(p) => r matches Ok(TabsRequest::Activate { page: q }) && q == p,
                None => r matches Err(e) && e@ == "tabs activate: page is required."@,
            },
        },
{
    match action {
        TabsAction::List => Ok(TabsRequest::List),
        TabsAction::Active => Ok(TabsRequest::Active),
        TabsAction::New => {
            let u = match url {
                Some(x) => x,
                None => "about:blank".to_owned(),
            };
            let group = match &defaults.default_tab_group_id {
                Some(g) => Some(g.clone()),
                None => None,
            };
            Ok(
                TabsRequest::New {
                    url: u,
                    options: NewPageOptions {
                        background: Some(true),
                        window_id: defaults.default_window_id,
                        tab_group_id: group,
                    },
                },
            )
        },
        TabsAction::Close => match page {
            Some(p) => Ok(TabsRequest::Close { page: p }),
            None => Err("tabs close: page is required.".to_owned()),
        },
        TabsAction::Activate => match page {
            Some(p) => Ok(TabsRequest::Activate { page: p }),
            None => Err("tabs activate: page is required.".to_owned()),
        },
    }
}

pub open spec fn listing_text(lines: Seq<Seq<char>>) -> Seq<char> {
    if lines.len() == 0 {
        "(no open pages)"@
    } else {
        crate::tools::grep::joined(lines, "\n"@)
    }
}

/// The listing of the open pages, one line each, or "(no open pages)".
pub fn listing(pages: &Vec<PageInfo>) -> (r: String)
    ensures
        r@ == listing_text(Seq::new(pages@.len(), |i: int| page_line(pages@[i].page_id, pages@[i].url@, pages@[i].title@))),
{
    let mut lines: Vec<String> = Vec::new();
    let mut i: usize = 0;
    while i < pages.len()
        invariant
            i <= pages.len(),
            lines.len() == i,
            forall|j: int| 0 <= j < i ==> #[trigger] lines@[j]@ == page_line(pages@[j].page_id, pages@[j].url@, pages@[j].title@),
        decreases pages.len() - i,
    {
        let l = format_page_line(&pages[i]);
        lines.push(l);
        i = i + 1;
    }
    let ghost want = Seq::new(pages@.len(), |i: int| page_line(pages@[i].page_id, pages@[i].url@, pages@[i].title@));
    assert(crate::pages::text_views(lines@) =~= want);
    if lines.len() == 0 {
        return "(no open pages)".to_owned();
    }
    crate::tools::grep::join_lines(&lines)
}

fn with_page_number(head: &str, page: u32) -> (r: String)
    ensures
        r@ == head@ + decimal(page as nat),
{
    let mut s = head.to_string();
    let d = u64_decimal(page as u64);
    push_str(&mut s, d.as_str());
    s
}

/// "opened page {page}".
pub fn opened_message(page: u32) -> (r: String)
    ensures
        r@ == "opened page "@ + decimal(page as nat),
{
    with_page_number("opened page ", page)
}

/// "closed page {page}".
pub fn closed_message(page: u32) -> (r: String)
    ensures
        r@ == "closed page "@ + decimal(page as nat),
{
    with_page_number("closed page ", page)
}

/// "activated page {page}".
pub fn activated_message(page: u32) -> (r: String)
    ensures
        r@ == "activated page "@ + decimal(page as nat),
{
    with_page_number("activated page ", page)
}

/// "Active page: {line}".
pub fn active_message(page: &PageInfo) -> (r: String)
    ensures
        r@ == "Active page: "@ + page_line(page.page_id, page.url@, page.title@),
{
    let mut s = "Active page: ".to_owned();
    let l = format_page_line(page);
    push_str(&mut s, l.as_str());
    s
}

} // verus!
