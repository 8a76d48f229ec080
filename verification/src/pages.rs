//! Page bookkeeping: which browser tab each reusable page id stands for, and
//! which CDP session is attached to which target.
//!
//! The table is the state that the page manager keeps between CDP calls. The
//! calls themselves run outside; every decision about the table stands here.

use vstd::prelude::*;

use crate::text::{copy_string, same_text};

verus! {

/// Load progress is carried as parts per million of a full load
/// (1_000_000 stands for a fully loaded tab).
pub const FULL_LOAD_PPM: u32 = 1_000_000;

/// Progress at or above which the settle logic treats a loading tab as usable.
pub const SETTLE_LOADED_PPM: u32 = 900_000;

/// Progress below which a loading tab is reported as loading to MCP clients.
pub const REPORT_LOADING_PPM: u32 = 500_000;

/// A tab as the browser describes it.
pub struct TabInfo {
    pub tab_id: i64,
    pub target_id: String,
    pub url: String,
    pub title: String,
    pub is_active: bool,
    pub is_loading: bool,
    /// Load progress in parts per million, rounded down; the thresholds go by it.
    pub load_progress_ppm: u32,
    /// Load progress exactly as the browser reported it: the bits of the
    /// binary64 number, with `-0.0` written as `0.0`, so that two reports of
    /// the same number agree here (and two NaN reports with the same bits).
    pub load_progress_bits: u64,
    pub is_pinned: bool,
    pub window_id: Option<i64>,
    pub index: Option<i64>,
    pub group_id: Option<String>,
}

/// A tab bound to a page id.
pub struct PageInfo {
    pub page_id: u32,
    pub target_id: String,
    pub tab_id: i64,
    pub url: String,
    pub title: String,
    pub is_active: bool,
    pub is_loading: bool,
    /// Load progress in parts per million, rounded down; the thresholds go by it.
    pub load_progress_ppm: u32,
    /// Load progress exactly as the browser reported it: the bits of the
    /// binary64 number, with `-0.0` written as `0.0`, so that two reports of
    /// the same number agree here (and two NaN reports with the same bits).
    pub load_progress_bits: u64,
    pub is_pinned: bool,
    pub window_id: Option<i64>,
    pub index: Option<i64>,
    pub group_id: Option<String>,
}

/// The mathematical content of a [`TabInfo`].
pub struct TabView {
    pub tab_id: i64,
    pub target_id: Seq<char>,
    pub url: Seq<char>,
    pub title: Seq<char>,
    pub is_active: bool,
    pub is_loading: bool,
    pub load_progress_ppm: u32,
    pub load_progress_bits: u64,
    pub is_pinned: bool,
    pub window_id: Option<i64>,
    pub index: Option<i64>,
    pub group_id: Option<Seq<char>>,
}

/// The mathematical content of a [`PageInfo`].
pub struct PageView {
    pub page_id: u32,
    pub target_id: Seq<char>,
    pub tab_id: i64,
    pub url: Seq<char>,
    pub title: Seq<char>,
    pub is_active: bool,
    pub is_loading: bool,
    pub load_progress_ppm: u32,
    pub load_progress_bits: u64,
    pub is_pinned: bool,
    pub window_id: Option<i64>,
    pub index: Option<i64>,
    pub group_id: Option<Seq<char>>,
}

pub open spec fn opt_text(s: Option<String>) -> Option<Seq<char>> {
    match s {
        Some(t) => Some(t@),
        None => None,
    }
}

impl View for TabInfo {
    type V = TabView;

    open spec fn view(&self) -> TabView {
        TabView {
            tab_id: self.tab_id,
            target_id: self.target_id@,
            url: self.url@,
            title: self.title@,
            is_active: self.is_active,
            is_loading: self.is_loading,
            load_progress_ppm: self.load_progress_ppm,
            load_progress_bits: self.load_progress_bits,
            is_pinned: self.is_pinned,
            window_id: self.window_id,
            index: self.index,
            group_id: opt_text(self.group_id),
        }
    }
}

impl View for PageInfo {
    type V = PageView;

    open spec fn view(&self) -> PageView {
        PageView {
            page_id: self.page_id,
            target_id: self.target_id@,
            tab_id: self.tab_id,
            url: self.url@,
            title: self.title@,
            is_active: self.is_active,
            is_loading: self.is_loading,
            load_progress_ppm: self.load_progress_ppm,
            load_progress_bits: self.load_progress_bits,
            is_pinned: self.is_pinned,
            window_id: self.window_id,
            index: self.index,
            group_id: opt_text(self.group_id),
        }
    }
}

fn copy_opt_string(s: &Option<String>) -> (r: Option<String>)
    ensures
        opt_text(r) == opt_text(*s),
{
    match s {
        Some(t) => Some(copy_string(t)),
        None => None,
    }
}

impl Clone for TabInfo {
    fn clone(&self) -> (r: Self)
        ensures
            r@ == self@,
    {
        TabInfo {
            tab_id: self.tab_id,
            target_id: copy_string(&self.target_id),
            url: copy_string(&self.url),
            title: copy_string(&self.title),
            is_active: self.is_active,
            is_loading: self.is_loading,
            load_progress_ppm: self.load_progress_ppm,
            load_progress_bits: self.load_progress_bits,
            is_pinned: self.is_pinned,
            window_id: self.window_id,
            index: self.index,
            group_id: copy_opt_string(&self.group_id),
        }
    }
}

impl Clone for PageInfo {
    fn clone(&self) -> (r: Self)
        ensures
            r@ == self@,
    {
        PageInfo {
            page_id: self.page_id,
            target_id: copy_string(&self.target_id),
            tab_id: self.tab_id,
            url: copy_string(&self.url),
            title: copy_string(&self.title),
            is_active: self.is_active,
            is_loading: self.is_loading,
            load_progress_ppm: self.load_progress_ppm,
            load_progress_bits: self.load_progress_bits,
            is_pinned: self.is_pinned,
            window_id: self.window_id,
            index: self.index,
            group_id: copy_opt_string(&self.group_id),
        }
    }
}

/// The page that `tab` becomes under `page_id`: the browser's fields, with the
/// window id the page had before kept when the browser reports none.
pub open spec fn page_from_tab(page_id: u32, tab: TabView, prior_window: Option<i64>) -> PageView {
    PageView {
        page_id,
        target_id: tab.target_id,
        tab_id: tab.tab_id,
        url: tab.url,
        title: tab.title,
        is_active: tab.is_active,
        is_loading: tab.is_loading,
        load_progress_ppm: tab.load_progress_ppm,
        load_progress_bits: tab.load_progress_bits,
        is_pinned: tab.is_pinned,
        window_id: if tab.window_id is Some { tab.window_id } else { prior_window },
        index: tab.index,
        group_id: tab.group_id,
    }
}

/// Builds the page that `tab` becomes under `page_id`.
pub fn page_info_from_tab(page_id: u32, tab: TabInfo, prior_window: Option<i64>) -> (r: PageInfo)
    ensures
        r@ == page_from_tab(page_id, tab@, prior_window),
{
    let window_id = match tab.window_id {
        Some(w) => Some(w),
        None => prior_window,
    };
    PageInfo {
        page_id,
        target_id: tab.target_id,
        tab_id: tab.tab_id,
        url: tab.url,
        title: tab.title,
        is_active: tab.is_active,
        is_loading: tab.is_loading,
        load_progress_ppm: tab.load_progress_ppm,
        load_progress_bits: tab.load_progress_bits,
        is_pinned: tab.is_pinned,
        window_id,
        index: tab.index,
        group_id: tab.group_id,
    }
}

/// Whether a tab still counts as loading for the post-action settle: Chromium
/// can leave the loading flag set on SPA and service-worker pages after the
/// document is usable, so high progress counts as settled.
pub open spec fn settle_sees_loading(is_loading: bool, load_progress_ppm: u32) -> bool {
    is_loading && load_progress_ppm < SETTLE_LOADED_PPM
}

/// See [`settle_sees_loading`].
pub fn tab_is_loading(info: &PageInfo) -> (r: bool)
    ensures
        r == settle_sees_loading(info.is_loading, info.load_progress_ppm),
{
    info.is_loading && info.load_progress_ppm < SETTLE_LOADED_PPM
}

/// Whether a page is reported as loading to MCP clients: only while it is
/// loading and below half progress.
pub open spec fn reported_loading(is_loading: bool, load_progress_ppm: u32) -> bool {
    is_loading && load_progress_ppm < REPORT_LOADING_PPM
}

/// See [`reported_loading`].
pub fn reports_loading(info: &PageInfo) -> (r: bool)
    ensures
        r == reported_loading(info.is_loading, info.load_progress_ppm),
{
    info.is_loading && info.load_progress_ppm < REPORT_LOADING_PPM
}

/// Whether a freshly created tab is ready to be registered: it stopped loading
/// or reports full progress.
pub open spec fn new_tab_ready(tab: TabView) -> bool {
    !tab.is_loading || tab.load_progress_ppm >= FULL_LOAD_PPM
}

/// The index of the first page with the given target id.
pub open spec fn first_with_target(pages: Seq<PageView>, target: Seq<char>, i: int) -> bool {
    &&& 0 <= i < pages.len()
    &&& pages[i].target_id == target
    &&& forall|j: int| 0 <= j < i ==> pages[j].target_id != target
}

pub open spec fn has_target(pages: Seq<PageView>, target: Seq<char>) -> bool {
    exists|i: int| 0 <= i < pages.len() && pages[i].target_id == target
}

/// The index of the first page with the given tab id.
pub open spec fn first_with_tab(pages: Seq<PageView>, tab_id: i64, i: int) -> bool {
    &&& 0 <= i < pages.len()
    &&& pages[i].tab_id == tab_id
    &&& forall|j: int| 0 <= j < i ==> pages[j].tab_id != tab_id
}

pub open spec fn has_tab(pages: Seq<PageView>, tab_id: i64) -> bool {
    exists|i: int| 0 <= i < pages.len() && pages[i].tab_id == tab_id
}

pub open spec fn views(pages: Seq<PageInfo>) -> Seq<PageView> {
    pages.map_values(|p: PageInfo| p@)
}

/// Position of the first page bound to `target`.
fn find_by_target(pages: &Vec<PageInfo>, target: &str) -> (r: Option<usize>)
    ensures
        match r {
            Some(i) => first_with_target(views(pages@), target@, i as int),
            None => !has_target(views(pages@), target@),
        },
{
    let mut i: usize = 0;
    while i < pages.len()
        invariant
            i <= pages.len(),
            forall|j: int| 0 <= j < i ==> views(pages@)[j].target_id != target@,
        decreases pages.len() - i,
    {
        if same_text(pages[i].target_id.as_str(), target) {
            return Some(i);
        }
        i = i + 1;
    }
    None
}

/// Position of the first page bound to `tab_id`.
fn find_by_tab(pages: &Vec<PageInfo>, tab_id: i64) -> (r: Option<usize>)
    ensures
        match r {
            Some(i) => first_with_tab(views(pages@), tab_id, i as int),
            None => !has_tab(views(pages@), tab_id),
        },
{
    let mut i: usize = 0;
    while i < pages.len()
        invariant
            i <= pages.len(),
            forall|j: int| 0 <= j < i ==> views(pages@)[j].tab_id != tab_id,
        decreases pages.len() - i,
    {
        if pages[i].tab_id == tab_id {
            return Some(i);
        }
        i = i + 1;
    }
    None
}


// ---------------------------------------------------------------------------
// Session map: target id -> attached CDP session id.
// ---------------------------------------------------------------------------

/// A CDP session attached to a target.
pub struct SessionEntry {
    pub target_id: String,
    pub session_id: String,
}

pub open spec fn entry_view(e: SessionEntry) -> (Seq<char>, Seq<char>) {
    (e.target_id@, e.session_id@)
}

pub open spec fn entries(s: Seq<SessionEntry>) -> Seq<(Seq<char>, Seq<char>)> {
    s.map_values(|e: SessionEntry| entry_view(e))
}

pub open spec fn keys_unique(s: Seq<(Seq<char>, Seq<char>)>) -> bool {
    forall|i: int, j: int| 0 <= i < s.len() && 0 <= j < s.len() && i != j ==> s[i].0 != s[j].0
}

pub open spec fn has_key(s: Seq<(Seq<char>, Seq<char>)>, k: Seq<char>) -> bool {
    exists|i: int| 0 <= i < s.len() && s[i].0 == k
}

/// The map that a sequence of (target, session) entries stands for.
pub open spec fn session_map(s: Seq<(Seq<char>, Seq<char>)>) -> Map<Seq<char>, Seq<char>> {
    Map::new(
        |k: Seq<char>| has_key(s, k),
        |k: Seq<char>| s[choose|i: int| 0 <= i < s.len() && s[i].0 == k].1,
    )
}

proof fn lemma_session_map_at(s: Seq<(Seq<char>, Seq<char>)>, i: int)
    requires
        keys_unique(s),
        0 <= i < s.len(),
    ensures
        session_map(s).dom().contains(s[i].0),
        session_map(s)[s[i].0] == s[i].1,
{
    let k = s[i].0;
    assert(has_key(s, k));
    let j = choose|j: int| 0 <= j < s.len() && s[j].0 == k;
    assert(j == i);
}

proof fn lemma_session_map_remove(s: Seq<(Seq<char>, Seq<char>)>, i: int)
    requires
        keys_unique(s),
        0 <= i < s.len(),
    ensures
        keys_unique(s.remove(i)),
        session_map(s.remove(i)) =~= session_map(s).remove(s[i].0),
{
    let t = s.remove(i);
    let m = session_map(s);
    assert forall|a: int, b: int| 0 <= a < t.len() && 0 <= b < t.len() && a != b implies t[a].0
        != t[b].0 by {
        let a2 = if a < i { a } else { a + 1 };
        let b2 = if b < i { b } else { b + 1 };
        assert(t[a] == s[a2]);
        assert(t[b] == s[b2]);
    }
    assert forall|k: Seq<char>| #[trigger] session_map(t).dom().contains(k) <==> m.remove(
        s[i].0,
    ).dom().contains(k) by {
        if has_key(t, k) {
            let a = choose|a: int| 0 <= a < t.len() && t[a].0 == k;
            let a2 = if a < i { a } else { a + 1 };
            assert(t[a] == s[a2]);
            assert(has_key(s, k));
        }
        if has_key(s, k) && k != s[i].0 {
            let a = choose|a: int| 0 <= a < s.len() && s[a].0 == k;
            assert(a != i);
            let a2 = if a < i { a } else { a - 1 };
            assert(t[a2] == s[a]);
            assert(has_key(t, k));
        }
    }
    assert forall|k: Seq<char>| #[trigger] session_map(t).dom().contains(k) implies session_map(
        t,
    )[k] == m.remove(s[i].0)[k] by {
        let a = choose|a: int| 0 <= a < t.len() && t[a].0 == k;
        let a2 = if a < i { a } else { a + 1 };
        assert(t[a] == s[a2]);
        lemma_session_map_at(s, a2);
        lemma_session_map_at(t, a);
    }
}

proof fn lemma_session_map_push(s: Seq<(Seq<char>, Seq<char>)>, e: (Seq<char>, Seq<char>))
    requires
        keys_unique(s),
        !has_key(s, e.0),
    ensures
        keys_unique(s.push(e)),
        session_map(s.push(e)) =~= session_map(s).insert(e.0, e.1),
{
    let t = s.push(e);
    assert forall|a: int, b: int| 0 <= a < t.len() && 0 <= b < t.len() && a != b implies t[a].0
        != t[b].0 by {
        if a < s.len() && b < s.len() {
            assert(t[a] == s[a] && t[b] == s[b]);
        } else if a < s.len() {
            assert(t[a] == s[a]);
        } else {
            assert(t[b] == s[b]);
        }
    }
    assert forall|k: Seq<char>| #[trigger] session_map(t).dom().contains(k) <==> session_map(
        s,
    ).insert(e.0, e.1).dom().contains(k) by {
        if has_key(t, k) {
            let a = choose|a: int| 0 <= a < t.len() && t[a].0 == k;
            if a < s.len() {
                assert(t[a] == s[a]);
            }
        }
        if has_key(s, k) {
            let a = choose|a: int| 0 <= a < s.len() && s[a].0 == k;
            assert(t[a] == s[a]);
        }
        if k == e.0 {
            assert(t[s.len() as int] == e);
        }
    }
    assert forall|k: Seq<char>| #[trigger] session_map(t).dom().contains(k) implies session_map(
        t,
    )[k] == session_map(s).insert(e.0, e.1)[k] by {
        let a = choose|a: int| 0 <= a < t.len() && t[a].0 == k;
        lemma_session_map_at(t, a);
        if a < s.len() {
            assert(t[a] == s[a]);
            lemma_session_map_at(s, a);
        } else {
            assert(t[a] == e);
        }
    }
}

proof fn lemma_session_map_update(s: Seq<(Seq<char>, Seq<char>)>, i: int, v: Seq<char>)
    requires
        keys_unique(s),
        0 <= i < s.len(),
    ensures
        keys_unique(s.update(i, (s[i].0, v))),
        session_map(s.update(i, (s[i].0, v))) =~= session_map(s).insert(s[i].0, v),
{
    let t = s.update(i, (s[i].0, v));
    assert forall|a: int, b: int| 0 <= a < t.len() && 0 <= b < t.len() && a != b implies t[a].0
        != t[b].0 by {
        assert(t[a].0 == s[a].0 && t[b].0 == s[b].0);
    }
    assert forall|k: Seq<char>| #[trigger] session_map(t).dom().contains(k) <==> session_map(
        s,
    ).insert(s[i].0, v).dom().contains(k) by {
        if has_key(t, k) {
            let a = choose|a: int| 0 <= a < t.len() && t[a].0 == k;
            assert(t[a].0 == s[a].0);
        }
        if has_key(s, k) {
            let a = choose|a: int| 0 <= a < s.len() && s[a].0 == k;
            assert(t[a].0 == s[a].0);
        }
        assert(t[i].0 == s[i].0);
    }
    assert forall|k: Seq<char>| #[trigger] session_map(t).dom().contains(k) implies session_map(
        t,
    )[k] == session_map(s).insert(s[i].0, v)[k] by {
        let a = choose|a: int| 0 <= a < t.len() && t[a].0 == k;
        lemma_session_map_at(t, a);
        if a != i {
            assert(t[a] == s[a]);
            lemma_session_map_at(s, a);
        }
    }
}

/// Position of the entry for `target`.
fn find_session(sessions: &Vec<SessionEntry>, target: &str) -> (r: Option<usize>)
    ensures
        match r {
            Some(i) => i < sessions@.len() && entries(sessions@)[i as int].0 == target@,
            None => !has_key(entries(sessions@), target@),
        },
{
    let mut i: usize = 0;
    while i < sessions.len()
        invariant
            i <= sessions.len(),
            forall|j: int| 0 <= j < i ==> entries(sessions@)[j].0 != target@,
        decreases sessions.len() - i,
    {
        if same_text(sessions[i].target_id.as_str(), target) {
            return Some(i);
        }
        i = i + 1;
    }
    None
}

/// Drops the entry for `target`, if any.
fn remove_session(sessions: &mut Vec<SessionEntry>, target: &str)
    requires
        keys_unique(entries(old(sessions)@)),
    ensures
        keys_unique(entries(final(sessions)@)),
        session_map(entries(final(sessions)@)) == session_map(entries(old(sessions)@)).remove(
            target@,
        ),
{
    match find_session(sessions, target) {
        Some(i) => {
            let ghost before = entries(sessions@);
            sessions.remove(i);
            proof {
                assert(entries(sessions@) =~= before.remove(i as int));
                lemma_session_map_remove(before, i as int);
            }
        },
        None => {
            assert(session_map(entries(sessions@)) =~= session_map(entries(sessions@)).remove(
                target@,
            ));
        },
    }
}


// ---------------------------------------------------------------------------
// The page table.
// ---------------------------------------------------------------------------

/// The mathematical content of a [`PageTable`].
pub struct TableView {
    /// Pages in ascending page id order.
    pub pages: Seq<PageView>,
    /// Attached session per target id.
    pub sessions: Map<Seq<char>, Seq<char>>,
    /// The CDP connection epoch the sessions belong to.
    pub connection_epoch: u64,
    /// The page id the next new page gets.
    pub next_page_id: u32,
}

/// Page ids ascend strictly, are at least 1 and below `next`.
pub open spec fn pages_wf(pages: Seq<PageView>, next: u32) -> bool {
    &&& forall|i: int, j: int|
        0 <= i < j < pages.len() ==> (#[trigger] pages[i]).page_id < (#[trigger] pages[j]).page_id
    &&& forall|i: int|
        0 <= i < pages.len() ==> 1 <= (#[trigger] pages[i]).page_id < next
}

/// Page ids ascend strictly, are at least 1 and below the next id to hand out.
pub open spec fn table_wf(v: TableView) -> bool {
    &&& v.next_page_id >= 1
    &&& pages_wf(v.pages, v.next_page_id)
}

/// The tab ↔ page bookkeeping of the page manager.
pub struct PageTable {
    pages: Vec<PageInfo>,
    sessions: Vec<SessionEntry>,
    connection_epoch: u64,
    next_page_id: u32,
}

impl View for PageTable {
    type V = TableView;

    closed spec fn view(&self) -> TableView {
        TableView {
            pages: views(self.pages@),
            sessions: session_map(entries(self.sessions@)),
            connection_epoch: self.connection_epoch,
            next_page_id: self.next_page_id,
        }
    }
}

/// Rebinds the page at position `i` to `tab`, keeping its id and prior window;
/// the session of its old target is dropped when the target changes.
pub open spec fn rebind(v: TableView, i: int, tab: TabView) -> TableView {
    let old_page = v.pages[i];
    TableView {
        pages: v.pages.update(i, page_from_tab(old_page.page_id, tab, old_page.window_id)),
        sessions: if old_page.target_id != tab.target_id {
            v.sessions.remove(old_page.target_id)
        } else {
            v.sessions
        },
        ..v
    }
}

/// One tab of a tab listing taken into the table: it rebinds the first page
/// with its target id, else the first page with its tab id, else it gets a new
/// page id.
pub open spec fn absorb_tab(v: TableView, tab: TabView) -> TableView {
    if has_target(v.pages, tab.target_id) {
        rebind(v, choose|i: int| first_with_target(v.pages, tab.target_id, i), tab)
    } else if has_tab(v.pages, tab.tab_id) {
        rebind(v, choose|i: int| first_with_tab(v.pages, tab.tab_id, i), tab)
    } else {
        TableView {
            pages: v.pages.push(page_from_tab(v.next_page_id, tab, None)),
            next_page_id: (v.next_page_id + 1) as u32,
            ..v
        }
    }
}

/// All tabs taken in, in order.
pub open spec fn absorb_all(v: TableView, tabs: Seq<TabView>) -> TableView
    decreases tabs.len(),
{
    if tabs.len() == 0 {
        v
    } else {
        absorb_tab(absorb_all(v, tabs.drop_last()), tabs.last())
    }
}

/// Whether a url starts with one of the excluded prefixes.
pub open spec fn url_excluded(url: Seq<char>, excluded: Seq<Seq<char>>) -> bool {
    exists|i: int| 0 <= i < excluded.len() && excluded[i].is_prefix_of(url)
}

/// The tabs of a listing that the table tracks, in order.
pub open spec fn tracked_tabs(tabs: Seq<TabView>, excluded: Seq<Seq<char>>) -> Seq<TabView>
    decreases tabs.len(),
{
    if tabs.len() == 0 {
        tabs
    } else if url_excluded(tabs.last().url, excluded) {
        tracked_tabs(tabs.drop_last(), excluded)
    } else {
        tracked_tabs(tabs.drop_last(), excluded).push(tabs.last())
    }
}

pub open spec fn targets_of(tabs: Seq<TabView>) -> Set<Seq<char>> {
    Set::new(|t: Seq<char>| exists|i: int| 0 <= i < tabs.len() && tabs[i].target_id == t)
}

/// The pages whose target is among `seen`, in order.
pub open spec fn surviving(pages: Seq<PageView>, seen: Set<Seq<char>>) -> Seq<PageView>
    decreases pages.len(),
{
    if pages.len() == 0 {
        pages
    } else if seen.contains(pages.last().target_id) {
        surviving(pages.drop_last(), seen).push(pages.last())
    } else {
        surviving(pages.drop_last(), seen)
    }
}

/// The ids of the pages whose target is not among `seen`, in order.
pub open spec fn vanished_ids(pages: Seq<PageView>, seen: Set<Seq<char>>) -> Seq<u32>
    decreases pages.len(),
{
    if pages.len() == 0 {
        Seq::empty()
    } else if seen.contains(pages.last().target_id) {
        vanished_ids(pages.drop_last(), seen)
    } else {
        vanished_ids(pages.drop_last(), seen).push(pages.last().page_id)
    }
}

/// The targets of the pages whose target is not among `seen`.
pub open spec fn vanished_targets(pages: Seq<PageView>, seen: Set<Seq<char>>) -> Set<Seq<char>> {
    Set::new(|t: Seq<char>| has_target(pages, t) && !seen.contains(t))
}

/// The table after a tab listing: the tracked tabs are taken in, then every
/// page whose target the listing no longer shows is dropped with its session.
pub open spec fn listed(v: TableView, tabs: Seq<TabView>, excluded: Seq<Seq<char>>) -> TableView {
    let kept = tracked_tabs(tabs, excluded);
    let seen = targets_of(kept);
    let a = absorb_all(v, kept);
    TableView {
        pages: surviving(a.pages, seen),
        sessions: a.sessions.remove_keys(vanished_targets(a.pages, seen)),
        ..a
    }
}

/// The ids of the pages that a tab listing drops, ascending.
pub open spec fn detached_by_listing(
    v: TableView,
    tabs: Seq<TabView>,
    excluded: Seq<Seq<char>>,
) -> Seq<u32> {
    let kept = tracked_tabs(tabs, excluded);
    vanished_ids(absorb_all(v, kept).pages, targets_of(kept))
}

pub open spec fn tab_views(tabs: Seq<TabInfo>) -> Seq<TabView> {
    tabs.map_values(|t: TabInfo| t@)
}

pub open spec fn text_views(s: Seq<String>) -> Seq<Seq<char>> {
    s.map_values(|t: String| t@)
}

/// What a tab listing hands back: the tracked pages and the ids it dropped.
pub struct Listing {
    /// All tracked pages, ascending by page id.
    pub pages: Vec<PageInfo>,
    /// The ids of the pages that disappeared, ascending.
    pub detached: Vec<u32>,
}

impl PageTable {
    /// Internal consistency: ascending ids below the next id, one entry per target.
    pub closed spec fn well_formed(&self) -> bool {
        &&& table_wf(self@)
        &&& keys_unique(entries(self.sessions@))
    }

    /// An empty table for a connection in the given epoch.
    pub fn new(connection_epoch: u64) -> (r: Self)
        ensures
            r.well_formed(),
            r@.pages.len() == 0,
            r@.sessions.dom().len() == 0,
            r@.sessions == Map::<Seq<char>, Seq<char>>::empty(),
            r@.connection_epoch == connection_epoch,
            r@.next_page_id == 1,
    {
        let r = PageTable { pages: Vec::new(), sessions: Vec::new(), connection_epoch, next_page_id: 1 };
        assert(views(r.pages@) =~= Seq::<PageView>::empty());
        assert(session_map(entries(r.sessions@)) =~= Map::<Seq<char>, Seq<char>>::empty());
        r
    }

    /// Rebinds the page at position `i` to `tab`.
    fn rebind_at(&mut self, i: usize, tab: TabInfo)
        requires
            old(self).well_formed(),
            i < old(self)@.pages.len(),
        ensures
            final(self).well_formed(),
            final(self)@ == rebind(old(self)@, i as int, tab@),
    {
        let ghost v = self@;
        let page_id = self.pages[i].page_id;
        let prior_window = self.pages[i].window_id;
        let changed = !same_text(self.pages[i].target_id.as_str(), tab.target_id.as_str());
        let old_target = copy_string(&self.pages[i].target_id);
        let updated = page_info_from_tab(page_id, tab, prior_window);
        self.pages.set(i, updated);
        if changed {
            remove_session(&mut self.sessions, old_target.as_str());
        }
        proof {
            assert(views(self.pages@) =~= v.pages.update(
                i as int,
                page_from_tab(v.pages[i as int].page_id, tab@, v.pages[i as int].window_id),
            ));
            let nv = self@;
            assert forall|a: int, b: int| 0 <= a < b < nv.pages.len() implies (#[trigger] nv.pages[a]).page_id
                < (#[trigger] nv.pages[b]).page_id by {
                assert(nv.pages[a].page_id == v.pages[a].page_id);
                assert(nv.pages[b].page_id == v.pages[b].page_id);
            }
            assert forall|a: int| 0 <= a < nv.pages.len() implies 1 <= (#[trigger] nv.pages[a]).page_id
                < nv.next_page_id by {
                assert(nv.pages[a].page_id == v.pages[a].page_id);
            }
        }
    }

    /// Takes one tab of a listing into the table (see [`absorb_tab`]).
    fn absorb(&mut self, tab: TabInfo)
        requires
            old(self).well_formed(),
            old(self)@.next_page_id < u32::MAX,
        ensures
            final(self).well_formed(),
            final(self)@ == absorb_tab(old(self)@, tab@),
            final(self)@.next_page_id <= old(self)@.next_page_id + 1,
    {
        let ghost v = self@;
        match find_by_target(&self.pages, tab.target_id.as_str()) {
            Some(i) => {
                proof {
                    assert(has_target(v.pages, tab@.target_id));
                    let c = choose|c: int| first_with_target(v.pages, tab@.target_id, c);
                    assert(c == i as int);
                }
                self.rebind_at(i, tab);
            },
            None => match find_by_tab(&self.pages, tab.tab_id) {
                Some(i) => {
                    proof {
                        assert(has_tab(v.pages, tab@.tab_id));
                        let c = choose|c: int| first_with_tab(v.pages, tab@.tab_id, c);
                        assert(c == i as int);
                    }
                    self.rebind_at(i, tab);
                },
                None => {
                    let page_id = self.next_page_id;
                    let page = page_info_from_tab(page_id, tab, None);
                    self.pages.push(page);
                    self.next_page_id = page_id + 1;
                    proof {
                        assert(views(self.pages@) =~= v.pages.push(
                            page_from_tab(v.next_page_id, tab@, None),
                        ));
                    }
                },
            },
        }
    }

    /// Reconciles the table with a tab listing (`Browser.getTabs`): tabs whose
    /// url starts with an excluded prefix are ignored; every other tab keeps or
    /// gets a page id; pages whose target the listing no longer shows are
    /// dropped with their sessions. Returns all tracked pages in ascending id
    /// order and the dropped page ids.
    pub fn reconcile(&mut self, tabs: Vec<TabInfo>, excluded: &Vec<String>) -> (r: Listing)
        requires
            old(self).well_formed(),
            old(self)@.next_page_id + tabs@.len() < u32::MAX,
        ensures
            final(self).well_formed(),
            final(self)@ == listed(old(self)@, tab_views(tabs@), text_views(excluded@)),
            views(r.pages@) == final(self)@.pages,
            r.detached@ == detached_by_listing(old(self)@, tab_views(tabs@), text_views(excluded@)),
    {
        let ghost v0 = self@;
        let ghost all = tab_views(tabs@);
        let ghost ex = text_views(excluded@);
        // Tracked tabs, and the targets they show.
        let mut kept: Vec<TabInfo> = Vec::new();
        let mut seen: Vec<String> = Vec::new();
        let mut tabs = tabs;
        let ghost tabs0 = tabs@;
        let n = tabs.len();
        let mut i: usize = 0;
        // Walk the listing back to front with pop, then restore the order.
        let mut rev: Vec<TabInfo> = Vec::new();
        while tabs.len() > 0
            invariant
                rev@.len() + tabs@.len() == n,
                tabs@ == tabs0.take(tabs@.len() as int),
                forall|j: int| 0 <= j < rev@.len() ==> rev@[j]@ == #[trigger] tab_views(tabs0)[n - 1 - j],
                tabs0.len() == n,
            decreases tabs@.len(),
        {
            let ghost before = tabs@;
            let t = tabs.pop().unwrap();
            proof {
                assert(t == before[before.len() - 1]);
                assert(before == tabs0.take(before.len() as int));
                assert(tabs@ =~= tabs0.take(tabs@.len() as int));
                assert(tab_views(tabs0)[n - 1 - rev@.len()] == tabs0[n - 1 - rev@.len()]@);
            }
            rev.push(t);
        }
        proof {
            assert(tabs0 =~= tabs0.take(n as int));
        }
        while rev.len() > 0
            invariant
                i + rev@.len() == n,
                tabs0.len() == n,
                forall|j: int| 0 <= j < rev@.len() ==> rev@[j]@ == #[trigger] tab_views(tabs0)[n - 1 - j],
                tab_views(kept@) == tracked_tabs(tab_views(tabs0).take(i as int), ex),
                text_views(seen@) == tab_views(kept@).map_values(|t: TabView| t.target_id),
                all == tab_views(tabs0),
                ex == text_views(excluded@),
            decreases rev@.len(),
        {
            let ghost rev_before = rev@;
            let t = rev.pop().unwrap();
            proof {
                assert(t == rev_before[rev_before.len() - 1]);
                assert(rev@ =~= rev_before.drop_last());
                let last = rev_before.len() - 1;
                assert(rev_before[last]@ == tab_views(tabs0)[n - 1 - last]);
                assert(n - 1 - last == i);
                assert(t@ == all[i as int]);
                assert(all.take(i + 1).drop_last() =~= all.take(i as int));
                assert(all.take(i + 1).last() == all[i as int]);
            }
            let excluded_url = starts_with_any(t.url.as_str(), excluded);
            if !excluded_url {
                let ghost seen_before = seen@;
                let ghost kept_before = kept@;
                seen.push(copy_string(&t.target_id));
                proof {
                    assert(text_views(seen@) =~= text_views(seen_before).push(t@.target_id));
                }
                kept.push(t);
                proof {
                    assert(tab_views(kept@) =~= tab_views(kept_before).push(t@));
                    assert(tab_views(kept@) =~= tracked_tabs(all.take(i as int), ex).push(t@));
                    assert(text_views(seen@) =~= tab_views(kept@).map_values(|t: TabView| t.target_id));
                }
            } else {
                assert(tab_views(kept@) =~= tracked_tabs(all.take(i as int), ex));
            }
            i = i + 1;
        }
        proof {
            assert(all.take(n as int) =~= all);
        }
        let ghost kept_v = tab_views(kept@);
        let ghost seen_set = targets_of(kept_v);
        proof {
            lemma_tracked_len(all, ex);
        }
        // Take the tracked tabs in, in order.
        let mut j: usize = 0;
        while j < kept.len()
            invariant
                j <= kept@.len(),
                kept_v == tab_views(kept@),
                kept@.len() <= n,
                v0.next_page_id + n < u32::MAX,
                self.well_formed(),
                self@ == absorb_all(v0, kept_v.take(j as int)),
                self@.next_page_id <= v0.next_page_id + j,
            decreases kept@.len() - j,
        {
            let t = kept[j].clone();
            self.absorb(t);
            proof {
                assert(kept_v.take(j + 1).drop_last() =~= kept_v.take(j as int));
                assert(kept_v.take(j + 1).last() == kept_v[j as int]);
            }
            j = j + 1;
        }
        proof {
            assert(kept_v.take(kept@.len() as int) =~= kept_v);
        }
        // Drop the pages whose target the listing no longer shows.
        let ghost a = self@;
        let mut survivors: Vec<PageInfo> = Vec::new();
        let mut detached: Vec<u32> = Vec::new();
        let mut k: usize = 0;
        proof {
            assert(a.pages.take(0) =~= Seq::<PageView>::empty());
            assert(vanished_targets(a.pages.take(0), seen_set) =~= Set::<Seq<char>>::empty());
            assert(a.sessions.remove_keys(Set::<Seq<char>>::empty()) =~= a.sessions);
        }
        while k < self.pages.len()
            invariant
                k <= self.pages@.len(),
                views(self.pages@) == a.pages,
                a == absorb_all(v0, kept_v),
                table_wf(a),
                keys_unique(entries(self.sessions@)),
                text_views(seen@) == kept_v.map_values(|t: TabView| t.target_id),
                seen_set == targets_of(kept_v),
                views(survivors@) == surviving(a.pages.take(k as int), seen_set),
                detached@ == vanished_ids(a.pages.take(k as int), seen_set),
                session_map(entries(self.sessions@)) == a.sessions.remove_keys(
                    vanished_targets(a.pages.take(k as int), seen_set),
                ),
                self.connection_epoch == a.connection_epoch,
                self.next_page_id == a.next_page_id,
            decreases self.pages@.len() - k,
        {
            let ghost pre = a.pages.take(k as int);
            let ghost post = a.pages.take(k + 1);
            proof {
                assert(post.drop_last() =~= pre);
                assert(post.last() == a.pages[k as int]);
            }
            let target_seen = contains_text(&seen, self.pages[k].target_id.as_str());
            proof {
                let t = a.pages[k as int].target_id;
                assert(text_views(seen@).len() == kept_v.len());
                if target_seen {
                    let w = choose|w: int| 0 <= w < seen@.len() && seen@[w]@ == t;
                    assert(text_views(seen@)[w] == seen@[w]@);
                    assert(text_views(seen@)[w] == kept_v[w].target_id);
                    assert(seen_set.contains(t));
                } else {
                    assert forall|w: int| 0 <= w < kept_v.len() implies kept_v[w].target_id != t by {
                        assert(text_views(seen@)[w] == seen@[w]@);
                    }
                    assert(!seen_set.contains(t));
                }
            }
            if target_seen {
                let p = self.pages[k].clone();
                survivors.push(p);
                proof {
                    assert(views(survivors@) =~= surviving(pre, seen_set).push(a.pages[k as int]));
                    assert(vanished_targets(post, seen_set) =~= vanished_targets(pre, seen_set)) by {
                        assert forall|x: Seq<char>| #[trigger] vanished_targets(post, seen_set).contains(x)
                            implies vanished_targets(pre, seen_set).contains(x) by {
                            let w = choose|w: int| 0 <= w < post.len() && post[w].target_id == x;
                            if w < pre.len() {
                                assert(pre[w] == post[w]);
                            }
                        }
                        assert forall|x: Seq<char>| #[trigger] vanished_targets(pre, seen_set).contains(x)
                            implies vanished_targets(post, seen_set).contains(x) by {
                            let w = choose|w: int| 0 <= w < pre.len() && pre[w].target_id == x;
                            assert(pre[w] == post[w]);
                        }
                    }
                }
            } else {
                detached.push(self.pages[k].page_id);
                let ghost before = session_map(entries(self.sessions@));
                remove_session(&mut self.sessions, self.pages[k].target_id.as_str());
                proof {
                    let t = a.pages[k as int].target_id;
                    assert(vanished_targets(post, seen_set) =~= vanished_targets(pre, seen_set).insert(t)) by {
                        assert forall|x: Seq<char>| #[trigger] vanished_targets(post, seen_set).contains(x)
                            implies vanished_targets(pre, seen_set).insert(t).contains(x) by {
                            let w = choose|w: int| 0 <= w < post.len() && post[w].target_id == x;
                            if w < pre.len() {
                                assert(pre[w] == post[w]);
                            }
                        }
                        assert forall|x: Seq<char>| #[trigger] vanished_targets(pre, seen_set).insert(t).contains(x)
                            implies vanished_targets(post, seen_set).contains(x) by {
                            if x == t {
                                assert(post[k as int].target_id == t);
                            } else {
                                let w = choose|w: int| 0 <= w < pre.len() && pre[w].target_id == x;
                                assert(pre[w] == post[w]);
                            }
                        }
                    }
                    assert(a.sessions.remove_keys(vanished_targets(pre, seen_set)).remove(t) =~= a.sessions.remove_keys(
                        vanished_targets(pre, seen_set).insert(t),
                    ));
                }
            }
            k = k + 1;
        }
        proof {
            assert(a.pages.take(self.pages@.len() as int) =~= a.pages);
            lemma_surviving_wf(a.pages, seen_set, a.next_page_id);
        }
        self.pages = survivors;
        let mut out: Vec<PageInfo> = Vec::new();
        let mut m: usize = 0;
        while m < self.pages.len()
            invariant
                m <= self.pages@.len(),
                views(out@) == views(self.pages@).take(m as int),
            decreases self.pages@.len() - m,
        {
            let ghost out_before = out@;
            out.push(self.pages[m].clone());
            proof {
                assert(views(out@) =~= views(out_before).push(self.pages@[m as int]@));
                assert(views(out@) =~= views(self.pages@).take(m + 1));
            }
            m = m + 1;
        }
        proof {
            assert(views(self.pages@).take(self.pages@.len() as int) =~= views(self.pages@));
            assert(self@ =~= listed(v0, all, ex));
        }
        Listing { pages: out, detached }
    }
}

impl PageTable {
    /// Notes the current connection epoch. A new epoch means a reconnect:
    /// every attached session belongs to the old socket and is forgotten.
    /// Returns whether the epoch changed.
    pub fn observe_epoch(&mut self, epoch: u64) -> (changed: bool)
        requires
            old(self).well_formed(),
        ensures
            final(self).well_formed(),
            changed == (epoch != old(self)@.connection_epoch),
            final(self)@.pages == old(self)@.pages,
            final(self)@.next_page_id == old(self)@.next_page_id,
            final(self)@.connection_epoch == epoch,
            changed ==> final(self)@.sessions == Map::<Seq<char>, Seq<char>>::empty(),
            !changed ==> final(self)@.sessions == old(self)@.sessions,
    {
        if epoch != self.connection_epoch {
            self.sessions = Vec::new();
            self.connection_epoch = epoch;
            assert(session_map(entries(self.sessions@)) =~= Map::<Seq<char>, Seq<char>>::empty());
            true
        } else {
            false
        }
    }

    /// Position of the page with the given id.
    fn position(&self, page_id: u32) -> (r: Option<usize>)
        ensures
            match r {
                Some(i) => i < self@.pages.len() && self@.pages[i as int].page_id == page_id,
                None => !has_page(self@.pages, page_id),
            },
    {
        let mut i: usize = 0;
        while i < self.pages.len()
            invariant
                i <= self.pages@.len(),
                forall|j: int| 0 <= j < i ==> views(self.pages@)[j].page_id != page_id,
            decreases self.pages@.len() - i,
        {
            if self.pages[i].page_id == page_id {
                return Some(i);
            }
            i = i + 1;
        }
        None
    }

    /// The page with the given id.
    pub fn get_info(&self, page_id: u32) -> (r: Option<PageInfo>)
        requires
            self.well_formed(),
        ensures
            match r {
                Some(p) => has_page(self@.pages, page_id) && p@ == page_of(self@.pages, page_id),
                None => !has_page(self@.pages, page_id),
            },
    {
        match self.position(page_id) {
            Some(i) => {
                proof { lemma_page_of(self@.pages, self@.next_page_id, i as int); }
                Some(self.pages[i].clone())
            },
            None => None,
        }
    }

    /// The tab id behind a page id.
    pub fn get_tab_id(&self, page_id: u32) -> (r: Option<i64>)
        requires
            self.well_formed(),
        ensures
            match r {
                Some(t) => has_page(self@.pages, page_id) && t == page_of(self@.pages, page_id).tab_id,
                None => !has_page(self@.pages, page_id),
            },
    {
        match self.position(page_id) {
            Some(i) => {
                proof { lemma_page_of(self@.pages, self@.next_page_id, i as int); }
                Some(self.pages[i].tab_id)
            },
            None => None,
        }
    }

    /// The page id bound to a target, if any (the first in id order).
    pub fn find_page_for_target(&self, target_id: &str) -> (r: Option<u32>)
        requires
            self.well_formed(),
        ensures
            match r {
                Some(id) => exists|i: int| first_with_target(self@.pages, target_id@, i) && self@.pages[i].page_id == id,
                None => !has_target(self@.pages, target_id@),
            },
    {
        match find_by_target(&self.pages, target_id) {
            Some(i) => Some(self.pages[i].page_id),
            None => None,
        }
    }

    /// The session attached to a target.
    pub fn cached_session(&self, target_id: &str) -> (r: Option<String>)
        requires
            self.well_formed(),
        ensures
            match r {
                Some(sid) => self@.sessions.dom().contains(target_id@) && sid@ == self@.sessions[target_id@],
                None => !self@.sessions.dom().contains(target_id@),
            },
    {
        match find_session(&self.sessions, target_id) {
            Some(i) => {
                proof { lemma_session_map_at(entries(self.sessions@), i as int); }
                Some(copy_string(&self.sessions[i].session_id))
            },
            None => None,
        }
    }

    /// The session attached to the target of a page.
    pub fn get_attached_session(&self, page_id: u32) -> (r: Option<String>)
        requires
            self.well_formed(),
        ensures
            match r {
                Some(sid) => has_page(self@.pages, page_id)
                    && self@.sessions.dom().contains(page_of(self@.pages, page_id).target_id)
                    && sid@ == self@.sessions[page_of(self@.pages, page_id).target_id],
                None => !has_page(self@.pages, page_id)
                    || !self@.sessions.dom().contains(page_of(self@.pages, page_id).target_id),
            },
    {
        match self.position(page_id) {
            Some(i) => {
                proof { lemma_page_of(self@.pages, self@.next_page_id, i as int); }
                self.cached_session(self.pages[i].target_id.as_str())
            },
            None => None,
        }
    }

    /// Records the session attached to a target, replacing an older one.
    pub fn record_session(&mut self, target_id: String, session_id: String)
        requires
            old(self).well_formed(),
        ensures
            final(self).well_formed(),
            final(self)@ == (TableView { sessions: old(self)@.sessions.insert(target_id@, session_id@), ..old(self)@ }),
    {
        let ghost before = entries(self.sessions@);
        match find_session(&self.sessions, target_id.as_str()) {
            Some(i) => {
                let ghost sv = session_id@;
                self.sessions.set(i, SessionEntry { target_id, session_id });
                proof {
                    assert(entries(self.sessions@) =~= before.update(i as int, (before[i as int].0, sv)));
                    lemma_session_map_update(before, i as int, sv);
                }
            },
            None => {
                let ghost e = (target_id@, session_id@);
                self.sessions.push(SessionEntry { target_id, session_id });
                proof {
                    assert(entries(self.sessions@) =~= before.push(e));
                    lemma_session_map_push(before, e);
                }
            },
        }
    }

    /// Forgets a session that the browser detached: the first target whose
    /// session it was loses its entry.
    pub fn detach_session(&mut self, session_id: &str)
        requires
            old(self).well_formed(),
        ensures
            final(self).well_formed(),
            final(self)@.pages == old(self)@.pages,
            final(self)@.next_page_id == old(self)@.next_page_id,
            final(self)@.connection_epoch == old(self)@.connection_epoch,
            (forall|k: Seq<char>| old(self)@.sessions.dom().contains(k) ==> old(self)@.sessions[k] != session_id@)
                ==> final(self)@.sessions == old(self)@.sessions,
            (exists|k: Seq<char>| old(self)@.sessions.dom().contains(k) && old(self)@.sessions[k] == session_id@)
                ==> exists|k: Seq<char>| old(self)@.sessions.dom().contains(k) && old(self)@.sessions[k] == session_id@
                    && final(self)@.sessions == old(self)@.sessions.remove(k),
    {
        let ghost before = entries(self.sessions@);
        let mut i: usize = 0;
        while i < self.sessions.len()
            invariant
                i <= self.sessions@.len(),
                entries(self.sessions@) == before,
                keys_unique(before),
                forall|j: int| 0 <= j < i ==> before[j].1 != session_id@,
                self.pages@ == old(self).pages@,
                table_wf(old(self)@),
                self.next_page_id == old(self).next_page_id,
                self.connection_epoch == old(self).connection_epoch,
                before == entries(old(self).sessions@),
            decreases self.sessions@.len() - i,
        {
            if same_text(self.sessions[i].session_id.as_str(), session_id) {
                let ghost k = before[i as int].0;
                self.sessions.remove(i);
                proof {
                    assert(entries(self.sessions@) =~= before.remove(i as int));
                    lemma_session_map_remove(before, i as int);
                    lemma_session_map_at(before, i as int);
                }
                return;
            }
            i = i + 1;
        }
        proof {
            assert forall|k: Seq<char>| session_map(before).dom().contains(k) implies session_map(before)[k] != session_id@ by {
                let j = choose|j: int| 0 <= j < before.len() && before[j].0 == k;
                lemma_session_map_at(before, j);
            }
        }
    }

    /// Forgets a closed page and the session of the target it was bound to.
    pub fn forget_page(&mut self, page_id: u32, target_id: &str)
        requires
            old(self).well_formed(),
        ensures
            final(self).well_formed(),
            final(self)@ == (TableView {
                pages: without_page(old(self)@.pages, page_id),
                sessions: old(self)@.sessions.remove(target_id@),
                ..old(self)@
            }),
    {
        let ghost v = self@;
        match self.position(page_id) {
            Some(i) => {
                self.pages.remove(i);
                proof {
                    assert(views(self.pages@) =~= v.pages.remove(i as int));
                    lemma_without_page(v.pages, page_id, i as int, v.next_page_id);
                }
            },
            None => {
                proof {
                    lemma_without_absent(v.pages, page_id);
                }
            },
        }
        remove_session(&mut self.sessions, target_id);
    }

    /// Inserts or replaces the page with the given id, keeping ascending order.
    fn put_page(&mut self, page: PageInfo)
        requires
            old(self).well_formed(),
            1 <= page.page_id < old(self)@.next_page_id,
        ensures
            final(self).well_formed(),
            final(self)@ == (TableView { pages: with_page(old(self)@.pages, page@), ..old(self)@ }),
    {
        let ghost v = self@;
        let ghost pv = page@;
        let mut i: usize = 0;
        while i < self.pages.len() && self.pages[i].page_id < page.page_id
            invariant
                i <= self.pages@.len(),
                views(self.pages@) == v.pages,
                pv == page@,
                forall|j: int| 0 <= j < i ==> v.pages[j].page_id < pv.page_id,
            decreases self.pages@.len() - i,
        {
            assert(v.pages[i as int].page_id == self.pages@[i as int].page_id);
            i = i + 1;
        }
        proof {
            lemma_with_page(v.pages, pv, i as int, v.next_page_id);
        }
        if i < self.pages.len() && self.pages[i].page_id == page.page_id {
            self.pages.set(i, page);
            assert(views(self.pages@) =~= v.pages.update(i as int, pv));
        } else {
            self.pages.insert(i, page);
            assert(views(self.pages@) =~= v.pages.insert(i as int, pv));
        }
    }

    /// Applies a fresh `Browser.getTabInfo` answer for a page whose state was
    /// `before` when the request went out. When the page is gone the answer is
    /// dropped; when a newer listing or refresh rebound the page meanwhile, the
    /// current page wins; otherwise the page is rebound to the tab (keeping its
    /// prior window) and the session of a replaced target is dropped.
    pub fn apply_refresh(&mut self, page_id: u32, before: &PageInfo, tab: TabInfo) -> (r: Option<PageInfo>)
        requires
            old(self).well_formed(),
        ensures
            final(self).well_formed(),
            final(self)@ == refreshed(old(self)@, page_id, before@, tab@),
            r.is_some() == has_page(old(self)@.pages, page_id),
            match r {
                Some(p) => p@ == page_of(final(self)@.pages, page_id),
                None => true,
            },
    {
        let ghost v = self@;
        let updated = page_info_from_tab(page_id, tab, before.window_id);
        match self.position(page_id) {
            None => None,
            Some(i) => {
                proof { lemma_page_of(v.pages, v.next_page_id, i as int); }
                if !same_page(&self.pages[i], before) {
                    return Some(self.pages[i].clone());
                }
                if !same_text(updated.target_id.as_str(), before.target_id.as_str()) {
                    remove_session(&mut self.sessions, before.target_id.as_str());
                }
                let ghost uv = updated@;
                let out = updated.clone();
                self.pages.set(i, updated);
                proof {
                    assert(views(self.pages@) =~= v.pages.update(i as int, uv));
                    lemma_replace_page(v.pages, i as int, uv, v.next_page_id);
                    lemma_page_of(self@.pages, self@.next_page_id, i as int);
                }
                Some(out)
            },
        }
    }

    /// Rebinds a page to a tab the browser reported for it (after a move),
    /// keeping its prior window when the tab names none.
    pub fn update_from_tab(&mut self, page_id: u32, tab: TabInfo) -> (r: PageInfo)
        requires
            old(self).well_formed(),
            1 <= page_id < old(self)@.next_page_id,
        ensures
            final(self).well_formed(),
            r@ == page_from_tab(
                page_id,
                tab@,
                if has_page(old(self)@.pages, page_id) { page_of(old(self)@.pages, page_id).window_id } else { None },
            ),
            final(self)@ == (TableView { pages: with_page(old(self)@.pages, r@), ..old(self)@ }),
    {
        let prior_window = match self.position(page_id) {
            Some(i) => {
                proof { lemma_page_of(self@.pages, self@.next_page_id, i as int); }
                self.pages[i].window_id
            },
            None => None,
        };
        let updated = page_info_from_tab(page_id, tab, prior_window);
        let out = updated.clone();
        self.put_page(updated);
        out
    }

    /// Whether `n` more page ids can still be issued: the next id plus `n`
    /// stays below `u32::MAX`.
    pub fn has_room_for(&self, n: usize) -> (r: bool)
        ensures
            r == (self@.next_page_id + n < u32::MAX),
    {
        (n as u64) < 0xffff_ffffu64 && (self.next_page_id as u64) + (n as u64) < 0xffff_ffffu64
    }

    /// Whether `page_id` is one the table has issued.
    pub fn page_id_issued(&self, page_id: u32) -> (r: bool)
        ensures
            r == (1 <= page_id < self@.next_page_id),
    {
        1 <= page_id && page_id < self.next_page_id
    }

    /// Registers a freshly created tab under the next page id. An empty tab
    /// url is replaced by the url the tab was created with.
    pub fn register_new_page(&mut self, tab: TabInfo, requested_url: &str) -> (page_id: u32)
        requires
            old(self).well_formed(),
            old(self)@.next_page_id < u32::MAX,
        ensures
            final(self).well_formed(),
            page_id == old(self)@.next_page_id,
            final(self)@ == (TableView {
                pages: old(self)@.pages.push(page_from_tab(
                    page_id,
                    if tab@.url.len() == 0 { TabView { url: requested_url@, ..tab@ } } else { tab@ },
                    None,
                )),
                next_page_id: (page_id + 1) as u32,
                ..old(self)@
            }),
    {
        let ghost v = self@;
        let mut tab = tab;
        if tab.url.as_str().is_empty() {
            tab.url = requested_url.to_owned();
        }
        let page_id = self.next_page_id;
        let page = page_info_from_tab(page_id, tab, None);
        let ghost pv = page@;
        self.pages.push(page);
        self.next_page_id = page_id + 1;
        proof {
            assert(views(self.pages@) =~= v.pages.push(pv));
        }
        page_id
    }

    /// The page ids of the pages whose tab id is among `tab_ids`, one pair
    /// (tab id, page id) per tab id.
    pub fn resolve_tab_ids(&self, tab_ids: &Vec<i64>) -> (r: Vec<(i64, u32)>)
        requires
            self.well_formed(),
        ensures
            forall|a: int, b: int| 0 <= a < b < r@.len() ==> r@[a].0 != r@[b].0,
            forall|a: int| 0 <= a < r@.len() ==> tab_ids@.contains(#[trigger] r@[a].0),
            forall|a: int| 0 <= a < r@.len() ==> backed(self@.pages, #[trigger] r@[a]),
            forall|t: i64| tab_ids@.contains(t) && has_tab(self@.pages, t) ==> resolved(r@, t),
    {
        let ghost pages = self@.pages;
        let mut out: Vec<(i64, u32)> = Vec::new();
        let mut i: usize = 0;
        while i < self.pages.len()
            invariant
                pages == self@.pages,
                i <= self.pages@.len(),
                forall|a: int, b: int| 0 <= a < b < out@.len() ==> out@[a].0 != out@[b].0,
                forall|a: int| 0 <= a < out@.len() ==> tab_ids@.contains(#[trigger] out@[a].0),
                forall|a: int| 0 <= a < out@.len() ==> backed(pages, #[trigger] out@[a]),
                forall|j: int| 0 <= j < i && tab_ids@.contains(#[trigger] pages[j].tab_id)
                    ==> resolved(out@, pages[j].tab_id),
            decreases self.pages@.len() - i,
        {
            let t = self.pages[i].tab_id;
            let p = self.pages[i].page_id;
            proof {
                assert(pages[i as int].tab_id == t && pages[i as int].page_id == p);
                assert(backed(pages, (t, p)));
            }
            if contains_i64(tab_ids, t) {
                let mut k: usize = 0;
                while k < out.len() && out[k].0 != t
                    invariant
                        k <= out@.len(),
                        forall|a: int| 0 <= a < k ==> out@[a].0 != t,
                    decreases out@.len() - k,
                {
                    k = k + 1;
                }
                let ghost before = out@;
                if k < out.len() {
                    out.set(k, (t, p));
                    proof {
                        assert forall|a: int| 0 <= a < out@.len() implies tab_ids@.contains(#[trigger] out@[a].0) by {
                            if a != k {
                                assert(out@[a] == before[a]);
                            }
                        }
                        assert forall|a: int| 0 <= a < out@.len() implies backed(pages, #[trigger] out@[a]) by {
                            if a != k {
                                assert(out@[a] == before[a]);
                            }
                        }
                        assert forall|j: int| 0 <= j < i + 1 && tab_ids@.contains(#[trigger] pages[j].tab_id)
                            implies resolved(out@, pages[j].tab_id) by {
                            if j < i {
                                let a = choose|a: int| 0 <= a < before.len() && before[a].0 == pages[j].tab_id;
                                assert(out@[a].0 == before[a].0);
                            } else {
                                assert(out@[k as int].0 == t);
                            }
                        }
                    }
                } else {
                    out.push((t, p));
                    proof {
                        assert forall|a: int| 0 <= a < out@.len() implies tab_ids@.contains(#[trigger] out@[a].0) by {
                            if a < before.len() {
                                assert(out@[a] == before[a]);
                            }
                        }
                        assert forall|a: int| 0 <= a < out@.len() implies backed(pages, #[trigger] out@[a]) by {
                            if a < before.len() {
                                assert(out@[a] == before[a]);
                            }
                        }
                        assert forall|j: int| 0 <= j < i + 1 && tab_ids@.contains(#[trigger] pages[j].tab_id)
                            implies resolved(out@, pages[j].tab_id) by {
                            if j < i {
                                let a = choose|a: int| 0 <= a < before.len() && before[a].0 == pages[j].tab_id;
                                assert(out@[a] == before[a]);
                            } else {
                                assert(out@[before.len() as int].0 == t);
                            }
                        }
                    }
                }
            }
            i = i + 1;
        }
        proof {
            assert forall|t: i64| tab_ids@.contains(t) && has_tab(pages, t) implies resolved(out@, t) by {
                let j = choose|j: int| 0 <= j < pages.len() && pages[j].tab_id == t;
                assert(tab_ids@.contains(pages[j].tab_id));
            }
        }
        out
    }
}

/// Some page has this (tab id, page id) pair.
pub open spec fn backed(pages: Seq<PageView>, pair: (i64, u32)) -> bool {
    exists|j: int| 0 <= j < pages.len() && pages[j].tab_id == pair.0 && pages[j].page_id == pair.1
}

/// Some pair resolves the tab id.
pub open spec fn resolved(pairs: Seq<(i64, u32)>, tab_id: i64) -> bool {
    exists|a: int| 0 <= a < pairs.len() && pairs[a].0 == tab_id
}

/// Whether two pages hold the same fields.
pub fn same_page(a: &PageInfo, b: &PageInfo) -> (r: bool)
    ensures
        r == (a@ == b@),
{
    let groups_equal = match (&a.group_id, &b.group_id) {
        (Some(x), Some(y)) => same_text(x.as_str(), y.as_str()),
        (None, None) => true,
        _ => false,
    };
    a.page_id == b.page_id && same_text(a.target_id.as_str(), b.target_id.as_str()) && a.tab_id == b.tab_id
        && same_text(a.url.as_str(), b.url.as_str()) && same_text(a.title.as_str(), b.title.as_str())
        && a.is_active == b.is_active && a.is_loading == b.is_loading
        && a.load_progress_ppm == b.load_progress_ppm && a.load_progress_bits == b.load_progress_bits
        && a.is_pinned == b.is_pinned
        && a.window_id == b.window_id && a.index == b.index && groups_equal
}

fn contains_i64(v: &Vec<i64>, x: i64) -> (r: bool)
    ensures
        r == v@.contains(x),
{
    let mut i: usize = 0;
    while i < v.len()
        invariant
            i <= v@.len(),
            forall|j: int| 0 <= j < i ==> v@[j] != x,
        decreases v@.len() - i,
    {
        if v[i] == x {
            assert(v@[i as int] == x);
            return true;
        }
        i = i + 1;
    }
    false
}

pub open spec fn has_page(pages: Seq<PageView>, page_id: u32) -> bool {
    exists|i: int| 0 <= i < pages.len() && pages[i].page_id == page_id
}

/// The page with the given id (meaningful when [`has_page`] holds).
pub open spec fn page_of(pages: Seq<PageView>, page_id: u32) -> PageView {
    pages[choose|i: int| 0 <= i < pages.len() && pages[i].page_id == page_id]
}

/// The pages without the one with the given id.
pub open spec fn without_page(pages: Seq<PageView>, page_id: u32) -> Seq<PageView> {
    if has_page(pages, page_id) {
        pages.remove(choose|i: int| 0 <= i < pages.len() && pages[i].page_id == page_id)
    } else {
        pages
    }
}

/// The pages with `page` put under its id: replacing the page with that id,
/// or inserted at its place in ascending order.
pub open spec fn with_page(pages: Seq<PageView>, page: PageView) -> Seq<PageView> {
    let i = choose|i: int| 0 <= i <= pages.len()
        && (forall|j: int| 0 <= j < i ==> pages[j].page_id < page.page_id)
        && (i < pages.len() ==> pages[i].page_id >= page.page_id);
    if i < pages.len() && pages[i].page_id == page.page_id {
        pages.update(i, page)
    } else {
        pages.insert(i, page)
    }
}

/// The table after a `Browser.getTabInfo` answer (see [`PageTable::apply_refresh`]).
pub open spec fn refreshed(v: TableView, page_id: u32, before: PageView, tab: TabView) -> TableView {
    if !has_page(v.pages, page_id) || page_of(v.pages, page_id) != before {
        v
    } else {
        let updated = page_from_tab(page_id, tab, before.window_id);
        TableView {
            pages: with_page(v.pages, updated),
            sessions: if updated.target_id != before.target_id {
                v.sessions.remove(before.target_id)
            } else {
                v.sessions
            },
            ..v
        }
    }
}

proof fn lemma_ids_unique(pages: Seq<PageView>, next: u32, i: int, j: int)
    requires
        pages_wf(pages, next),
        0 <= i < pages.len(),
        0 <= j < pages.len(),
        pages[i].page_id == pages[j].page_id,
    ensures
        i == j,
{
    if i < j {
        assert(pages[i].page_id < pages[j].page_id);
    } else if j < i {
        assert(pages[j].page_id < pages[i].page_id);
    }
}

proof fn lemma_page_of(pages: Seq<PageView>, n: u32, i: int)
    requires
        pages_wf(pages, n),
        0 <= i < pages.len(),
    ensures
        has_page(pages, pages[i].page_id),
        page_of(pages, pages[i].page_id) == pages[i],
{
    let id = pages[i].page_id;
    assert(0 <= i < pages.len() && pages[i].page_id == id);
    let j = choose|j: int| 0 <= j < pages.len() && pages[j].page_id == id;
    lemma_ids_unique(pages, n, i, j);
}

proof fn lemma_without_page(pages: Seq<PageView>, page_id: u32, i: int, next: u32)
    requires
        pages_wf(pages, next),
        0 <= i < pages.len(),
        pages[i].page_id == page_id,
    ensures
        without_page(pages, page_id) == pages.remove(i),
        pages_wf(pages.remove(i), next),
{
    let j = choose|j: int| 0 <= j < pages.len() && pages[j].page_id == page_id;
    lemma_ids_unique(pages, next, i, j);
    let r = pages.remove(i);
    assert forall|a: int, b: int| 0 <= a < b < r.len() implies (#[trigger] r[a]).page_id < (#[trigger] r[b]).page_id by {
        let a2 = if a < i { a } else { a + 1 };
        let b2 = if b < i { b } else { b + 1 };
        assert(r[a] == pages[a2] && r[b] == pages[b2]);
    }
    assert forall|a: int| 0 <= a < r.len() implies 1 <= (#[trigger] r[a]).page_id < next by {
        let a2 = if a < i { a } else { a + 1 };
        assert(r[a] == pages[a2]);
    }
}

proof fn lemma_without_absent(pages: Seq<PageView>, page_id: u32)
    ensures
        !has_page(pages, page_id) ==> without_page(pages, page_id) == pages,
{
}

proof fn lemma_with_page(pages: Seq<PageView>, page: PageView, i: int, next: u32)
    requires
        pages_wf(pages, next),
        1 <= page.page_id < next,
        0 <= i <= pages.len(),
        forall|j: int| 0 <= j < i ==> pages[j].page_id < page.page_id,
        i < pages.len() ==> pages[i].page_id >= page.page_id,
    ensures
        i < pages.len() && pages[i].page_id == page.page_id ==> with_page(pages, page) == pages.update(i, page),
        !(i < pages.len() && pages[i].page_id == page.page_id) ==> with_page(pages, page) == pages.insert(i, page),
        pages_wf(with_page(pages, page), next),
{
    let c = choose|c: int| 0 <= c <= pages.len()
        && (forall|j: int| 0 <= j < c ==> pages[j].page_id < page.page_id)
        && (c < pages.len() ==> pages[c].page_id >= page.page_id);
    if c < i {
        assert(pages[c].page_id < page.page_id);
    }
    if i < c {
        assert(pages[i].page_id < page.page_id);
    }
    assert(c == i);
    let r = with_page(pages, page);
    if i < pages.len() && pages[i].page_id == page.page_id {
        assert forall|a: int, b: int| 0 <= a < b < r.len() implies (#[trigger] r[a]).page_id < (#[trigger] r[b]).page_id by {
            assert(r[a].page_id == pages[a].page_id && r[b].page_id == pages[b].page_id);
        }
    } else {
        assert forall|a: int, b: int| 0 <= a < b < r.len() implies (#[trigger] r[a]).page_id < (#[trigger] r[b]).page_id by {
            if a < i && b < i {
                assert(r[a] == pages[a] && r[b] == pages[b]);
            } else if a < i && b == i {
                assert(r[a] == pages[a]);
            } else if a < i {
                assert(r[a] == pages[a] && r[b] == pages[b - 1]);
                if b - 1 > i {
                    assert(pages[i].page_id < pages[b - 1].page_id);
                }
            } else if a == i {
                assert(r[b] == pages[b - 1]);
                if b - 1 > i {
                    assert(pages[i].page_id < pages[b - 1].page_id);
                }
            } else {
                assert(r[a] == pages[a - 1] && r[b] == pages[b - 1]);
            }
        }
        assert forall|a: int| 0 <= a < r.len() implies 1 <= (#[trigger] r[a]).page_id < next by {
            if a < i {
                assert(r[a] == pages[a]);
            } else if a > i {
                assert(r[a] == pages[a - 1]);
            }
        }
    }
}

proof fn lemma_replace_page(pages: Seq<PageView>, i: int, page: PageView, next: u32)
    requires
        pages_wf(pages, next),
        0 <= i < pages.len(),
        pages[i].page_id == page.page_id,
    ensures
        with_page(pages, page) == pages.update(i, page),
        pages_wf(pages.update(i, page), next),
{
    assert forall|j: int| 0 <= j < i implies pages[j].page_id < page.page_id by {
        assert(pages[j].page_id < pages[i].page_id);
    }
    lemma_with_page(pages, page, i, next);
}

/// Whether some string in `v` has the characters of `s`.
fn contains_text(v: &Vec<String>, s: &str) -> (r: bool)
    ensures
        r == exists|i: int| 0 <= i < v@.len() && v@[i]@ == s@,
{
    let mut i: usize = 0;
    while i < v.len()
        invariant
            i <= v@.len(),
            forall|j: int| 0 <= j < i ==> v@[j]@ != s@,
        decreases v@.len() - i,
    {
        if same_text(v[i].as_str(), s) {
            return true;
        }
        i = i + 1;
    }
    false
}

proof fn lemma_tracked_len(tabs: Seq<TabView>, excluded: Seq<Seq<char>>)
    ensures
        tracked_tabs(tabs, excluded).len() <= tabs.len(),
    decreases tabs.len(),
{
    if tabs.len() > 0 {
        lemma_tracked_len(tabs.drop_last(), excluded);
    }
}

/// Every surviving page is one of the pages, in the same relative order.
proof fn lemma_surviving_wf(pages: Seq<PageView>, seen: Set<Seq<char>>, next: u32)
    requires
        pages_wf(pages, next),
    ensures
        pages_wf(surviving(pages, seen), next),
        forall|i: int| 0 <= i < surviving(pages, seen).len() ==> exists|j: int| 0 <= j < pages.len() && pages[j] == #[trigger] surviving(pages, seen)[i],
    decreases pages.len(),
{
    if pages.len() > 0 {
        let q = pages.drop_last();
        assert(pages_wf(q, next)) by {
            assert forall|i: int, j: int| 0 <= i < j < q.len() implies (#[trigger] q[i]).page_id < (#[trigger] q[j]).page_id by {
                assert(q[i] == pages[i] && q[j] == pages[j]);
            }
            assert forall|i: int| 0 <= i < q.len() implies 1 <= (#[trigger] q[i]).page_id < next by {
                assert(q[i] == pages[i]);
            }
        }
        lemma_surviving_wf(q, seen, next);
        let sq = surviving(q, seen);
        assert forall|i: int| 0 <= i < sq.len() implies exists|j: int| 0 <= j < pages.len() && pages[j] == #[trigger] sq[i] by {
            let j = choose|j: int| 0 <= j < q.len() && q[j] == sq[i];
            assert(pages[j] == q[j]);
        }
        if seen.contains(pages.last().target_id) {
            let s = sq.push(pages.last());
            assert(surviving(pages, seen) == s);
            assert forall|i: int, j: int| 0 <= i < j < s.len() implies (#[trigger] s[i]).page_id < (#[trigger] s[j]).page_id by {
                if j == s.len() - 1 {
                    let w = choose|w: int| 0 <= w < q.len() && q[w] == sq[i];
                    assert(s[i] == sq[i]);
                    assert(pages[w] == q[w]);
                    assert(pages[w].page_id < pages[pages.len() - 1].page_id);
                } else {
                    assert(s[i] == sq[i] && s[j] == sq[j]);
                }
            }
            assert forall|i: int| 0 <= i < s.len() implies 1 <= (#[trigger] s[i]).page_id < next by {
                if i < sq.len() {
                    assert(s[i] == sq[i]);
                }
            }
            assert forall|i: int| 0 <= i < s.len() implies exists|j: int| 0 <= j < pages.len() && pages[j] == #[trigger] s[i] by {
                if i < sq.len() {
                    assert(s[i] == sq[i]);
                    let j = choose|j: int| 0 <= j < pages.len() && pages[j] == sq[i];
                } else {
                    assert(pages[pages.len() - 1] == s[i]);
                }
            }
        }
    }
}

/// Whether `s` starts with one of `prefixes`.
fn starts_with_any(s: &str, prefixes: &Vec<String>) -> (r: bool)
    ensures
        r == url_excluded(s@, text_views(prefixes@)),
{
    let mut i: usize = 0;
    while i < prefixes.len()
        invariant
            i <= prefixes.len(),
            forall|j: int| 0 <= j < i ==> !(#[trigger] text_views(prefixes@)[j]).is_prefix_of(s@),
        decreases prefixes.len() - i,
    {
        if crate::text::starts_with(s, prefixes[i].as_str()) {
            assert(text_views(prefixes@)[i as int] == prefixes@[i as int]@);
            return true;
        }
        i = i + 1;
    }
    false
}

} // verus!

verus! {

// ---------------------------------------------------------------------------
// Laws of the page table.
// ---------------------------------------------------------------------------

proof fn lemma_surviving_seen(pages: Seq<PageView>, seen: Set<Seq<char>>)
    ensures
        forall|i: int| 0 <= i < surviving(pages, seen).len() ==> seen.contains(#[trigger] surviving(pages, seen)[i].target_id),
        forall|i: int| 0 <= i < surviving(pages, seen).len() ==> exists|j: int| 0 <= j < pages.len() && pages[j] == #[trigger] surviving(pages, seen)[i],
    decreases pages.len(),
{
    if pages.len() > 0 {
        let q = pages.drop_last();
        lemma_surviving_seen(q, seen);
        let sq = surviving(q, seen);
        assert forall|i: int| 0 <= i < sq.len() implies exists|j: int| 0 <= j < pages.len() && pages[j] == #[trigger] sq[i] by {
            let j = choose|j: int| 0 <= j < q.len() && q[j] == sq[i];
            assert(pages[j] == q[j]);
        }
        if seen.contains(pages.last().target_id) {
            let s = sq.push(pages.last());
            assert forall|i: int| 0 <= i < s.len() implies exists|j: int| 0 <= j < pages.len() && pages[j] == #[trigger] s[i] by {
                if i < sq.len() {
                    assert(s[i] == sq[i]);
                } else {
                    assert(pages[pages.len() - 1] == s[i]);
                }
            }
            assert forall|i: int| 0 <= i < s.len() implies seen.contains(#[trigger] s[i].target_id) by {
                if i < sq.len() {
                    assert(s[i] == sq[i]);
                }
            }
        }
    }
}

/// After a tab listing, every page stands for a target that the listing
/// shows among its tracked (not excluded) tabs.
pub proof fn law_listing_keeps_only_listed_targets(v: TableView, tabs: Seq<TabView>, excluded: Seq<Seq<char>>)
    ensures
        forall|i: int| 0 <= i < listed(v, tabs, excluded).pages.len() ==> targets_of(tracked_tabs(tabs, excluded)).contains(
            #[trigger] listed(v, tabs, excluded).pages[i].target_id,
        ),
{
    let kept = tracked_tabs(tabs, excluded);
    lemma_surviving_seen(absorb_all(v, kept).pages, targets_of(kept));
}

proof fn lemma_absorb_ids(v: TableView, tabs: Seq<TabView>)
    requires
        table_wf(v),
        v.next_page_id + tabs.len() < u32::MAX,
    ensures
        absorb_all(v, tabs).next_page_id >= v.next_page_id,
        absorb_all(v, tabs).next_page_id <= v.next_page_id + tabs.len(),
        table_wf(absorb_all(v, tabs)),
        forall|i: int| 0 <= i < absorb_all(v, tabs).pages.len() ==>
            has_page(v.pages, (#[trigger] absorb_all(v, tabs).pages[i]).page_id)
            || absorb_all(v, tabs).pages[i].page_id >= v.next_page_id,
    decreases tabs.len(),
{
    if tabs.len() > 0 {
        let q = tabs.drop_last();
        lemma_absorb_ids(v, q);
        let a = absorb_all(v, q);
        let t = tabs.last();
        let b = absorb_tab(a, t);
        assert(b == absorb_all(v, tabs));
        if has_target(a.pages, t.target_id) || has_tab(a.pages, t.tab_id) {
            lemma_first_exists(a.pages, t.target_id, t.tab_id);
            let k = if has_target(a.pages, t.target_id) {
                choose|i: int| first_with_target(a.pages, t.target_id, i)
            } else {
                choose|i: int| first_with_tab(a.pages, t.tab_id, i)
            };
            assert(b == rebind(a, k, t));
            assert forall|i: int| 0 <= i < b.pages.len() implies (#[trigger] b.pages[i]).page_id == a.pages[i].page_id by {}
            lemma_replace_page(a.pages, k, page_from_tab(a.pages[k].page_id, t, a.pages[k].window_id), a.next_page_id);
        } else {
            let np = page_from_tab(a.next_page_id, t, None);
            assert(b.pages == a.pages.push(np));
            assert forall|i: int, j: int| 0 <= i < j < b.pages.len() implies (#[trigger] b.pages[i]).page_id < (#[trigger] b.pages[j]).page_id by {
                if j < a.pages.len() {
                    assert(b.pages[i] == a.pages[i] && b.pages[j] == a.pages[j]);
                } else {
                    assert(b.pages[i] == a.pages[i]);
                }
            }
            assert forall|i: int| 0 <= i < b.pages.len() implies 1 <= (#[trigger] b.pages[i]).page_id < b.next_page_id by {
                if i < a.pages.len() {
                    assert(b.pages[i] == a.pages[i]);
                }
            }
            assert forall|i: int| 0 <= i < b.pages.len() implies
                has_page(v.pages, (#[trigger] b.pages[i]).page_id) || b.pages[i].page_id >= v.next_page_id by {
                if i < a.pages.len() {
                    assert(b.pages[i] == a.pages[i]);
                }
            }
        }
    }
}

proof fn lemma_first_target_from(pages: Seq<PageView>, target: Seq<char>, n: int)
    requires
        0 <= n <= pages.len(),
        exists|i: int| 0 <= i < n && pages[i].target_id == target,
    ensures
        exists|i: int| first_with_target(pages, target, i),
    decreases n,
{
    if exists|i: int| 0 <= i < n - 1 && pages[i].target_id == target {
        lemma_first_target_from(pages, target, n - 1);
    } else {
        assert(first_with_target(pages, target, n - 1));
    }
}

proof fn lemma_first_tab_from(pages: Seq<PageView>, tab_id: i64, n: int)
    requires
        0 <= n <= pages.len(),
        exists|i: int| 0 <= i < n && pages[i].tab_id == tab_id,
    ensures
        exists|i: int| first_with_tab(pages, tab_id, i),
    decreases n,
{
    if exists|i: int| 0 <= i < n - 1 && pages[i].tab_id == tab_id {
        lemma_first_tab_from(pages, tab_id, n - 1);
    } else {
        assert(first_with_tab(pages, tab_id, n - 1));
    }
}

proof fn lemma_first_exists(pages: Seq<PageView>, target: Seq<char>, tab_id: i64)
    ensures
        has_target(pages, target) ==> exists|i: int| first_with_target(pages, target, i),
        has_tab(pages, tab_id) ==> exists|i: int| first_with_tab(pages, tab_id, i),
{
    if has_target(pages, target) {
        lemma_first_target_from(pages, target, pages.len() as int);
    }
    if has_tab(pages, tab_id) {
        lemma_first_tab_from(pages, tab_id, pages.len() as int);
    }
}

/// A tab listing never invents a page id: every page it leaves either kept
/// an id the table already had or got a fresh one, at or above the former
/// next page id.
pub proof fn law_listing_ids_are_kept_or_fresh(v: TableView, tabs: Seq<TabView>, excluded: Seq<Seq<char>>)
    requires
        table_wf(v),
        v.next_page_id + tabs.len() < u32::MAX,
    ensures
        forall|i: int| 0 <= i < listed(v, tabs, excluded).pages.len() ==>
            has_page(v.pages, (#[trigger] listed(v, tabs, excluded).pages[i]).page_id)
            || listed(v, tabs, excluded).pages[i].page_id >= v.next_page_id,
{
    let kept = tracked_tabs(tabs, excluded);
    lemma_tracked_len(tabs, excluded);
    lemma_absorb_ids(v, kept);
    let a = absorb_all(v, kept);
    lemma_surviving_seen(a.pages, targets_of(kept));
    let s = surviving(a.pages, targets_of(kept));
    assert forall|i: int| 0 <= i < s.len() implies has_page(v.pages, (#[trigger] s[i]).page_id) || s[i].page_id >= v.next_page_id by {
        let j = choose|j: int| 0 <= j < a.pages.len() && a.pages[j] == s[i];
    }
}

/// The id a new page gets is not in use.
pub proof fn law_new_page_id_is_fresh(v: TableView)
    requires
        table_wf(v),
    ensures
        !has_page(v.pages, v.next_page_id),
{
}

/// A forgotten (closed) page can no longer be found.
pub proof fn law_forgotten_page_is_gone(v: TableView, page_id: u32)
    requires
        table_wf(v),
    ensures
        !has_page(without_page(v.pages, page_id), page_id),
{
    if has_page(v.pages, page_id) {
        let i = choose|i: int| 0 <= i < v.pages.len() && v.pages[i].page_id == page_id;
        let r = v.pages.remove(i);
        assert(without_page(v.pages, page_id) == r);
        assert forall|k: int| 0 <= k < r.len() implies r[k].page_id != page_id by {
            let k2 = if k < i { k } else { k + 1 };
            assert(r[k] == v.pages[k2]);
            if v.pages[k2].page_id == page_id {
                lemma_ids_unique(v.pages, v.next_page_id, i, k2);
            }
        }
    }
}

/// A recorded session is what a later lookup of its target gives back.
pub proof fn law_recorded_session_is_read_back(v: TableView, target_id: Seq<char>, session_id: Seq<char>)
    ensures
        (TableView { sessions: v.sessions.insert(target_id, session_id), ..v }).sessions.dom().contains(target_id),
        (TableView { sessions: v.sessions.insert(target_id, session_id), ..v }).sessions[target_id] == session_id,
{
}

// ---------------------------------------------------------------------------
// Which page each tracked tab of a listing ends up on.
// ---------------------------------------------------------------------------

/// No two tabs share a target id or a tab id.
pub open spec fn distinct_tabs(tabs: Seq<TabView>) -> bool {
    forall|i: int, j: int| 0 <= i < j < tabs.len() ==>
        (#[trigger] tabs[i]).target_id != (#[trigger] tabs[j]).target_id && tabs[i].tab_id != tabs[j].tab_id
}

/// `pg` stands at position `k`, and no page before it has its target.
pub open spec fn bound_at(a: TableView, k: int, pg: PageView) -> bool {
    &&& 0 <= k < a.pages.len()
    &&& a.pages[k] == pg
    &&& first_with_target(a.pages, pg.target_id, k)
}

/// `pg` stands at position `k` as the first page with the tab id of `t`, and
/// no page has the target of `t`.
pub open spec fn waiting_at(a: TableView, k: int, pg: PageView, t: TabView) -> bool {
    &&& 0 <= k < a.pages.len()
    &&& a.pages[k] == pg
    &&& first_with_tab(a.pages, t.tab_id, k)
    &&& !has_target(a.pages, t.target_id)
}

proof fn lemma_absorb_append(v: TableView, p: Seq<TabView>, q: Seq<TabView>)
    ensures
        absorb_all(v, p + q) == absorb_all(absorb_all(v, p), q),
    decreases q.len(),
{
    if q.len() == 0 {
        assert(p + q =~= p);
    } else {
        let q1 = q.drop_last();
        lemma_absorb_append(v, p, q1);
        assert((p + q).drop_last() =~= p + q1);
        assert((p + q).last() == q.last());
    }
}

proof fn lemma_absorb_split(v: TableView, tabs: Seq<TabView>, m: int)
    requires
        0 <= m < tabs.len(),
    ensures
        absorb_all(v, tabs) == absorb_all(
            absorb_tab(absorb_all(v, tabs.subrange(0, m)), tabs[m]),
            tabs.subrange(m + 1, tabs.len() as int),
        ),
{
    let pre = tabs.subrange(0, m);
    let post = tabs.subrange(m + 1, tabs.len() as int);
    assert(tabs =~= pre.push(tabs[m]) + post);
    lemma_absorb_append(v, pre.push(tabs[m]), post);
    assert(pre.push(tabs[m]).drop_last() =~= pre);
}

/// Taking in a tab leaves it bound to a page: the first page with its target
/// if there is one, else the first page with its tab id, else a new page.
proof fn lemma_absorb_binds(a: TableView, t: TabView) -> (k: int)
    ensures
        bound_at(absorb_tab(a, t), k, absorb_tab(a, t).pages[k]),
        absorb_tab(a, t).pages[k].target_id == t.target_id,
        absorb_tab(a, t).pages[k].tab_id == t.tab_id,
        forall|k0: int| #[trigger] first_with_target(a.pages, t.target_id, k0) ==>
            k == k0 && absorb_tab(a, t).pages[k].page_id == a.pages[k0].page_id,
        forall|k0: int| !has_target(a.pages, t.target_id) && #[trigger] first_with_tab(a.pages, t.tab_id, k0) ==>
            k == k0 && absorb_tab(a, t).pages[k].page_id == a.pages[k0].page_id,
        !has_target(a.pages, t.target_id) && !has_tab(a.pages, t.tab_id) ==>
            absorb_tab(a, t).pages[k].page_id == a.next_page_id,
{
    let b = absorb_tab(a, t);
    lemma_first_exists(a.pages, t.target_id, t.tab_id);
    if has_target(a.pages, t.target_id) {
        let i = choose|i: int| first_with_target(a.pages, t.target_id, i);
        assert(b == rebind(a, i, t));
        assert forall|k0: int| #[trigger] first_with_target(a.pages, t.target_id, k0) implies i == k0 by {
            if k0 < i {
                assert(a.pages[k0].target_id == t.target_id);
            } else if i < k0 {
                assert(a.pages[i].target_id == t.target_id);
            }
        }
        assert forall|j: int| 0 <= j < i implies b.pages[j].target_id != t.target_id by {
            assert(b.pages[j] == a.pages[j]);
        }
        i
    } else if has_tab(a.pages, t.tab_id) {
        let i = choose|i: int| first_with_tab(a.pages, t.tab_id, i);
        assert(b == rebind(a, i, t));
        assert forall|k0: int| #[trigger] first_with_tab(a.pages, t.tab_id, k0) implies i == k0 by {
            if k0 < i {
                assert(a.pages[k0].tab_id == t.tab_id);
            } else if i < k0 {
                assert(a.pages[i].tab_id == t.tab_id);
            }
        }
        assert forall|j: int| 0 <= j < i implies b.pages[j].target_id != t.target_id by {
            assert(b.pages[j] == a.pages[j]);
        }
        i
    } else {
        let i = a.pages.len() as int;
        assert forall|j: int| 0 <= j < i implies b.pages[j].target_id != t.target_id by {
            assert(b.pages[j] == a.pages[j]);
        }
        i
    }
}

/// A tab with another target and another tab id leaves a bound page where it is.
proof fn lemma_absorb_keeps_bound(a: TableView, k: int, pg: PageView, t: TabView)
    requires
        bound_at(a, k, pg),
        t.target_id != pg.target_id,
        t.tab_id != pg.tab_id,
    ensures
        bound_at(absorb_tab(a, t), k, pg),
{
    let b = absorb_tab(a, t);
    lemma_first_exists(a.pages, t.target_id, t.tab_id);
    if has_target(a.pages, t.target_id) || has_tab(a.pages, t.tab_id) {
        let i = if has_target(a.pages, t.target_id) {
            choose|i: int| first_with_target(a.pages, t.target_id, i)
        } else {
            choose|i: int| first_with_tab(a.pages, t.tab_id, i)
        };
        assert(b == rebind(a, i, t));
        assert(i != k);
        assert forall|j: int| 0 <= j < k implies b.pages[j].target_id != pg.target_id by {
            if j != i {
                assert(b.pages[j] == a.pages[j]);
            }
        }
    } else {
        assert forall|j: int| 0 <= j < k implies b.pages[j].target_id != pg.target_id by {
            assert(b.pages[j] == a.pages[j]);
        }
    }
}

proof fn lemma_absorb_all_keeps_bound(a: TableView, k: int, pg: PageView, rest: Seq<TabView>)
    requires
        bound_at(a, k, pg),
        forall|r: int| 0 <= r < rest.len() ==> (#[trigger] rest[r]).target_id != pg.target_id && rest[r].tab_id != pg.tab_id,
    ensures
        bound_at(absorb_all(a, rest), k, pg),
    decreases rest.len(),
{
    if rest.len() > 0 {
        let q = rest.drop_last();
        assert forall|r: int| 0 <= r < q.len() implies (#[trigger] q[r]).target_id != pg.target_id && q[r].tab_id != pg.tab_id by {
            assert(q[r] == rest[r]);
        }
        lemma_absorb_all_keeps_bound(a, k, pg, q);
        lemma_absorb_keeps_bound(absorb_all(a, q), k, pg, rest.last());
    }
}

/// A tab with other ids leaves a page waiting for `t` where it is.
proof fn lemma_absorb_keeps_waiting(a: TableView, k: int, pg: PageView, t: TabView, t2: TabView)
    requires
        waiting_at(a, k, pg, t),
        t2.target_id != t.target_id,
        t2.target_id != pg.target_id,
        t2.tab_id != t.tab_id,
    ensures
        waiting_at(absorb_tab(a, t2), k, pg, t),
{
    let b = absorb_tab(a, t2);
    lemma_first_exists(a.pages, t2.target_id, t2.tab_id);
    if has_target(a.pages, t2.target_id) || has_tab(a.pages, t2.tab_id) {
        let i = if has_target(a.pages, t2.target_id) {
            choose|i: int| first_with_target(a.pages, t2.target_id, i)
        } else {
            choose|i: int| first_with_tab(a.pages, t2.tab_id, i)
        };
        assert(b == rebind(a, i, t2));
        assert(i != k);
        assert forall|j: int| 0 <= j < k implies b.pages[j].tab_id != t.tab_id by {
            if j != i {
                assert(b.pages[j] == a.pages[j]);
            }
        }
        assert forall|j: int| 0 <= j < b.pages.len() implies b.pages[j].target_id != t.target_id by {
            if j != i {
                assert(b.pages[j] == a.pages[j]);
            }
        }
    } else {
        assert forall|j: int| 0 <= j < k implies b.pages[j].tab_id != t.tab_id by {
            assert(b.pages[j] == a.pages[j]);
        }
        assert forall|j: int| 0 <= j < b.pages.len() implies b.pages[j].target_id != t.target_id by {
            if j < a.pages.len() {
                assert(b.pages[j] == a.pages[j]);
            }
        }
    }
}

proof fn lemma_absorb_all_keeps_waiting(a: TableView, k: int, pg: PageView, t: TabView, rest: Seq<TabView>)
    requires
        waiting_at(a, k, pg, t),
        forall|r: int| 0 <= r < rest.len() ==> (#[trigger] rest[r]).target_id != t.target_id
            && rest[r].target_id != pg.target_id && rest[r].tab_id != t.tab_id,
    ensures
        waiting_at(absorb_all(a, rest), k, pg, t),
    decreases rest.len(),
{
    if rest.len() > 0 {
        let q = rest.drop_last();
        assert forall|r: int| 0 <= r < q.len() implies (#[trigger] q[r]).target_id != t.target_id
            && q[r].target_id != pg.target_id && q[r].tab_id != t.tab_id by {
            assert(q[r] == rest[r]);
        }
        lemma_absorb_all_keeps_waiting(a, k, pg, t, q);
        lemma_absorb_keeps_waiting(absorb_all(a, q), k, pg, t, rest.last());
    }
}

proof fn lemma_surviving_keeps(pages: Seq<PageView>, seen: Set<Seq<char>>, k: int)
    requires
        0 <= k < pages.len(),
        seen.contains(pages[k].target_id),
    ensures
        exists|i: int| 0 <= i < surviving(pages, seen).len() && surviving(pages, seen)[i] == pages[k],
    decreases pages.len(),
{
    let q = pages.drop_last();
    let sq = surviving(q, seen);
    if k == pages.len() - 1 {
        assert(surviving(pages, seen) == sq.push(pages.last()));
        assert(surviving(pages, seen)[sq.len() as int] == pages[k]);
    } else {
        lemma_surviving_keeps(q, seen, k);
        let i = choose|i: int| 0 <= i < sq.len() && sq[i] == q[k];
        assert(q[k] == pages[k]);
        if seen.contains(pages.last().target_id) {
            assert(surviving(pages, seen) == sq.push(pages.last()));
            assert(surviving(pages, seen)[i] == sq[i]);
        } else {
            assert(surviving(pages, seen) == sq);
        }
    }
}

/// The tracked tab at `m` stays bound to the page at `k` of the table after
/// taking in the tabs before it and itself; the tabs after it keep it there.
proof fn lemma_listing_shows(v: TableView, kept: Seq<TabView>, m: int, b: TableView, k: int)
    requires
        distinct_tabs(kept),
        0 <= m < kept.len(),
        b == absorb_tab(absorb_all(v, kept.subrange(0, m)), kept[m]),
        bound_at(b, k, b.pages[k]),
        b.pages[k].target_id == kept[m].target_id,
        b.pages[k].tab_id == kept[m].tab_id,
    ensures
        exists|i: int| 0 <= i < surviving(absorb_all(v, kept).pages, targets_of(kept)).len()
            && surviving(absorb_all(v, kept).pages, targets_of(kept))[i] == b.pages[k],
{
    let post = kept.subrange(m + 1, kept.len() as int);
    let pg = b.pages[k];
    assert forall|r: int| 0 <= r < post.len() implies (#[trigger] post[r]).target_id != pg.target_id && post[r].tab_id != pg.tab_id by {
        assert(post[r] == kept[m + 1 + r]);
    }
    lemma_absorb_all_keeps_bound(b, k, pg, post);
    lemma_absorb_split(v, kept, m);
    let a = absorb_all(v, kept);
    assert(targets_of(kept).contains(pg.target_id));
    lemma_surviving_keeps(a.pages, targets_of(kept), k);
}

/// After a tab listing whose tracked tabs have distinct target ids and tab
/// ids, every tracked tab has a page.
pub proof fn law_listing_gives_every_tracked_tab_a_page(v: TableView, tabs: Seq<TabView>, excluded: Seq<Seq<char>>)
    requires
        distinct_tabs(tracked_tabs(tabs, excluded)),
    ensures
        forall|m: int| 0 <= m < tracked_tabs(tabs, excluded).len() ==> has_target(
            listed(v, tabs, excluded).pages,
            (#[trigger] tracked_tabs(tabs, excluded)[m]).target_id,
        ),
{
    let kept = tracked_tabs(tabs, excluded);
    assert forall|m: int| 0 <= m < kept.len() implies has_target(listed(v, tabs, excluded).pages, (#[trigger] kept[m]).target_id) by {
        let a1 = absorb_all(v, kept.subrange(0, m));
        let b = absorb_tab(a1, kept[m]);
        let k = lemma_absorb_binds(a1, kept[m]);
        lemma_listing_shows(v, kept, m, b, k);
        let s = surviving(absorb_all(v, kept).pages, targets_of(kept));
        let i = choose|i: int| 0 <= i < s.len() && s[i] == b.pages[k];
        assert(listed(v, tabs, excluded).pages[i].target_id == kept[m].target_id);
    }
}

/// After a tab listing, a page that was the first with the target of a
/// tracked tab keeps its page id and now stands for that tab, provided its
/// tab id belongs to no other tracked tab and the tracked tabs have distinct
/// target ids and tab ids.
pub proof fn law_listing_keeps_the_id_of_a_page_matched_by_target(
    v: TableView,
    tabs: Seq<TabView>,
    excluded: Seq<Seq<char>>,
    m: int,
    k: int,
)
    requires
        distinct_tabs(tracked_tabs(tabs, excluded)),
        0 <= m < tracked_tabs(tabs, excluded).len(),
        first_with_target(v.pages, tracked_tabs(tabs, excluded)[m].target_id, k),
        forall|j: int| 0 <= j < tracked_tabs(tabs, excluded).len() && j != m ==>
            (#[trigger] tracked_tabs(tabs, excluded)[j]).tab_id != v.pages[k].tab_id,
    ensures
        exists|i: int| 0 <= i < listed(v, tabs, excluded).pages.len()
            && listed(v, tabs, excluded).pages[i].page_id == v.pages[k].page_id
            && listed(v, tabs, excluded).pages[i].target_id == tracked_tabs(tabs, excluded)[m].target_id,
{
    let kept = tracked_tabs(tabs, excluded);
    let t = kept[m];
    let pre = kept.subrange(0, m);
    let pg0 = v.pages[k];
    assert forall|r: int| 0 <= r < pre.len() implies (#[trigger] pre[r]).target_id != pg0.target_id && pre[r].tab_id != pg0.tab_id by {
        assert(pre[r] == kept[r]);
    }
    lemma_absorb_all_keeps_bound(v, k, pg0, pre);
    let a1 = absorb_all(v, pre);
    let b = absorb_tab(a1, t);
    let k1 = lemma_absorb_binds(a1, t);
    assert(first_with_target(a1.pages, t.target_id, k));
    lemma_listing_shows(v, kept, m, b, k1);
    let s = surviving(absorb_all(v, kept).pages, targets_of(kept));
    let i = choose|i: int| 0 <= i < s.len() && s[i] == b.pages[k1];
    assert(listed(v, tabs, excluded).pages[i] == b.pages[k1]);
}

/// After a tab listing, a page that was the first with the tab id of a
/// tracked tab whose target no page had keeps its page id and now stands for
/// that tab, provided no tracked tab has the page's former target and the
/// tracked tabs have distinct target ids and tab ids.
pub proof fn law_listing_keeps_the_id_of_a_page_matched_by_tab(
    v: TableView,
    tabs: Seq<TabView>,
    excluded: Seq<Seq<char>>,
    m: int,
    k: int,
)
    requires
        distinct_tabs(tracked_tabs(tabs, excluded)),
        0 <= m < tracked_tabs(tabs, excluded).len(),
        !has_target(v.pages, tracked_tabs(tabs, excluded)[m].target_id),
        first_with_tab(v.pages, tracked_tabs(tabs, excluded)[m].tab_id, k),
        forall|j: int| 0 <= j < tracked_tabs(tabs, excluded).len() ==>
            (#[trigger] tracked_tabs(tabs, excluded)[j]).target_id != v.pages[k].target_id,
    ensures
        exists|i: int| 0 <= i < listed(v, tabs, excluded).pages.len()
            && listed(v, tabs, excluded).pages[i].page_id == v.pages[k].page_id
            && listed(v, tabs, excluded).pages[i].target_id == tracked_tabs(tabs, excluded)[m].target_id,
{
    let kept = tracked_tabs(tabs, excluded);
    let t = kept[m];
    let pre = kept.subrange(0, m);
    let pg0 = v.pages[k];
    assert forall|r: int| 0 <= r < pre.len() implies (#[trigger] pre[r]).target_id != t.target_id
        && pre[r].target_id != pg0.target_id && pre[r].tab_id != t.tab_id by {
        assert(pre[r] == kept[r]);
    }
    lemma_absorb_all_keeps_waiting(v, k, pg0, t, pre);
    let a1 = absorb_all(v, pre);
    let b = absorb_tab(a1, t);
    let k1 = lemma_absorb_binds(a1, t);
    assert(first_with_tab(a1.pages, t.tab_id, k));
    lemma_listing_shows(v, kept, m, b, k1);
    let s = surviving(absorb_all(v, kept).pages, targets_of(kept));
    let i = choose|i: int| 0 <= i < s.len() && s[i] == b.pages[k1];
    assert(listed(v, tabs, excluded).pages[i] == b.pages[k1]);
}

/// Neither the target nor the tab id of `t` is on a page.
pub open spec fn unmatched(a: TableView, t: TabView) -> bool {
    !has_target(a.pages, t.target_id) && !has_tab(a.pages, t.tab_id)
}

/// A tab with other ids leaves a tab that no page matches unmatched.
proof fn lemma_absorb_keeps_unmatched(a: TableView, t: TabView, t2: TabView)
    requires
        unmatched(a, t),
        t2.target_id != t.target_id,
        t2.tab_id != t.tab_id,
    ensures
        unmatched(absorb_tab(a, t2), t),
{
    let b = absorb_tab(a, t2);
    lemma_first_exists(a.pages, t2.target_id, t2.tab_id);
    if has_target(a.pages, t2.target_id) || has_tab(a.pages, t2.tab_id) {
        let i = if has_target(a.pages, t2.target_id) {
            choose|i: int| first_with_target(a.pages, t2.target_id, i)
        } else {
            choose|i: int| first_with_tab(a.pages, t2.tab_id, i)
        };
        assert(b == rebind(a, i, t2));
        assert forall|j: int| 0 <= j < b.pages.len() implies b.pages[j].target_id != t.target_id
            && b.pages[j].tab_id != t.tab_id by {
            if j != i {
                assert(b.pages[j] == a.pages[j]);
            }
        }
    } else {
        assert forall|j: int| 0 <= j < b.pages.len() implies b.pages[j].target_id != t.target_id
            && b.pages[j].tab_id != t.tab_id by {
            if j < a.pages.len() {
                assert(b.pages[j] == a.pages[j]);
            }
        }
    }
}

proof fn lemma_absorb_all_keeps_unmatched(a: TableView, t: TabView, rest: Seq<TabView>)
    requires
        unmatched(a, t),
        forall|r: int| 0 <= r < rest.len() ==> (#[trigger] rest[r]).target_id != t.target_id && rest[r].tab_id != t.tab_id,
    ensures
        unmatched(absorb_all(a, rest), t),
    decreases rest.len(),
{
    if rest.len() > 0 {
        let q = rest.drop_last();
        assert forall|r: int| 0 <= r < q.len() implies (#[trigger] q[r]).target_id != t.target_id && q[r].tab_id != t.tab_id by {
            assert(q[r] == rest[r]);
        }
        lemma_absorb_all_keeps_unmatched(a, t, q);
        lemma_absorb_keeps_unmatched(absorb_all(a, q), t, rest.last());
    }
}

/// After a tab listing, a tracked tab whose target and tab id no page had
/// stands on a page with a fresh id, at or above the former next page id,
/// provided the tracked tabs have distinct target ids and tab ids.
pub proof fn law_listing_gives_an_unmatched_tab_a_fresh_id(
    v: TableView,
    tabs: Seq<TabView>,
    excluded: Seq<Seq<char>>,
    m: int,
)
    requires
        table_wf(v),
        v.next_page_id + tabs.len() < u32::MAX,
        distinct_tabs(tracked_tabs(tabs, excluded)),
        0 <= m < tracked_tabs(tabs, excluded).len(),
        unmatched(v, tracked_tabs(tabs, excluded)[m]),
    ensures
        exists|i: int| 0 <= i < listed(v, tabs, excluded).pages.len()
            && listed(v, tabs, excluded).pages[i].page_id >= v.next_page_id
            && listed(v, tabs, excluded).pages[i].target_id == tracked_tabs(tabs, excluded)[m].target_id,
{
    let kept = tracked_tabs(tabs, excluded);
    let t = kept[m];
    let pre = kept.subrange(0, m);
    assert forall|r: int| 0 <= r < pre.len() implies (#[trigger] pre[r]).target_id != t.target_id && pre[r].tab_id != t.tab_id by {
        assert(pre[r] == kept[r]);
    }
    lemma_absorb_all_keeps_unmatched(v, t, pre);
    lemma_tracked_len(tabs, excluded);
    lemma_absorb_ids(v, pre);
    let a1 = absorb_all(v, pre);
    let b = absorb_tab(a1, t);
    let k1 = lemma_absorb_binds(a1, t);
    lemma_listing_shows(v, kept, m, b, k1);
    let s = surviving(absorb_all(v, kept).pages, targets_of(kept));
    let i = choose|i: int| 0 <= i < s.len() && s[i] == b.pages[k1];
    assert(listed(v, tabs, excluded).pages[i] == b.pages[k1]);
}

} // verus!
