//! The tool framework's rules: how tools are described, which of them take
//! a page argument, how a tool's failure is reported, and how page ids are
//! read from arguments and results.

use vstd::prelude::*;

use crate::schema::{get_field, json_get, JsonValue, JsonView};
use crate::text::{chars_of, push_str, same_text};

verus! {

/// The behaviour hints a tool is announced with.
#[derive(Clone, Copy, PartialEq, Eq, Structural, Debug)]
pub enum ToolHints {
    /// No hints.
    Unannotated,
    /// It only reads.
    ReadOnly,
    /// It reaches the open world (the network, arbitrary pages).
    OpenWorld,
    /// It writes and reaches the open world.
    Destructive,
}

/// Dispatch facts about a tool.
#[derive(Clone, Copy, PartialEq, Eq, Structural, Debug)]
pub struct ToolMetadata {
    /// The tool's top-level `page` argument names the page it works on: the
    /// framework keys page signals to it, and a host its snapshots, guards,
    /// audit records and tab effects.
    pub accepts_page_arg: bool,
}

/// How a tool is announced.
pub struct ToolDef {
    pub name: &'static str,
    pub description: &'static str,
    pub hints: ToolHints,
    pub metadata: ToolMetadata,
}

/// The tools whose `page` argument is authoritative.
pub open spec fn takes_page(name: Seq<char>) -> bool {
    ||| name == "tabs"@
    ||| name == "navigate"@
    ||| name == "snapshot"@
    ||| name == "diff"@
    ||| name == "act"@
    ||| name == "download"@
    ||| name == "upload"@
    ||| name == "read"@
    ||| name == "grep"@
    ||| name == "screenshot"@
    ||| name == "pdf"@
    ||| name == "wait"@
    ||| name == "evaluate"@
}

/// The dispatch facts of the tool `name`.
pub fn metadata_for_tool(name: &str) -> (r: ToolMetadata)
    ensures
        r.accepts_page_arg == takes_page(name@),
{
    let accepts = same_text(name, "tabs") || same_text(name, "navigate") || same_text(name, "snapshot")
        || same_text(name, "diff") || same_text(name, "act") || same_text(name, "download") || same_text(
        name,
        "upload",
    ) || same_text(name, "read") || same_text(name, "grep") || same_text(name, "screenshot") || same_text(
        name,
        "pdf",
    ) || same_text(name, "wait") || same_text(name, "evaluate");
    ToolMetadata { accepts_page_arg: accepts }
}

/// Describes a tool.
pub fn tool_def(name: &'static str, description: &'static str, hints: ToolHints) -> (r: ToolDef)
    ensures
        r.name@ == name@,
        r.description@ == description@,
        r.hints == hints,
        r.metadata.accepts_page_arg == takes_page(name@),
{
    ToolDef { name, description, hints, metadata: metadata_for_tool(name) }
}

/// Defaults a host hands to page-creating tools.
pub struct BrowserToolDefaults {
    pub default_window_id: Option<i64>,
    pub default_tab_group_id: Option<String>,
}

/// A saved helper a host loads into a script's runtime, callable by name;
/// `source` is a bare function expression.
pub struct HelperSource {
    pub name: String,
    pub source: String,
}

/// One problem with a tool's arguments.
pub struct ArgIssue {
    pub path: String,
    pub message: String,
}

/// How a tool fails.
pub enum ToolError {
    Cancelled,
    InvalidArguments(Vec<ArgIssue>),
    Message(String),
}

impl ToolError {
    /// A failure with a message.
    pub fn message(message: String) -> (r: Self)
        ensures
            r matches ToolError::Message(m) && m@ == message@,
    {
        ToolError::Message(message)
    }

    /// The failure as text: "cancelled", "invalid arguments", or the message.
    pub fn text(&self) -> (r: String)
        ensures
            r@ == match self {
                ToolError::Cancelled => "cancelled"@,
                ToolError::InvalidArguments(_) => "invalid arguments"@,
                ToolError::Message(m) => m@,
            },
    {
        match self {
            ToolError::Cancelled => "cancelled".to_owned(),
            ToolError::InvalidArguments(_) => "invalid arguments".to_owned(),
            ToolError::Message(m) => m.clone(),
        }
    }
}

/// "{path}: {message}".
pub open spec fn issue_text(i: ArgIssue) -> Seq<char> {
    i.path@ + ": "@ + i.message@
}

/// The issues joined with "; ".
pub open spec fn issues_text(issues: Seq<ArgIssue>) -> Seq<char>
    decreases issues.len(),
{
    if issues.len() == 0 {
        Seq::empty()
    } else if issues.len() == 1 {
        issue_text(issues[0])
    } else {
        issues_text(issues.drop_last()) + "; "@ + issue_text(issues.last())
    }
}

/// "Invalid arguments for {name}: {path}: {message}; ...".
pub open spec fn invalid_arguments_text(name: Seq<char>, issues: Seq<ArgIssue>) -> Seq<char> {
    "Invalid arguments for "@ + name + ": "@ + issues_text(issues)
}

/// The error result of a call whose arguments did not parse.
pub fn format_invalid_arguments(name: &str, issues: &Vec<ArgIssue>) -> (r: String)
    ensures
        r@ == invalid_arguments_text(name@, issues@),
{
    let mut detail = String::new();
    let mut i: usize = 0;
    while i < issues.len()
        invariant
            i <= issues.len(),
            detail@ == issues_text(issues@.take(i as int)),
        decreases issues.len() - i,
    {
        assert(issues@.take(i + 1).drop_last() =~= issues@.take(i as int));
        if i > 0 {
            push_str(&mut detail, "; ");
        }
        push_str(&mut detail, issues[i].path.as_str());
        push_str(&mut detail, ": ");
        push_str(&mut detail, issues[i].message.as_str());
        proof {
            if i == 0 {
                assert(issues@.take(1)[0] == issues@[0]);
            }
        }
        i = i + 1;
    }
    assert(issues@.take(issues.len() as int) =~= issues@);
    let mut s = "Invalid arguments for ".to_owned();
    push_str(&mut s, name);
    push_str(&mut s, ": ");
    push_str(&mut s, detail.as_str());
    s
}

/// The path of an argument problem as the deserializer renders it: "." or
/// nothing is the root, "(root)"; otherwise leading dots go.
pub open spec fn issue_path(rendered: Seq<char>) -> Seq<char> {
    if rendered == "."@ || rendered.len() == 0 {
        "(root)"@
    } else {
        strip_dots(rendered)
    }
}

/// `s` without its leading dots.
pub open spec fn strip_dots(s: Seq<char>) -> Seq<char>
    decreases s.len(),
{
    if s.len() > 0 && s[0] == '.' {
        strip_dots(s.drop_first())
    } else {
        s
    }
}

proof fn lemma_strip_dots_skip(s: Seq<char>, i: int)
    requires
        0 <= i <= s.len(),
        forall|k: int| 0 <= k < i ==> #[trigger] s[k] == '.',
    ensures
        strip_dots(s) == strip_dots(s.subrange(i, s.len() as int)),
    decreases i,
{
    if i > 0 {
        assert(s.drop_first().subrange(i - 1, s.drop_first().len() as int) =~= s.subrange(i, s.len() as int));
        lemma_strip_dots_skip(s.drop_first(), i - 1);
    } else {
        assert(s.subrange(0, s.len() as int) =~= s);
    }
}

/// Renders the path of an argument problem.
pub fn path_for_issue(rendered: &str) -> (r: String)
    ensures
        r@ == issue_path(rendered@),
{
    let cs = chars_of(rendered);
    if cs.len() == 0 || same_text(rendered, ".") {
        return "(root)".to_owned();
    }
    let mut a: usize = 0;
    while a < cs.len() && cs[a] == '.'
        invariant
            cs@ == rendered@,
            a <= cs.len(),
            forall|k: int| 0 <= k < a ==> #[trigger] cs@[k] == '.',
        decreases cs.len() - a,
    {
        a = a + 1;
    }
    proof {
        lemma_strip_dots_skip(rendered@, a as int);
    }
    let mut r = String::new();
    let mut i: usize = a;
    while i < cs.len()
        invariant
            cs@ == rendered@,
            a <= i <= cs.len(),
            r@ == rendered@.subrange(a as int, i as int),
        decreases cs.len() - i,
    {
        crate::text::push_char(&mut r, cs[i]);
        assert(rendered@.subrange(a as int, i + 1) =~= rendered@.subrange(a as int, i as int).push(cs@[i as int]));
        i = i + 1;
    }
    proof {
        let rest = rendered@.subrange(a as int, rendered@.len() as int);
        if rest.len() > 0 {
            assert(rest[0] == cs@[a as int]);
        }
        assert(strip_dots(rest) == rest);
    }
    r
}

/// A page id read from a value's `page` member: an unsigned integer that
/// fits a `u32` and is at least 1.
pub open spec fn page_member(v: JsonView) -> Option<u32> {
    match crate::cdp::u64_field(v, "page"@) {
        Some(n) => if 1 <= n && n <= u32::MAX {
            Some(n as u32)
        } else {
            None
        },
        None => None,
    }
}

fn page_of_value(v: &JsonValue) -> (r: Option<u32>)
    ensures
        r == page_member(v@),
{
    match get_field(v, "page") {
        Some(p) => match crate::cdp::number_u64(p) {
            Some(n) => if 1 <= n && n <= 0xffff_ffff {
                Some(n as u32)
            } else {
                None
            },
            None => None,
        },
        None => None,
    }
}

/// The page a call addresses: its `page` argument, for tools that take one.
pub fn extract_page_id(accepts_page_arg: bool, raw_args: &JsonValue) -> (r: Option<u32>)
    ensures
        r == (if accepts_page_arg { page_member(raw_args@) } else { None }),
{
    if !accepts_page_arg {
        return None;
    }
    page_of_value(raw_args)
}

/// The page a result names in its structured content.
pub fn structured_page_id(structured: Option<&JsonValue>) -> (r: Option<u32>)
    ensures
        r == match structured {
            Some(v) => page_member(v@),
            None => None,
        },
{
    match structured {
        Some(v) => page_of_value(v),
        None => None,
    }
}

/// What a call's handler came to, and what the framework makes of it.
pub enum HandlerOutcome<R> {
    /// A result to append to the response.
    Result(R),
    /// The handler filled the response itself.
    Filled,
    Failed(ToolError),
}

/// The framework's answer to a handler's outcome.
pub enum Dispatch<R> {
    /// Append this result to the response, then build it.
    Append(R),
    /// Build the response as the handler left it.
    Build,
    /// Answer with this error result at once.
    ErrorResult(String),
    /// Add this error to the response, then build it.
    ResponseError(String),
    /// Propagate the cancellation.
    Cancelled,
}

/// How a tool call's outcome is reported: bad arguments become an error
/// result naming the tool, a cancellation propagates, and any other failure
/// becomes "{tool} failed: {error}" in the response.
pub fn dispatch_outcome<R>(tool: &str, outcome: HandlerOutcome<R>) -> (r: Dispatch<R>)
    ensures
        match outcome {
            HandlerOutcome::Result(x) => r == Dispatch::Append(x),
            HandlerOutcome::Filled => r is Build,
            HandlerOutcome::Failed(ToolError::InvalidArguments(issues)) => r matches Dispatch::ErrorResult(t)
                && t@ == invalid_arguments_text(tool@, issues@),
            HandlerOutcome::Failed(ToolError::Cancelled) => r is Cancelled,
            HandlerOutcome::Failed(ToolError::Message(m)) => r matches Dispatch::ResponseError(t) && t@ == tool@
                + " failed: "@ + m@,
        },
{
    match outcome {
        HandlerOutcome::Result(x) => Dispatch::Append(x),
        HandlerOutcome::Filled => Dispatch::Build,
        HandlerOutcome::Failed(ToolError::InvalidArguments(issues)) => Dispatch::ErrorResult(
            format_invalid_arguments(tool, &issues),
        ),
        HandlerOutcome::Failed(ToolError::Cancelled) => Dispatch::Cancelled,
        HandlerOutcome::Failed(ToolError::Message(m)) => {
            let mut t = tool.to_string();
            push_str(&mut t, " failed: ");
            push_str(&mut t, m.as_str());
            Dispatch::ResponseError(t)
        },
    }
}


/// An object's entries with `(k, v)` put in: replacing the value of the
/// first entry with key `k`, else appended.
pub open spec fn put_entry(es: Seq<(Seq<char>, JsonView)>, k: Seq<char>, v: JsonView) -> Seq<(Seq<char>, JsonView)> {
    if crate::schema::has_entry(es, k) {
        es.update(crate::schema::key_index(es, k), (k, v))
    } else {
        es.push((k, v))
    }
}

/// The entries of `target` with those of `source` put in, in order.
pub open spec fn merged_entries(target: Seq<(Seq<char>, JsonView)>, source: Seq<(Seq<char>, JsonView)>) -> Seq<(Seq<char>, JsonView)>
    decreases source.len(),
{
    if source.len() == 0 {
        target
    } else {
        let t = merged_entries(target, source.drop_last());
        put_entry(t, source.last().0, source.last().1)
    }
}

/// Structured content after merging `value` in: two objects merge their
/// members, the new value winning on a shared key; otherwise `value`
/// replaces what was there.
pub open spec fn merged(target: Option<JsonView>, value: JsonView) -> JsonView {
    match (target, value) {
        (Some(JsonView::Object(t)), JsonView::Object(s)) => JsonView::Object(merged_entries(t, s)),
        (_, v) => v,
    }
}

fn put_into(es: &mut Vec<(String, JsonValue)>, k: String, v: JsonValue)
    ensures
        crate::schema::entries_view(final(es)@) == put_entry(crate::schema::entries_view(old(es)@), k@, v@),
{
    let ghost before = crate::schema::entries_view(es@);
    match crate::schema::find_key(es, k.as_str()) {
        Some(i) => {
            proof {
                crate::schema::lemma_first_key_unique(before, k@, i as int);
            }
            es.set(i, (k, v));
            assert(crate::schema::entries_view(es@) =~= before.update(i as int, (k@, v@)));
        },
        None => {
            es.push((k, v));
            assert(crate::schema::entries_view(es@) =~= before.push((k@, v@)));
        },
    }
}

/// Merges `value` into a result's structured content.
pub fn merge_structured(target: &mut Option<JsonValue>, value: JsonValue)
    ensures
        match *final(target) {
            Some(r) => r@ == merged(match *old(target) { Some(t) => Some(t@), None => None }, value@),
            None => false,
        },
{
    let current = target.take();
    match (current, value) {
        (Some(JsonValue::Object(mut t)), JsonValue::Object(s)) => {
            let ghost t0 = crate::schema::entries_view(t@);
            let ghost s0 = crate::schema::entries_view(s@);
            proof {
                crate::schema::lemma_object_view(JsonValue::Object(t));
                crate::schema::lemma_object_view(JsonValue::Object(s));
            }
            let mut rest = s;
            let mut n: usize = 0;
            let total = rest.len();
            while rest.len() > 0
                invariant
                    total == s0.len(),
                    n + rest.len() == total,
                    crate::schema::entries_view(rest@) == s0.skip(n as int),
                    crate::schema::entries_view(t@) == merged_entries(t0, s0.take(n as int)),
                decreases rest.len(),
            {
                let (k, v) = rest.remove(0);
                proof {
                    assert(crate::schema::entries_view(rest@) =~= s0.skip(n as int).drop_first());
                    assert(s0.skip(n as int)[0] == (k@, v@));
                    assert(s0.take(n + 1).drop_last() =~= s0.take(n as int));
                    assert(s0.take(n + 1).last() == s0[n as int]);
                }
                put_into(&mut t, k, v);
                n = n + 1;
                assert(crate::schema::entries_view(rest@) =~= s0.skip(n as int));
            }
            assert(s0.take(n as int) =~= s0);
            let r = JsonValue::Object(t);
            proof {
                crate::schema::lemma_object_view(r);
            }
            *target = Some(r);
        },
        (_, v) => {
            *target = Some(v);
        },
    }
}

/// The members of an object value.
pub fn json_object(value: JsonValue) -> (r: Option<Vec<(String, JsonValue)>>)
    ensures
        match r {
            Some(es) => value@ == JsonView::Object(crate::schema::entries_view(es@)),
            None => !(value@ is Object),
        },
{
    match value {
        JsonValue::Object(es) => {
            proof {
                crate::schema::lemma_object_view(JsonValue::Object(es));
            }
            Some(es)
        },
        _ => None,
    }
}

/// Merging structured content reads back what was written: after merging
/// an object into an object, each key of the new object has the new value,
/// and every other key keeps its old one.
pub proof fn law_merge_reads_back(target: Seq<(Seq<char>, JsonView)>, source: Seq<(Seq<char>, JsonView)>, k: Seq<char>)
    ensures
        crate::schema::has_entry(source, k) ==> crate::schema::has_entry(merged_entries(target, source), k) && last_value(
            source,
            k,
        ) == Some(merged_entries(target, source)[crate::schema::key_index(merged_entries(target, source), k)].1),
        !crate::schema::has_entry(source, k) ==> (crate::schema::has_entry(merged_entries(target, source), k)
            == crate::schema::has_entry(target, k)) && (crate::schema::has_entry(target, k) ==> merged_entries(
            target,
            source,
        )[crate::schema::key_index(merged_entries(target, source), k)].1 == target[crate::schema::key_index(
            target,
            k,
        )].1),
    decreases source.len(),
{
    if source.len() > 0 {
        let d = source.drop_last();
        law_merge_reads_back(target, d, k);
        let t = merged_entries(target, d);
        lemma_put_entry(t, source.last().0, source.last().1, k);
        if crate::schema::has_entry(source, k) && source.last().0 != k {
            let i = choose|i: int| 0 <= i < source.len() && source[i].0 == k;
            assert(d[i] == source[i]);
        }
        if !crate::schema::has_entry(source, k) {
            assert(source.last().0 != k);
            assert forall|i: int| 0 <= i < d.len() implies d[i].0 != k by {
                assert(d[i] == source[i]);
            }
        }
    }
}

/// The value of the last entry with key `k`.
pub open spec fn last_value(es: Seq<(Seq<char>, JsonView)>, k: Seq<char>) -> Option<JsonView>
    decreases es.len(),
{
    if es.len() == 0 {
        None
    } else if es.last().0 == k {
        Some(es.last().1)
    } else {
        last_value(es.drop_last(), k)
    }
}

proof fn lemma_put_entry(es: Seq<(Seq<char>, JsonView)>, k: Seq<char>, v: JsonView, q: Seq<char>)
    ensures
        crate::schema::has_entry(put_entry(es, k, v), q) == (q == k || crate::schema::has_entry(es, q)),
        q == k ==> put_entry(es, k, v)[crate::schema::key_index(put_entry(es, k, v), q)].1 == v,
        q != k && crate::schema::has_entry(es, q) ==> put_entry(es, k, v)[crate::schema::key_index(put_entry(es, k, v), q)].1
            == es[crate::schema::key_index(es, q)].1,
{
    let p = put_entry(es, k, v);
    if crate::schema::has_entry(es, k) {
        let i = crate::schema::key_index(es, k);
        crate::schema::lemma_key_index(es, k);
        assert(p[i].0 == k);
        if crate::schema::has_entry(es, q) {
            let j = crate::schema::key_index(es, q);
            crate::schema::lemma_key_index(es, q);
            assert(p[j].0 == q || j == i);
        }
        if crate::schema::has_entry(p, q) {
            let j = choose|j: int| 0 <= j < p.len() && p[j].0 == q;
            assert(j == i || es[j].0 == q);
        }
        crate::schema::lemma_key_index(p, q);
        if crate::schema::has_entry(p, q) {
            let c = crate::schema::key_index(p, q);
            if q == k {
                assert(c <= i);
                if c < i {
                    assert(es[c].0 == k);
                }
            } else if crate::schema::has_entry(es, q) {
                let j = crate::schema::key_index(es, q);
                assert(c <= j);
                if c < j {
                    assert(es[c].0 == q || c == i);
                }
                assert(j <= c || es[c].0 == q);
            }
        }
    } else {
        assert(p.last().0 == k);
        if crate::schema::has_entry(es, q) {
            let j = crate::schema::key_index(es, q);
            crate::schema::lemma_key_index(es, q);
            assert(p[j] == es[j]);
        }
        if crate::schema::has_entry(p, q) {
            let j = choose|j: int| 0 <= j < p.len() && p[j].0 == q;
            assert(j == es.len() || es[j].0 == q);
        }
        crate::schema::lemma_key_index(p, q);
        if crate::schema::has_entry(p, q) {
            let c = crate::schema::key_index(p, q);
            if q == k {
                if c < es.len() {
                    assert(es[c].0 == k);
                }
            } else {
                let j = crate::schema::key_index(es, q);
                assert(c <= j);
                assert(j <= c || es[c].0 == q);
            }
        }
    }
}


/// A timeout from a caller's request, already rounded to whole
/// milliseconds (`None` when absent, not finite, or not positive): the
/// default when there is none, else capped at `max_ms`.
pub fn clamp_timeout_ms(requested_ms: Option<u64>, default_ms: u64, max_ms: u64) -> (r: u64)
    ensures
        r == match requested_ms {
            None => default_ms,
            Some(ms) => if ms <= max_ms { ms } else { max_ms },
        },
{
    match requested_ms {
        None => default_ms,
        Some(ms) => if ms <= max_ms {
            ms
        } else {
            max_ms
        },
    }
}

} // verus!
