//! `evaluate`: JavaScript evaluated in a page through CDP `Runtime.evaluate`.
//!
//! The script forms stand here: a `code` body or a `func` expression, raced
//! inside the page against the timeout so that work outliving it can be
//! polled as a job; and how much of a result is kept inline.

use vstd::prelude::*;

use crate::text::{decimal, fits_in_bytes, prefix_within, prefix_within_bytes, push_str, u64_decimal, utf8_len};

verus! {


/// How `evaluate` is announced.
pub fn definition() -> (r: crate::framework::ToolDef)
    ensures
        r.name@ == "evaluate"@,
        r.description@ == DESCRIPTION@,
        r.hints == crate::framework::ToolHints::OpenWorld,
        r.metadata.accepts_page_arg == crate::framework::takes_page("evaluate"@),
{
    crate::framework::tool_def("evaluate", DESCRIPTION, crate::framework::ToolHints::OpenWorld)
}

/// Default evaluation time.
pub const DEFAULT_TIMEOUT_MS: u64 = 30_000;
/// Ceiling of the evaluation time.
pub const MAX_TIMEOUT_MS: u64 = 30_000;
/// Ceiling of the opt-in `maxChars`: a caller may pull up to this much of a
/// large result inline instead of having it spilled to a local file.
pub const MAX_INLINE_OVERRIDE_CHARS: usize = 200_000;

pub const DESCRIPTION: &'static str = "Evaluate JavaScript in a page context through CDP Runtime.evaluate. Prefer `run` for multi-step work; reach for evaluate only as a fallback for a one-off page-context read or script. Use this for page-state reads or small DOM scripts that are awkward with read/grep. Provide `code` (an async body; use `return` to read a value) or `func` (a function expression like `() => {...}` that gets invoked). Return a value to read it back. `timeout` is capped at 30000 ms; for page work that needs longer, start it on the page and poll with short follow-up calls rather than one long evaluate. A result larger than the inline limit is truncated and its full text is written to a local file whose path a remote MCP client cannot read; return only what you need, or raise `maxChars` to receive more of the value inline.";

/// A `code` body run as an async function.
pub open spec fn async_iife(code: Seq<char>) -> Seq<char> {
    "(async () => {\n"@ + code + "\n})()"@
}

/// A `func` expression invoked, its result awaited.
pub open spec fn invoked_fn(func: Seq<char>) -> Seq<char> {
    "(async () => { return await ("@ + func + ")(); })()"@
}

/// Wraps a `code` body in an async IIFE.
pub fn wrap_as_async_iife(code: &str) -> (r: String)
    ensures
        r@ == async_iife(code@),
{
    let mut s = "(async () => {\n".to_owned();
    push_str(&mut s, code);
    push_str(&mut s, "\n})()");
    s
}

/// Wraps a function expression so that it is invoked and awaited.
pub fn wrap_as_invoked_fn(func: &str) -> (r: String)
    ensures
        r@ == invoked_fn(func@),
{
    let mut s = "(async () => { return await (".to_owned();
    push_str(&mut s, func);
    push_str(&mut s, ")(); })()");
    s
}

pub open spec fn opt_text(s: Option<&str>) -> Option<Seq<char>> {
    match s {
        Some(t) => Some(t@),
        None => None,
    }
}

/// The script to evaluate: `code` wins when both are given; neither is `None`.
pub open spec fn expression_of(code: Option<Seq<char>>, func: Option<Seq<char>>) -> Option<Seq<char>> {
    match code {
        Some(c) => Some(async_iife(c)),
        None => match func {
            Some(f) => Some(invoked_fn(f)),
            None => None,
        },
    }
}

/// Builds the script to evaluate from either argument form.
pub fn resolve_expression(code: Option<&str>, func: Option<&str>) -> (r: Option<String>)
    ensures
        match r {
            Some(s) => expression_of(opt_text(code), opt_text(func)) == Some(s@),
            None => expression_of(opt_text(code), opt_text(func)) is None,
        },
{
    match code {
        Some(c) => Some(wrap_as_async_iife(c)),
        None => match func {
            Some(f) => Some(wrap_as_invoked_fn(f)),
            None => None,
        },
    }
}

pub open spec fn race_head() -> Seq<char> {
    "(async () => {\n  const work = Promise.resolve("@
}

pub open spec fn race_middle() -> Seq<char> {
    ");\n  const timeoutMs = "@
}

pub open spec fn race_tail() -> Seq<char> {
    ";\n  const raced = await Promise.race([\n    work.then((v) => ({ k: 'ok', v })),\n    new Promise((resolve) => setTimeout(() => resolve({ k: 'to' }), timeoutMs)),\n  ]);\n  if (raced.k === 'ok') return raced.v;\n  const jobId = 'job-ev-' + Math.random().toString(36).slice(2) + Date.now().toString(36);\n  globalThis.__browserosJobs = globalThis.__browserosJobs || {};\n  globalThis.__browserosJobs[jobId] = { jobId, status: 'running' };\n  work.then((v) => { globalThis.__browserosJobs[jobId] = { jobId, status: 'done', value: v }; })\n      .catch((e) => { globalThis.__browserosJobs[jobId] = { jobId, status: 'error', error: String(e && e.message ? e.message : e) }; });\n  return { jobId, status: 'running' };\n})()"@
}

/// The script raced against `timeout_ms` inside the page: its value when it
/// settles in time, else a job record `{ jobId, status: 'running' }` kept in
/// `globalThis.__browserosJobs` and completed when the work ends.
pub open spec fn job_race(expression: Seq<char>, timeout_ms: u64) -> Seq<char> {
    race_head() + expression + race_middle() + decimal(timeout_ms as nat) + race_tail()
}

/// Races the script against the timeout inside the page, so that work
/// outliving it can be polled instead of aborted.
pub fn wrap_with_job_race(expression: &str, timeout_ms: u64) -> (r: String)
    ensures
        r@ == job_race(expression@, timeout_ms),
{
    let mut s = "(async () => {\n  const work = Promise.resolve(".to_owned();
    push_str(&mut s, expression);
    push_str(&mut s, ");\n  const timeoutMs = ");
    let digits = u64_decimal(timeout_ms);
    push_str(&mut s, digits.as_str());
    push_str(&mut s, ";\n  const raced = await Promise.race([\n    work.then((v) => ({ k: 'ok', v })),\n    new Promise((resolve) => setTimeout(() => resolve({ k: 'to' }), timeoutMs)),\n  ]);\n  if (raced.k === 'ok') return raced.v;\n  const jobId = 'job-ev-' + Math.random().toString(36).slice(2) + Date.now().toString(36);\n  globalThis.__browserosJobs = globalThis.__browserosJobs || {};\n  globalThis.__browserosJobs[jobId] = { jobId, status: 'running' };\n  work.then((v) => { globalThis.__browserosJobs[jobId] = { jobId, status: 'done', value: v }; })\n      .catch((e) => { globalThis.__browserosJobs[jobId] = { jobId, status: 'error', error: String(e && e.message ? e.message : e) }; });\n  return { jobId, status: 'running' };\n})()");
    s
}

/// `text` cut at the last character boundary at or before byte `max_chars`.
pub fn safe_prefix(text: &str, max_chars: usize) -> (r: String)
    ensures
        r@ == prefix_within(text@, max_chars as nat),
{
    if fits_in_bytes(text, max_chars) {
        proof {
            reveal_with_fuel(prefix_within, 2);
        }
        return text.to_string();
    }
    prefix_within_bytes(text, max_chars)
}

/// The inline size budget of a result: the caller's `maxChars` up to
/// [`MAX_INLINE_OVERRIDE_CHARS`], else the small default.
pub fn resolve_inline_limit(max_chars: Option<u64>) -> (r: usize)
    ensures
        r == match max_chars {
            Some(n) => if n >= MAX_INLINE_OVERRIDE_CHARS as u64 { MAX_INLINE_OVERRIDE_CHARS as u64 } else { n },
            None => crate::tools::grep::INLINE_PAGE_CONTENT_MAX_CHARS as u64,
        },
{
    match max_chars {
        Some(n) => if n >= 200_000 {
            MAX_INLINE_OVERRIDE_CHARS
        } else {
            n as usize
        },
        None => crate::tools::grep::INLINE_PAGE_CONTENT_MAX_CHARS,
    }
}

/// The refusal of a call with neither `code` nor `func`.
pub fn missing_script_message() -> (r: String)
    ensures
        r@ == "evaluate: provide `code` (an async body) or `func` (a function to invoke)"@,
{
    "evaluate: provide `code` (an async body) or `func` (a function to invoke)".to_owned()
}

/// "evaluate: " and the exception: its description when the page gave one,
/// else the exception text.
pub fn exception_message(text: &str, description: Option<&str>) -> (r: String)
    ensures
        r@ == "evaluate: "@ + match description {
            Some(d) => d@,
            None => text@,
        },
{
    let mut s = "evaluate: ".to_owned();
    match description {
        Some(d) => push_str(&mut s, d),
        None => push_str(&mut s, text),
    }
    s
}

/// The text of a result without a value: its description, else "undefined".
pub fn described_result(description: Option<&str>) -> (r: String)
    ensures
        r@ == match description {
            Some(d) => d@,
            None => "undefined"@,
        },
{
    match description {
        Some(d) => d.to_string(),
        None => "undefined".to_owned(),
    }
}

/// What of a result stays inline: `None` when it fits the limit, else the
/// excerpt kept while the full text goes to a file.
pub fn inline_excerpt(text: &str, limit: usize) -> (r: Option<String>)
    ensures
        match r {
            None => utf8_len(text@) <= limit,
            Some(e) => utf8_len(text@) > limit && e@ == prefix_within(text@, limit as nat),
        },
{
    if fits_in_bytes(text, limit) {
        None
    } else {
        Some(prefix_within_bytes(text, limit))
    }
}

fn note_head(limit: usize, text: &str) -> (r: String)
    requires
        utf8_len(text@) <= usize::MAX,
    ensures
        r@ == "Evaluate result truncated at "@ + decimal(limit as nat) + " bytes. Full result ("@ + decimal(
            utf8_len(text@),
        ) + " bytes)"@,
{
    let mut s = "Evaluate result truncated at ".to_owned();
    let l = u64_decimal(limit as u64);
    push_str(&mut s, l.as_str());
    push_str(&mut s, " bytes. Full result (");
    let n = u64_decimal(crate::text::byte_len(text) as u64);
    push_str(&mut s, n.as_str());
    push_str(&mut s, " bytes)");
    s
}

/// The note after a cut result whose full text was saved at `path`.
pub fn saved_note(limit: usize, text: &str, path: &str) -> (r: String)
    requires
        utf8_len(text@) <= usize::MAX,
    ensures
        r@ == "Evaluate result truncated at "@ + decimal(limit as nat) + " bytes. Full result ("@ + decimal(
            utf8_len(text@),
        ) + " bytes)"@ + " saved to: "@ + path@,
{
    let mut s = note_head(limit, text);
    push_str(&mut s, " saved to: ");
    push_str(&mut s, path);
    s
}

/// The note after a cut result whose full text could not be saved.
pub fn unsaved_note(limit: usize, text: &str, save_error: &str) -> (r: String)
    requires
        utf8_len(text@) <= usize::MAX,
    ensures
        r@ == "Evaluate result truncated at "@ + decimal(limit as nat) + " bytes. Full result ("@ + decimal(
            utf8_len(text@),
        ) + " bytes)"@ + " could not be saved to a BrowserOS output file: "@ + save_error@,
{
    let mut s = note_head(limit, text);
    push_str(&mut s, " could not be saved to a BrowserOS output file: ");
    push_str(&mut s, save_error);
    s
}


/// What stays inline of a result fits the inline limit, and is a prefix of
/// the result.
pub proof fn law_excerpt_fits(text: Seq<char>, limit: nat)
    ensures
        utf8_len(prefix_within(text, limit)) <= limit,
        prefix_within(text, limit).is_prefix_of(text),
{
    crate::text::lemma_prefix_within_fits(text, limit);
}

} // verus!
