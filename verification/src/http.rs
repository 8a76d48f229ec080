//! The HTTP API's request guards: what a request to the loopback server is
//! answered before it reaches a route.
//!
//! Headers come in as [`HeaderText`]: absent, present but not readable as
//! visible ASCII, or their text. The server framework turns the decisions
//! here into responses.

use vstd::prelude::*;

use ulid::Ulid;

use crate::text::{
    ascii_lowercase, ascii_lowercase_of, has_substring, occurs_in, same_text, starts_with,
    trim_text, trimmed,
};

verus! {

/// A request header as the guards see it.
pub enum HeaderText {
    Absent,
    /// Present, but not readable as text.
    Unreadable,
    Text(String),
}

/// The methods the guards tell apart.
#[derive(Clone, Copy, PartialEq, Eq, Structural, Debug)]
pub enum HttpMethod {
    Get,
    Head,
    Post,
    Put,
    Patch,
    Delete,
    Options,
    Other,
}

/// The stable origin of the BrowserOS neo extension.
pub const BROWSERCLAW_EXTENSION_ORIGIN: &'static str =
    "chrome-extension://pjimfkbpehlcllblajnpfamdfjhhlgkc";

/// Path of the recording ingest route.
pub const RECORDING_EVENTS_PATH: &'static str = "/api/v1/recordings/events";

/// Whether an `Origin` value names an HTTP(S) page that is not on loopback.
pub open spec fn foreign_page_origin(origin: Seq<char>) -> bool {
    let o = trimmed(origin);
    &&& o.len() > 0
    &&& o != "null"@
    &&& ("http://"@.is_prefix_of(o) || "https://"@.is_prefix_of(o))
    &&& !(occurs_in(o, "://127.0.0.1"@) || occurs_in(o, "://localhost"@) || occurs_in(o, "://[::1]"@))
}

/// Whether a `Sec-Fetch-Site` value marks a fetch from another site.
pub open spec fn cross_site_fetch(site: Seq<char>) -> bool {
    trimmed(site) == "cross-site"@ || trimmed(site) == "same-site"@
}

pub open spec fn browser_originated(origin: HeaderText, sec_fetch_site: HeaderText) -> bool {
    (origin matches HeaderText::Text(o) && foreign_page_origin(o@))
        || (sec_fetch_site matches HeaderText::Text(s) && cross_site_fetch(s@))
}

/// Whether a request to the MCP endpoint comes from a browser page: an
/// HTTP(S) page origin off loopback, or a cross-site or same-site fetch.
/// Native clients send no origin and no fetch metadata, or `Sec-Fetch-Site: none`.
pub fn browser_originated_mcp_request(origin: &HeaderText, sec_fetch_site: &HeaderText) -> (r: bool)
    ensures
        r == browser_originated(*origin, *sec_fetch_site),
{
    if let HeaderText::Text(o) = origin {
        let t = trim_text(o.as_str());
        if crate::text::chars_of(t.as_str()).len() > 0 && !same_text(t.as_str(), "null") && (starts_with(t.as_str(), "http://")
            || starts_with(t.as_str(), "https://")) {
            let loopback = has_substring(t.as_str(), "://127.0.0.1") || has_substring(
                t.as_str(),
                "://localhost",
            ) || has_substring(t.as_str(), "://[::1]");
            if !loopback {
                return true;
            }
        }
    }
    match sec_fetch_site {
        HeaderText::Text(s) => {
            let t = trim_text(s.as_str());
            same_text(t.as_str(), "cross-site") || same_text(t.as_str(), "same-site")
        },
        _ => false,
    }
}

/// What the MCP endpoint answers before the MCP service sees a request.
#[derive(Clone, Copy, PartialEq, Eq, Structural, Debug)]
pub enum HygieneVerdict {
    /// 204 to a preflight.
    NoContent,
    /// 403 "unsupported request".
    Forbidden,
    /// 415 "unsupported content type".
    UnsupportedMediaType,
    /// Handed on to the MCP service.
    Pass,
}

/// Whether a request must carry a JSON body: POST, PUT and PATCH always; a
/// DELETE only when it names a content type (session teardown has none).
pub open spec fn needs_json(method: HttpMethod, content_type: HeaderText) -> bool {
    match method {
        HttpMethod::Post | HttpMethod::Put | HttpMethod::Patch => true,
        HttpMethod::Delete => !(content_type is Absent),
        _ => false,
    }
}

pub open spec fn is_json(content_type: HeaderText) -> bool {
    content_type matches HeaderText::Text(t) && occurs_in(ascii_lowercase_of(t@), "application/json"@)
}

pub open spec fn hygiene(
    method: HttpMethod,
    origin: HeaderText,
    sec_fetch_site: HeaderText,
    content_type: HeaderText,
) -> HygieneVerdict {
    if method == HttpMethod::Options {
        HygieneVerdict::NoContent
    } else if browser_originated(origin, sec_fetch_site) {
        HygieneVerdict::Forbidden
    } else if needs_json(method, content_type) && !is_json(content_type) {
        HygieneVerdict::UnsupportedMediaType
    } else {
        HygieneVerdict::Pass
    }
}

/// The MCP endpoint's request hygiene: preflights are answered at once,
/// browser-page requests refused, and bodies other than JSON refused.
pub fn mcp_request_hygiene(
    method: HttpMethod,
    origin: &HeaderText,
    sec_fetch_site: &HeaderText,
    content_type: &HeaderText,
) -> (r: HygieneVerdict)
    ensures
        r == hygiene(method, *origin, *sec_fetch_site, *content_type),
{
    if method == HttpMethod::Options {
        return HygieneVerdict::NoContent;
    }
    if browser_originated_mcp_request(origin, sec_fetch_site) {
        return HygieneVerdict::Forbidden;
    }
    let json_required = match method {
        HttpMethod::Post | HttpMethod::Put | HttpMethod::Patch => true,
        HttpMethod::Delete => match content_type {
            HeaderText::Absent => false,
            _ => true,
        },
        _ => false,
    };
    if json_required {
        let json = match content_type {
            HeaderText::Text(t) => {
                let lower = ascii_lowercase(t.as_str());
                has_substring(lower.as_str(), "application/json")
            },
            _ => false,
        };
        if !json {
            return HygieneVerdict::UnsupportedMediaType;
        }
    }
    HygieneVerdict::Pass
}

/// The token a request presents: the `Authorization` value after
/// `Bearer `, else the `x-browseros-token` value.
pub open spec fn presented_token(authorization: HeaderText, token_header: HeaderText) -> Option<Seq<char>> {
    match authorization {
        HeaderText::Text(a) if "Bearer "@.is_prefix_of(a@) => Some(a@.skip(7)),
        _ => match token_header {
            HeaderText::Text(t) => Some(t@),
            _ => None,
        },
    }
}

pub open spec fn auth_passes(
    expected: Option<Seq<char>>,
    path: Seq<char>,
    authorization: HeaderText,
    token_header: HeaderText,
) -> bool {
    match expected {
        None => true,
        Some(e) => e.len() == 0 || path == "/system/health"@ || path == "/health"@ || !"/api/"@.is_prefix_of(
            path,
        ) || presented_token(authorization, token_header) == Some(e),
    }
}

fn skip_chars(s: &str, n: usize) -> (r: String)
    requires
        n <= s@.len(),
    ensures
        r@ == s@.skip(n as int),
{
    let cs = crate::text::chars_of(s);
    let mut r = String::new();
    let mut i: usize = n;
    while i < cs.len()
        invariant
            cs@ == s@,
            n <= i <= cs.len(),
            r@ == s@.subrange(n as int, i as int),
        decreases cs.len() - i,
    {
        crate::text::push_char(&mut r, cs[i]);
        assert(s@.subrange(n as int, i + 1) =~= s@.subrange(n as int, i as int).push(cs@[i as int]));
        i = i + 1;
    }
    assert(s@.subrange(n as int, cs.len() as int) =~= s@.skip(n as int));
    r
}

/// Whether a request passes the auth token check (else 401 "invalid or
/// missing auth token"). With no token configured, or an empty one, every
/// request passes; so do health checks and every path outside `/api/`.
pub fn require_auth_token(
    expected: Option<&str>,
    path: &str,
    authorization: &HeaderText,
    token_header: &HeaderText,
) -> (r: bool)
    ensures
        r == auth_passes(
            match expected {
                Some(e) => Some(e@),
                None => None,
            },
            path@,
            *authorization,
            *token_header,
        ),
{
    let expected = match expected {
        None => return true,
        Some(e) => e,
    };
    if crate::text::chars_of(expected).len() == 0 {
        return true;
    }
    if same_text(path, "/system/health") || same_text(path, "/health") {
        return true;
    }
    if !starts_with(path, "/api/") {
        return true;
    }
    let bearer = match authorization {
        HeaderText::Text(a) => if starts_with(a.as_str(), "Bearer ") {
            proof {
                reveal_strlit("Bearer ");
            }
            Some(skip_chars(a.as_str(), 7))
        } else {
            None
        },
        _ => None,
    };
    match bearer {
        Some(b) => same_text(b.as_str(), expected),
        None => match token_header {
            HeaderText::Text(t) => same_text(t.as_str(), expected),
            _ => false,
        },
    }
}

/// Whether a request is a preflight answered 204 before any route.
pub fn options_preflight(method: HttpMethod) -> (r: bool)
    ensures
        r == (method == HttpMethod::Options),
{
    method == HttpMethod::Options
}

/// The status of a request no route takes: 204 to a preflight, else 404.
pub fn route_fallback(method: HttpMethod) -> (status: u16)
    ensures
        status == (if method == HttpMethod::Options { 204u16 } else { 404u16 }),
{
    if method == HttpMethod::Options {
        204
    } else {
        404
    }
}

pub open spec fn trusted_origin(origin: HeaderText, sec_fetch_site: HeaderText) -> bool {
    match origin {
        HeaderText::Text(o) => o@ == BROWSERCLAW_EXTENSION_ORIGIN@ || (o@ == "null"@
            && (sec_fetch_site matches HeaderText::Text(s) && s@ == "none"@)),
        _ => true,
    }
}

/// Whether recording ingest trusts the request's origin: no readable origin,
/// the extension's, or `null` together with `Sec-Fetch-Site: none` (the
/// native recorder).
pub fn trusted_recording_origin(origin: &HeaderText, sec_fetch_site: &HeaderText) -> (r: bool)
    ensures
        r == trusted_origin(*origin, *sec_fetch_site),
{
    match origin {
        HeaderText::Text(o) => {
            if same_text(o.as_str(), BROWSERCLAW_EXTENSION_ORIGIN) {
                true
            } else if same_text(o.as_str(), "null") {
                match sec_fetch_site {
                    HeaderText::Text(s) => same_text(s.as_str(), "none"),
                    _ => false,
                }
            } else {
                false
            }
        },
        _ => true,
    }
}

/// The characters of a ULID's text.
pub open spec fn crockford_char(c: char) -> bool {
    ('0' <= c && c <= '9') || ('A' <= c && c <= 'Z' && c != 'I' && c != 'L' && c != 'O' && c != 'U')
}

/// A fresh ULID as text (`ulid::Ulid::generate().to_string()`). It rests on
/// the clock and a random source; claimed of every outcome: 26 characters of
/// the Crockford base32 alphabet.
#[verifier::external_body]
fn fresh_ulid() -> (r: String)
    ensures
        r@.len() == 26,
        forall|i: int| 0 <= i < 26 ==> crockford_char(#[trigger] r@[i]),
{
    Ulid::generate().to_string()
}

/// How a request starts.
pub struct RequestStart {
    /// The request id, echoed as `x-request-id`.
    pub request_id: String,
    /// Whether the request is refused 403 "recording ingest is restricted
    /// to BrowserOS neo" before its route.
    pub reject_recording_origin: bool,
}

/// Starts a request: a fresh request id, and whether a recording ingest
/// comes from an untrusted origin.
pub fn request_context(path: &str, origin: &HeaderText, sec_fetch_site: &HeaderText) -> (r: RequestStart)
    ensures
        r.reject_recording_origin == (path@ == RECORDING_EVENTS_PATH@ && !trusted_origin(*origin, *sec_fetch_site)),
        r.request_id@.len() == 26,
        forall|i: int| 0 <= i < 26 ==> crockford_char(#[trigger] r.request_id@[i]),
{
    let request_id = fresh_ulid();
    let reject = same_text(path, RECORDING_EVENTS_PATH) && !trusted_recording_origin(origin, sec_fetch_site);
    RequestStart { request_id, reject_recording_origin: reject }
}

/// How a finished request is logged.
#[derive(Clone, Copy, PartialEq, Eq, Structural, Debug)]
pub enum LogLevel {
    /// Not logged: traffic below 400 stays quiet on purpose.
    Quiet,
    Warn,
    Error,
}

/// The log level of a finished request by its status.
pub fn failure_log_level(status: u16) -> (r: LogLevel)
    ensures
        r == (if status >= 500 { LogLevel::Error } else if status >= 400 { LogLevel::Warn } else { LogLevel::Quiet }),
{
    if status >= 500 {
        LogLevel::Error
    } else if status >= 400 {
        LogLevel::Warn
    } else {
        LogLevel::Quiet
    }
}

pub open spec fn cors_header_list() -> Seq<(Seq<char>, Seq<char>)> {
    seq![
        ("access-control-allow-origin"@, "*"@),
        ("access-control-allow-methods"@, "GET,POST,PUT,PATCH,DELETE,OPTIONS"@),
        (
            "access-control-allow-headers"@,
            "accept,content-type,authorization,mcp-session-id,mcp-protocol-version,last-event-id,x-recording-batch-id,x-recording-tab-id,x-recording-document-id,x-recording-has-gap"@,
        ),
    ]
}

pub open spec fn header_views(v: Seq<(String, String)>) -> Seq<(Seq<char>, Seq<char>)> {
    v.map_values(|h: (String, String)| (h.0@, h.1@))
}

/// The CORS headers set on a response: all three, unless the request was a
/// refused recording ingest, which gets none.
pub fn cors_headers(reject_recording_origin: bool) -> (r: Vec<(String, String)>)
    ensures
        header_views(r@) == (if reject_recording_origin { Seq::empty() } else { cors_header_list() }),
{
    let mut r: Vec<(String, String)> = Vec::new();
    if !reject_recording_origin {
        r.push(("access-control-allow-origin".to_owned(), "*".to_owned()));
        r.push(("access-control-allow-methods".to_owned(), "GET,POST,PUT,PATCH,DELETE,OPTIONS".to_owned()));
        r.push(
            (
                "access-control-allow-headers".to_owned(),
                "accept,content-type,authorization,mcp-session-id,mcp-protocol-version,last-event-id,x-recording-batch-id,x-recording-tab-id,x-recording-document-id,x-recording-has-gap".to_owned(),
            ),
        );
    }
    assert(header_views(r@) =~= (if reject_recording_origin { Seq::empty() } else { cors_header_list() }));
    r
}

} // verus!
