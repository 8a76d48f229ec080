use browseros_agent::http::{
    browser_originated_mcp_request, cors_headers, failure_log_level, mcp_request_hygiene,
    options_preflight, request_context, require_auth_token, route_fallback,
    trusted_recording_origin, HeaderText, HttpMethod, HygieneVerdict, LogLevel,
    BROWSERCLAW_EXTENSION_ORIGIN, RECORDING_EVENTS_PATH,
};

fn text(s: &str) -> HeaderText {
    HeaderText::Text(s.to_string())
}

#[test]
fn page_origins_off_loopback_are_browser_requests() {
    let none = HeaderText::Absent;
    assert!(browser_originated_mcp_request(&text("https://evil.example"), &none));
    assert!(browser_originated_mcp_request(&text("  http://evil.example  "), &none));
    assert!(!browser_originated_mcp_request(&text("http://127.0.0.1:9100"), &none));
    assert!(!browser_originated_mcp_request(&text("http://localhost:3000"), &none));
    assert!(!browser_originated_mcp_request(&text("http://[::1]:9100"), &none));
    assert!(!browser_originated_mcp_request(&text("null"), &none));
    assert!(!browser_originated_mcp_request(&text("chrome-extension://abc"), &none));
    assert!(!browser_originated_mcp_request(&text(""), &none));
    assert!(!browser_originated_mcp_request(&none, &none));
}

#[test]
fn cross_site_fetches_are_browser_requests() {
    let none = HeaderText::Absent;
    assert!(browser_originated_mcp_request(&none, &text("cross-site")));
    assert!(browser_originated_mcp_request(&none, &text(" same-site ")));
    assert!(!browser_originated_mcp_request(&none, &text("none")));
    assert!(!browser_originated_mcp_request(&none, &text("same-origin")));
    assert!(!browser_originated_mcp_request(&none, &HeaderText::Unreadable));
}

#[test]
fn mcp_hygiene_answers() {
    let none = HeaderText::Absent;
    assert_eq!(mcp_request_hygiene(HttpMethod::Options, &text("https://evil.example"), &none, &none), HygieneVerdict::NoContent);
    assert_eq!(mcp_request_hygiene(HttpMethod::Post, &text("https://evil.example"), &none, &none), HygieneVerdict::Forbidden);
    assert_eq!(mcp_request_hygiene(HttpMethod::Post, &none, &none, &none), HygieneVerdict::UnsupportedMediaType);
    assert_eq!(mcp_request_hygiene(HttpMethod::Post, &none, &none, &text("text/plain")), HygieneVerdict::UnsupportedMediaType);
    assert_eq!(mcp_request_hygiene(HttpMethod::Post, &none, &none, &text("Application/JSON; charset=utf-8")), HygieneVerdict::Pass);
    assert_eq!(mcp_request_hygiene(HttpMethod::Patch, &none, &none, &HeaderText::Unreadable), HygieneVerdict::UnsupportedMediaType);
    // Session teardown carries no body and no content type.
    assert_eq!(mcp_request_hygiene(HttpMethod::Delete, &none, &none, &none), HygieneVerdict::Pass);
    assert_eq!(mcp_request_hygiene(HttpMethod::Delete, &none, &none, &text("text/plain")), HygieneVerdict::UnsupportedMediaType);
    assert_eq!(mcp_request_hygiene(HttpMethod::Get, &none, &none, &none), HygieneVerdict::Pass);
}

#[test]
fn auth_token_guards_the_api_only() {
    let none = HeaderText::Absent;
    assert!(require_auth_token(None, "/api/v1/sessions", &none, &none));
    assert!(require_auth_token(Some(""), "/api/v1/sessions", &none, &none));
    assert!(require_auth_token(Some("s3"), "/system/health", &none, &none));
    assert!(require_auth_token(Some("s3"), "/health", &none, &none));
    assert!(require_auth_token(Some("s3"), "/mcp", &none, &none));
    assert!(!require_auth_token(Some("s3"), "/api/v1/sessions", &none, &none));
    assert!(require_auth_token(Some("s3"), "/api/v1/sessions", &text("Bearer s3"), &none));
    assert!(!require_auth_token(Some("s3"), "/api/v1/sessions", &text("Bearer nope"), &text("s3")));
    assert!(require_auth_token(Some("s3"), "/api/v1/sessions", &text("Basic s3"), &text("s3")));
    assert!(require_auth_token(Some("s3"), "/api/v1/sessions", &none, &text("s3")));
    assert!(!require_auth_token(Some("s3"), "/api/v1/sessions", &none, &text("s4")));
}

#[test]
fn preflight_and_fallback() {
    assert!(options_preflight(HttpMethod::Options));
    assert!(!options_preflight(HttpMethod::Get));
    assert_eq!(route_fallback(HttpMethod::Options), 204);
    assert_eq!(route_fallback(HttpMethod::Get), 404);
}

#[test]
fn recording_origins() {
    let none = HeaderText::Absent;
    assert!(trusted_recording_origin(&none, &none));
    assert!(trusted_recording_origin(&HeaderText::Unreadable, &none));
    assert!(trusted_recording_origin(&text(BROWSERCLAW_EXTENSION_ORIGIN), &none));
    assert!(trusted_recording_origin(&text("null"), &text("none")));
    assert!(!trusted_recording_origin(&text("null"), &text("cross-site")));
    assert!(!trusted_recording_origin(&text("null"), &none));
    assert!(!trusted_recording_origin(&text("https://example.com"), &none));
}

#[test]
fn request_context_rejects_untrusted_recording_ingest() {
    let start = request_context(RECORDING_EVENTS_PATH, &text("https://example.com"), &HeaderText::Absent);
    assert!(start.reject_recording_origin);
    assert_eq!(start.request_id.len(), 26);
    let other = request_context("/api/v1/sessions", &text("https://example.com"), &HeaderText::Absent);
    assert!(!other.reject_recording_origin);
    assert_ne!(start.request_id, other.request_id);
    assert!(cors_headers(true).is_empty());
    let cors = cors_headers(false);
    assert_eq!(cors.len(), 3);
    assert_eq!(cors[0], ("access-control-allow-origin".to_string(), "*".to_string()));
}

#[test]
fn failures_are_logged_by_status() {
    assert_eq!(failure_log_level(200), LogLevel::Quiet);
    assert_eq!(failure_log_level(404), LogLevel::Warn);
    assert_eq!(failure_log_level(503), LogLevel::Error);
}
