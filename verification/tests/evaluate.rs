use browseros_agent::tools::evaluate::{
    exception_message, inline_excerpt, resolve_expression, resolve_inline_limit, safe_prefix,
    wrap_as_async_iife, wrap_as_invoked_fn, wrap_with_job_race, MAX_INLINE_OVERRIDE_CHARS,
};
use browseros_agent::tools::grep::INLINE_PAGE_CONTENT_MAX_CHARS;

#[test]
fn resolve_expression_handles_code_func_and_neither() {
    // A body is wrapped in an async IIFE.
    let code = resolve_expression(Some("return 1;"), None).unwrap_or_default();
    assert!(code.contains("return 1;"));
    assert!(code.starts_with("(async () =>"));
    // A function is invoked, so its return value flows back.
    let func = resolve_expression(None, Some("() => 2")).unwrap_or_default();
    assert!(func.contains("await (() => 2)()"));
    // Code wins if both are provided.
    let both = resolve_expression(Some("return 3;"), Some("() => 4")).unwrap_or_default();
    assert!(both.contains("return 3;"));
    assert!(!both.contains("() => 4"));
    // Neither is an error at the call site.
    assert!(resolve_expression(None, None).is_none());
}

#[test]
fn resolve_inline_limit_defaults_and_clamps() {
    // No override falls back to the small default.
    assert_eq!(resolve_inline_limit(None), INLINE_PAGE_CONTENT_MAX_CHARS);
    // A caller can raise it, up to the hard ceiling.
    assert_eq!(resolve_inline_limit(Some(50_000)), 50_000);
    // Anything above the ceiling is clamped.
    assert_eq!(
        resolve_inline_limit(Some(10_000_000)),
        MAX_INLINE_OVERRIDE_CHARS
    );
}

#[test]
fn script_wrappers_have_exact_shapes() {
    assert_eq!(wrap_as_async_iife("return 1;"), "(async () => {\nreturn 1;\n})()");
    assert_eq!(
        wrap_as_invoked_fn("() => 2"),
        "(async () => { return await (() => 2)(); })()"
    );
}

#[test]
fn job_race_embeds_expression_and_timeout() {
    let s = wrap_with_job_race("1 + 1", 30_000);
    assert!(s.starts_with("(async () => {\n  const work = Promise.resolve(1 + 1);\n  const timeoutMs = 30000;\n"));
    assert!(s.contains("globalThis.__browserosJobs[jobId] = { jobId, status: 'running' };"));
    assert!(s.ends_with("  return { jobId, status: 'running' };\n})()"));
}

#[test]
fn safe_prefix_cuts_at_char_boundaries() {
    assert_eq!(safe_prefix("hello", 10), "hello");
    assert_eq!(safe_prefix("hello", 3), "hel");
    // "é" takes two bytes: a cut inside it backs off before it.
    assert_eq!(safe_prefix("aé", 2), "a");
    assert_eq!(safe_prefix("aé", 3), "aé");
    // A four-byte character.
    assert_eq!(safe_prefix("x😀y", 4), "x");
    assert_eq!(safe_prefix("x😀y", 5), "x😀");
}

#[test]
fn exceptions_prefer_their_description() {
    assert_eq!(
        exception_message("Uncaught", Some("TypeError: x is undefined")),
        "evaluate: TypeError: x is undefined"
    );
    assert_eq!(exception_message("Uncaught", None), "evaluate: Uncaught");
}

#[test]
fn large_results_keep_an_inline_excerpt() {
    assert_eq!(inline_excerpt("short", 5000), None);
    assert_eq!(inline_excerpt("abcdef", 4), Some("abcd".to_string()));
}

#[test]
fn calls_without_a_script_are_refused() {
    use_missing();
}

fn use_missing() {
    assert_eq!(
        browseros_agent::tools::evaluate::missing_script_message(),
        "evaluate: provide `code` (an async body) or `func` (a function to invoke)"
    );
    assert_eq!(browseros_agent::tools::evaluate::described_result(None), "undefined");
    assert_eq!(browseros_agent::tools::evaluate::described_result(Some("Promise")), "Promise");
}
