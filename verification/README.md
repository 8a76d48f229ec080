# browseros_agent

The verified core of the BrowserOS agent: the browser-tab bookkeeping, the
post-action settle and page-load waits, the CDP client's connection logic,
the MCP browser tools' argument rules and replies, the job table behind
`poll`, the JSON Schema rewriting for strict MCP clients, and the HTTP
server's request guards. The functions in `src/` are proved with Verus
against their contracts, except the few `#[verifier::external_body]`
wrappers that call the url, serde_json, regex, ulid and uuid crates and
std's `String::push`: their contracts are trusted, and each says in its doc
comment what it claims. The laws that span several functions stand as proof
functions named `law_*`.

Layout:

- `src/` – the library. Loops that alternate browser calls and decisions
  (the settle, the load wait, the new-tab wait, reconnects, keepalives) are
  state machines that say what to do next and take back what came of it.
- `app/` – the runtime around it: sockets, tasks and timers, serde and
  schemars types for tool arguments, axum middleware, and the few
  floating-point conversions.
- `tests/` – tests of the library on concrete values.
