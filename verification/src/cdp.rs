//! The CDP client's connection logic: its options, the flags that decide
//! what a lost connection sets off, the reconnect and keepalive loops, the
//! checks on the websocket endpoint, the request frames it writes and the
//! routing of the messages it reads.
//!
//! Sockets, tasks and timers stay with the driver: each loop here is a
//! state machine that says what to do next and takes back what came of it.

use vstd::prelude::*;

use url::Url;

use crate::schema::{get_field, json_get, json_view, JsonValue, JsonView};
use crate::text::{chars_of, decimal, push_str, u64_decimal};

verus! {

/// What the client does when reconnecting has failed a whole round.
#[derive(Clone, Copy, PartialEq, Eq, Structural, Debug)]
pub enum ReconnectPolicy {
    /// Exit the process with this code.
    Exit(i32),
    /// Start another round.
    KeepTrying,
}

/// How the client connects; durations are in milliseconds.
pub struct ConnectOptions {
    pub port: u16,
    pub host: Option<String>,
    pub connect_timeout_ms: u64,
    pub connect_retry_delay_ms: u64,
    pub reconnect_delay_ms: u64,
    pub keepalive_interval_ms: u64,
    pub keepalive_timeout_ms: u64,
    pub request_timeout_ms: u64,
    pub connect_max_retries: usize,
    pub reconnect_max_retries: usize,
    pub reconnect_policy: ReconnectPolicy,
}

/// The default options, on `port`.
pub open spec fn default_options_on(o: ConnectOptions, port: u16) -> bool {
    &&& o.port == port
    &&& o.host is None
    &&& o.connect_timeout_ms == 10_000
    &&& o.connect_retry_delay_ms == 1_000
    &&& o.reconnect_delay_ms == 5_000
    &&& o.keepalive_interval_ms == 30_000
    &&& o.keepalive_timeout_ms == 10_000
    &&& o.request_timeout_ms == 120_000
    &&& o.connect_max_retries == 3
    &&& o.reconnect_max_retries == 3
    &&& o.reconnect_policy == ReconnectPolicy::Exit(1)
}

impl Default for ConnectOptions {
    /// Port 9000, no host, 10 s to connect and 1 s between attempts, 5 s
    /// before a reconnect, a keepalive every 30 s answered within 10 s,
    /// requests answered within 120 s (a 30 s evaluate race plus a follow-up
    /// poll), 3 retries each way, and exit code 1 when reconnecting fails.
    fn default() -> (r: Self)
        ensures
            default_options_on(r, 9000),
    {
        ConnectOptions {
            port: 9000,
            host: None,
            connect_timeout_ms: 10_000,
            connect_retry_delay_ms: 1_000,
            reconnect_delay_ms: 5_000,
            keepalive_interval_ms: 30_000,
            keepalive_timeout_ms: 10_000,
            request_timeout_ms: 120_000,
            connect_max_retries: 3,
            reconnect_max_retries: 3,
            reconnect_policy: ReconnectPolicy::Exit(1),
        }
    }
}

impl ConnectOptions {
    /// The default options on another port.
    pub fn new(port: u16) -> (r: Self)
        ensures
            default_options_on(r, port),
    {
        let mut o = ConnectOptions::default();
        o.port = port;
        o
    }
}

/// The client's connection flags and socket epoch.
pub struct ConnectionFlags {
    pub connected: bool,
    pub disconnecting: bool,
    pub reconnecting: bool,
    /// Advances with every socket installed, so that consumers can drop
    /// state bound to an earlier connection.
    pub epoch: u64,
}

/// What a lost connection sets off.
#[derive(Clone, Copy, PartialEq, Eq, Structural, Debug)]
pub enum LossAction {
    /// Nothing: the loss was already handled and a reconnect is under way.
    Ignore,
    /// Drop the socket and fail every pending request as lost.
    RejectPending,
    /// As `RejectPending`, then start the reconnect loop.
    RejectAndReconnect,
}

/// How the reader ends when its socket closes.
#[derive(Clone, Copy, PartialEq, Eq, Structural, Debug)]
pub enum ReaderEnd {
    /// The client is disconnecting: fail pending requests as not connected.
    RejectNotConnected,
    /// The connection was lost: hand over to [`ConnectionFlags::connection_lost`].
    ConnectionLost,
}

pub open spec fn loss_action(before: ConnectionFlags) -> LossAction {
    if !before.connected && before.reconnecting {
        LossAction::Ignore
    } else if before.disconnecting || before.reconnecting {
        LossAction::RejectPending
    } else {
        LossAction::RejectAndReconnect
    }
}

impl ConnectionFlags {
    /// A client before its first socket.
    pub fn new() -> (r: Self)
        ensures
            !r.connected && !r.disconnecting && !r.reconnecting && r.epoch == 0,
    {
        ConnectionFlags { connected: false, disconnecting: false, reconnecting: false, epoch: 0 }
    }

    /// A socket was installed: connected, no longer disconnecting, and the
    /// epoch advanced (wrapping).
    pub fn socket_opened(&mut self)
        ensures
            final(self).connected,
            !final(self).disconnecting,
            final(self).reconnecting == old(self).reconnecting,
            final(self).epoch == (if old(self).epoch == u64::MAX { 0 } else { (old(self).epoch + 1) as u64 }),
    {
        self.connected = true;
        self.disconnecting = false;
        self.epoch = self.epoch.wrapping_add(1);
    }

    /// The client is told to disconnect.
    pub fn begin_disconnect(&mut self)
        ensures
            !final(self).connected,
            final(self).disconnecting,
            final(self).reconnecting == old(self).reconnecting,
            final(self).epoch == old(self).epoch,
    {
        self.disconnecting = true;
        self.connected = false;
    }

    /// The connection was lost (the reader ended, or a keepalive timed out).
    /// It is no longer connected; a reconnect starts unless the client is
    /// disconnecting or one is already running.
    pub fn connection_lost(&mut self) -> (r: LossAction)
        ensures
            r == loss_action(*old(self)),
            !final(self).connected,
            final(self).disconnecting == old(self).disconnecting,
            final(self).epoch == old(self).epoch,
            final(self).reconnecting == (old(self).reconnecting || r == LossAction::RejectAndReconnect),
    {
        let was_connected = self.connected;
        self.connected = false;
        if !was_connected && self.reconnecting {
            return LossAction::Ignore;
        }
        if self.disconnecting {
            return LossAction::RejectPending;
        }
        if self.reconnecting {
            return LossAction::RejectPending;
        }
        self.reconnecting = true;
        LossAction::RejectAndReconnect
    }

    /// How the reader ends.
    pub fn reader_ended(&self) -> (r: ReaderEnd)
        ensures
            r == (if self.disconnecting { ReaderEnd::RejectNotConnected } else { ReaderEnd::ConnectionLost }),
    {
        if self.disconnecting {
            ReaderEnd::RejectNotConnected
        } else {
            ReaderEnd::ConnectionLost
        }
    }

    /// The reconnect loop ended, by success or because the client disconnects.
    pub fn reconnect_finished(&mut self)
        ensures
            !final(self).reconnecting,
            final(self).connected == old(self).connected,
            final(self).disconnecting == old(self).disconnecting,
            final(self).epoch == old(self).epoch,
    {
        self.reconnecting = false;
    }
}

/// A lost connection that starts a reconnect leaves the client marked as
/// reconnecting, so that a second loss before the reconnect ends starts none.
pub proof fn law_one_reconnect_at_a_time(f: ConnectionFlags)
    requires
        loss_action(f) == LossAction::RejectAndReconnect,
    ensures
        ({
            let after = ConnectionFlags { connected: false, reconnecting: true, ..f };
            loss_action(after) == LossAction::Ignore
        }),
{
}

/// What the reconnect loop does next.
#[derive(Clone, Copy, PartialEq, Eq, Structural, Debug)]
pub enum ReconnectStep {
    /// Sleep the reconnect delay, then report it.
    Sleep { ms: u64 },
    /// Open a socket, then report whether it worked.
    OpenSocket,
    /// Stop: reconnected, or the client disconnects.
    Stop,
    /// Exit the process with this code.
    Exit(i32),
}

/// The reconnect loop: rounds of `max_retries` attempts, each after a
/// delay; a failed round exits or starts over by the policy.
pub struct ReconnectLoop {
    pub delay_ms: u64,
    pub max_retries: usize,
    pub policy: ReconnectPolicy,
    /// Failed attempts in the current round.
    pub attempt: usize,
}

pub open spec fn loop_ok(l: ReconnectLoop) -> bool {
    l.max_retries > 0 && l.attempt < l.max_retries
}

impl ReconnectLoop {
    /// Starts reconnecting with the client's options. A round of no attempts
    /// exits at once under `Exit`; under `KeepTrying` it would spin without
    /// end, which the options must not ask for.
    pub fn start(options: &ConnectOptions) -> (r: (ReconnectLoop, ReconnectStep))
        requires
            options.reconnect_max_retries > 0 || options.reconnect_policy is Exit,
        ensures
            r.0.delay_ms == options.reconnect_delay_ms,
            r.0.max_retries == options.reconnect_max_retries,
            r.0.policy == options.reconnect_policy,
            r.0.attempt == 0,
            options.reconnect_max_retries > 0 ==> r.1 == (ReconnectStep::Sleep { ms: options.reconnect_delay_ms }),
            options.reconnect_max_retries == 0 ==> r.1 == ReconnectStep::Exit(options.reconnect_policy->Exit_0),
    {
        let l = ReconnectLoop {
            delay_ms: options.reconnect_delay_ms,
            max_retries: options.reconnect_max_retries,
            policy: options.reconnect_policy,
            attempt: 0,
        };
        if options.reconnect_max_retries == 0 {
            let code = match options.reconnect_policy {
                ReconnectPolicy::Exit(c) => c,
                ReconnectPolicy::KeepTrying => 0,
            };
            (l, ReconnectStep::Exit(code))
        } else {
            let d = l.delay_ms;
            (l, ReconnectStep::Sleep { ms: d })
        }
    }

    /// After the delay: stop when the client disconnects, else try a socket.
    pub fn after_sleep(&self, disconnecting: bool) -> (r: ReconnectStep)
        ensures
            r == (if disconnecting { ReconnectStep::Stop } else { ReconnectStep::OpenSocket }),
    {
        if disconnecting {
            ReconnectStep::Stop
        } else {
            ReconnectStep::OpenSocket
        }
    }

    /// After an attempt: stop on success; after a failure sleep for the next
    /// attempt, or at the end of a round exit or start a new round.
    pub fn after_attempt(&mut self, opened: bool) -> (r: ReconnectStep)
        requires
            loop_ok(*old(self)),
        ensures
            final(self).delay_ms == old(self).delay_ms,
            final(self).max_retries == old(self).max_retries,
            final(self).policy == old(self).policy,
            opened ==> r == ReconnectStep::Stop && final(self).attempt == old(self).attempt,
            !opened && old(self).attempt + 1 < old(self).max_retries ==> r == (ReconnectStep::Sleep { ms: old(self).delay_ms })
                && final(self).attempt == old(self).attempt + 1,
            !opened && old(self).attempt + 1 == old(self).max_retries ==> match old(self).policy {
                ReconnectPolicy::Exit(code) => r == ReconnectStep::Exit(code),
                ReconnectPolicy::KeepTrying => r == (ReconnectStep::Sleep { ms: old(self).delay_ms }) && final(self).attempt == 0,
            },
            r is Sleep ==> loop_ok(*final(self)),
    {
        if opened {
            return ReconnectStep::Stop;
        }
        if self.attempt + 1 < self.max_retries {
            self.attempt = self.attempt + 1;
            return ReconnectStep::Sleep { ms: self.delay_ms };
        }
        match self.policy {
            ReconnectPolicy::Exit(code) => ReconnectStep::Exit(code),
            ReconnectPolicy::KeepTrying => {
                self.attempt = 0;
                ReconnectStep::Sleep { ms: self.delay_ms }
            },
        }
    }
}

/// What the keepalive loop does after its interval.
#[derive(Clone, Copy, PartialEq, Eq, Structural, Debug)]
pub enum KeepaliveStep {
    /// End the loop: the client disconnects.
    Stop,
    /// Not connected now: wait for the next interval.
    Skip,
    /// Send `Browser.getVersion` and a ping, within the keepalive timeout.
    Probe { timeout_ms: u64 },
}

/// The keepalive decision after an interval.
pub fn keepalive_step(flags: &ConnectionFlags, options: &ConnectOptions) -> (r: KeepaliveStep)
    ensures
        r == (if flags.disconnecting {
            KeepaliveStep::Stop
        } else if !flags.connected {
            KeepaliveStep::Skip
        } else {
            KeepaliveStep::Probe { timeout_ms: options.keepalive_timeout_ms }
        }),
{
    if flags.disconnecting {
        KeepaliveStep::Stop
    } else if !flags.connected {
        KeepaliveStep::Skip
    } else {
        KeepaliveStep::Probe { timeout_ms: options.keepalive_timeout_ms }
    }
}

/// Whether a probe marks the connection lost: only when it timed out; a
/// probe that failed in time leaves the connection to the reader.
pub fn probe_marks_lost(timed_out: bool) -> (r: bool)
    ensures
        r == timed_out,
{
    timed_out
}

/// The ids of requests: counting up from 1, wrapping.
pub struct RequestIds {
    pub next: u64,
}

impl RequestIds {
    pub fn new() -> (r: Self)
        ensures
            r.next == 1,
    {
        RequestIds { next: 1 }
    }

    /// Takes the next id.
    pub fn take(&mut self) -> (id: u64)
        ensures
            id == old(self).next,
            final(self).next == (if old(self).next == u64::MAX { 0 } else { (old(self).next + 1) as u64 }),
    {
        let id = self.next;
        self.next = self.next.wrapping_add(1);
        id
    }
}


// ---------------------------------------------------------------------------
// The websocket endpoint.
// ---------------------------------------------------------------------------

/// The parts of a URL the client reads.
pub struct UrlParts {
    pub scheme: String,
    pub host: Option<String>,
    /// The explicit port, or the scheme's known default.
    pub port: Option<u16>,
    /// The URL's serialization.
    pub text: String,
}

pub open spec fn opt_text(s: Option<String>) -> Option<Seq<char>> {
    match s {
        Some(t) => Some(t@),
        None => None,
    }
}

pub open spec fn parts_view(p: UrlParts) -> (Seq<char>, Option<Seq<char>>, Option<u16>, Seq<char>) {
    (p.scheme@, opt_text(p.host), p.port, p.text@)
}

/// What `url::Url::parse` makes of a text: `None` when it is no URL, else
/// its scheme, host, port (or known default) and serialization.
pub uninterp spec fn parsed_url(text: Seq<char>) -> Option<(Seq<char>, Option<Seq<char>>, Option<u16>, Seq<char>)>;

/// `url::Url::parse`, read through `scheme`, `host_str`,
/// `port_or_known_default` and `as_str`. Claimed: the result is the named
/// parse of the text.
#[verifier::external_body]
fn url_parts(text: &str) -> (r: Option<UrlParts>)
    ensures
        match r {
            Some(p) => parsed_url(text@) == Some(parts_view(p)),
            None => parsed_url(text@) is None,
        },
{
    match Url::parse(text) {
        Ok(u) => Some(UrlParts {
            scheme: u.scheme().to_string(),
            host: u.host_str().map(|h| h.to_string()),
            port: u.port_or_known_default(),
            text: u.as_str().to_string(),
        }),
        Err(_) => None,
    }
}

/// Parses the websocket URL the browser advertised.
pub fn parse_ws_url(text: &str) -> (r: Option<UrlParts>)
    ensures
        match r {
            Some(p) => parsed_url(text@) == Some(parts_view(p)),
            None => parsed_url(text@) is None,
        },
{
    url_parts(text)
}

pub open spec fn ws_target(p: (Seq<char>, Option<Seq<char>>, Option<u16>, Seq<char>)) -> Result<(Seq<char>, u16), Seq<char>> {
    if p.0 != "ws"@ {
        Err("unsupported CDP websocket scheme "@ + p.0)
    } else {
        match p.1 {
            None => Err("websocket URL missing host"@),
            Some(h) => match p.2 {
                None => Err("websocket URL missing port"@),
                Some(port) => Ok((h, port)),
            },
        }
    }
}

/// Where to open the CDP socket: the host and port of a `ws` URL, or the
/// transport error a URL of another scheme, or without host or port, gives.
pub fn websocket_target(url: &UrlParts) -> (r: Result<(String, u16), String>)
    ensures
        match r {
            Ok((h, port)) => ws_target(parts_view(*url)) == Ok::<(Seq<char>, u16), Seq<char>>((h@, port)),
            Err(e) => ws_target(parts_view(*url)) == Err::<(Seq<char>, u16), Seq<char>>(e@),
        },
{
    if !crate::text::same_text(url.scheme.as_str(), "ws") {
        let mut m = "unsupported CDP websocket scheme ".to_owned();
        push_str(&mut m, url.scheme.as_str());
        return Err(m);
    }
    match &url.host {
        None => Err("websocket URL missing host".to_owned()),
        Some(h) => match url.port {
            None => Err("websocket URL missing port".to_owned()),
            Some(port) => Ok((h.clone(), port)),
        },
    }
}

/// "timed out connecting websocket {url}".
pub fn connect_timed_out_message(url: &UrlParts) -> (r: String)
    ensures
        r@ == "timed out connecting websocket "@ + url.text@,
{
    let mut m = "timed out connecting websocket ".to_owned();
    push_str(&mut m, url.text.as_str());
    m
}

// ---------------------------------------------------------------------------
// Request frames.
// ---------------------------------------------------------------------------

/// The lowercase hexadecimal digit of `n` (below 16).
pub open spec fn hex_digit(n: u32) -> char {
    if n < 10 {
        ('0' as u32 + n) as char
    } else {
        ('a' as u32 + n - 10) as char
    }
}

/// How a character stands inside a JSON string: a quote and a backslash get a
/// backslash before them, the controls with a short name (`\b`, `\t`, `\n`,
/// `\f`, `\r`) get that name, the other characters below U+0020 become
/// `\u00XX` in lowercase hexadecimal, and every other character stands as is.
pub open spec fn json_escaped_char(c: char) -> Seq<char> {
    if c == '"' {
        seq!['\\', '"']
    } else if c == '\\' {
        seq!['\\', '\\']
    } else if c == '\u{8}' {
        seq!['\\', 'b']
    } else if c == '\t' {
        seq!['\\', 't']
    } else if c == '\n' {
        seq!['\\', 'n']
    } else if c == '\u{c}' {
        seq!['\\', 'f']
    } else if c == '\r' {
        seq!['\\', 'r']
    } else if (c as u32) < 0x20 {
        seq!['\\', 'u', '0', '0', hex_digit((c as u32) / 16), hex_digit((c as u32) % 16)]
    } else {
        seq![c]
    }
}

/// The characters of a text, each as it stands inside a JSON string.
pub open spec fn json_escaped(s: Seq<char>) -> Seq<char>
    decreases s.len(),
{
    if s.len() == 0 {
        Seq::empty()
    } else {
        json_escaped(s.drop_last()) + json_escaped_char(s.last())
    }
}

/// A text written as a JSON string (`serde_json::to_string` of a `str`):
/// its escaped characters between double quotes.
pub open spec fn json_string_text(s: Seq<char>) -> Seq<char> {
    seq!['"'] + json_escaped(s) + seq!['"']
}

/// What `serde_json::from_str::<Value>` says of a text: `None` when it is
/// JSON, else the text of its error.
pub uninterp spec fn json_syntax_error(text: Seq<char>) -> Option<Seq<char>>;

/// `serde_json::to_string` of a string slice. Claimed: the result is the
/// text written as a JSON string, escaped as [`json_string_text`] states
/// (serde_json's escape table); serializing a `str` into memory does not
/// fail.
#[verifier::external_body]
pub(crate) fn quote_json(s: &str) -> (r: String)
    ensures
        r@ == json_string_text(s@),
{
    match serde_json::to_string(s) {
        Ok(t) => t,
        Err(_) => String::new(),
    }
}

/// `serde_json::from_str::<serde_json::Value>`, keeping only whether it
/// failed and the error's text. Claimed: that is the named syntax error.
#[verifier::external_body]
fn syntax_error(text: &str) -> (r: Option<String>)
    ensures
        opt_text(r) == json_syntax_error(text@),
{
    match serde_json::from_str::<serde_json::Value>(text) {
        Ok(_) => None,
        Err(err) => Some(err.to_string()),
    }
}

/// The text of a request frame, the method and the session written as
/// JSON strings.
pub open spec fn frame_text(id: u64, method: Seq<char>, params_json: Seq<char>, session: Option<Seq<char>>) -> Seq<char> {
    framed(id, json_string_text(method), params_json, match session {
        Some(s) => Some(json_string_text(s)),
        None => None,
    })
}

/// The text of a request frame around its parts already written as JSON:
/// `{"id":..,"method":..,"params":..}`, with `"sessionId"` last when given.
pub open spec fn framed(id: u64, method_json: Seq<char>, params_json: Seq<char>, session_json: Option<Seq<char>>) -> Seq<char> {
    "{\"id\":"@ + decimal(id as nat) + ",\"method\":"@ + method_json + ",\"params\":"@ + params_json
        + match session_json {
        Some(s) => ",\"sessionId\":"@ + s,
        None => Seq::empty(),
    } + "}"@
}

/// Writes a request frame around its parts already in JSON text.
pub fn frame_around(id: u64, method_json: &str, params_json: &str, session_json: Option<&str>) -> (r: String)
    ensures
        r@ == framed(id, method_json@, params_json@, match session_json { Some(s) => Some(s@), None => None }),
{
    let mut f = "{\"id\":".to_owned();
    let digits = u64_decimal(id);
    push_str(&mut f, digits.as_str());
    push_str(&mut f, ",\"method\":");
    push_str(&mut f, method_json);
    push_str(&mut f, ",\"params\":");
    push_str(&mut f, params_json);
    match session_json {
        Some(s) => {
            push_str(&mut f, ",\"sessionId\":");
            push_str(&mut f, s);
        },
        None => {},
    }
    push_str(&mut f, "}");
    f
}

/// Writes a request frame around parameters already in JSON text, the
/// method and session written as JSON strings.
pub fn request_frame(id: u64, method: &str, params_json: &str, session: Option<&str>) -> (r: String)
    ensures
        r@ == frame_text(id, method@, params_json@, match session { Some(s) => Some(s@), None => None }),
{
    let m = quote_json(method);
    match session {
        Some(s) => {
            let q = quote_json(s);
            frame_around(id, m.as_str(), params_json, Some(q.as_str()))
        },
        None => frame_around(id, m.as_str(), params_json, None),
    }
}

/// A request whose parameters come as raw JSON text: refused with the JSON
/// error when the text is no JSON, in which case it takes no id; else it
/// takes the next id and is written as [`frame_text`].
pub fn raw_request_frame(
    ids: &mut RequestIds,
    method: &str,
    params_json: &str,
    session: Option<&str>,
) -> (r: Result<(u64, String), String>)
    ensures
        match json_syntax_error(params_json@) {
            Some(e) => r == Err::<(u64, String), String>(r->Err_0) && r->Err_0@ == e && final(ids).next == old(ids).next,
            None => r matches Ok((id, frame)) && id == old(ids).next && frame@ == frame_text(
                id,
                method@,
                params_json@,
                match session { Some(s) => Some(s@), None => None },
            ) && final(ids).next == (if old(ids).next == u64::MAX { 0 } else { (old(ids).next + 1) as u64 }),
        },
{
    match syntax_error(params_json) {
        Some(e) => Err(e),
        None => {
            let id = ids.take();
            Ok((id, request_frame(id, method, params_json, session)))
        },
    }
}

// ---------------------------------------------------------------------------
// Incoming messages.
// ---------------------------------------------------------------------------

/// The value of a nonempty run of decimal digits.
pub open spec fn digits_value(s: Seq<char>) -> nat
    decreases s.len(),
{
    if s.len() == 0 {
        0
    } else {
        digits_value(s.drop_last()) * 10 + ((s.last() as u32) - 48) as nat
    }
}

pub open spec fn all_digits(s: Seq<char>) -> bool {
    s.len() > 0 && forall|i: int| 0 <= i < s.len() ==> '0' <= #[trigger] s[i] && s[i] <= '9'
}

/// A JSON number as an unsigned integer (serde_json `as_u64`): its text is
/// digits only and the value fits.
pub open spec fn number_as_u64(text: Seq<char>) -> Option<u64> {
    if all_digits(text) && digits_value(text) <= u64::MAX {
        Some(digits_value(text) as u64)
    } else {
        None
    }
}

/// A JSON number as a signed integer (serde_json `as_i64`).
pub open spec fn number_as_i64(text: Seq<char>) -> Option<i64> {
    if all_digits(text) && digits_value(text) <= i64::MAX {
        Some(digits_value(text) as i64)
    } else if text.len() > 0 && text[0] == '-' && all_digits(text.drop_first()) && digits_value(text.drop_first())
        <= 0x8000_0000_0000_0000 {
        Some((0 - digits_value(text.drop_first())) as i64)
    } else {
        None
    }
}

/// The value of a run of digits, or `None` when it is not all digits or
/// exceeds `limit`.
fn digits_up_to(cs: &Vec<char>, start: usize, limit: u64) -> (r: Option<u64>)
    requires
        start <= cs.len(),
        limit >= 9,
    ensures
        ({
            let s = cs@.skip(start as int);
            match r {
                Some(v) => all_digits(s) && digits_value(s) == v && v <= limit,
                None => !(all_digits(s) && digits_value(s) <= limit),
            }
        }),
{
    let ghost s = cs@.skip(start as int);
    if start == cs.len() {
        return None;
    }
    let mut v: u64 = 0;
    let mut i: usize = start;
    while i < cs.len()
        invariant
            start < cs.len(),
            s == cs@.skip(start as int),
            start <= i <= cs.len(),
            limit >= 9,
            forall|k: int| start <= k < i ==> '0' <= #[trigger] cs@[k] && cs@[k] <= '9',
            v == digits_value(cs@.subrange(start as int, i as int)),
            v <= limit,
        decreases cs.len() - i,
    {
        let c = cs[i];
        assert(cs@.subrange(start as int, i + 1).drop_last() =~= cs@.subrange(start as int, i as int));
        if c < '0' || c > '9' {
            assert(s[i - start] == c);
            return None;
        }
        let d: u64 = (c as u32 - 48) as u64;
        if v > (limit - d) / 10 {
            proof {
                assert(v * 10 + d > limit) by (nonlinear_arith)
                    requires
                        v > (limit - d) / 10,
                        d <= 9,
                        limit >= 9,
                ;
                assert(digits_value(cs@.subrange(start as int, i + 1)) == v * 10 + d);
                if all_digits(s) {
                    lemma_digits_value_prefix_mono(s, i + 1 - start, s.len() as int);
                    assert(s.take(i + 1 - start) =~= cs@.subrange(start as int, i + 1));
                    assert(s.take(s.len() as int) =~= s);
                }
            }
            return None;
        }
        v = v * 10 + d;
        i = i + 1;
    }
    assert(cs@.subrange(start as int, cs.len() as int) =~= s);
    Some(v)
}

proof fn lemma_digits_value_prefix_mono(s: Seq<char>, j: int, k: int)
    requires
        0 <= j <= k <= s.len(),
        forall|i: int| 0 <= i < k ==> '0' <= #[trigger] s[i] && s[i] <= '9',
    ensures
        digits_value(s.take(j)) <= digits_value(s.take(k)),
    decreases k - j,
{
    if j < k {
        lemma_digits_value_prefix_mono(s, j, k - 1);
        assert(s.take(k).drop_last() =~= s.take(k - 1));
    }
}

pub(crate) fn number_u64(v: &JsonValue) -> (r: Option<u64>)
    ensures
        r == match v@ {
            JsonView::Number(t) => number_as_u64(t),
            _ => None,
        },
{
    match v {
        JsonValue::Number(t) => {
            let cs = chars_of(t.as_str());
            assert(cs@.skip(0) =~= t@);
            digits_up_to(&cs, 0, u64::MAX)
        },
        _ => None,
    }
}

fn as_i64(v: &JsonValue) -> (r: Option<i64>)
    ensures
        r == match v@ {
            JsonView::Number(t) => number_as_i64(t),
            _ => None,
        },
{
    match v {
        JsonValue::Number(t) => {
            let cs = chars_of(t.as_str());
            assert(cs@.skip(0) =~= t@);
            match digits_up_to(&cs, 0, 0x7fff_ffff_ffff_ffff) {
                Some(n) => Some(n as i64),
                None => {
                    if cs.len() > 0 && cs[0] == '-' {
                        assert(cs@.skip(1) =~= t@.drop_first());
                        match digits_up_to(&cs, 1, 0x8000_0000_0000_0000) {
                            Some(n) => {
                                if n == 0x8000_0000_0000_0000 {
                                    Some(i64::MIN)
                                } else {
                                    Some(-(n as i64))
                                }
                            },
                            None => None,
                        }
                    } else {
                        None
                    }
                },
            }
        },
        _ => None,
    }
}

pub open spec fn as_text(v: Option<JsonView>) -> Option<Seq<char>> {
    match v {
        Some(JsonView::Str(s)) => Some(s),
        _ => None,
    }
}

fn as_str(v: Option<&JsonValue>) -> (r: Option<String>)
    ensures
        opt_text(r) == as_text(match v { Some(x) => Some(x@), None => None }),
{
    match v {
        Some(JsonValue::String(s)) => Some(s.clone()),
        _ => None,
    }
}

/// An error the browser answered a request with.
pub struct ProtocolError {
    pub code: i64,
    pub message: String,
}

/// What a message from the browser is.
pub enum Incoming {
    /// The answer to request `id`.
    Response { id: u64, outcome: Result<JsonValue, ProtocolError> },
    /// An event, for a session when `session_id` is set.
    Event { method: String, params: JsonValue, session_id: Option<String> },
    /// Neither: dropped.
    Ignored,
}

pub open spec fn empty_object() -> JsonView {
    JsonView::Object(Seq::empty())
}

pub open spec fn or_empty(v: Option<JsonView>) -> JsonView {
    match v {
        Some(x) => x,
        None => empty_object(),
    }
}

pub open spec fn u64_field(v: JsonView, k: Seq<char>) -> Option<u64> {
    match json_get(v, k) {
        Some(JsonView::Number(t)) => number_as_u64(t),
        _ => None,
    }
}

pub open spec fn i64_field(v: JsonView, k: Seq<char>) -> Option<i64> {
    match json_get(v, k) {
        Some(JsonView::Number(t)) => number_as_i64(t),
        _ => None,
    }
}

/// How a message is routed: a numeric `id` makes it the answer to that
/// request, an error when it has an `error` member (code 0 and message
/// "unknown CDP protocol error" by default) and else its `result` (`{}` by
/// default); a string `method` makes it an event with its `params` (`{}`
/// by default) and string `sessionId`; anything else is dropped.
pub open spec fn routed(v: JsonView, r: Incoming) -> bool {
    match u64_field(v, "id"@) {
        Some(id) => r matches Incoming::Response { id: rid, outcome } && rid == id && match json_get(v, "error"@) {
            Some(err) => outcome matches Err(pe) && pe.code == (match i64_field(err, "code"@) {
                Some(c) => c,
                None => 0,
            }) && pe.message@ == (match as_text(json_get(err, "message"@)) {
                Some(m) => m,
                None => "unknown CDP protocol error"@,
            }),
            None => outcome matches Ok(res) && res@ == or_empty(json_get(v, "result"@)),
        },
        None => match as_text(json_get(v, "method"@)) {
            Some(m) => r matches Incoming::Event { method, params, session_id } && method@ == m && params@
                == or_empty(json_get(v, "params"@)) && opt_text(session_id) == as_text(json_get(v, "sessionId"@)),
            None => r is Ignored,
        },
    }
}

/// How an incoming message is delivered, in terms of its members: a message
/// with no `id` and a string `method` is an event of that method whose
/// params are exactly the message's `params` member (`{}` only when it has
/// none) and whose session is its `sessionId` string; a message whose `id`
/// is an unsigned integer answers that request with its `result` member
/// (`{}` only when it has none) when it carries no `error`, and with the
/// error's `message` text and integer `code` when it does (code 0 and
/// "unknown CDP protocol error" standing in for what is missing).
pub proof fn law_incoming_messages_keep_their_members(v: JsonView, r: Incoming)
    requires
        routed(v, r),
    ensures
        (json_get(v, "id"@) is None && (json_get(v, "method"@) matches Some(JsonView::Str(_)))) ==> (r matches Incoming::Event {
            method,
            params,
            session_id,
        } && method@ == json_get(v, "method"@)->Some_0->Str_0 && (match json_get(v, "params"@) {
            Some(p) => params@ == p,
            None => params@ == JsonView::Object(Seq::empty()),
        }) && (match json_get(v, "sessionId"@) {
            Some(JsonView::Str(sid)) => session_id matches Some(x) && x@ == sid,
            _ => session_id is None,
        })),
        json_get(v, "id"@) is None && !(json_get(v, "method"@) matches Some(JsonView::Str(_))) ==> r is Ignored,
        (json_get(v, "id"@) matches Some(JsonView::Number(t)) && number_as_u64(t) is Some) ==> (r matches Incoming::Response {
            id,
            outcome,
        } && id == number_as_u64(json_get(v, "id"@)->Some_0->Number_0)->Some_0 && (match json_get(v, "error"@) {
            None => outcome matches Ok(res) && match json_get(v, "result"@) {
                Some(x) => res@ == x,
                None => res@ == JsonView::Object(Seq::empty()),
            },
            Some(err) => outcome matches Err(pe) && (match json_get(err, "message"@) {
                Some(JsonView::Str(msg)) => pe.message@ == msg,
                _ => pe.message@ == "unknown CDP protocol error"@,
            }) && (match json_get(err, "code"@) {
                Some(JsonView::Number(c)) => pe.code == (match number_as_i64(c) {
                    Some(n) => n,
                    None => 0,
                }),
                _ => pe.code == 0,
            }),
        })),
{
}

fn copy_or_empty(v: Option<&JsonValue>) -> (r: JsonValue)
    ensures
        r@ == or_empty(match v { Some(x) => Some(x@), None => None }),
{
    match v {
        Some(x) => crate::schema::copy_json(x),
        None => {
            let r = JsonValue::Object(Vec::new());
            proof {
                crate::schema::lemma_object_view(r);
                assert(crate::schema::entries_view(r->Object_0@) =~= Seq::empty());
            }
            r
        },
    }
}

/// Routes a parsed message from the browser.
pub fn route_incoming(v: &JsonValue) -> (r: Incoming)
    ensures
        routed(v@, r),
{
    let id_field = get_field(v, "id");
    let id = match id_field {
        Some(x) => number_u64(x),
        None => None,
    };
    if let Some(id) = id {
        let outcome = match get_field(v, "error") {
            Some(err) => {
                let code: i64 = match get_field(err, "code") {
                    Some(c) => match as_i64(c) {
                        Some(n) => n,
                        None => 0,
                    },
                    None => 0,
                };
                let message = match as_str(get_field(err, "message")) {
                    Some(m) => m,
                    None => "unknown CDP protocol error".to_owned(),
                };
                Err(ProtocolError { code, message })
            },
            None => Ok(copy_or_empty(get_field(v, "result"))),
        };
        return Incoming::Response { id, outcome };
    }
    match as_str(get_field(v, "method")) {
        Some(method) => {
            let params = copy_or_empty(get_field(v, "params"));
            let session_id = as_str(get_field(v, "sessionId"));
            Incoming::Event { method, params, session_id }
        },
        None => Incoming::Ignored,
    }
}

// ---------------------------------------------------------------------------
// Targeted event subscribers.
// ---------------------------------------------------------------------------

/// Where a CDP event went.
pub enum Delivery {
    /// To the subscriber of its method.
    Subscriber,
    /// To the broadcast channel.
    Broadcast,
}

/// One subscriber per event method; a method with a subscriber has its
/// events delivered there instead of the shared broadcast.
pub struct TargetedTable<S> {
    pub entries: Vec<(String, S)>,
}

/// The subscriber of method `m` among `es`.
pub open spec fn lookup<S>(es: Seq<(String, S)>, m: Seq<char>) -> Option<S>
    decreases es.len(),
{
    if es.len() == 0 {
        None
    } else if es.last().0@ == m {
        Some(es.last().1)
    } else {
        lookup(es.drop_last(), m)
    }
}

pub open spec fn keys_distinct<S>(es: Seq<(String, S)>) -> bool {
    forall|i: int, j: int| 0 <= i < j < es.len() ==> es[i].0@ != es[j].0@
}

proof fn lemma_lookup_absent<S>(es: Seq<(String, S)>, m: Seq<char>)
    requires
        forall|i: int| 0 <= i < es.len() ==> es[i].0@ != m,
    ensures
        lookup(es, m) is None,
    decreases es.len(),
{
    if es.len() > 0 {
        lemma_lookup_absent(es.drop_last(), m);
    }
}

proof fn lemma_lookup_at<S>(es: Seq<(String, S)>, i: int)
    requires
        keys_distinct(es),
        0 <= i < es.len(),
    ensures
        lookup(es, es[i].0@) == Some(es[i].1),
    decreases es.len(),
{
    if i < es.len() - 1 {
        lemma_lookup_at(es.drop_last(), i);
    }
}

proof fn lemma_lookup_update<S>(es: Seq<(String, S)>, i: int, e: (String, S), k: Seq<char>)
    requires
        keys_distinct(es),
        0 <= i < es.len(),
        es[i].0@ == e.0@,
    ensures
        lookup(es.update(i, e), k) == (if k == e.0@ { Some(e.1) } else { lookup(es, k) }),
    decreases es.len(),
{
    let u = es.update(i, e);
    if i == es.len() - 1 {
        assert(u.drop_last() =~= es.drop_last());
        if k == e.0@ {
        } else {
        }
    } else {
        assert(u.drop_last() =~= es.drop_last().update(i, e));
        lemma_lookup_update(es.drop_last(), i, e, k);
        if k == e.0@ {
            assert(es.last().0@ != es[i].0@);
        }
    }
}

proof fn lemma_lookup_remove<S>(es: Seq<(String, S)>, i: int, k: Seq<char>)
    requires
        keys_distinct(es),
        0 <= i < es.len(),
    ensures
        lookup(es.remove(i), k) == (if k == es[i].0@ { None } else { lookup(es, k) }),
    decreases es.len(),
{
    let r = es.remove(i);
    if i == es.len() - 1 {
        assert(r =~= es.drop_last());
        if k == es[i].0@ {
            lemma_lookup_absent(es.drop_last(), k);
        }
    } else {
        assert(r.drop_last() =~= es.drop_last().remove(i));
        assert(r.last() == es.last());
        lemma_lookup_remove(es.drop_last(), i, k);
    }
}

impl<S> TargetedTable<S> {
    pub open spec fn well_formed(&self) -> bool {
        keys_distinct(self.entries@)
    }

    /// The subscriber of a method.
    pub open spec fn subscriber_of(&self, m: Seq<char>) -> Option<S> {
        lookup(self.entries@, m)
    }

    pub fn new() -> (r: Self)
        ensures
            r.well_formed(),
            forall|m: Seq<char>| #[trigger] r.subscriber_of(m) is None,
    {
        TargetedTable { entries: Vec::new() }
    }

    fn position(&self, method: &str) -> (r: Option<usize>)
        ensures
            match r {
                Some(i) => i < self.entries.len() && self.entries@[i as int].0@ == method@,
                None => forall|i: int| 0 <= i < self.entries.len() ==> self.entries@[i].0@ != method@,
            },
    {
        let mut i: usize = 0;
        while i < self.entries.len()
            invariant
                i <= self.entries.len(),
                forall|j: int| 0 <= j < i ==> self.entries@[j].0@ != method@,
            decreases self.entries.len() - i,
        {
            if crate::text::same_text(self.entries[i].0.as_str(), method) {
                return Some(i);
            }
            i = i + 1;
        }
        None
    }

    /// Subscribes `subscriber` to `method`, replacing any earlier one.
    pub fn subscribe(&mut self, method: String, subscriber: S)
        requires
            old(self).well_formed(),
        ensures
            final(self).well_formed(),
            forall|k: Seq<char>| #[trigger] final(self).subscriber_of(k) == (if k == method@ {
                Some(subscriber)
            } else {
                old(self).subscriber_of(k)
            }),
    {
        let ghost m = method@;
        let ghost s = subscriber;
        let ghost before = self.entries@;
        match self.position(method.as_str()) {
            Some(i) => {
                self.entries.set(i, (method, subscriber));
                assert forall|k: Seq<char>| #[trigger] lookup(self.entries@, k) == (if k == m { Some(s) } else { lookup(before, k) }) by {
                    lemma_lookup_update(before, i as int, (self.entries@[i as int].0, s), k);
                }
            },
            None => {
                self.entries.push((method, subscriber));
                assert forall|k: Seq<char>| #[trigger] lookup(self.entries@, k) == (if k == m { Some(s) } else { lookup(before, k) }) by {
                    assert(self.entries@.drop_last() =~= before);
                }
            },
        }
    }

    /// The subscriber of `method`, if any.
    pub fn subscriber(&self, method: &str) -> (r: Option<&S>)
        requires
            self.well_formed(),
        ensures
            match r {
                Some(s) => self.subscriber_of(method@) == Some(*s),
                None => self.subscriber_of(method@) is None,
            },
    {
        match self.position(method) {
            Some(i) => {
                proof {
                    lemma_lookup_at(self.entries@, i as int);
                }
                Some(&self.entries[i].1)
            },
            None => {
                proof {
                    lemma_lookup_absent(self.entries@, method@);
                }
                None
            },
        }
    }

    /// Where an event of `method` goes once its subscriber was offered it:
    /// to the subscriber when its channel took it (the table stays as it
    /// was); to the broadcast when the channel refused it, the stale
    /// subscription being dropped so that the method's later events go to the
    /// broadcast as well.
    pub fn after_offer(&mut self, method: &str, taken: bool) -> (r: Delivery)
        requires
            old(self).well_formed(),
        ensures
            final(self).well_formed(),
            taken ==> r is Subscriber && final(self).entries@ == old(self).entries@,
            !taken ==> r is Broadcast && forall|k: Seq<char>| #[trigger] final(self).subscriber_of(k) == (if k == method@ {
                None
            } else {
                old(self).subscriber_of(k)
            }),
    {
        if taken {
            Delivery::Subscriber
        } else {
            self.unsubscribe(method);
            Delivery::Broadcast
        }
    }

    /// Drops the subscriber of `method` (its channel closed): the method's
    /// events go to the broadcast again.
    pub fn unsubscribe(&mut self, method: &str)
        requires
            old(self).well_formed(),
        ensures
            final(self).well_formed(),
            forall|k: Seq<char>| #[trigger] final(self).subscriber_of(k) == (if k == method@ {
                None
            } else {
                old(self).subscriber_of(k)
            }),
    {
        let ghost before = self.entries@;
        match self.position(method) {
            Some(i) => {
                let _ = self.entries.remove(i);
                assert forall|k: Seq<char>| #[trigger] lookup(self.entries@, k) == (if k == method@ { None } else { lookup(before, k) }) by {
                    lemma_lookup_remove(before, i as int, k);
                }
            },
            None => {
                assert forall|k: Seq<char>| #[trigger] lookup(self.entries@, k) == (if k == method@ { None } else { lookup(before, k) }) by {
                    if k == method@ {
                        lemma_lookup_absent(before, k);
                    }
                }
            },
        }
    }
}

} // verus!
