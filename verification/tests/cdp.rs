use browseros_agent::cdp::{
    connect_timed_out_message, keepalive_step, parse_ws_url, probe_marks_lost, raw_request_frame,
    request_frame, route_incoming, websocket_target, ConnectOptions, ConnectionFlags, Incoming,
    KeepaliveStep, LossAction, ReaderEnd, ReconnectLoop, ReconnectPolicy, ReconnectStep,
    RequestIds, TargetedTable, UrlParts, Delivery,
};
use browseros_agent::schema::JsonValue;

#[test]
fn default_options() {
    let o = ConnectOptions::default();
    assert_eq!(o.port, 9000);
    assert!(o.host.is_none());
    assert_eq!(o.connect_timeout_ms, 10_000);
    assert_eq!(o.reconnect_delay_ms, 5_000);
    assert_eq!(o.keepalive_interval_ms, 30_000);
    assert_eq!(o.request_timeout_ms, 120_000);
    assert_eq!(o.reconnect_max_retries, 3);
    assert_eq!(o.reconnect_policy, ReconnectPolicy::Exit(1));
    let p = ConnectOptions::new(9222);
    assert_eq!(p.port, 9222);
    assert_eq!(p.keepalive_timeout_ms, 10_000);
}

#[test]
fn a_loss_starts_one_reconnect() {
    let mut f = ConnectionFlags::new();
    f.socket_opened();
    assert!(f.connected);
    assert_eq!(f.epoch, 1);
    assert_eq!(f.connection_lost(), LossAction::RejectAndReconnect);
    assert!(f.reconnecting);
    // The keepalive and the reader may both report the same loss.
    assert_eq!(f.connection_lost(), LossAction::Ignore);
    f.socket_opened();
    f.reconnect_finished();
    assert_eq!(f.epoch, 2);
    f.begin_disconnect();
    assert_eq!(f.reader_ended(), ReaderEnd::RejectNotConnected);
    assert_eq!(f.connection_lost(), LossAction::RejectPending);
}

#[test]
fn epochs_wrap() {
    let mut f = ConnectionFlags { connected: false, disconnecting: false, reconnecting: false, epoch: u64::MAX };
    f.socket_opened();
    assert_eq!(f.epoch, 0);
}

#[test]
fn reconnect_rounds_follow_the_policy() {
    let mut o = ConnectOptions::default();
    o.reconnect_max_retries = 2;
    let (mut l, step) = ReconnectLoop::start(&o);
    assert_eq!(step, ReconnectStep::Sleep { ms: 5_000 });
    assert_eq!(l.after_sleep(false), ReconnectStep::OpenSocket);
    assert_eq!(l.after_attempt(false), ReconnectStep::Sleep { ms: 5_000 });
    assert_eq!(l.after_attempt(false), ReconnectStep::Exit(1));
    o.reconnect_policy = ReconnectPolicy::KeepTrying;
    let (mut k, _) = ReconnectLoop::start(&o);
    assert_eq!(k.after_attempt(false), ReconnectStep::Sleep { ms: 5_000 });
    assert_eq!(k.after_attempt(false), ReconnectStep::Sleep { ms: 5_000 });
    assert_eq!(k.attempt, 0);
    assert_eq!(k.after_attempt(true), ReconnectStep::Stop);
    assert_eq!(k.after_sleep(true), ReconnectStep::Stop);
}

#[test]
fn keepalive_decisions() {
    let o = ConnectOptions::default();
    let mut f = ConnectionFlags::new();
    assert_eq!(keepalive_step(&f, &o), KeepaliveStep::Skip);
    f.socket_opened();
    assert_eq!(keepalive_step(&f, &o), KeepaliveStep::Probe { timeout_ms: 10_000 });
    f.begin_disconnect();
    assert_eq!(keepalive_step(&f, &o), KeepaliveStep::Stop);
    assert!(probe_marks_lost(true));
    assert!(!probe_marks_lost(false));
}

#[test]
fn websocket_endpoints() {
    let ok = parse_ws_url("ws://127.0.0.1:9222/devtools/browser/abc").unwrap_or_else(|| panic!("url"));
    assert_eq!(websocket_target(&ok), Ok(("127.0.0.1".to_string(), 9222)));
    let default_port = parse_ws_url("ws://localhost/devtools").unwrap_or_else(|| panic!("url"));
    assert_eq!(websocket_target(&default_port), Ok(("localhost".to_string(), 80)));
    let wss = parse_ws_url("wss://example.com/x").unwrap_or_else(|| panic!("url"));
    assert_eq!(websocket_target(&wss), Err("unsupported CDP websocket scheme wss".to_string()));
    assert!(parse_ws_url("not a url").is_none());
    assert_eq!(connect_timed_out_message(&ok), "timed out connecting websocket ws://127.0.0.1:9222/devtools/browser/abc");
}

#[test]
fn request_frames() {
    assert_eq!(
        request_frame(7, "Page.navigate", "{\"url\":\"https://a.b/\"}", None),
        "{\"id\":7,\"method\":\"Page.navigate\",\"params\":{\"url\":\"https://a.b/\"}}"
    );
    assert_eq!(
        request_frame(8, "Runtime.evaluate", "{}", Some("s\"1")),
        "{\"id\":8,\"method\":\"Runtime.evaluate\",\"params\":{},\"sessionId\":\"s\\\"1\"}"
    );
}

#[test]
fn raw_requests_take_an_id_only_when_valid() {
    let mut ids = RequestIds::new();
    assert!(raw_request_frame(&mut ids, "X.y", "{not json", None).is_err());
    assert_eq!(ids.next, 1);
    let (id, frame) = raw_request_frame(&mut ids, "X.y", "[1,2]", None).unwrap_or_else(|e| panic!("{e}"));
    assert_eq!(id, 1);
    assert_eq!(frame, "{\"id\":1,\"method\":\"X.y\",\"params\":[1,2]}");
    assert_eq!(ids.take(), 2);
}

fn obj(entries: Vec<(&str, JsonValue)>) -> JsonValue {
    JsonValue::Object(entries.into_iter().map(|(k, v)| (k.to_string(), v)).collect())
}

fn num(s: &str) -> JsonValue {
    JsonValue::Number(s.to_string())
}

fn st(s: &str) -> JsonValue {
    JsonValue::String(s.to_string())
}

#[test]
fn responses_are_routed_by_id() {
    let ok = obj(vec![("id", num("3")), ("result", obj(vec![("v", num("1"))]))]);
    match route_incoming(&ok) {
        Incoming::Response { id: 3, outcome: Ok(JsonValue::Object(es)) } => assert_eq!(es.len(), 1),
        _ => panic!("expected a result"),
    }
    let bare = obj(vec![("id", num("4"))]);
    assert!(matches!(route_incoming(&bare), Incoming::Response { id: 4, outcome: Ok(JsonValue::Object(es)) } if es.is_empty()));
    let err = obj(vec![("id", num("5")), ("error", obj(vec![("code", num("-32000")), ("message", st("boom"))]))]);
    match route_incoming(&err) {
        Incoming::Response { id: 5, outcome: Err(e) } => {
            assert_eq!(e.code, -32000);
            assert_eq!(e.message, "boom");
        }
        _ => panic!("expected an error"),
    }
    let null_err = obj(vec![("id", num("6")), ("error", JsonValue::Null)]);
    match route_incoming(&null_err) {
        Incoming::Response { id: 6, outcome: Err(e) } => {
            assert_eq!(e.code, 0);
            assert_eq!(e.message, "unknown CDP protocol error");
        }
        _ => panic!("expected an error"),
    }
}

#[test]
fn events_and_others() {
    let ev = obj(vec![("method", st("Page.loadEventFired")), ("sessionId", st("s1"))]);
    match route_incoming(&ev) {
        Incoming::Event { method, params: JsonValue::Object(ps), session_id } => {
            assert_eq!(method, "Page.loadEventFired");
            assert!(ps.is_empty());
            assert_eq!(session_id.as_deref(), Some("s1"));
        }
        _ => panic!("expected an event"),
    }
    // A float id is no request id; without a method the message is dropped.
    assert!(matches!(route_incoming(&obj(vec![("id", num("1.5"))])), Incoming::Ignored));
    assert!(matches!(route_incoming(&obj(vec![("id", num("-1"))])), Incoming::Ignored));
    assert!(matches!(route_incoming(&obj(vec![("id", num("18446744073709551616"))])), Incoming::Ignored));
    assert!(matches!(route_incoming(&num("1")), Incoming::Ignored));
}

#[test]
fn targeted_subscribers_replace_and_fall_back() {
    let mut t: TargetedTable<u32> = TargetedTable::new();
    assert!(t.subscriber("Page.screencastFrame").is_none());
    t.subscribe("Page.screencastFrame".to_string(), 1);
    t.subscribe("Page.screencastFrame".to_string(), 2);
    t.subscribe("Other.event".to_string(), 3);
    assert_eq!(t.subscriber("Page.screencastFrame"), Some(&2));
    t.unsubscribe("Page.screencastFrame");
    assert!(t.subscriber("Page.screencastFrame").is_none());
    assert_eq!(t.subscriber("Other.event"), Some(&3));
}

#[test]
fn endpoints_without_host_or_port_are_refused() {
    let no_host = UrlParts { scheme: "ws".to_string(), host: None, port: Some(1), text: "ws:x".to_string() };
    assert_eq!(websocket_target(&no_host), Err("websocket URL missing host".to_string()));
    let no_port = UrlParts { scheme: "ws".to_string(), host: Some("h".to_string()), port: None, text: "ws://h".to_string() };
    assert_eq!(websocket_target(&no_port), Err("websocket URL missing port".to_string()));
}

#[test]
fn frames_around_json_parts() {
    assert_eq!(
        browseros_agent::cdp::frame_around(1, "\"A.b\"", "{}", Some("\"s\"")),
        "{\"id\":1,\"method\":\"A.b\",\"params\":{},\"sessionId\":\"s\"}"
    );
    assert_eq!(browseros_agent::cdp::frame_around(18446744073709551615, "\"m\"", "null", None), "{\"id\":18446744073709551615,\"method\":\"m\",\"params\":null}");
}

#[test]
fn frame_escapes_control_characters_as_serde_json_does() {
    let frame = request_frame(3, "a\u{1}\tb\\c\u{7f}", "{}", None);
    assert_eq!(frame, "{\"id\":3,\"method\":\"a\\u0001\\tb\\\\c\u{7f}\",\"params\":{}}");
}

#[test]
fn a_refused_event_falls_back_to_the_broadcast_and_drops_the_subscription() {
    let mut t: TargetedTable<u32> = TargetedTable::new();
    t.subscribe("Page.loadEventFired".to_string(), 5);
    assert!(matches!(t.after_offer("Page.loadEventFired", true), Delivery::Subscriber));
    assert_eq!(t.subscriber("Page.loadEventFired"), Some(&5));
    assert!(matches!(t.after_offer("Page.loadEventFired", false), Delivery::Broadcast));
    assert_eq!(t.subscriber("Page.loadEventFired"), None);
}
