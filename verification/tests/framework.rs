use browseros_agent::framework::{
    dispatch_outcome, extract_page_id, format_invalid_arguments, json_object, merge_structured, metadata_for_tool,
    path_for_issue, structured_page_id, ArgIssue, Dispatch, HandlerOutcome, ToolError,
};
use browseros_agent::schema::JsonValue;

fn page_args(n: &str) -> JsonValue {
    JsonValue::Object(vec![("page".to_string(), JsonValue::Number(n.to_string()))])
}

#[test]
fn invalid_arguments_name_the_tool_and_paths() {
    let issues = vec![
        ArgIssue { path: "page".to_string(), message: "invalid type: string \"x\", expected u32".to_string() },
        ArgIssue { path: "(root)".to_string(), message: "unknown field `hidden`".to_string() },
    ];
    assert_eq!(
        format_invalid_arguments("tabs", &issues),
        "Invalid arguments for tabs: page: invalid type: string \"x\", expected u32; (root): unknown field `hidden`"
    );
    assert_eq!(format_invalid_arguments("tabs", &Vec::new()), "Invalid arguments for tabs: ");
}

#[test]
fn issue_paths() {
    assert_eq!(path_for_issue("."), "(root)");
    assert_eq!(path_for_issue(""), "(root)");
    assert_eq!(path_for_issue(".page"), "page");
    assert_eq!(path_for_issue("fields[0].ref"), "fields[0].ref");
    assert_eq!(path_for_issue("..a"), "a");
}

#[test]
fn page_ids_are_read_from_arguments_and_results() {
    assert_eq!(extract_page_id(true, &page_args("3")), Some(3));
    assert_eq!(extract_page_id(false, &page_args("3")), None);
    assert_eq!(extract_page_id(true, &page_args("0")), None);
    assert_eq!(extract_page_id(true, &page_args("4294967296")), None);
    assert_eq!(extract_page_id(true, &page_args("4294967295")), Some(4294967295));
    assert_eq!(extract_page_id(true, &page_args("1.0")), None);
    assert_eq!(extract_page_id(true, &JsonValue::Null), None);
    assert_eq!(structured_page_id(Some(&page_args("7"))), Some(7));
    assert_eq!(structured_page_id(None), None);
}

#[test]
fn catalog_page_metadata_matches_host_dispatch_contract() {
    let names = [
        "tabs", "tab_groups", "history", "navigate", "snapshot", "diff", "act", "download", "upload", "read", "grep",
        "screenshot", "pdf", "wait", "windows", "evaluate", "run",
    ];
    let flags = names.iter().map(|name| (*name, metadata_for_tool(name).accepts_page_arg)).collect::<Vec<_>>();
    assert_eq!(
        flags,
        vec![
            ("tabs", true),
            ("tab_groups", false),
            ("history", false),
            ("navigate", true),
            ("snapshot", true),
            ("diff", true),
            ("act", true),
            ("download", true),
            ("upload", true),
            ("read", true),
            ("grep", true),
            ("screenshot", true),
            ("pdf", true),
            ("wait", true),
            ("windows", false),
            ("evaluate", true),
            ("run", false),
        ]
    );
}

#[test]
fn poll_takes_no_page_argument() {
    assert!(!metadata_for_tool("poll").accepts_page_arg);
}

#[test]
fn outcomes_are_reported() {
    assert!(matches!(dispatch_outcome("tabs", HandlerOutcome::Result(5)), Dispatch::Append(5)));
    assert!(matches!(dispatch_outcome::<u8>("tabs", HandlerOutcome::Filled), Dispatch::Build));
    assert!(matches!(dispatch_outcome::<u8>("tabs", HandlerOutcome::Failed(ToolError::Cancelled)), Dispatch::Cancelled));
    match dispatch_outcome::<u8>("act", HandlerOutcome::Failed(ToolError::message("boom".to_string()))) {
        Dispatch::ResponseError(t) => assert_eq!(t, "act failed: boom"),
        _ => panic!("expected a response error"),
    }
    let issues = vec![ArgIssue { path: "page".to_string(), message: "bad".to_string() }];
    match dispatch_outcome::<u8>("tabs", HandlerOutcome::Failed(ToolError::InvalidArguments(issues))) {
        Dispatch::ErrorResult(t) => assert!(t.starts_with("Invalid arguments for tabs: page:")),
        _ => panic!("expected an error result"),
    }
    assert_eq!(ToolError::Cancelled.text(), "cancelled");
    assert_eq!(ToolError::InvalidArguments(Vec::new()).text(), "invalid arguments");
}

#[test]
fn structured_content_merges_members() {
    use_merge();
}

fn obj(entries: Vec<(&str, JsonValue)>) -> JsonValue {
    JsonValue::Object(entries.into_iter().map(|(k, v)| (k.to_string(), v)).collect())
}

fn use_merge() {
    let mut target = Some(obj(vec![("page", JsonValue::Number("1".to_string())), ("url", JsonValue::String("a".to_string()))]));
    merge_structured(&mut target, obj(vec![("url", JsonValue::String("b".to_string())), ("count", JsonValue::Number("2".to_string()))]));
    let entries = match json_object(target.unwrap_or(JsonValue::Null)) {
        Some(es) => es,
        None => panic!("expected an object"),
    };
    let keys: Vec<&str> = entries.iter().map(|(k, _)| k.as_str()).collect();
    assert_eq!(keys, vec!["page", "url", "count"]);
    assert!(matches!(&entries[1].1, JsonValue::String(s) if s == "b"));
    // Anything but two objects: the new value replaces the old.
    let mut plain = Some(JsonValue::Bool(true));
    merge_structured(&mut plain, JsonValue::Null);
    assert!(matches!(plain, Some(JsonValue::Null)));
    let mut none = None;
    merge_structured(&mut none, obj(vec![]));
    assert!(matches!(none, Some(JsonValue::Object(es)) if es.is_empty()));
    assert!(json_object(JsonValue::Null).is_none());
}
