use browseros_agent::schema::{first_boolean_path, get_field, normalize_schema_value, JsonValue};

fn obj(entries: Vec<(&str, JsonValue)>) -> JsonValue {
    JsonValue::Object(entries.into_iter().map(|(k, v)| (k.to_string(), v)).collect())
}

fn st(s: &str) -> JsonValue {
    JsonValue::String(s.to_string())
}

fn arr(items: Vec<JsonValue>) -> JsonValue {
    JsonValue::Array(items)
}

fn strings(v: &JsonValue) -> Vec<Option<String>> {
    match v {
        JsonValue::Array(items) => items
            .iter()
            .map(|i| match i {
                JsonValue::String(s) => Some(s.clone()),
                _ => None,
            })
            .collect(),
        _ => Vec::new(),
    }
}

fn at<'a>(v: &'a JsonValue, path: &[&str]) -> Option<&'a JsonValue> {
    let mut cur = v;
    for key in path {
        cur = get_field(cur, key)?;
    }
    Some(cur)
}

#[test]
fn nullable_enum_normalization_collapses_schemars_option_enum_shape() {
    let schema = obj(vec![
        ("type", st("object")),
        (
            "properties",
            obj(vec![(
                "button",
                obj(vec![
                    ("type", arr(vec![st("string"), st("null")])),
                    ("enum", arr(vec![st("left"), st("right"), JsonValue::Null])),
                ]),
            )]),
        ),
    ]);
    let n = normalize_schema_value(&schema);
    let button = at(&n, &["properties", "button"]).unwrap_or_else(|| panic!("button"));
    match button {
        JsonValue::Object(es) => assert_eq!(es.len(), 2),
        _ => panic!("object"),
    }
    assert!(matches!(at(button, &["type"]), Some(JsonValue::String(t)) if t == "string"));
    let e = at(button, &["enum"]).unwrap_or_else(|| panic!("enum"));
    assert_eq!(strings(e), vec![Some("left".to_string()), Some("right".to_string())]);
}

#[test]
fn nullable_enum_normalization_strips_null_even_without_the_nullable_type_array() {
    let schema = obj(vec![
        ("type", st("object")),
        (
            "properties",
            obj(vec![
                ("state", obj(vec![("type", st("string")), ("enum", arr(vec![st("ready"), JsonValue::Null]))])),
                ("implicit", obj(vec![("enum", arr(vec![st("ready"), JsonValue::Null]))])),
            ]),
        ),
    ]);
    let n = normalize_schema_value(&schema);
    let state_enum = at(&n, &["properties", "state", "enum"]).unwrap_or_else(|| panic!("enum"));
    assert_eq!(strings(state_enum), vec![Some("ready".to_string())]);
    assert!(matches!(at(&n, &["properties", "state", "type"]), Some(JsonValue::String(t)) if t == "string"));
    let implicit = at(&n, &["properties", "implicit", "enum"]).unwrap_or_else(|| panic!("enum"));
    assert_eq!(strings(implicit), vec![Some("ready".to_string())]);
}

#[test]
fn boolean_schemas_become_objects_and_boolean_defaults_go() {
    let schema = obj(vec![
        ("type", st("object")),
        ("additionalProperties", JsonValue::Bool(false)),
        (
            "properties",
            obj(vec![
                ("flag", obj(vec![("type", st("boolean")), ("default", JsonValue::Bool(true))])),
                ("any", JsonValue::Bool(true)),
            ]),
        ),
    ]);
    assert_eq!(first_boolean_path(&schema).as_deref(), Some("$.additionalProperties"));
    let n = normalize_schema_value(&schema);
    assert!(first_boolean_path(&n).is_none());
    let not = at(&n, &["additionalProperties", "not"]).unwrap_or_else(|| panic!("not"));
    assert!(matches!(not, JsonValue::Object(es) if es.is_empty()));
    assert!(at(&n, &["properties", "flag", "default"]).is_none());
    assert!(matches!(at(&n, &["properties", "any"]), Some(JsonValue::Object(es)) if es.is_empty()));
}

#[test]
fn an_enum_of_only_null_is_left_alone() {
    let schema = obj(vec![("enum", arr(vec![JsonValue::Null]))]);
    let n = normalize_schema_value(&schema);
    let e = at(&n, &["enum"]).unwrap_or_else(|| panic!("enum"));
    assert!(matches!(e, JsonValue::Array(items) if items.len() == 1));
}

#[test]
fn boolean_paths_name_indexes() {
    let v = obj(vec![("allOf", arr(vec![obj(vec![]), JsonValue::Bool(true)]))]);
    assert_eq!(first_boolean_path(&v).as_deref(), Some("$.allOf[1]"));
}

#[test]
fn a_nullable_enum_keeps_its_order_and_other_keys() {
    let schema = obj(vec![
        ("description", st("d")),
        ("type", arr(vec![st("string"), st("null"), st("integer")])),
        ("enum", arr(vec![st("b"), JsonValue::Null, st("a")])),
    ]);
    let n = normalize_schema_value(&schema);
    assert_eq!(strings(at(&n, &["enum"]).unwrap_or_else(|| panic!("enum"))), vec![Some("b".to_string()), Some("a".to_string())]);
    assert_eq!(
        strings(at(&n, &["type"]).unwrap_or_else(|| panic!("type"))),
        vec![Some("string".to_string()), Some("integer".to_string())]
    );
    assert!(matches!(at(&n, &["description"]), Some(JsonValue::String(d)) if d == "d"));
}

#[test]
fn a_type_array_of_only_null_stays_when_the_enum_collapses() {
    let schema = obj(vec![("type", arr(vec![st("null")])), ("enum", arr(vec![st("x"), JsonValue::Null]))]);
    let n = normalize_schema_value(&schema);
    assert_eq!(strings(at(&n, &["enum"]).unwrap_or_else(|| panic!("enum"))), vec![Some("x".to_string())]);
    assert_eq!(strings(at(&n, &["type"]).unwrap_or_else(|| panic!("type"))), vec![Some("null".to_string())]);
}
