use codex_core::json::{json_to_string, parse_json, sanitize_json_schema, JsonValue};

fn sanitize_text(input: &str) -> String {
    json_to_string(&sanitize_json_schema(parse_json(input).unwrap()))
}

#[test]
fn sanitize_property_missing_type_defaults_to_string() {
    let out = sanitize_text(
        "{\"type\":\"object\",\"properties\":{\"query\":{\"description\":\"search query\"}}}",
    );
    let v: serde_json::Value = serde_json::from_str(&out).unwrap();
    assert_eq!(v["properties"]["query"]["type"], "string");
    assert_eq!(v["type"], "object");
}

#[test]
fn sanitize_keeps_integer_tag_for_typed_parse() {
    // `integer` stays as written; the typed schema parse treats it as a
    // number.
    let out = sanitize_text("{\"type\":\"object\",\"properties\":{\"page\":{\"type\":\"integer\"}}}");
    let v: serde_json::Value = serde_json::from_str(&out).unwrap();
    assert_eq!(v["properties"]["page"]["type"], "integer");
}

#[test]
fn sanitize_array_without_items_gets_default_string_items() {
    let out = sanitize_text("{\"type\":\"object\",\"properties\":{\"tags\":{\"type\":\"array\"}}}");
    let v: serde_json::Value = serde_json::from_str(&out).unwrap();
    assert_eq!(v["properties"]["tags"]["items"]["type"], "string");
}

#[test]
fn sanitize_anyof_defaults_to_string() {
    let out = sanitize_text(
        "{\"type\":\"object\",\"properties\":{\"value\":{\"anyOf\":[{\"type\":\"string\"},{\"type\":\"number\"}]}}}",
    );
    let v: serde_json::Value = serde_json::from_str(&out).unwrap();
    assert_eq!(v["properties"]["value"]["type"], "string");
}

#[test]
fn sanitize_infers_types_from_keywords() {
    let out = sanitize_text("{\"properties\":{}}");
    let v: serde_json::Value = serde_json::from_str(&out).unwrap();
    assert_eq!(v["type"], "object");

    let out = sanitize_text("{\"minimum\":3}");
    let v: serde_json::Value = serde_json::from_str(&out).unwrap();
    assert_eq!(v["type"], "number");

    let out = sanitize_text("{\"enum\":[\"a\"]}");
    let v: serde_json::Value = serde_json::from_str(&out).unwrap();
    assert_eq!(v["type"], "string");
}

#[test]
fn sanitize_boolean_schema_becomes_permissive_string() {
    let out = sanitize_text("true");
    let v: serde_json::Value = serde_json::from_str(&out).unwrap();
    assert_eq!(v["type"], "string");
}

#[test]
fn sanitize_object_gains_properties_map() {
    let out = sanitize_text("{\"type\":\"object\"}");
    let v: serde_json::Value = serde_json::from_str(&out).unwrap();
    assert!(v["properties"].is_object());
}

#[test]
fn sanitize_type_union_picks_first_supported() {
    let out = sanitize_text("{\"type\":[\"number\",\"string\"]}");
    let v: serde_json::Value = serde_json::from_str(&out).unwrap();
    assert_eq!(v["type"], "number");
}

#[test]
fn json_round_trips_through_the_plain_model() {
    let v = parse_json("{\"a\":[1,2,{\"b\":null}],\"c\":\"x\"}").unwrap();
    let text = json_to_string(&v);
    let reparsed: serde_json::Value = serde_json::from_str(&text).unwrap();
    let original: serde_json::Value =
        serde_json::from_str("{\"a\":[1,2,{\"b\":null}],\"c\":\"x\"}").unwrap();
    assert_eq!(reparsed, original);
}

#[test]
fn json_model_rejects_invalid_text() {
    assert!(parse_json("{not json").is_err());
    assert!(matches!(parse_json("42"), Ok(JsonValue::Int(42))));
}
