use agentic_flow_lib::json::JsonValue;
use agentic_flow_lib::text::decimal_string;
use agentic_flow_lib::agent::make_step_key;
use agentic_flow_lib::errors::AgenticFlowError;

#[test]
fn json_get_field_finds_first_match() {
    let value = JsonValue::Object(vec![
        ("a".to_string(), JsonValue::Int(1)),
        ("b".to_string(), JsonValue::Int(2)),
        ("a".to_string(), JsonValue::Int(3)),
    ]);
    assert_eq!(value.get_field("a"), Some(&JsonValue::Int(1)));
    assert_eq!(value.get_field("b"), Some(&JsonValue::Int(2)));
    assert_eq!(value.get_field("c"), None);
    assert_eq!(JsonValue::Null.get_field("a"), None);
}

#[test]
fn json_as_text_reads_strings_only() {
    let text = JsonValue::text("hello");
    assert_eq!(text.as_text().map(|s| s.as_str()), Some("hello"));
    assert_eq!(JsonValue::Int(3).as_text(), None);
}

#[test]
fn json_object_with_builds_one_entry() {
    let obj = JsonValue::object_with("text", JsonValue::text("hi"));
    assert_eq!(obj.get_field("text"), Some(&JsonValue::text("hi")));
}

#[test]
fn json_clone_is_deep() {
    let value = JsonValue::Array(vec![
        JsonValue::Null,
        JsonValue::Bool(true),
        JsonValue::Object(vec![("k".to_string(), JsonValue::text("v"))]),
    ]);
    let copy = value.clone();
    assert_eq!(copy, value);
}

#[test]
fn decimal_string_renders_exact_digits() {
    assert_eq!(decimal_string(0), "0");
    assert_eq!(decimal_string(7), "7");
    assert_eq!(decimal_string(10), "10");
    assert_eq!(decimal_string(12345), "12345");
}

#[test]
fn step_keys_are_numbered() {
    assert_eq!(make_step_key(1, "echo"), "1: echo");
    assert_eq!(make_step_key(12, "search"), "12: search");
}

#[test]
fn error_messages_name_their_kind() {
    assert_eq!(
        AgenticFlowError::PlanningError("p".to_string()).message(),
        "Planning error: p"
    );
    assert_eq!(AgenticFlowError::ToolError("t".to_string()).message(), "Tool error: t");
    assert_eq!(
        AgenticFlowError::ApiClientError("a".to_string()).message(),
        "API client error: a"
    );
    assert_eq!(AgenticFlowError::ParseError("x".to_string()).message(), "Parse error: x");
    assert_eq!(
        AgenticFlowError::NetworkError("n".to_string()).message(),
        "Network error: n"
    );
    assert_eq!(
        AgenticFlowError::ExecutionError("e".to_string()).message(),
        "Execution error: e"
    );
    assert_eq!(AgenticFlowError::ServerNotFound.message(), "Server not found");
}
