use aish::domain::LogLevel;
use aish::events::{debug_log_line, AgentEvent, Log, LogRecord, Msg, NoopLog};
use aish::provider::LlmEvent;

#[test]
fn test_msg_user_assistant() {
    let u = Msg::user("Hi");
    let a = Msg::assistant("Hello");
    assert!(matches!(u, Msg::User(s) if s == "Hi"));
    assert!(matches!(a, Msg::Assistant(s) if s == "Hello"));
}

#[test]
fn test_msg_tool_call_result() {
    let tc = Msg::tool_call("c1", "run_shell", r#"{"cmd":"ls"}"#.to_string(), Some("sig123".to_string()));
    let tr = Msg::tool_result("c1", "run_shell", r#"{"ok":true}"#.to_string());
    assert!(
        matches!(tc, Msg::ToolCall { call_id, name, thought_signature, .. } if call_id == "c1" && name == "run_shell" && thought_signature == Some("sig123".to_string()))
    );
    assert!(matches!(tr, Msg::ToolResult { call_id, name, .. } if call_id == "c1" && name == "run_shell"));
    assert_eq!(Msg::system("s"), Msg::System("s".to_string()));
}

#[test]
fn test_agent_event_llm() {
    let ev = AgentEvent::Llm(LlmEvent::TextDelta("hi".to_string()));
    assert!(matches!(ev, AgentEvent::Llm(LlmEvent::TextDelta(s)) if s == "hi"));
}

#[test]
fn test_agent_event_tool_result() {
    let ev = AgentEvent::ToolResult {
        call_id: "c1".to_string(),
        name: "run".to_string(),
        args: r#"{"cmd":"ls"}"#.to_string(),
        result: r#"{"ok":true}"#.to_string(),
    };
    assert!(matches!(ev, AgentEvent::ToolResult { call_id, name, .. } if call_id == "c1" && name == "run"));
}

#[test]
fn test_log_record_serialize() {
    let mut rec = LogRecord::new("2026-02-07T12:00:00Z", LogLevel::Info, "command started");
    rec.layer = Some("cli".to_string());
    rec.kind = Some("lifecycle".to_string());
    let rec = rec.with_field("command", "\"query\"");
    let json = rec.to_json_line();
    assert!(json.contains("\"ts\":\"2026-02-07T12:00:00Z\""));
    assert!(json.contains("\"level\":\"info\""));
    assert!(json.contains("\"message\":\"command started\""));
    assert!(json.contains("\"layer\":\"cli\""));
    assert!(json.contains("\"kind\":\"lifecycle\""));
    assert!(json.contains("\"command\""));
}

#[test]
fn log_record_line_is_exact_and_keeps_fields_in_key_order() {
    let rec = LogRecord::new("t", LogLevel::Warn, "m\"q")
        .with_field("zeta", "1")
        .with_field("alpha", "{ \"b\": [ 1 ] }")
        .with_field("zeta", "bad json");
    assert_eq!(
        rec.to_json_line(),
        "{\"ts\":\"t\",\"level\":\"warn\",\"message\":\"m\\\"q\",\"fields\":{\"alpha\":{\"b\":[1]},\"zeta\":null}}\n"
    );
    let plain = LogRecord::new("t", LogLevel::Error, "x");
    assert_eq!(plain.to_json_line(), "{\"ts\":\"t\",\"level\":\"error\",\"message\":\"x\"}\n");
}

#[test]
fn debug_log_lines() {
    assert_eq!(debug_log_line(1700000000123, "aish-render", "Output complete"), "[1700000000123] aish-render: Output complete\n");
}

#[test]
fn test_noop_log() {
    let log = NoopLog;
    let rec = LogRecord {
        ts: "2026-02-07T12:00:00Z".to_string(),
        level: LogLevel::Info,
        message: "test".to_string(),
        layer: None,
        kind: None,
        fields: None,
    };
    assert!(log.log(&rec).is_ok());
}
