use aish::error::Error;
use aish::openai::{chat_error_message, stream_text_chunks, OpenAiCompatProvider, SseStream};
use aish::provider::{FinishReason, LlmEvent, Message, ToolDef};
use serde_json::Value;

fn parse(s: &str) -> Value {
    serde_json::from_str(s).unwrap()
}

fn default_provider() -> OpenAiCompatProvider {
    OpenAiCompatProvider::new(None, None, None, None).unwrap()
}

#[test]
fn test_openai_compat_make_request_payload_simple() {
    let p = OpenAiCompatProvider::new(
        Some("gpt-4o-mini".to_string()),
        Some("https://api.example.com/v1".to_string()),
        None,
        Some("0.5".to_string()),
    )
    .unwrap();
    let payload = parse(&p.make_request_payload("Hello", None, &[], None).unwrap());
    assert_eq!(payload["model"], "gpt-4o-mini");
    assert_eq!(payload["temperature"], 0.5);
    assert_eq!(payload["stream"], false);
    let messages = payload["messages"].as_array().unwrap();
    assert_eq!(messages.len(), 1);
    assert_eq!(messages[0]["role"], "user");
    assert_eq!(messages[0]["content"], "Hello");
    assert_eq!(p.url(), "https://api.example.com/v1/chat/completions");
}

#[test]
fn test_openai_compat_make_request_payload_with_system_and_history() {
    let p = default_provider();
    let payload = parse(
        &p.make_request_payload("Hi", Some("You are helpful."), &[Message::user("A"), Message::assistant("B")], None)
            .unwrap(),
    );
    let messages = payload["messages"].as_array().unwrap();
    assert_eq!(messages.len(), 4);
    assert_eq!(messages[0]["role"], "system");
    assert_eq!(messages[0]["content"], "You are helpful.");
    assert_eq!(messages[1]["role"], "user");
    assert_eq!(messages[1]["content"], "A");
    assert_eq!(messages[2]["role"], "assistant");
    assert_eq!(messages[2]["content"], "B");
    assert_eq!(messages[3]["role"], "user");
    assert_eq!(messages[3]["content"], "Hi");
}

#[test]
fn test_openai_compat_make_request_payload_with_tool_calls_and_tools() {
    let p = default_provider();
    let history = vec![
        Message::assistant_with_tool_calls(
            "",
            vec![("call_1".to_string(), "run_shell".to_string(), r#"{"cmd": "ls"}"#.to_string(), None)],
        ),
        Message::tool_result("call_1", "run_shell", "done"),
    ];
    let tools = [ToolDef {
        name: "run_shell".to_string(),
        description: "Run a shell command".to_string(),
        parameters: r#"{"type": "object"}"#.to_string(),
    }];
    let payload = parse(&p.make_request_payload("next", None, &history, Some(&tools)).unwrap());
    let messages = payload["messages"].as_array().unwrap();
    assert_eq!(messages.len(), 3);
    assert!(messages[0]["tool_calls"].is_array());
    assert_eq!(messages[0]["tool_calls"][0]["id"], "call_1");
    assert_eq!(messages[0]["tool_calls"][0]["function"]["name"], "run_shell");
    assert_eq!(messages[1]["role"], "tool");
    assert_eq!(messages[1]["tool_call_id"], "call_1");
    assert_eq!(payload["tools"][0]["function"]["name"], "run_shell");
    assert_eq!(payload["tool_choice"], "auto");
}

#[test]
fn payload_text_is_what_serde_json_prints() {
    let p = default_provider();
    let history = vec![Message::assistant_with_tool_calls(
        "x",
        vec![("c".to_string(), "f".to_string(), r#"{ "b" : 1, "a" : [ 2 ] }"#.to_string(), None)],
    )];
    let out = p.make_request_payload("q", Some("s"), &history, Some(&[])).unwrap();
    assert_eq!(
        out,
        r#"{"messages":[{"content":"s","role":"system"},{"content":"x","role":"assistant","tool_calls":[{"function":{"arguments":"{\"a\":[2],\"b\":1}","name":"f"},"id":"c","type":"function"}]},{"content":"q","role":"user"}],"model":"gpt-4o-mini","stream":false,"temperature":0.7}"#
    );
}

#[test]
fn base_url_loses_trailing_slashes() {
    let p = OpenAiCompatProvider::new(None, Some("http://h:1/v1//".to_string()), Some("KEY".to_string()), None).unwrap();
    assert_eq!(p.url(), "http://h:1/v1/chat/completions");
    assert_eq!(p.api_key_env(), Some("KEY".to_string()));
    assert_eq!(p.name(), "openai_compat");
    assert_eq!(default_provider().url(), "https://api.openai.com/v1/chat/completions");
}

#[test]
fn test_openai_compat_parse_response_text() {
    let p = default_provider();
    let json = r#"{"choices":[{"message":{"role":"assistant","content":"Hello world"}}]}"#;
    let text = p.parse_response_text(json).unwrap();
    assert_eq!(text.as_deref(), Some("Hello world"));
}

#[test]
fn test_openai_compat_parse_response_text_empty_content() {
    let p = default_provider();
    let json = r#"{"choices":[{"message":{"role":"assistant","content":null}}]}"#;
    let text = p.parse_response_text(json).unwrap();
    assert_eq!(text, None);
}

#[test]
fn reply_errors() {
    let p = default_provider();
    match p.parse_response_text(r#"{"error":{"message":"quota"}}"#) {
        Err(Error::Http(m)) => assert_eq!(m, "API error: quota"),
        _ => panic!("expected an API error"),
    }
    match p.parse_response_text(r#"{"error":1}"#) {
        Err(Error::Http(m)) => assert_eq!(m, "API error: Unknown error"),
        _ => panic!("expected an API error"),
    }
    match p.parse_response_text("not json") {
        Err(Error::Json(m)) => assert!(m.starts_with("Failed to parse response JSON: ")),
        _ => panic!("expected a JSON error"),
    }
    match chat_error_message("429 Too Many Requests", r#"{"error":{"message":"slow down"}}"#) {
        Error::Http(m) => assert_eq!(m, "Chat completions error: slow down"),
        _ => panic!("expected an HTTP error"),
    }
    match chat_error_message("500 Internal Server Error", "oops") {
        Error::Http(m) => assert_eq!(m, "Chat completions error: HTTP 500 Internal Server Error: oops"),
        _ => panic!("expected an HTTP error"),
    }
}

#[test]
fn test_openai_compat_check_tool_calls() {
    let p = default_provider();
    let json = r#"{"choices":[{"message":{"tool_calls":[{"id":"c1","function":{"name":"f"}}]}}]}"#;
    assert!(p.check_tool_calls(json).unwrap());
    let json_no_tools = r#"{"choices":[{"message":{"content":"Hi"}}]}"#;
    assert!(!p.check_tool_calls(json_no_tools).unwrap());
}

#[test]
fn streaming_body_sets_stream() {
    let p = default_provider();
    let body = p.streaming_body(r#"{"model":"m","temperature":0.7,"messages":[]}"#).unwrap();
    assert_eq!(body, r#"{"messages":[],"model":"m","stream":true,"temperature":0.7}"#);
    assert_eq!(p.streaming_body(r#"{"stream":false,"a":1}"#).unwrap(), r#"{"a":1,"stream":true}"#);
    assert_eq!(p.streaming_body("null").unwrap(), r#"{"stream":true}"#);
    assert!(matches!(p.streaming_body("{"), Err(Error::Json(_))));
}

#[test]
fn test_openai_compat_sse_delta_content_parse() {
    let line = r#"data: {"choices":[{"delta":{"content":"Hello"}}]}"#;
    let mut s = SseStream::new();
    let events = s.on_line(line).unwrap();
    assert_eq!(events.len(), 1);
    assert!(matches!(&events[0], LlmEvent::TextDelta(t) if t == "Hello"));
    assert_eq!(stream_text_chunks(line), Some(vec!["Hello".to_string()]));
}

#[test]
fn test_openai_compat_sse_delta_tool_calls_parse() {
    let line = r#"data: {"choices":[{"delta":{"tool_calls":[{"index":0,"id":"call_abc","function":{"name":"run_shell","arguments":"{\"x\":1}"}}]}}]}"#;
    let mut s = SseStream::new();
    let events = s.on_line(line).unwrap();
    assert_eq!(events.len(), 1);
    assert!(
        matches!(&events[0], LlmEvent::ToolCallBegin { call_id, name, thought_signature: None } if call_id == "call_abc" && name == "run_shell")
    );
    let end = s.finish();
    assert_eq!(end.len(), 3);
    assert!(
        matches!(&end[0], LlmEvent::ToolCallArgsDelta { call_id, json_fragment } if call_id == "call_abc" && json_fragment == "{\"x\":1}")
    );
    assert!(matches!(&end[1], LlmEvent::ToolCallEnd { call_id } if call_id == "call_abc"));
    assert!(matches!(&end[2], LlmEvent::Completed { finish: FinishReason::ToolCalls }));
}

#[test]
fn stream_gathers_arguments_by_index_and_ends_in_index_order() {
    let mut s = SseStream::new();
    s.on_line(r#"data: {"choices":[{"delta":{"tool_calls":[{"index":1,"id":"b","function":{"name":"g"}}]}}]}"#);
    s.on_line(r#"data: {"choices":[{"delta":{"tool_calls":[{"index":0,"id":"a","function":{"name":"f","arguments":"{\"p\":"}}]}}]}"#);
    s.on_line(r#"data: {"choices":[{"delta":{"tool_calls":[{"index":0,"function":{"arguments":"1}"}}]}}]}"#);
    s.on_line(r#"data: {"choices":[{"delta":{"tool_calls":[{"index":1,"function":{"arguments":"  "}}]}}]}"#);
    assert!(s.on_line("data: [DONE]").is_none());
    let end = s.finish();
    let names: Vec<String> = end
        .iter()
        .map(|e| match e {
            LlmEvent::ToolCallArgsDelta { call_id, json_fragment } => format!("args {} {}", call_id, json_fragment),
            LlmEvent::ToolCallEnd { call_id } => format!("end {}", call_id),
            LlmEvent::Completed { finish } => format!("done {:?}", finish),
            other => format!("{:?}", other),
        })
        .collect();
    assert_eq!(names, vec!["args a {\"p\":1}", "end a", "end b", "done ToolCalls"]);
}

#[test]
fn stream_text_parts_and_reasoning() {
    let mut s = SseStream::new();
    let ev = s
        .on_line(r#"data: {"choices":[{"delta":{"content":[{"type":"reasoning","text":"think"},{"type":"text","text":"say"},{"text":""}],"reasoning_content":"more"}}]}"#)
        .unwrap();
    assert!(matches!(&ev[0], LlmEvent::ReasoningDelta(t) if t == "think"));
    assert!(matches!(&ev[1], LlmEvent::TextDelta(t) if t == "say"));
    assert!(matches!(&ev[2], LlmEvent::ReasoningDelta(t) if t == "more"));
    assert_eq!(ev.len(), 3);
    assert!(s.on_line(": keep-alive").unwrap().is_empty());
    assert!(s.on_line("data: {broken").unwrap().is_empty());
    let end = s.finish();
    assert!(matches!(&end[0], LlmEvent::Completed { finish: FinishReason::Stop }));
    assert_eq!(
        stream_text_chunks(r#"data:  {"choices":[{"delta":{"content":"a","reasoning_content":"b"}}]} "#),
        Some(vec!["a".to_string(), "b".to_string()])
    );
    assert_eq!(stream_text_chunks("data: [DONE]"), None);
}

#[test]
fn streaming_body_is_refused_for_requests_that_are_not_objects() {
    let p = OpenAiCompatProvider::new(None, None, None, None).unwrap();
    assert!(p.try_streaming_body("[1, 2]").is_none());
    assert!(p.try_streaming_body("\"text\"").is_none());
    assert_eq!(p.try_streaming_body(r#"{"a":1}"#).unwrap().unwrap(), r#"{"a":1,"stream":true}"#);
    assert!(matches!(p.try_streaming_body("{"), Some(Err(Error::Json(_)))));
}
