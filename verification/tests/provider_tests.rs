use aish::provider::{EchoProvider, FinishReason, LlmEvent, Message, ProviderType, ProviderTypeKind, ToolDef};

fn texts(events: &[LlmEvent]) -> String {
    events
        .iter()
        .filter_map(|ev| match ev {
            LlmEvent::TextDelta(t) => Some(t.as_str()),
            _ => None,
        })
        .collect::<String>()
}

#[test]
fn test_echo_provider_name() {
    let provider = EchoProvider::new();
    assert_eq!(provider.name(), "echo");
}

#[test]
fn test_echo_provider_make_request_payload() {
    let provider = EchoProvider::new();
    let payload = provider.make_request_payload("Hello", None, &[], None).unwrap();
    let v: serde_json::Value = serde_json::from_str(&payload).unwrap();
    assert_eq!(v["query"], "Hello");
}

#[test]
fn test_echo_provider_make_request_payload_with_system() {
    let provider = EchoProvider::new();
    let payload = provider
        .make_request_payload("Hello", Some("You are helpful"), &[], None)
        .unwrap();
    let v: serde_json::Value = serde_json::from_str(&payload).unwrap();
    assert_eq!(v["query"], "Hello");
    assert_eq!(v["system_instruction"], "You are helpful");
}

#[test]
fn test_echo_provider_make_request_payload_with_history() {
    let provider = EchoProvider::new();
    let history = vec![Message::user("Hi"), Message::assistant("Hello!")];
    let payload = provider
        .make_request_payload("How are you?", None, &history, None)
        .unwrap();
    let v: serde_json::Value = serde_json::from_str(&payload).unwrap();
    assert_eq!(v["query"], "How are you?");
    assert!(v["history"].is_array());
    assert_eq!(v["history"].as_array().unwrap().len(), 2);
}

#[test]
fn echo_payload_is_the_serde_json_text() {
    let provider = EchoProvider::new();
    let history = vec![Message::user("Hi \"there\"")];
    let payload = provider.make_request_payload("q\n", Some("s"), &history, None).unwrap();
    let expected = r#"{"history":[{"content":"Hi \"there\"","role":"user"}],"query":"q\n","system_instruction":"s"}"#;
    assert_eq!(payload, expected);
}

#[test]
fn test_echo_provider_parse_response_text() {
    let provider = EchoProvider::new();
    let result = provider.parse_response_text("{}").unwrap();
    assert!(result.is_some());
    assert!(result.unwrap().contains("Echo Provider"));
}

#[test]
fn test_echo_provider_check_tool_calls() {
    let provider = EchoProvider::new();
    let result = provider.check_tool_calls("{}").unwrap();
    assert_eq!(result, false);
}

#[test]
fn echo_http_request_wraps_the_request() {
    let provider = EchoProvider::new();
    let r = provider.make_http_request("{\"a\":1}").unwrap();
    assert_eq!(r, "{\"echo\":\"{\\\"a\\\":1}\"}");
}

#[test]
fn echo_streaming_request_yields_words_and_spaces() {
    let provider = EchoProvider::new();
    let chunks = provider.make_http_streaming_request("{}");
    assert_eq!(chunks[0], "[Echo");
    assert_eq!(chunks[1], " ");
    assert_eq!(chunks[2], "Provider]");
    assert_eq!(chunks.len() % 2, 0);
    let joined: String = chunks.concat();
    assert!(joined.starts_with("[Echo Provider] This is a simulated streaming response"));
}

#[test]
fn test_echo_provider_stream_events_text_only_includes_query_history_and_system() {
    let provider = EchoProvider::new();
    let request_json = provider
        .make_request_payload(
            "say hello",
            Some("You are helpful"),
            &[Message::user("first"), Message::assistant("second")],
            None,
        )
        .unwrap();
    let events = provider.stream_events(&request_json, None, None);
    assert!(matches!(
        events.last(),
        Some(LlmEvent::Completed { finish: FinishReason::Stop })
    ));
    let text = texts(&events);
    assert!(text.contains("[Echo Provider] Query: user message: say hello"));
    assert!(text.contains("[Echo Provider] History: 2 messages"));
    assert!(text.contains("[Echo Provider] System instruction: You are helpful"));
    assert!(text.contains("[Echo Provider] 採用された履歴件数: 2 件。"));
    assert!(text.contains("simulated streaming response"));
}

#[test]
fn echo_stream_on_unparsable_request_answers_with_empty_query() {
    let provider = EchoProvider::new();
    let events = provider.stream_events("not json", None, None);
    assert_eq!(events.len(), 2);
    let text = texts(&events);
    assert!(text.starts_with("[Echo Provider] Query: user message: \n\n\n[Echo Provider] 採用された履歴件数: 0 件。"));
}

fn tools(names: &[&str]) -> Vec<ToolDef> {
    names
        .iter()
        .map(|n| ToolDef { name: n.to_string(), description: String::new(), parameters: "{}".to_string() })
        .collect()
}

#[test]
fn echo_simulates_a_tool_call_from_the_query() {
    let provider = EchoProvider::new();
    let request = r#"{"query":"  CALL:run_shell {\"command\": \"ls\"}  "}"#.to_string();
    let t = tools(&["read_file", "run_shell"]);
    let events = provider.stream_events(&request, Some(&t), None);
    assert_eq!(events.len(), 4);
    match &events[0] {
        LlmEvent::ToolCallBegin { call_id, name, thought_signature } => {
            assert_eq!(call_id, "echo_call_run_shell");
            assert_eq!(name, "run_shell");
            assert!(thought_signature.is_none());
        }
        other => panic!("unexpected {:?}", other),
    }
    match &events[1] {
        LlmEvent::ToolCallArgsDelta { json_fragment, .. } => assert_eq!(json_fragment, "{\"command\":\"ls\"}"),
        other => panic!("unexpected {:?}", other),
    }
    assert!(matches!(events[3], LlmEvent::Completed { finish: FinishReason::ToolCalls }));
}

#[test]
fn echo_tool_call_arguments_default_and_fallback() {
    let provider = EchoProvider::new();
    let t = tools(&["run_shell", "note"]);
    let r1 = r#"{"query":"call: run_shell"}"#.to_string();
    match &provider.stream_events(&r1, Some(&t), None)[1] {
        LlmEvent::ToolCallArgsDelta { json_fragment, .. } => assert_eq!(json_fragment, "{\"command\":\"echo ok\"}"),
        other => panic!("unexpected {:?}", other),
    }
    let r2 = r#"{"query":"call:note remember milk"}"#.to_string();
    match &provider.stream_events(&r2, Some(&t), None)[1] {
        LlmEvent::ToolCallArgsDelta { json_fragment, .. } => {
            assert_eq!(json_fragment, "{\"input\":\"remember milk\",\"message\":\"remember milk\"}")
        }
        other => panic!("unexpected {:?}", other),
    }
    let r3 = r#"{"query":"call:note"}"#.to_string();
    match &provider.stream_events(&r3, Some(&t), None)[1] {
        LlmEvent::ToolCallArgsDelta { json_fragment, .. } => assert_eq!(json_fragment, "{}"),
        other => panic!("unexpected {:?}", other),
    }
}

#[test]
fn echo_keeps_calling_tools_up_to_the_loop_limit() {
    let provider = EchoProvider::new();
    let one = r#"{"query":"q","history":[{"role":"user","content":"q"},{"role":"tool","content":"r1"}]}"#.to_string();
    let events = provider.stream_events(&one, None, None);
    match &events[0] {
        LlmEvent::ToolCallBegin { call_id, name, .. } => {
            assert_eq!(call_id, "echo_loop_2");
            assert_eq!(name, "run_shell");
        }
        other => panic!("unexpected {:?}", other),
    }
    match &events[1] {
        LlmEvent::ToolCallArgsDelta { json_fragment, .. } => assert_eq!(json_fragment, "{\"command\":\"echo loop step 2\"}"),
        other => panic!("unexpected {:?}", other),
    }
    let events = provider.stream_events(&one, None, Some("1"));
    let text = texts(&events);
    assert_eq!(text, "[Echo Provider] Tool result was received. Proceeding with: r1 ");
    assert!(matches!(events.last(), Some(LlmEvent::Completed { finish: FinishReason::Stop })));
}

#[test]
fn echo_cuts_long_tool_results_at_sixty_bytes() {
    let provider = EchoProvider::new();
    let long = "é".repeat(40);
    let req = format!(r#"{{"history":[{{"role":"tool","content":"{}"}}]}}"#, long);
    let events = provider.stream_events(&req, None, Some("0"));
    let text = texts(&events);
    let expected = format!("{}...", "é".repeat(30));
    assert_eq!(text, format!("[Echo Provider] Tool result was received. Proceeding with: {} ", expected));
}

#[test]
fn test_provider_type_from_str() {
    assert_eq!(ProviderType::from_str("gemini"), Some(ProviderType::Gemini));
    assert_eq!(ProviderType::from_str("Gemini"), Some(ProviderType::Gemini));
    assert_eq!(ProviderType::from_str("GEMINI"), Some(ProviderType::Gemini));
    assert_eq!(ProviderType::from_str("gpt"), Some(ProviderType::Gpt));
    assert_eq!(ProviderType::from_str("GPT"), Some(ProviderType::Gpt));
    assert_eq!(ProviderType::from_str("openai"), Some(ProviderType::Gpt));
    assert_eq!(ProviderType::from_str("openai_compat"), Some(ProviderType::OpenAiCompat));
    assert_eq!(ProviderType::from_str("echo"), Some(ProviderType::Echo));
    assert_eq!(ProviderType::from_str("ECHO"), Some(ProviderType::Echo));
    assert_eq!(ProviderType::from_str("unknown"), None);
}

#[test]
fn test_provider_type_as_str() {
    assert_eq!(ProviderType::Gemini.as_str(), "gemini");
    assert_eq!(ProviderType::Gpt.as_str(), "gpt");
    assert_eq!(ProviderType::OpenAiCompat.as_str(), "openai_compat");
    assert_eq!(ProviderType::Echo.as_str(), "echo");
}

#[test]
fn test_any_provider_name_gemini() {
    // Needs a real API key; covered by integration runs.
}

#[test]
fn test_any_provider_name_gpt() {
    // Needs a real API key; covered by integration runs.
}

#[test]
fn provider_names_read_back() {
    for t in [ProviderType::Gemini, ProviderType::Gpt, ProviderType::OpenAiCompat, ProviderType::Echo] {
        assert_eq!(ProviderType::from_str(t.as_str()), Some(t));
    }
    assert_eq!(ProviderTypeKind::Openai.as_str(), "openai");
    assert_eq!(ProviderTypeKind::OpenaiCompat.as_str(), "openai_compat");
    assert_eq!(ProviderTypeKind::Gemini.as_str(), "gemini");
    assert_eq!(ProviderTypeKind::Echo.as_str(), "echo");
}

#[test]
fn test_message_new() {
    let msg = Message::new("user", "Hello");
    assert_eq!(msg.role, "user");
    assert_eq!(msg.content, "Hello");
}

#[test]
fn test_message_user() {
    let msg = Message::user("Hello");
    assert_eq!(msg.role, "user");
    assert_eq!(msg.content, "Hello");
}

#[test]
fn test_message_assistant() {
    let msg = Message::assistant("Hi there");
    assert_eq!(msg.role, "assistant");
    assert_eq!(msg.content, "Hi there");
}

#[test]
fn test_message_with_empty_content() {
    let msg = Message::new("user", "");
    assert_eq!(msg.role, "user");
    assert_eq!(msg.content, "");
}

#[test]
fn test_message_with_multiline_content() {
    let content = "Line 1\nLine 2\nLine 3";
    let msg = Message::user(content);
    assert_eq!(msg.role, "user");
    assert_eq!(msg.content, "Line 1\nLine 2\nLine 3");
}

#[test]
fn test_message_clone() {
    let msg1 = Message::user("Hello");
    let msg2 = msg1.clone();
    assert_eq!(msg1.role, msg2.role);
    assert_eq!(msg1.content, msg2.content);
}

#[test]
fn test_message_different_roles() {
    let roles = vec!["user", "assistant", "system", "function"];
    for role in roles {
        let msg = Message::new(role, "test");
        assert_eq!(msg.role, role);
        assert_eq!(msg.content, "test");
    }
}

#[test]
fn test_message_long_content() {
    let long_content = "a".repeat(1000);
    let msg = Message::user(&long_content);
    assert_eq!(msg.role, "user");
    assert_eq!(msg.content.len(), 1000);
}

#[test]
fn tool_messages_carry_their_call() {
    let m = Message::tool_result("call_1", "run_shell", "done");
    assert_eq!(m.role, "tool");
    assert_eq!(m.tool_call_id.as_deref(), Some("call_1"));
    assert_eq!(m.tool_name.as_deref(), Some("run_shell"));
    let a = Message::assistant_with_tool_calls(
        "",
        vec![("c1".to_string(), "f".to_string(), "{}".to_string(), None)],
    );
    let calls = a.tool_calls.unwrap();
    assert_eq!(calls.len(), 1);
    assert_eq!(calls[0].id, "c1");
    assert_eq!(calls[0].name, "f");
}

#[test]
fn provider_names_ignore_ascii_case() {
    for name in ["GEMINI", "Gpt", "OpenAI", "OPENAI_COMPAT", "Echo"] {
        assert_eq!(ProviderType::from_str(name), ProviderType::from_str(&name.to_lowercase()));
        assert!(ProviderType::from_str(name).is_some());
    }
    assert_eq!(ProviderType::from_str("OpenAI"), Some(ProviderType::Gpt));
    assert_eq!(ProviderType::from_str("echo2"), None);
    for t in [ProviderType::Gemini, ProviderType::Gpt, ProviderType::OpenAiCompat, ProviderType::Echo] {
        assert_eq!(ProviderType::from_str(t.as_str()), Some(t));
    }
}
