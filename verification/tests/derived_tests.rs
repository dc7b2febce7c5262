use aish::derived::{session_id_from_dir, subject_and_text_from_payload, truncate_str, SessionSummary};

#[test]
fn truncation_keeps_whole_characters() {
    assert_eq!(truncate_str("  short  ", 10), "short");
    assert_eq!(truncate_str("abcdefghij", 8), "abcde...");
    // 'é' is two bytes: five bytes left for text cut inside the third one.
    assert_eq!(truncate_str("éééé", 8), "éé...");
    assert_eq!(truncate_str("abc", 2), "...");
    assert_eq!(truncate_str("", 0), "");
}

#[test]
fn session_ids_come_from_the_directory_name() {
    assert_eq!(session_id_from_dir("/home/u/.aish/sessions/abc123"), "abc123");
    assert_eq!(session_id_from_dir("/home/u/s/"), "s");
    assert_eq!(session_id_from_dir("/"), "unknown");
    assert_eq!(session_id_from_dir("a/.."), "unknown");
}

#[test]
fn subjects_of_policy_context_and_tool_events() {
    let (s, t) = subject_and_text_from_payload(
        "policy.evaluated",
        r#"{"status":"blocked","reason":"rm -rf","details":{"command":"rm -rf /"}}"#,
    );
    assert_eq!(s, "blocked rm -rf");
    assert_eq!(t, "rm -rf /");
    let (s, t) = subject_and_text_from_payload("policy.evaluated", r#"{"status":"ok","tool_name":"read_file"}"#);
    assert_eq!(s, "ok");
    assert_eq!(t, "read_file");
    let (s, t) = subject_and_text_from_payload("context.pack_built", r#"{"addons_count":3}"#);
    assert_eq!(s, "context pack built");
    assert_eq!(t, "addons=3 attachments=0");
    let (s, t) = subject_and_text_from_payload("tool.started", r#"{"tool":"grep","args":{"b":1,"a":"x"}}"#);
    assert_eq!(s, "tool grep");
    assert_eq!(t, r#"{"a":"x","b":1}"#);
    let (s, t) = subject_and_text_from_payload("tool.done", r#"{"tool_name":5}"#);
    assert_eq!(s, "tool tool.done");
    assert_eq!(t, "");
    let (s, t) = subject_and_text_from_payload("run.started", "{}");
    assert_eq!(s, "run.started");
    assert_eq!(t, "");
}

#[test]
fn summary_counts_and_previews() {
    let mut sum = SessionSummary::new();
    sum.add_event("message.user", 10, "", r#"{"content":"  hello  "}"#);
    sum.add_event("policy.evaluated", 11, "", r#"{"status":"blocked"}"#);
    sum.add_event("policy.evaluated", 12, "", r#"{"status":"has warnings"}"#);
    sum.add_event("tool.started", 13, "tool ls", "{}");
    sum.add_event("message.assistant", 14, "", r#"{"content":"done"}"#);
    assert_eq!(
        sum.counts_by_kind,
        vec![
            ("message.assistant".to_string(), 1),
            ("message.user".to_string(), 1),
            ("policy.evaluated".to_string(), 2),
            ("tool.started".to_string(), 1)
        ]
    );
    assert_eq!(sum.blocked_count, 1);
    assert_eq!(sum.warn_count, 1);
    assert_eq!(sum.last_ts_ms, Some(14));
    assert_eq!(sum.last_user_query_preview, Some("hello".to_string()));
    assert_eq!(sum.last_assistant_text_preview, Some("done".to_string()));
    let text = sum.to_json("s1", 99);
    let expected = "{\n  \"blocked_count\": 1,\n  \"counts_by_kind\": {\n    \"message.assistant\": 1,\n    \"message.user\": 1,\n    \"policy.evaluated\": 2,\n    \"tool.started\": 1\n  },\n  \"generated_at_ms\": 99,\n  \"last_assistant_text_preview\": \"done\",\n  \"last_tool_subjects\": [\n    \"tool ls\"\n  ],\n  \"last_ts_ms\": 14,\n  \"last_user_query_preview\": \"hello\",\n  \"session_id\": \"s1\",\n  \"v\": 1,\n  \"warn_count\": 1\n}";
    assert_eq!(text, expected);
}

#[test]
fn summary_text_matches_serde_json_pretty_printing() {
    let mut sum = SessionSummary::new();
    for i in 0..25 {
        sum.add_event("tool.x", i, &format!("tool t{}", i), "{}");
    }
    let text = sum.to_json("id", -5);
    let v: serde_json::Value = serde_json::from_str(&text).unwrap();
    assert_eq!(serde_json::to_string_pretty(&v).unwrap(), text);
    let subjects = v["last_tool_subjects"].as_array().unwrap();
    assert_eq!(subjects.len(), 20);
    assert_eq!(subjects[0], "tool t5");
    let empty = SessionSummary::new().to_json("e", 0);
    let v: serde_json::Value = serde_json::from_str(&empty).unwrap();
    assert_eq!(serde_json::to_string_pretty(&v).unwrap(), empty);
    assert!(empty.contains("\"counts_by_kind\": {}"));
    assert!(empty.contains("\"last_tool_subjects\": []"));
    assert!(empty.contains("\"last_ts_ms\": null"));
}
