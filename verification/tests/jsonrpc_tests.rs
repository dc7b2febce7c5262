use aish::error::Error;
use aish::jsonrpc::{
    call_tool_content, call_tool_params, json_rpc_id_to_u64, json_rpc_response_outcome, list_tools_result,
    request_line, request_outcome, JsonRpcParseResult, RpcResponse, StderrCapture, STDERR_TAIL_MAX_BYTES,
};

#[test]
fn ids_are_numbers_or_numeric_strings() {
    assert_eq!(json_rpc_id_to_u64("7"), Some(7));
    assert_eq!(json_rpc_id_to_u64("\"42\""), Some(42));
    assert_eq!(json_rpc_id_to_u64("\"+3\""), Some(3));
    assert_eq!(json_rpc_id_to_u64("-1"), None);
    assert_eq!(json_rpc_id_to_u64("1.5"), None);
    assert_eq!(json_rpc_id_to_u64("\"x\""), None);
    assert_eq!(json_rpc_id_to_u64("null"), None);
    assert_eq!(json_rpc_id_to_u64("18446744073709551615"), Some(u64::MAX));
}

fn json_message(e: Error) -> String {
    match e {
        Error::Json(m) => m,
        other => panic!("expected a JSON error, got {:?}", other),
    }
}

#[test]
fn responses_are_judged_against_the_request_id() {
    let ok = RpcResponse::Success { id: "3".to_string(), id_debug: "Number(3)".to_string(), result: Some("[1]".to_string()) };
    assert!(matches!(json_rpc_response_outcome(Ok(ok), 3), Ok(JsonRpcParseResult::Success(t)) if t == "[1]"));
    let wrong = RpcResponse::Success { id: "4".to_string(), id_debug: "Number(4)".to_string(), result: Some("1".to_string()) };
    assert_eq!(
        json_message(json_rpc_response_outcome(Ok(wrong), 3).unwrap_err()),
        "response id mismatch: expected 3, got Number(4)"
    );
    let none = RpcResponse::Success { id: "\"3\"".to_string(), id_debug: "String(\"3\")".to_string(), result: None };
    assert_eq!(json_message(json_rpc_response_outcome(Ok(none), 3).unwrap_err()), "missing result");
    let err = RpcResponse::Error { id: "3".to_string(), id_debug: "Number(3)".to_string(), code: -32601, message: "no such method".to_string() };
    match json_rpc_response_outcome(Ok(err), 3) {
        Ok(JsonRpcParseResult::RpcError { code, message }) => {
            assert_eq!(code, -32601);
            assert_eq!(message, "no such method");
        }
        other => panic!("unexpected {:?}", other),
    }
    assert_eq!(
        json_message(json_rpc_response_outcome(Err("EOF while parsing".to_string()), 1).unwrap_err()),
        "parse response: EOF while parsing"
    );
}

#[test]
fn rpc_errors_become_system_errors() {
    assert_eq!(request_outcome(JsonRpcParseResult::Success("{}".to_string())).unwrap(), "{}");
    match request_outcome(JsonRpcParseResult::RpcError { code: -32000, message: "boom".to_string() }) {
        Err(Error::System(m)) => assert_eq!(m, "JSON-RPC error -32000: boom"),
        other => panic!("unexpected {:?}", other),
    }
}

#[test]
fn request_lines_carry_version_id_method_and_params() {
    assert_eq!(request_line(1, "list_tools", None).unwrap(), r#"{"jsonrpc":"2.0","id":1,"method":"list_tools"}"#);
    assert_eq!(
        request_line(2, "call_tool", Some(r#"{ "name" : "x", "arguments" : {} }"#)).unwrap(),
        r#"{"jsonrpc":"2.0","id":2,"method":"call_tool","params":{"arguments":{},"name":"x"}}"#
    );
    assert_eq!(request_line(3, "m", Some("{oops")), None);
    assert_eq!(call_tool_params("search", r#"{"q": "a\"b"}"#).unwrap(), r#"{"arguments":{"q":"a\"b"},"name":"search"}"#);
    assert_eq!(call_tool_params("s", "nope"), None);
}

#[test]
fn list_tools_needs_an_array() {
    assert_eq!(list_tools_result(r#"[{"name":"a"}, 2]"#).unwrap(), vec![r#"{"name":"a"}"#.to_string(), "2".to_string()]);
    assert_eq!(json_message(list_tools_result(r#"{"tools":[]}"#).unwrap_err()), "list_tools result must be array");
}

#[test]
fn tool_content_is_capped() {
    assert_eq!(call_tool_content(r#"{"content": [{"type": "text", "text": "hi"}]}"#).unwrap(), r#"[{"text":"hi","type":"text"}]"#);
    assert_eq!(call_tool_content(r#"{"other": 1}"#).unwrap(), "{}");
    let big = format!(r#"{{"content": "{}"}}"#, "x".repeat(262_143));
    match call_tool_content(&big) {
        Err(Error::System(m)) => assert_eq!(m, "tool output too large: 262145 bytes (cap 262144)"),
        other => panic!("unexpected {:?}", other.map(|s| s.len())),
    }
    let fits = format!(r#"{{"content": "{}"}}"#, "x".repeat(262_142));
    assert_eq!(call_tool_content(&fits).unwrap().len(), 262_144);
}

#[test]
fn stderr_keeps_only_its_tail() {
    let mut c = StderrCapture::new();
    assert_eq!(c.stderr_tail(), None);
    c.push(b"  \n");
    assert_eq!(c.stderr_tail(), None);
    c.push(b"warning: x\n");
    assert_eq!(c.stderr_tail().as_deref(), Some("  \nwarning: x\n"));
    c.push(&vec![b'a'; STDERR_TAIL_MAX_BYTES]);
    assert_eq!(c.tail.len(), STDERR_TAIL_MAX_BYTES);
    assert!(c.tail.iter().all(|b| *b == b'a'));
    c.push(b"");
    assert_eq!(c.tail.len(), STDERR_TAIL_MAX_BYTES);
    let mut d = StderrCapture::new();
    d.push(b"bad \xff byte");
    assert_eq!(d.tail_string(), "bad \u{fffd} byte");
}
