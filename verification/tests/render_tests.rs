use aish::render::{follow_requested, output_bytes, parse_jsonl_line, redraw, replay_line};
use aish::terminal::TerminalBuffer;

fn s(v: &[&str]) -> Vec<String> {
    v.iter().map(|x| x.to_string()).collect()
}

#[test]
fn capture_lines_are_read_by_their_fields() {
    assert_eq!(
        parse_jsonl_line(r#"{"type":"stdout","data":"aGk=","enc":"b64"}"#),
        Some(("stdout".to_string(), Some("aGk=".to_string()), Some("b64".to_string())))
    );
    assert_eq!(parse_jsonl_line(r#"{"type":"resize","cols":80}"#), Some(("resize".to_string(), None, None)));
    assert_eq!(parse_jsonl_line(r#"{"type":"stdout","data":7}"#), Some(("stdout".to_string(), None, None)));
    assert_eq!(parse_jsonl_line(r#"{"data":"x"}"#), None);
    assert_eq!(parse_jsonl_line(r#"{"type":1}"#), None);
    assert_eq!(parse_jsonl_line("not json"), None);
}

#[test]
fn stdout_records_carry_bytes() {
    let stdout = "stdout".to_string();
    assert_eq!(output_bytes(&stdout, &Some("aGk=".to_string()), &Some("b64".to_string())), Some(b"hi".to_vec()));
    assert_eq!(output_bytes(&stdout, &Some("héllo".to_string()), &None), Some("héllo".as_bytes().to_vec()));
    assert_eq!(output_bytes(&stdout, &Some("aGk=".to_string()), &Some("utf8".to_string())), Some(b"aGk=".to_vec()));
    assert_eq!(output_bytes(&stdout, &Some("@@@".to_string()), &Some("b64".to_string())), None);
    assert_eq!(output_bytes(&stdout, &None, &None), None);
    assert_eq!(output_bytes(&"resize".to_string(), &Some("x".to_string()), &None), None);
}

#[test]
fn follow_is_asked_for_after_the_program_name() {
    assert!(follow_requested(&s(&["aish-render", "-f"])));
    assert!(follow_requested(&s(&["aish-render", "x", "--follow"])));
    assert!(!follow_requested(&s(&["-f"])));
    assert!(!follow_requested(&s(&["aish-render", "--f"])));
}

#[test]
fn redraw_clears_homes_and_places_the_cursor() {
    let mut b = TerminalBuffer::new();
    b.process_data(b"ab\ncd");
    assert_eq!(redraw(&b, false), "\x1b[2J\x1b[Hab\ncd");
    assert_eq!(redraw(&b, true), "\x1b[2J\x1b[Hab\ncd\x1b[2;3H");
}

#[test]
fn replaying_a_log_builds_the_screen() {
    let mut b = TerminalBuffer::new();
    assert_eq!(replay_line(&mut b, r#"{"type":"stdout","data":"hello\r\nworld"}"#, false, false), Ok(None));
    assert_eq!(replay_line(&mut b, r#"{"type":"resize","cols":80}"#, false, false), Ok(None));
    assert_eq!(replay_line(&mut b, "garbage", false, false), Ok(None));
    // "IQ==" is "!".
    assert_eq!(replay_line(&mut b, r#"{"type":"stdout","data":"IQ==","enc":"b64"}"#, true, true), Ok(Some("\x1b[2J\x1b[Hhello\nworld!\x1b[2;7H".to_string())));
    assert_eq!(b.output(), "hello\nworld!");
}

#[test]
fn only_canonical_base64_decodes() {
    let stdout = "stdout".to_string();
    let b64 = Some("b64".to_string());
    assert_eq!(output_bytes(&stdout, &Some("AAF/".to_string()), &b64), Some(vec![0x00, 0x01, 0x7f]));
    assert_eq!(output_bytes(&stdout, &Some("aGl=".to_string()), &b64), None);
    assert_eq!(output_bytes(&stdout, &Some("aGk".to_string()), &b64), None);
    assert_eq!(output_bytes(&stdout, &Some(String::new()), &b64), Some(Vec::new()));
}
