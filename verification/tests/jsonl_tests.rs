use aish::jsonl::{parse_line, try_parse_line};

#[test]
fn reads_type_data_and_enc() {
    let r = parse_line(r#"{"v":1,"t_ms":5,"type":"stdout","n":3,"data":"ls\n"}"#).unwrap();
    assert_eq!(r.0, "stdout");
    assert_eq!(r.1.as_deref(), Some("ls\n"));
    assert_eq!(r.2, None);
    let r = parse_line(r#"{"type":"stdin","enc":"b64","data":"/wA="}"#).unwrap();
    assert_eq!(r.0, "stdin");
    assert_eq!(r.2.as_deref(), Some("b64"));
}

#[test]
fn unescapes_data() {
    let r = parse_line(r#"{"type":"stdout","data":"a\"b\\c\/d\te\u0041\u00e9x\q"}"#).unwrap();
    assert_eq!(r.1.as_deref(), Some("a\"b\\c/d\teAéx\\q"));
}

#[test]
fn a_line_without_type_gives_none() {
    assert!(parse_line(r#"{"data":"x"}"#).is_none());
    assert!(parse_line("").is_none());
    assert!(parse_line(r#"{"type": 5}"#).is_none());
}

#[test]
fn spaces_and_colons_before_values_are_skipped() {
    let r = parse_line(r#"{"type" : "exit"}"#).unwrap();
    assert_eq!(r.0, "exit");
}

#[test]
fn cuts_inside_characters_are_reported() {
    assert!(try_parse_line("é\"type\":\"x\"").is_none());
    assert_eq!(try_parse_line(r#"{"type":"x"}"#), Some(Some(("x".to_string(), None, None))));
}

#[test]
fn stdout_records_read_back() {
    let cases: Vec<(Vec<u8>, String, Option<String>)> = vec![
        (b"hello \"x\"\n\tok\\".to_vec(), "hello \"x\"\n\tok\\".to_string(), None),
        (b"\x1b[31mred\x1b[0m".to_vec(), "\x1b[31mred\x1b[0m".to_string(), None),
        (vec![0x00, 0x01, 0x7f], "AAF/".to_string(), Some("b64".to_string())),
    ];
    for (data, payload, enc) in cases {
        let mut out = String::new();
        aish::logfmt::write_stdout(&mut out, -12, &data);
        let line = out.strip_suffix('\n').unwrap();
        assert_eq!(parse_line(line), Some(("stdout".to_string(), Some(payload), enc)));
    }
}
