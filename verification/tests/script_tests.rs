use aish::script::{
    parse_script, parse_script_args, script_source, start_script, try_parse_rule, try_parse_rules_in_block,
    try_parse_script, Pattern, ScriptSource,
};

fn args(v: &[&str]) -> Vec<String> {
    v.iter().map(|s| s.to_string()).collect()
}

fn literal(p: &Pattern) -> Option<String> {
    match p {
        Pattern::String(s) => Some(s.clone()),
        Pattern::Regex(_) => None,
    }
}

fn regex_source(p: &Pattern) -> Option<String> {
    match p {
        Pattern::String(_) => None,
        Pattern::Regex(r) => Some(r.source_text().clone()),
    }
}

#[test]
fn a_plain_rule() {
    let s = parse_script(r#"match "Password:" then send "secret\n""#).unwrap();
    assert_eq!(s.initial_state, "default");
    assert_eq!(s.rules.len(), 1);
    let r = &s.rules[0];
    assert_eq!(r.state, None);
    assert_eq!(literal(&r.pattern), Some("Password:".to_string()));
    assert_eq!(r.response, "secret\n");
    assert_eq!(r.timeout, None);
    assert_eq!(r.next_state, None);
}

#[test]
fn regex_flags_timeout_and_goto() {
    let s = parse_script(r#"match /user(name)?:/i timeout 5 then send admin\n goto "pw"; match "x" then goto "end""#).unwrap();
    assert_eq!(s.rules.len(), 2);
    let r = &s.rules[0];
    assert_eq!(regex_source(&r.pattern), Some("(?i)user(name)?:".to_string()));
    assert_eq!(r.timeout, Some(5));
    assert_eq!(r.response, "admin\n");
    assert_eq!(r.next_state, Some("pw".to_string()));
    let g = &s.rules[1];
    assert_eq!(g.response, "");
    assert_eq!(g.next_state, Some("end".to_string()));
}

#[test]
fn flags_other_than_i_and_m_give_an_empty_group() {
    let r = try_parse_rule("match /a/x then send b").unwrap();
    assert!(r.is_err() || regex_source(&r.unwrap().pattern) == Some("(?)a".to_string()));
    let r = try_parse_rule("match /a/im then send b").unwrap().unwrap();
    assert_eq!(regex_source(&r.pattern), Some("(?im)a".to_string()));
}

#[test]
fn state_blocks_set_states_and_the_initial_state() {
    let text = r#"
        state "login" { match "login:" then send "me\n" goto "pw"; }
        state "pw" { match "Password:" then send "p\n"; match "again" then send "x" }
        in state "pw" match "bye" then send "q"
    "#;
    let s = parse_script(text).unwrap();
    assert_eq!(s.initial_state, "login");
    let states: Vec<Option<String>> = s.rules.iter().map(|r| r.state.clone()).collect();
    assert_eq!(
        states,
        vec![Some("login".to_string()), Some("pw".to_string()), Some("pw".to_string()), Some("pw".to_string())]
    );
    assert_eq!(s.rules[0].next_state, Some("pw".to_string()));
}

#[test]
fn a_bare_state_declaration_sets_the_initial_state() {
    let s = parse_script(r#"state "start"; match "a" then send "b""#).unwrap();
    assert_eq!(s.initial_state, "start");
    assert_eq!(s.rules.len(), 1);
}

#[test]
fn refused_rules_say_why() {
    let err = |t: &str| parse_script(t).err().unwrap();
    assert_eq!(err("send x"), "Rule must start with 'match'");
    assert_eq!(err("match foo then send x"), "Pattern must be a string or regex");
    assert_eq!(err(r#"match "x" then"#), "Rule must contain 'then send' or 'then goto'");
    assert_eq!(err(r#"match "x then send y"#), "Unclosed string pattern");
    assert_eq!(err("match /x then send y"), "Unclosed regex pattern");
    assert_eq!(err(r#"match "x" then goto y"#), "Next state name must be quoted");
    assert_eq!(err(r#"match "x" then send y goto "z"#), "Unclosed next state name");
    assert_eq!(err(r#"in state x match "a" then send b"#), "State name must be quoted");
    assert_eq!(err(r#"state "s" { match "a" then send b"#), "Unclosed state block");
    assert_eq!(err(r#"state s { }"#), "State name must be quoted");
    assert_eq!(err(r#"state "s"#), "Unclosed state name");
    assert!(err("match /(/ then send y").starts_with("Invalid regex: "));
}

#[test]
fn quoted_responses_read_bytes_as_characters() {
    let r = try_parse_rule(r#"match "a" then send "é\t\"q\"""#).unwrap().unwrap();
    assert_eq!(r.response, "\u{c3}\u{a9}\t\"q\"");
}

#[test]
fn unquoted_response_with_wide_character_cannot_be_read() {
    assert!(try_parse_rule(r#"match "a" then send é goto "b""#).is_none());
    assert!(try_parse_script(r#"match "a" then send é goto "b""#).is_none());
}

#[test]
fn block_rules_skip_empty_parts() {
    let rules = try_parse_rules_in_block(r#" ; match "a" then send b ;; "#, Some("s".to_string())).unwrap().unwrap();
    assert_eq!(rules.len(), 1);
    assert_eq!(rules[0].state, Some("s".to_string()));
    let rules = try_parse_rules_in_block(r#"match "a" then send b"#, None).unwrap().unwrap();
    assert_eq!(rules[0].state, None);
}

#[test]
fn runner_answers_and_follows_states() {
    let text = r#"state "login" { match "login:" then send "me\n" goto "pw" } state "pw" { match /Pass(word)?:/ then send "p\n" goto "done" }"#;
    let mut run = start_script(text).unwrap().unwrap();
    assert_eq!(run.current_state, "login");
    assert!(run.on_line("Password: ").is_none());
    assert_eq!(run.accumulated, "Password: ");
    let f = run.on_line("host login: ").unwrap();
    assert_eq!(f.rule_index, 0);
    assert_eq!(f.response, "me\n");
    assert_eq!(f.pattern_display, "\"login:\"");
    assert_eq!(f.from_state, "login");
    assert_eq!(run.current_state, "pw");
    assert_eq!(run.accumulated, " ");
    let f = run.on_line("Pass: ok").unwrap();
    assert_eq!(f.rule_index, 1);
    assert_eq!(f.pattern_display, "regex");
    assert_eq!(run.accumulated, " ok");
    assert_eq!(run.current_state, "done");
    assert!(run.on_eof().is_none());
}

#[test]
fn timeouts_run_out_and_stop_when_matched() {
    let mut run = start_script(r#"match "$ " timeout 2 then send "ls\n"; match "x" timeout 1 then send "y""#)
        .unwrap()
        .unwrap();
    assert_eq!(run.pending, vec![0, 1]);
    assert!(run.check_timeouts(999).is_none());
    assert_eq!(
        run.check_timeouts(1000),
        Some(("Timeout: Pattern \"x\" not found within 1 seconds".to_string(), 1))
    );
    run.on_line("x");
    assert_eq!(run.pending, vec![0]);
    assert!(run.check_timeouts(1999).is_none());
    assert_eq!(
        run.check_timeouts(2000),
        Some(("Timeout: Pattern \"$ \" not found within 2 seconds".to_string(), 1))
    );
    assert_eq!(run.on_eof(), Some(("Timeout: Pattern \"$ \" not found within 2 seconds".to_string(), 1)));
}

#[test]
fn a_refused_script_is_a_usage_error() {
    match start_script("oops") {
        Some(Err((m, code))) => {
            assert_eq!(m, "Failed to parse DSL: Rule must start with 'match'");
            assert_eq!(code, 64);
        }
        _ => panic!("expected a usage error"),
    }
}

#[test]
fn command_line_of_the_runner() {
    let c = parse_script_args(&args(&["aish-script", "-e", "match \"a\" then send b", "--debug"])).unwrap();
    assert_eq!(c.execute_script, Some("match \"a\" then send b".to_string()));
    assert!(c.debug);
    assert!(!c.verbose);
    assert!(matches!(script_source(&c), Ok(ScriptSource::Text(_))));
    let c = parse_script_args(&args(&["aish-script", "-e", "x", "--script", "f.txt", "--verbose"])).unwrap();
    assert!(matches!(script_source(&c), Ok(ScriptSource::File(f)) if f == "f.txt"));
    let c = parse_script_args(&args(&["aish-script"])).unwrap();
    assert!(matches!(script_source(&c), Err((m, 64)) if m == "Either --execute or --script option is required"));
    assert!(matches!(parse_script_args(&args(&["a", "-s"])), Err((m, 64)) if m == "Option requires an argument"));
    assert!(matches!(parse_script_args(&args(&["a", "-z"])), Err((m, 64)) if m == "Unknown option: -z"));
    assert!(matches!(parse_script_args(&args(&["a", "zz"])), Err((m, 64)) if m == "Unexpected argument: zz"));
}
