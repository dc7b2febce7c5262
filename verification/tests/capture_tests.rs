use aish::capture::{parse_capture_args, CaptureConfig, CaptureSession, ProcessStatus};

fn args(v: &[&str]) -> Vec<String> {
    v.iter().map(|s| s.to_string()).collect()
}

#[test]
fn defaults_and_shell_when_no_command() {
    let (cfg, cmd) = parse_capture_args(&args(&["aish-capture"])).unwrap();
    assert_eq!(cfg.output, "");
    assert!(!cfg.append);
    assert!(!cfg.no_stdin);
    assert_eq!(cfg.max_chunk, 32768);
    assert!(cfg.cwd.is_none());
    assert!(cfg.env.is_empty());
    assert!(cfg.input_fifo.is_none());
    assert!(cmd.is_none());
    let d = CaptureConfig::default_config();
    assert_eq!(d.max_chunk, 32768);
}

#[test]
fn options_then_command() {
    let a = args(&[
        "aish-capture", "-o", "log.jsonl", "--append", "--no-stdin", "--max-chunk", "1024", "--cwd", "/w", "--env",
        "A=b=c", "--input-fifo", "/f", "--", "ls", "-l",
    ]);
    let (cfg, cmd) = parse_capture_args(&a).unwrap();
    assert_eq!(cfg.output, "log.jsonl");
    assert!(cfg.append);
    assert!(cfg.no_stdin);
    assert_eq!(cfg.max_chunk, 1024);
    assert_eq!(cfg.cwd, Some("/w".to_string()));
    assert_eq!(cfg.env, vec![("A".to_string(), "b=c".to_string())]);
    assert_eq!(cfg.input_fifo, Some("/f".to_string()));
    assert_eq!(cmd, Some(args(&["ls", "-l"])));
}

#[test]
fn command_starts_at_first_non_option() {
    let (_, cmd) = parse_capture_args(&args(&["c", "--out", "x", "vim", "--append"])).unwrap();
    assert_eq!(cmd, Some(args(&["vim", "--append"])));
    let (_, cmd) = parse_capture_args(&args(&["c", "--"])).unwrap();
    assert!(cmd.is_none());
}

#[test]
fn usage_errors_have_exit_code_64() {
    assert_eq!(
        parse_capture_args(&args(&["c", "-o"])).unwrap_err(),
        ("Option requires an argument".to_string(), 64)
    );
    assert_eq!(
        parse_capture_args(&args(&["c", "--max-chunk", "12x"])).unwrap_err(),
        ("Invalid max-chunk value".to_string(), 64)
    );
    assert_eq!(
        parse_capture_args(&args(&["c", "--env", "NOEQ"])).unwrap_err(),
        ("Invalid env format: NOEQ".to_string(), 64)
    );
    assert_eq!(parse_capture_args(&args(&["c", "-x"])).unwrap_err(), ("Unknown option: -x".to_string(), 64));
}

#[test]
fn session_logs_complete_lines_and_flushes_at_exit() {
    let mut s = CaptureSession::new(false);
    let mut log = String::new();
    s.on_stdout(b"hello\nwor", &mut log, 10);
    assert_eq!(log, "{\"v\":1,\"t_ms\":10,\"type\":\"stdout\",\"n\":6,\"data\":\"hello\\n\"}\n");
    s.on_stdin(b"ls", &mut log, 11);
    let code = s.finalize_and_get_exit_code(ProcessStatus::Exited(3), &mut log, 20);
    assert_eq!(code, 3);
    assert_eq!(
        log,
        "{\"v\":1,\"t_ms\":10,\"type\":\"stdout\",\"n\":6,\"data\":\"hello\\n\"}\n\
{\"v\":1,\"t_ms\":20,\"type\":\"stdin\",\"n\":2,\"data\":\"ls\"}\n\
{\"v\":1,\"t_ms\":20,\"type\":\"stdout\",\"n\":3,\"data\":\"wor\"}\n\
{\"v\":1,\"t_ms\":20,\"type\":\"exit\",\"how\":\"code\",\"code\":3}\n"
    );
}

#[test]
fn signal_exit_code_is_128_plus_signal() {
    let mut s = CaptureSession::new(true);
    let mut log = String::new();
    s.on_stdin(b"secret\n", &mut log, 1);
    assert_eq!(log, "");
    let code = s.finalize_and_get_exit_code(ProcessStatus::Signaled(9), &mut log, 2);
    assert_eq!(code, 137);
    assert_eq!(log, "{\"v\":1,\"t_ms\":2,\"type\":\"exit\",\"how\":\"signal\",\"signal\":9}\n");
}

#[test]
fn fifo_input_is_logged_as_stdin() {
    let mut s = CaptureSession::new(true);
    let mut log = String::new();
    s.on_fifo(b"cmd\n", &mut log, 4);
    assert_eq!(log, "{\"v\":1,\"t_ms\":4,\"type\":\"stdin\",\"n\":4,\"data\":\"cmd\\n\"}\n");
    let mut log2 = String::new();
    s.flush_all(&mut log2, 5);
    assert_eq!(log2, "");
}

#[test]
fn flush_signal_writes_input_and_output_but_keeps_fifo_input() {
    let mut s = CaptureSession::new(false);
    let mut log = String::new();
    s.on_stdin(b"ab", &mut log, 1);
    s.on_fifo(b"cd", &mut log, 1);
    s.on_stdout(b"ef", &mut log, 1);
    assert_eq!(log, "");
    s.on_flush_signal(&mut log, 5);
    assert_eq!(
        log,
        "{\"v\":1,\"t_ms\":5,\"type\":\"stdin\",\"n\":2,\"data\":\"ab\"}\n\
{\"v\":1,\"t_ms\":5,\"type\":\"stdout\",\"n\":2,\"data\":\"ef\"}\n"
    );
    let mut rest = String::new();
    s.on_fifo_eof(&mut rest, 6);
    assert_eq!(rest, "{\"v\":1,\"t_ms\":6,\"type\":\"stdin\",\"n\":2,\"data\":\"cd\"}\n");
}

#[test]
fn end_of_keyboard_input_writes_what_is_held_back() {
    let mut s = CaptureSession::new(false);
    let mut log = String::new();
    s.on_stdin(b"partial", &mut log, 1);
    s.on_stdin_eof(&mut log, 2);
    assert_eq!(log, "{\"v\":1,\"t_ms\":2,\"type\":\"stdin\",\"n\":7,\"data\":\"partial\"}\n");
    let mut again = String::new();
    s.on_stdin_eof(&mut again, 3);
    assert_eq!(again, "");
}
