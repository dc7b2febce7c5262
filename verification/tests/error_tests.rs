use aish::error::Error;

#[test]
fn test_error_exit_codes() {
    assert_eq!(Error::invalid_argument("test").exit_code(), 64);
    assert_eq!(Error::io_msg("test").exit_code(), 74);
    assert_eq!(Error::env("test").exit_code(), 64);
    assert_eq!(Error::http("test").exit_code(), 74);
    assert_eq!(Error::json("test").exit_code(), 74);
    assert_eq!(Error::system("test").exit_code(), 70);
}

#[test]
fn test_is_usage() {
    assert!(Error::invalid_argument("x").is_usage());
    assert!(Error::env("x").is_usage());
    assert!(!Error::io_msg("x").is_usage());
    assert!(!Error::http("x").is_usage());
}

#[test]
fn test_from_io_error() {
    let e = std::io::Error::new(std::io::ErrorKind::NotFound, "file not found");
    let err: Error = e.into();
    assert_eq!(err.exit_code(), 74);
}

#[test]
fn test_with_context_delegates_exit_code_and_usage() {
    let e = Error::http("connection refused")
        .with_context("Provider profile: local (base_url: http://localhost:11434/v1)");
    assert_eq!(e.exit_code(), 74);
    assert!(!e.is_usage());
    let e2 = Error::invalid_argument("bad").with_context("Context");
    assert_eq!(e2.exit_code(), 64);
    assert!(e2.is_usage());
}

#[test]
fn remaining_constructors_have_their_exit_codes() {
    assert_eq!(Error::provider("p").exit_code(), 64);
    assert_eq!(Error::task_not_found("t").exit_code(), 64);
    assert!(Error::provider("p").is_usage());
    assert!(!Error::system("s").is_usage());
}

#[test]
fn context_message_puts_context_first() {
    let e = Error::io_msg("disk full").with_context("Saving session");
    assert_eq!(e.message(), "Saving session\n  disk full");
    let twice = Error::system("boom").with_context("inner").with_context("outer");
    assert_eq!(twice.message(), "outer\n  inner\n  boom");
    assert_eq!(twice.exit_code(), 70);
}

#[test]
fn io_error_keeps_its_text() {
    let e: Error = std::io::Error::new(std::io::ErrorKind::Other, "broken pipe here").into();
    assert_eq!(e.message(), "broken pipe here");
    assert!(!e.is_usage());
}
