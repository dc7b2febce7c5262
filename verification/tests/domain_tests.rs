use aish::domain::{Clock, LogLevel, PathResolverInput, RunId, SessionId, StdClock};

#[test]
fn event_newtype_construct() {
    let sid = SessionId::new("s1");
    let rid = RunId::new("r1");
    assert_eq!(sid.0, "s1");
    assert_eq!(rid.0, "r1");
}

#[test]
fn log_levels_have_lower_case_names() {
    assert_eq!(LogLevel::Error.as_str(), "error");
    assert_eq!(LogLevel::Warn.as_str(), "warn");
    assert_eq!(LogLevel::Info.as_str(), "info");
    assert_eq!(LogLevel::Debug.as_str(), "debug");
}

#[test]
fn path_resolver_input_starts_empty() {
    let i = PathResolverInput::empty();
    assert!(i.home_dir.is_none());
    assert!(i.session_dir.is_none());
}

#[test]
fn std_clock_is_after_2020() {
    assert!(StdClock.now_ms() > 1_577_836_800_000);
}
