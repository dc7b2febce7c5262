use aish::path::{join, resolve_under_session_dir, Dirs};
use aish::safe_path::{is_safe_reviewed_basename, is_safe_reviewed_path, is_safe_summary_basename};

#[test]
fn test_is_safe_reviewed_basename_accepts_valid() {
    assert!(is_safe_reviewed_basename("reviewed_001_user.txt"));
    assert!(is_safe_reviewed_basename("reviewed_002_assistant.txt"));
}

#[test]
fn test_is_safe_reviewed_basename_rejects_traversal() {
    assert!(!is_safe_reviewed_basename("../../etc/passwd"));
    assert!(!is_safe_reviewed_basename("reviewed_../secret.txt"));
    assert!(!is_safe_reviewed_basename("subdir/reviewed_x.txt"));
}

#[test]
fn test_is_safe_reviewed_basename_rejects_bad_format() {
    assert!(!is_safe_reviewed_basename(""));
    assert!(!is_safe_reviewed_basename("."));
    assert!(!is_safe_reviewed_basename(".."));
    assert!(!is_safe_reviewed_basename("part_001.txt"));
    assert!(!is_safe_reviewed_basename("reviewed_001_user"));
}

#[test]
fn test_is_safe_summary_basename_accepts_valid() {
    assert!(is_safe_summary_basename("compaction_001_002.txt"));
}

#[test]
fn test_is_safe_summary_basename_rejects_traversal() {
    assert!(!is_safe_summary_basename("../../compaction_1_2.txt"));
}

#[test]
fn test_is_safe_reviewed_path_accepts_subdir_form() {
    assert!(is_safe_reviewed_path("reviewed/reviewed_001_user.txt"));
    assert!(is_safe_reviewed_path("reviewed/reviewed_002_assistant.txt"));
}

#[test]
fn test_is_safe_reviewed_path_rejects_traversal() {
    assert!(!is_safe_reviewed_path("reviewed/../../etc/passwd"));
    assert!(!is_safe_reviewed_path("../reviewed/reviewed_001_user.txt"));
}

#[test]
fn test_resolve_under_session_dir_under_returns_some() {
    let r = resolve_under_session_dir(Some("/tmp/s1"), Some("/tmp/s1/reviewed/reviewed_001_user.txt"));
    assert_eq!(r.as_deref(), Some("/tmp/s1/reviewed/reviewed_001_user.txt"));
    assert_eq!(resolve_under_session_dir(Some("/tmp/s1"), Some("/tmp/s1")).as_deref(), Some("/tmp/s1"));
}

#[test]
fn test_resolve_under_session_dir_outside_returns_none() {
    assert!(resolve_under_session_dir(Some("/tmp/s1"), Some("/tmp/outside.txt")).is_none());
    assert!(resolve_under_session_dir(Some("/tmp/s1"), Some("/tmp/s10/x.txt")).is_none());
    assert!(resolve_under_session_dir(None, Some("/tmp/s1/x")).is_none());
    assert!(resolve_under_session_dir(Some("/tmp/s1"), None).is_none());
}

#[test]
fn join_follows_path_join() {
    assert_eq!(join("/a", "b"), "/a/b");
    assert_eq!(join("/a/", "b"), "/a/b");
    assert_eq!(join("", "b"), "b");
    assert_eq!(join("/a", "/etc"), "/etc");
}

#[test]
fn dirs_place_sessions_and_logs_under_state() {
    let d = Dirs {
        config_dir: "/c".to_string(),
        data_dir: "/d".to_string(),
        state_dir: "/s".to_string(),
        cache_dir: "/k".to_string(),
    };
    assert_eq!(d.sessions_dir(), "/s/session");
    assert_eq!(d.logs_dir(), "/s/logs");
}
