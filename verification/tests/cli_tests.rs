use aish::cli::{build_global_argv, dispatch, file_name_of, file_stem_of, invoked_as_ai, Dispatch, HELP_TEXT};

fn s(v: &[&str]) -> Vec<String> {
    v.iter().map(|x| x.to_string()).collect()
}

fn text(v: Option<Vec<char>>) -> Option<String> {
    v.map(|c| c.into_iter().collect())
}

#[test]
fn file_names_follow_path_components() {
    assert_eq!(text(file_name_of("/usr/local/bin/ai")).as_deref(), Some("ai"));
    assert_eq!(text(file_name_of("bin/aish/")).as_deref(), Some("aish"));
    assert_eq!(text(file_name_of("bin/ai/.")).as_deref(), Some("ai"));
    assert_eq!(text(file_name_of("/")), None);
    assert_eq!(text(file_name_of("a/..")), None);
    assert_eq!(text(file_name_of("")), None);
}

#[test]
fn file_stems_drop_the_extension() {
    let stem = |x: &str| -> String { file_stem_of(&x.chars().collect::<Vec<char>>()).into_iter().collect() };
    assert_eq!(stem("ai.exe"), "ai");
    assert_eq!(stem("archive.tar.gz"), "archive.tar");
    assert_eq!(stem(".bashrc"), ".bashrc");
    assert_eq!(stem("ai"), "ai");
}

#[test]
fn the_ai_entry_name_is_recognised() {
    assert!(invoked_as_ai(Some("/usr/bin/ai")));
    assert!(invoked_as_ai(Some("ai")));
    assert!(invoked_as_ai(Some("./ai.exe")));
    assert!(!invoked_as_ai(Some("/usr/bin/aish")));
    assert!(!invoked_as_ai(Some("/usr/bin/ai/..")));
    assert!(!invoked_as_ai(None));
}

#[test]
fn global_options_are_handed_on_in_order() {
    assert_eq!(build_global_argv(Some("/s"), Some("/h"), true), s(&["-s", "/s", "-d", "/h", "-v"]));
    assert_eq!(build_global_argv(None, Some("/h"), false), s(&["-d", "/h"]));
    assert!(build_global_argv(None, None, false).is_empty());
}

fn aish_args(d: Dispatch) -> Vec<String> {
    match d {
        Dispatch::Aish(v) => v,
        _ => panic!("expected aish"),
    }
}

fn ai_args(d: Dispatch) -> Vec<String> {
    match d {
        Dispatch::Ai(v) => v,
        _ => panic!("expected ai"),
    }
}

#[test]
fn help_wins_over_everything() {
    let raw = s(&["aish", "-h", "ai", "hello"]);
    assert!(matches!(dispatch(&raw, false, true, Some("bash"), Some("ai"), None, None, false), Dispatch::Help));
    assert!(HELP_TEXT.starts_with("Usage: aish [options] <subcommand> [args...]"));
}

#[test]
fn generate_goes_to_aish() {
    let raw = s(&["aish", "--generate", "zsh"]);
    assert_eq!(aish_args(dispatch(&raw, false, false, Some("zsh"), None, Some("/s"), None, true)), s(&["aish", "--generate", "zsh"]));
}

#[test]
fn the_ai_subcommand_gets_what_follows_it() {
    let raw = s(&["aish", "ai", "-c", "hello world"]);
    assert_eq!(ai_args(dispatch(&raw, false, false, None, Some("ai"), None, None, false)), s(&["ai", "-c", "hello world"]));
    let as_ai = s(&["ai", "hello"]);
    assert_eq!(ai_args(dispatch(&as_ai, true, false, None, Some("ai"), None, None, false)), s(&["ai", "hello"]));
    let bare = s(&["ai"]);
    assert_eq!(ai_args(dispatch(&bare, true, false, None, Some("ai"), None, None, false)), s(&["ai"]));
}

#[test]
fn other_subcommands_go_to_aish_with_global_options() {
    let raw = s(&["aish", "-s", "/sess", "-v", "sessions", "list", "--all"]);
    assert_eq!(
        aish_args(dispatch(&raw, false, false, None, Some("sessions"), Some("/sess"), None, true)),
        s(&["aish", "-s", "/sess", "-v", "sessions", "list", "--all"])
    );
    let none = s(&["aish", "-d", "/h"]);
    assert_eq!(aish_args(dispatch(&none, false, false, None, None, None, Some("/h"), false)), s(&["aish", "-d", "/h"]));
}

#[test]
fn starting_as_ai_is_aish_ai() {
    let as_ai = ai_args(dispatch(&s(&["/usr/bin/ai", "-c", "x"]), true, false, None, Some("ai"), None, None, false));
    let aish_ai = ai_args(dispatch(&s(&["/usr/bin/aish", "ai", "-c", "x"]), false, false, None, Some("ai"), None, None, false));
    assert_eq!(as_ai, aish_ai);
    assert_eq!(as_ai, s(&["ai", "-c", "x"]));
}
