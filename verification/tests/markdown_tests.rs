use aish::markdown::{
    extract_lang, fence_len, fence_start, find_byte, find_subslice, format_inline,
    format_line, is_fence, is_separator_row, is_table_row, output_code_block, output_table, parse_table_cells,
    resolve_syntax, BlockState, MdFormatter,
};

const RESET: &str = "\x1b[0m";
const BOLD: &str = "\x1b[1m";
const DIM: &str = "\x1b[2m";
const CYAN: &str = "\x1b[36m";
const YELLOW: &str = "\x1b[33m";
const GREEN: &str = "\x1b[32m";
const FRAME: &str = "\x1b[1;36m";

fn strings(v: &[&str]) -> Vec<String> {
    v.iter().map(|s| s.to_string()).collect()
}

#[test]
fn fences_are_recognised() {
    assert_eq!(fence_start("  ```rust extra"), Some("```rust".to_string()));
    assert_eq!(fence_start("```"), Some("```".to_string()));
    assert_eq!(fence_start("``"), None);
    assert_eq!(fence_start("text ```"), None);
    assert_eq!(fence_start("``` rust"), Some("``` rust".to_string()));
    assert_eq!(fence_start("```rust x"), Some("```rust".to_string()));
    assert_eq!(fence_start("```  é"), Some("```  é".to_string()));
    assert_eq!(fence_start("```   "), Some("```".to_string()));
    assert_eq!(fence_len("  ````x"), 4);
    assert!(is_fence("   ```", ""));
    assert!(!is_fence("``", ""));
    assert!(!is_fence("x```", ""));
}

#[test]
fn language_token_of_a_fence() {
    assert_eq!(extract_lang("```python"), Some("python".to_string()));
    assert_eq!(extract_lang("```  sh  -x"), Some("sh".to_string()));
    assert_eq!(extract_lang("```"), None);
    assert_eq!(extract_lang("~~~rust"), None);
}

#[test]
fn shell_names_fall_back_to_sh() {
    assert!(resolve_syntax("rust").is_some());
    assert!(resolve_syntax("BASH").is_some());
    assert!(resolve_syntax("zsh").is_some());
    assert_eq!(resolve_syntax("no-such-language-here"), None);
}

#[test]
fn table_rows_and_cells() {
    assert!(is_table_row("  | a | b |"));
    assert!(!is_table_row("|"));
    assert!(!is_table_row("| a"));
    assert!(!is_table_row("a | b |"));
    assert_eq!(parse_table_cells("| a | b |"), strings(&["a", "b"]));
    assert_eq!(parse_table_cells("| a | b"), strings(&["a"]));
    assert_eq!(parse_table_cells("abc"), Vec::<String>::new());
    assert!(is_separator_row(&strings(&["---", ":-:"])));
    assert!(!is_separator_row(&strings(&["---", ""])));
    assert!(!is_separator_row(&[]));
}

#[test]
fn wide_characters_count_two_columns_in_tables() {
    let out = output_table(&strings(&["| 日本 | a |", "|---|---|", "| x | yy |"]));
    let header = format!(
        "    {FRAME}|{RESET} {YELLOW}{BOLD}日本{RESET} {FRAME}|{RESET} {YELLOW}{BOLD}a{RESET}  {FRAME}|{RESET}\n"
    );
    let sep = format!(
        "    {FRAME}|{RESET} {FRAME}----{RESET} {FRAME}|{RESET} {FRAME}--{RESET} {FRAME}|{RESET}\n"
    );
    let data = format!(" {DIM}1. {RESET}{FRAME}|{RESET} x    {FRAME}|{RESET} yy {FRAME}|{RESET}\n");
    assert_eq!(out, format!("{header}{sep}{data}"));
}

#[test]
fn byte_search_helpers() {
    assert_eq!(find_subslice(b"a**b**", 3, b"**"), Some(4));
    assert_eq!(find_subslice(b"a*b", 0, b"**"), None);
    assert_eq!(find_byte(b"a`b`", 2, b'`'), Some(3));
    assert_eq!(find_byte(b"abc", 1, b'`'), None);
}

#[test]
fn inline_bold_and_code() {
    assert_eq!(format_inline("a **b** `c`"), format!("a {BOLD}b{RESET} {CYAN}c{RESET}\n"));
    assert_eq!(format_inline("**open"), "**open\n".to_string());
    assert_eq!(format_inline("`open"), "`open\n".to_string());
    assert_eq!(format_inline("日本"), "日本\n".to_string());
}

#[test]
fn headings_lists_and_blank_lines() {
    assert_eq!(format_line("### Three"), format!("{GREEN}{BOLD}Three{RESET}\n"));
    assert_eq!(format_line("## Two"), format!("{YELLOW}{BOLD}Two{RESET}\n"));
    assert_eq!(format_line("  # One"), format!("{YELLOW}{BOLD}One{RESET}\n"));
    assert_eq!(format_line("- item"), format!("  {DIM}•{RESET} item\n"));
    assert_eq!(format_line("* item"), format!("  {DIM}•{RESET} item\n"));
    assert_eq!(format_line("3. third"), format!("  {DIM}•{RESET} third\n"));
    assert_eq!(format_line(""), "\n".to_string());
    assert_eq!(format_line("plain"), "plain\n".to_string());
}

#[test]
fn tables_are_aligned_and_numbered() {
    let out = output_table(&strings(&["| a | bb |", "|---|---|", "| ccc | d |"]));
    let header = format!(
        "    {FRAME}|{RESET} {YELLOW}{BOLD}a{RESET}   {FRAME}|{RESET} {YELLOW}{BOLD}bb{RESET} {FRAME}|{RESET}\n"
    );
    let sep = format!(
        "    {FRAME}|{RESET} {FRAME}---{RESET} {FRAME}|{RESET} {FRAME}--{RESET} {FRAME}|{RESET}\n"
    );
    let data = format!(" {DIM}1. {RESET}{FRAME}|{RESET} ccc {FRAME}|{RESET} d  {FRAME}|{RESET}\n");
    assert_eq!(out, format!("{header}{sep}{data}"));
}

#[test]
fn table_without_cells_is_written_as_it_is() {
    assert_eq!(output_table(&strings(&["no bars"])), "no bars\n".to_string());
    assert_eq!(output_table(&[]), String::new());
}

#[test]
fn plain_code_block_is_dimmed() {
    let out = output_code_block(&strings(&["```", "let x;", "```"]));
    assert_eq!(out, format!("{DIM}```{RESET}\n{DIM}let x;{RESET}\n{DIM}```{RESET}\n"));
    let open = output_code_block(&strings(&["```nolang", "a"]));
    assert_eq!(open, format!("{DIM}```nolang{RESET}\n{DIM}a{RESET}\n"));
}

#[test]
fn highlighted_code_block_keeps_its_fences() {
    let out = output_code_block(&strings(&["```rust", "fn main() {}", "```"]));
    assert!(out.starts_with(&format!("{DIM}```rust{RESET}\n")));
    assert!(out.ends_with(&format!("{DIM}```{RESET}\n")));
    assert!(out.contains("main"));
    assert!(out.contains("\x1b[38;2;"));
}

#[test]
fn formatter_streams_lines_and_buffers_blocks() {
    let mut f = MdFormatter::new();
    assert_eq!(f.feed_line("# Title  "), format!("{YELLOW}{BOLD}Title{RESET}\n"));
    assert_eq!(f.feed_line("```"), String::new());
    assert_eq!(f.state, BlockState::CodeBlock);
    assert_eq!(f.feed_line("code"), String::new());
    assert_eq!(f.feed_line("```"), format!("{DIM}```{RESET}\n{DIM}code{RESET}\n{DIM}```{RESET}\n"));
    assert_eq!(f.state, BlockState::Normal);
    assert_eq!(f.feed_line("| a |"), String::new());
    assert_eq!(f.state, BlockState::Table);
    let out = f.feed_line("after");
    assert!(out.ends_with("after\n"));
    assert_eq!(f.state, BlockState::Normal);
    assert_eq!(f.finish(), String::new());
}

#[test]
fn unfinished_block_is_written_at_the_end() {
    let mut f = MdFormatter::new();
    f.feed_line("```");
    f.feed_line("x");
    assert_eq!(f.finish(), format!("{DIM}```{RESET}\n{DIM}x{RESET}\n"));
}

#[test]
fn each_highlighted_line_is_followed_by_a_reset() {
    let out = output_code_block(&strings(&["```rust", "let a = 1;", "let b = 2;", "```"]));
    assert!(out.starts_with(&format!("{DIM}```rust{RESET}\n")));
    assert!(out.ends_with(&format!("{DIM}```{RESET}\n")));
    assert_eq!(out.matches("\n\x1b[0m").count(), 2);
    assert!(out.contains("let"));
}
