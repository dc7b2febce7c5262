use aish::terminal::{Cursor, TerminalBuffer};

fn render(data: &[u8]) -> String {
    let mut t = TerminalBuffer::new();
    assert!(t.process_data_checked(data));
    t.output()
}

#[test]
fn lines_and_carriage_returns() {
    assert_eq!(render(b"hello\r\nworld"), "hello\nworld");
    assert_eq!(render(b"abc\rX"), "Xbc");
}

#[test]
fn backspace_removes_the_previous_character() {
    assert_eq!(render(b"abc\x08\x08X"), "aX");
}

#[test]
fn cursor_moves_and_overwrites() {
    assert_eq!(render(b"abc\x1b[2DX"), "aXc");
    assert_eq!(render(b"ab\x1b[3CX"), "ab   X");
    assert_eq!(render("é\x1b[Dx".as_bytes()), "x");
}

#[test]
fn line_and_screen_erase() {
    assert_eq!(render(b"hello\x1b[3D\x1b[K"), "he");
    assert_eq!(render(b"hello\x1b[3D\x1b[1K"), "llo");
    assert_eq!(render(b"one\r\ntwo\x1b[2J"), "");
    assert_eq!(render(b"one\r\ntwo\x1b[1;1H\x1b[J"), "");
}

#[test]
fn cursor_position_and_save_restore() {
    assert_eq!(render(b"\x1b[2;3HX"), "\n  X");
    assert_eq!(render(b"ab\x1b[s\r\nc\x1b[uZ"), "abZ\nc");
}

#[test]
fn osc_sequences_are_skipped() {
    assert_eq!(render(b"\x1b]0;title\x07ok"), "ok");
    assert_eq!(render(b"\x1b]0;title\x1b\\ok"), "ok");
}

#[test]
fn invalid_utf8_is_replayed_byte_by_byte() {
    assert_eq!(render(b"a\xffb\r\nc"), "\n");
}

#[test]
fn cursor_helpers() {
    let mut c = Cursor::new();
    c.move_right(5);
    c.move_left(7);
    assert_eq!(c.col, 0);
    c.move_down(2);
    c.move_up(1);
    assert_eq!(c.row, 1);
    c.save_position();
    c.set_position(4, 4);
    c.restore_position();
    assert_eq!((c.row, c.col), (1, 0));
}
