use aish::logfmt::{
    contains_ansi_escape_sequences, json_escape, write_exit_code, write_exit_signal, write_resize,
    write_start, write_stdin, write_stdout, TextBuffer,
};

#[test]
fn start_record() {
    let mut out = String::new();
    write_start(&mut out, 1000, 80, 24, &["bash".to_string(), "-c".to_string(), "echo \"hi\"".to_string()], "/home/u", 42);
    assert_eq!(
        out,
        "{\"v\":1,\"t_ms\":1000,\"type\":\"start\",\"cols\":80,\"rows\":24,\"argv\":[\"bash\",\"-c\",\"echo \\\"hi\\\"\"],\"cwd\":\"/home/u\",\"pid\":42}\n"
    );
}

#[test]
fn text_and_binary_records() {
    let mut out = String::new();
    write_stdout(&mut out, 5, b"ls\n");
    assert_eq!(out, "{\"v\":1,\"t_ms\":5,\"type\":\"stdout\",\"n\":3,\"data\":\"ls\\n\"}\n");
    let mut out = String::new();
    write_stdin(&mut out, 6, &[0xff, 0x00]);
    assert_eq!(out, "{\"v\":1,\"t_ms\":6,\"type\":\"stdin\",\"enc\":\"b64\",\"n\":2,\"data\":\"/wA=\"}\n");
}

#[test]
fn resize_and_exit_records() {
    let mut out = String::new();
    write_resize(&mut out, -1, 100, 40);
    write_exit_code(&mut out, 7, 3);
    write_exit_signal(&mut out, 8, 9);
    assert_eq!(
        out,
        "{\"v\":1,\"t_ms\":-1,\"type\":\"resize\",\"cols\":100,\"rows\":40}\n\
{\"v\":1,\"t_ms\":7,\"type\":\"exit\",\"how\":\"code\",\"code\":3}\n\
{\"v\":1,\"t_ms\":8,\"type\":\"exit\",\"how\":\"signal\",\"signal\":9}\n"
    );
}

#[test]
fn escapes_are_detected() {
    assert!(contains_ansi_escape_sequences(b"a\x1b[31mred"));
    assert!(!contains_ansi_escape_sequences(b"plain"));
    assert_eq!(json_escape("a\"b\\c\n\t"), "a\\\"b\\\\c\\n\\t");
}

#[test]
fn text_buffer_holds_partial_lines() {
    let mut b = TextBuffer::new();
    let out = b.append(b"one\ntw");
    assert_eq!(out, vec![b"one\n".to_vec()]);
    let out = b.append(b"o\nthree");
    assert_eq!(out, vec![b"two\n".to_vec()]);
    assert_eq!(b.flush(), Some(b"three".to_vec()));
    assert_eq!(b.flush(), None);
}

#[test]
fn text_buffer_passes_binary_through() {
    let mut b = TextBuffer::new();
    let out = b.append(&[0xff, 0x0a, 0x41]);
    assert_eq!(out, vec![vec![0xff, 0x0a, 0x41]]);
    assert_eq!(b.flush(), None);
}

#[test]
fn text_buffer_gives_back_whole_lines_and_keeps_the_rest() {
    let mut b = TextBuffer::new();
    let first = b.append(b"one\ntw");
    assert_eq!(first, vec![b"one\n".to_vec()]);
    let second = b.append(b"o\nthree\nfo");
    assert_eq!(second, vec![b"two\n".to_vec(), b"three\n".to_vec()]);
    assert_eq!(b.flush(), Some(b"fo".to_vec()));
    let mut all: Vec<u8> = first.concat();
    all.extend(second.concat());
    all.extend(b"fo");
    assert_eq!(all, b"one\ntwo\nthree\nfo".to_vec());
}
