use aish::watch::FileWatcher;

#[test]
fn a_watcher_starts_at_the_end_of_an_existing_file() {
    let w = FileWatcher::new("/tmp/log.jsonl".to_string(), Some(120), 50);
    assert_eq!(w.position, 120);
    assert_eq!(w.poll_interval(), 50);
    let w = FileWatcher::new("/tmp/none.jsonl".to_string(), None, 100);
    assert_eq!(w.position, 0);
}

#[test]
fn seeking_to_the_end_follows_the_file_length() {
    let mut w = FileWatcher::new("/tmp/log".to_string(), Some(5), 10);
    w.seek_to_end(Some(40));
    assert_eq!(w.position, 40);
    w.seek_to_end(None);
    assert_eq!(w.position, 40);
}

#[test]
fn new_data_is_read_from_the_position_and_rotation_restarts() {
    let mut w = FileWatcher::new("/tmp/log".to_string(), Some(10), 10);
    assert_eq!(w.read_from(10), None);
    assert_eq!(w.read_from(15), Some(10));
    assert_eq!(w.read_from(4), Some(0));
    assert_eq!(w.position, 0);
    let mut e = FileWatcher::new("/tmp/log".to_string(), None, 10);
    assert_eq!(e.read_from(0), None);
}

#[test]
fn lines_keep_their_line_feeds_and_advance_the_position() {
    let mut w = FileWatcher::new("/tmp/log".to_string(), Some(3), 10);
    let lines = w.take_lines("a\nbé\npartial".as_bytes()).unwrap();
    assert_eq!(lines, vec!["a\n".to_string(), "bé\n".to_string(), "partial".to_string()]);
    assert_eq!(w.position, 3 + 13);
    assert_eq!(w.take_lines(b"").unwrap(), Vec::<String>::new());
    assert_eq!(w.position, 16);
}

#[test]
fn an_invalid_line_stops_reading_after_the_good_ones() {
    let mut w = FileWatcher::new("/tmp/log".to_string(), Some(0), 10);
    assert!(w.take_lines(b"ok\n\xff\xfe\nmore\n").is_err());
    assert_eq!(w.position, 3);
}
