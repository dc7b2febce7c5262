use aish::error::Error;
use aish::event_log::{check_seq_assigned, events_from_seq, last_event_line, next_seq_after, AppliedRange};

#[test]
fn last_event_line_is_the_last_line_of_the_trimmed_log() {
    assert_eq!(last_event_line(""), None);
    assert_eq!(last_event_line("  \n\n"), None);
    assert_eq!(last_event_line("{\"seq\":1}\n{\"seq\":2}\n"), Some("{\"seq\":2}".to_string()));
    assert_eq!(last_event_line("{\"seq\":7}"), Some("{\"seq\":7}".to_string()));
}

#[test]
fn next_seq_follows_the_last_event() {
    assert_eq!(next_seq_after(None), 1);
    assert_eq!(next_seq_after(Some(41)), 42);
    assert_eq!(next_seq_after(Some(u64::MAX)), u64::MAX);
}

#[test]
fn unassigned_seq_is_refused() {
    assert!(check_seq_assigned(3).is_ok());
    match check_seq_assigned(0) {
        Err(Error::InvalidArgument(m)) => assert_eq!(m, "EventEnvelope.seq must be assigned (use next_seq before append)"),
        other => panic!("unexpected {:?}", other),
    }
}

#[test]
fn update_takes_events_from_the_seq_on() {
    let (ps, r) = events_from_seq(&[1, 2, 3, 4], 3);
    assert_eq!(ps, vec![2, 3]);
    assert_eq!(r, AppliedRange { from_seq: 3, to_seq: 4 });
    let (ps, r) = events_from_seq(&[1, 2], 5);
    assert!(ps.is_empty());
    assert_eq!(r, AppliedRange { from_seq: 5, to_seq: 4 });
    let (_, r) = events_from_seq(&[], 0);
    assert_eq!(r, AppliedRange { from_seq: 0, to_seq: 0 });
}
