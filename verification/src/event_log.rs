//! The numbering of a session's event log (`events.jsonl`, one event per
//! line): the number the next event gets, the refusal of an event that has
//! none, and which events an incremental update of the derived index takes.

use vstd::prelude::*;
use vstd::string::*;
use crate::error::Error;
use crate::text::{chars_of, slice_to_vec, string_from_chars, trim, trim_chars};

verus! {

/// The text after the last `\n` (all of it when there is none).
pub open spec fn after_last_newline(s: Seq<char>) -> Seq<char>
    decreases s.len(),
{
    if s.len() == 0 {
        s
    } else if s.last() == '\n' {
        seq![]
    } else {
        after_last_newline(s.drop_last()).push(s.last())
    }
}

/// The line holding the last event of a log's text: the last line of the
/// trimmed text, `None` when the trimmed text is empty.
pub open spec fn spec_last_event_line(content: Seq<char>) -> Option<Seq<char>> {
    let t = trim(content);
    if t.len() == 0 { None } else { Some(after_last_newline(t)) }
}

/// The line of a log's text that holds its last event (see
/// `spec_last_event_line`).
pub fn last_event_line(content: &str) -> (r: Option<String>)
    ensures
        match spec_last_event_line(content@) {
            Some(l) => r matches Some(x) && x@ == l,
            None => r is None,
        },
{
    let cs = chars_of(content);
    let t = trim_chars(cs.as_slice());
    if t.len() == 0 {
        return None;
    }
    let mut start: usize = t.len();
    assert(t@.take(start as int) =~= t@);
    assert(after_last_newline(t@) + t@.skip(start as int) =~= after_last_newline(t@));
    while start > 0 && t[start - 1] != '\n'
        invariant
            start <= t@.len(),
            after_last_newline(t@) == after_last_newline(t@.take(start as int)) + t@.skip(start as int),
        decreases start,
    {
        proof {
            let p = t@.take(start as int);
            assert(p.drop_last() =~= t@.take(start - 1));
            assert(p.last() == t@[start - 1]);
            assert(after_last_newline(p) == after_last_newline(t@.take(start - 1)).push(t@[start - 1]));
            assert(after_last_newline(t@.take(start - 1)).push(t@[start - 1]) + t@.skip(start as int)
                =~= after_last_newline(t@.take(start - 1)) + t@.skip(start - 1));
        }
        start = start - 1;
    }
    proof {
        let p = t@.take(start as int);
        if start > 0 {
            assert(p.last() == t@[start - 1]);
        }
        assert(after_last_newline(p) =~= Seq::<char>::empty());
        assert(Seq::<char>::empty() + t@.skip(start as int) =~= t@.skip(start as int));
        assert(t@.take(t@.len() as int) =~= t@);
    }
    let last = slice_to_vec(t.as_slice(), start, t.len());
    assert(last@ =~= t@.skip(start as int));
    Some(string_from_chars(last.as_slice()))
}

/// The number the next event gets: one past the last event's number
/// (saturating at the largest number), 1 for a log without events.
pub open spec fn spec_next_seq(last: Option<u64>) -> u64 {
    match last {
        None => 1,
        Some(s) => if s == u64::MAX { u64::MAX } else { (s + 1) as u64 },
    }
}

/// The number the next event gets, from the last event's number (`None`
/// for a log that is missing or holds no event).
pub fn next_seq_after(last: Option<u64>) -> (r: u64)
    ensures
        r == spec_next_seq(last),
{
    match last {
        None => 1,
        Some(s) => s.saturating_add(1),
    }
}

pub open spec fn unassigned_seq_message() -> Seq<char> {
    "EventEnvelope.seq must be assigned (use next_seq before append)"@
}

/// An event is appended only with its number assigned: number 0 is a usage
/// error.
pub fn check_seq_assigned(seq: u64) -> (r: Result<(), Error>)
    ensures
        seq != 0 <==> r is Ok,
        seq == 0 ==> (r matches Err(Error::InvalidArgument(m)) && m@ == unassigned_seq_message()),
{
    if seq == 0 {
        return Err(Error::InvalidArgument(String::from_str("EventEnvelope.seq must be assigned (use next_seq before append)")));
    }
    Ok(())
}

/// The positions, in log order, of the events numbered `from_seq` or later.
pub open spec fn positions_from(seqs: Seq<u64>, from_seq: u64) -> Seq<int>
    decreases seqs.len(),
{
    if seqs.len() == 0 {
        seq![]
    } else {
        let before = positions_from(seqs.drop_last(), from_seq);
        if seqs.last() >= from_seq { before.push(seqs.len() - 1) } else { before }
    }
}

/// The range of event numbers one incremental update covered.
#[derive(Debug, Clone, Copy, PartialEq, Eq, Structural)]
pub struct AppliedRange {
    pub from_seq: u64,
    pub to_seq: u64,
}

/// The range an update from `from_seq` covers: up to the number of the last
/// event taken, or, when none is taken, ending just before `from_seq`
/// (saturating at 0).
pub open spec fn spec_applied_range(seqs: Seq<u64>, from_seq: u64) -> AppliedRange {
    let ps = positions_from(seqs, from_seq);
    if ps.len() == 0 {
        AppliedRange { from_seq, to_seq: if from_seq == 0 { 0 } else { (from_seq - 1) as u64 } }
    } else {
        AppliedRange { from_seq, to_seq: seqs[ps.last()] }
    }
}

/// Which events an update from `from_seq` takes (their positions in the
/// log, in order), and the range it covers.
pub fn events_from_seq(seqs: &[u64], from_seq: u64) -> (r: (Vec<usize>, AppliedRange))
    ensures
        r.0@.map_values(|p: usize| p as int) == positions_from(seqs@, from_seq),
        r.1 == spec_applied_range(seqs@, from_seq),
{
    let mut out: Vec<usize> = Vec::new();
    let mut i: usize = 0;
    while i < seqs.len()
        invariant
            i <= seqs@.len(),
            out@.map_values(|p: usize| p as int) == positions_from(seqs@.take(i as int), from_seq),
            forall|k: int| 0 <= k < out@.len() ==> #[trigger] out@[k] < i,
        decreases seqs@.len() - i,
    {
        let ghost before = out@;
        proof {
            let t = seqs@.take(i + 1);
            assert(t.drop_last() =~= seqs@.take(i as int));
            assert(t.last() == seqs@[i as int]);
        }
        if seqs[i] >= from_seq {
            out.push(i);
            assert(out@.map_values(|p: usize| p as int) =~= before.map_values(|p: usize| p as int).push(i as int));
        }
        i = i + 1;
    }
    assert(seqs@.take(seqs@.len() as int) =~= seqs@);
    let range = if out.len() == 0 {
        AppliedRange { from_seq, to_seq: from_seq.saturating_sub(1) }
    } else {
        let last = out[out.len() - 1];
        proof {
            let ps = positions_from(seqs@, from_seq);
            assert(ps.last() == out@[out@.len() - 1] as int);
        }
        AppliedRange { from_seq, to_seq: seqs[last] }
    };
    (out, range)
}

} // verus!
