//! Following a growing log file by polling: where the next read starts, and
//! how the bytes read become lines (each with its line feed, the last one
//! possibly without).

use vstd::prelude::*;
use vstd::utf8::*;
use crate::logfmt::utf8_text;

verus! {

/// The length of the first line of `b`: through its first line feed, or all
/// of `b` when there is none.
pub open spec fn first_line_len(b: Seq<u8>) -> nat
    decreases b.len(),
{
    if b.len() == 0 {
        0
    } else if b[0] == 0x0A {
        1
    } else {
        1 + first_line_len(b.drop_first())
    }
}

/// Reading `b` line by line as text: the lines read, the bytes they took,
/// and whether every line was valid UTF-8 (reading stops at the first one
/// that is not, and that line is not counted).
pub open spec fn spec_read_lines(b: Seq<u8>) -> (Seq<Seq<char>>, nat, bool)
    decreases b.len(),
{
    if b.len() == 0 {
        (seq![], 0, true)
    } else {
        let k = first_line_len(b);
        if k == 0 || k > b.len() {
            (seq![], 0, true)
        } else if !valid_utf8(b.take(k as int)) {
            (seq![], 0, false)
        } else {
            let rest = spec_read_lines(b.skip(k as int));
            (seq![decode_utf8(b.take(k as int))] + rest.0, k + rest.1, rest.2)
        }
    }
}

proof fn lemma_first_line_len(b: Seq<u8>)
    ensures
        b.len() > 0 ==> 1 <= first_line_len(b) <= b.len(),
        forall|j: int| 0 <= j < first_line_len(b) - 1 ==> b[j] != 0x0A,
        first_line_len(b) < b.len() ==> b[first_line_len(b) - 1] == 0x0A,
        first_line_len(b) == b.len() && b.len() > 0 ==> (b[b.len() - 1] == 0x0A || forall|j: int| 0 <= j < b.len() ==> b[j] != 0x0A),
    decreases b.len(),
{
    if b.len() > 0 && b[0] != 0x0A {
        lemma_first_line_len(b.drop_first());
        assert forall|j: int| 0 <= j < first_line_len(b) - 1 implies b[j] != 0x0A by {
            if j > 0 {
                assert(b.drop_first()[j - 1] == b[j]);
            }
        }
    }
}

/// A file followed from a position: `position` is where the next read
/// starts, in bytes.
pub struct FileWatcher {
    pub path: String,
    pub position: u64,
    pub poll_interval_ms: u64,
}

impl FileWatcher {
    /// Starts at the end of the file (`size`: its length, `None` when it
    /// does not exist yet, which starts at the beginning).
    pub fn new(path: String, size: Option<u64>, poll_interval_ms: u64) -> (r: FileWatcher)
        ensures
            r.path == path,
            r.position == (match size { Some(n) => n, None => 0 }),
            r.poll_interval_ms == poll_interval_ms,
    {
        let position = match size {
            Some(n) => n,
            None => 0,
        };
        FileWatcher { path, position, poll_interval_ms }
    }

    /// Moves to the end of the file (`size` as in `new`; a missing file
    /// leaves the position as it is).
    pub fn seek_to_end(&mut self, size: Option<u64>)
        ensures
            final(self).path == old(self).path,
            final(self).poll_interval_ms == old(self).poll_interval_ms,
            final(self).position == (match size { Some(n) => n, None => old(self).position }),
    {
        match size {
            Some(n) => self.position = n,
            None => {},
        }
    }

    /// Where to read new data from, given the file's current length: a file
    /// shorter than the position was rotated and is read from the start;
    /// `None` when there is nothing new.
    pub fn read_from(&mut self, size: u64) -> (r: Option<u64>)
        ensures
            final(self).path == old(self).path,
            final(self).poll_interval_ms == old(self).poll_interval_ms,
            final(self).position == (if size < old(self).position { 0 } else { old(self).position }),
            r == (if size > final(self).position { Some(final(self).position) } else { None::<u64> }),
    {
        if size < self.position {
            self.position = 0;
        }
        if size <= self.position {
            None
        } else {
            Some(self.position)
        }
    }

    /// Takes the bytes read from the position as lines (see
    /// `spec_read_lines`), moving the position past the lines taken; `Err`
    /// where a line is not valid UTF-8, after the lines before it were
    /// passed over.
    pub fn take_lines(&mut self, data: &[u8]) -> (r: Result<Vec<String>, ()>)
        requires
            old(self).position + data@.len() <= u64::MAX,
        ensures
            final(self).path == old(self).path,
            final(self).poll_interval_ms == old(self).poll_interval_ms,
            final(self).position == old(self).position + spec_read_lines(data@).1,
            spec_read_lines(data@).2 ==> (r matches Ok(v) && v@.map_values(|s: String| s@) == spec_read_lines(data@).0),
            !spec_read_lines(data@).2 ==> r is Err,
    {
        let mut lines: Vec<String> = Vec::new();
        let mut i: usize = 0;
        let ghost start = self.position;
        assert(data@.skip(0) =~= data@);
        while i < data.len()
            invariant
                i <= data@.len(),
                self.path == old(self).path,
                self.poll_interval_ms == old(self).poll_interval_ms,
                start == old(self).position,
                start + data@.len() <= u64::MAX,
                self.position == start + i,
                ({
                    let whole = spec_read_lines(data@);
                    let rest = spec_read_lines(data@.skip(i as int));
                    &&& whole.0 == lines@.map_values(|s: String| s@) + rest.0
                    &&& whole.1 == i + rest.1
                    &&& whole.2 == rest.2
                }),
            decreases data.len() - i,
        {
            let ghost b = data@.skip(i as int);
            proof { lemma_first_line_len(b); }
            let mut j = i;
            while j < data.len() && data[j] != 0x0A
                invariant
                    i <= j <= data@.len(),
                    b == data@.skip(i as int),
                    forall|t: int| i <= t < j ==> data@[t] != 0x0A,
                decreases data.len() - j,
            {
                j = j + 1;
            }
            let end = if j < data.len() { j + 1 } else { j };
            proof {
                let k = first_line_len(b);
                assert forall|t: int| 0 <= t < end - i - 1 implies b[t] != 0x0A by {
                    assert(b[t] == data@[i + t]);
                }
                if j < data.len() {
                    assert(b[j - i] == 0x0A);
                }
                assert(k == end - i) by {
                    if k < end - i {
                        assert(b[k - 1] == 0x0A);
                    }
                    if k > end - i {
                        assert(b[end - i - 1] == 0x0A || end == data.len());
                    }
                }
            }
            let line = crate::text::slice_to_vec(data, i, end);
            assert(line@ =~= b.take((end - i) as int));
            match utf8_text(line.as_slice()) {
                None => {
                    return Err(());
                },
                Some(t) => {
                    let ghost before = lines@;
                    lines.push(t);
                    proof {
                        assert(lines@.map_values(|s: String| s@) =~= before.map_values(|s: String| s@).push(t@));
                        assert(b.skip((end - i) as int) =~= data@.skip(end as int));
                        assert(lines@.map_values(|s: String| s@) + spec_read_lines(data@.skip(end as int)).0
                            =~= before.map_values(|s: String| s@) + (seq![t@] + spec_read_lines(data@.skip(end as int)).0));
                    }
                    self.position = self.position + (end - i) as u64;
                    i = end;
                },
            }
        }
        proof {
            assert(data@.skip(i as int).len() == 0);
            assert(lines@.map_values(|s: String| s@) + Seq::<Seq<char>>::empty() =~= lines@.map_values(|s: String| s@));
        }
        Ok(lines)
    }

    /// How long to wait between polls, in milliseconds.
    pub fn poll_interval(&self) -> (r: u64)
        ensures r == self.poll_interval_ms,
    {
        self.poll_interval_ms
    }
}

} // verus!
