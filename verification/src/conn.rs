//! Per-connection record and its state machine.
//!
//! A connection is always in exactly one of three phases: reading a request
//! (`write_pos` absent), writing the response (`write_pos` present and below
//! the response length), or done writing for this request (`write_pos` equal
//! to the response length, a transient phase before it returns to reading).
//!
//! The request terminator (CR LF CR LF) is detected incrementally: the scan
//! resumes a little before where the previous one stopped, so each byte is
//! examined a bounded number of times, yet the result is exactly "the
//! terminator appears somewhere in the filled bytes".
use vstd::prelude::*;

use crate::config::{BUF_SIZE, CONN_TIMEOUT_MS};

verus! {

/// Carriage return.
pub const CR: u8 = 13;

/// Line feed.
pub const LF: u8 = 10;

/// The four-byte request terminator CR LF CR LF starts at index `i` of `s`.
pub open spec fn terminator_at(s: Seq<u8>, i: int) -> bool {
    &&& 0 <= i
    &&& i + 4 <= s.len()
    &&& s[i] == CR
    &&& s[i + 1] == LF
    &&& s[i + 2] == CR
    &&& s[i + 3] == LF
}

/// The request terminator appears somewhere in `s`.
pub open spec fn has_terminator(s: Seq<u8>) -> bool {
    exists|i: int| terminator_at(s, i)
}

/// Per-connection state, socket excluded: the read buffer and its cursor,
/// the incremental-scan offset, the write cursor into the response, the
/// last-activity timestamp (milliseconds) and the generation counter that
/// invalidates stale timeout entries.
pub struct Conn {
    read_buf: Vec<u8>,
    read_len: usize,
    scan_offset: usize,
    write_pos: Option<usize>,
    resp_len: usize,
    last_active: u64,
    generation: u64,
}

impl Conn {
    /// The buffer is exactly `BUF_SIZE` bytes, the cursors stay inside it,
    /// and the write cursor never passes the response length.
    pub closed spec fn wf(self) -> bool {
        &&& self.read_buf@.len() == BUF_SIZE
        &&& self.read_len <= BUF_SIZE
        &&& self.scan_offset == 0 || self.scan_offset + 3 <= self.read_len
        &&& match self.write_pos {
            Some(p) => p <= self.resp_len,
            None => true,
        }
    }

    /// The bytes received so far for the current request.
    pub closed spec fn filled(self) -> Seq<u8> {
        self.read_buf@.take(self.read_len as int)
    }

    /// No terminator starts below the scan offset: what the incremental
    /// scan relies on to skip bytes it has already ruled out.
    pub closed spec fn scan_ok(self) -> bool {
        forall|i: int| i + 4 <= self.read_len && i < self.scan_offset ==> !terminator_at(self.read_buf@, i)
    }

    /// How many bytes of the current request have been received.
    pub closed spec fn spec_read_len(self) -> usize {
        self.read_len
    }

    /// The write cursor: absent while reading, present while writing.
    pub closed spec fn spec_write_pos(self) -> Option<usize> {
        self.write_pos
    }

    /// Length of the response this connection writes.
    pub closed spec fn spec_resp_len(self) -> usize {
        self.resp_len
    }

    /// Timestamp of the last event for this connection, in milliseconds.
    pub closed spec fn spec_last_active(self) -> u64 {
        self.last_active
    }

    /// Current generation; timeout entries carrying an older one are stale.
    pub closed spec fn spec_generation(self) -> u64 {
        self.generation
    }

    /// Reading phase: no response write is in progress.
    pub open spec fn in_reading(self) -> bool {
        self.spec_write_pos() is None
    }

    /// Writing phase: part of the response is still to be written.
    pub open spec fn in_writing(self) -> bool {
        match self.spec_write_pos() {
            Some(p) => p < self.spec_resp_len(),
            None => false,
        }
    }

    /// Transient phase right after the whole response went out, before the
    /// connection is reset to reading.
    pub open spec fn write_done(self) -> bool {
        match self.spec_write_pos() {
            Some(p) => p == self.spec_resp_len(),
            None => false,
        }
    }

    /// A fresh record in the reading phase with an empty buffer.
    pub fn new(resp_len: usize, buf: Vec<u8>, now: u64) -> (c: Conn)
        requires
            buf@.len() == BUF_SIZE,
        ensures
            c.wf(),
            c.scan_ok(),
            c.in_reading(),
            c.spec_read_len() == 0,
            c.filled() == Seq::<u8>::empty(),
            c.spec_resp_len() == resp_len,
            c.spec_last_active() == now,
            c.spec_generation() == 0,
    {
        Conn {
            read_buf: buf,
            read_len: 0,
            scan_offset: 0,
            write_pos: None,
            resp_len,
            last_active: now,
            generation: 0,
        }
    }

    /// Room left in the read buffer.
    pub fn read_capacity(&self) -> (n: usize)
        requires
            self.wf(),
        ensures
            n == BUF_SIZE - self.spec_read_len(),
    {
        BUF_SIZE - self.read_len
    }

    /// Take back the buffer when the connection closes.
    pub fn into_buf(self) -> (b: Vec<u8>)
        requires
            self.wf(),
        ensures
            b@.len() == BUF_SIZE,
    {
        self.read_buf
    }

    /// Append received bytes at the read cursor.
    pub fn fill(&mut self, data: &[u8])
        requires
            old(self).wf(),
            old(self).spec_read_len() + data@.len() <= BUF_SIZE,
        ensures
            final(self).wf(),
            final(self).filled() == old(self).filled() + data@,
            final(self).spec_read_len() == old(self).spec_read_len() + data@.len(),
            old(self).scan_ok() ==> final(self).scan_ok(),
            final(self).spec_write_pos() == old(self).spec_write_pos(),
            final(self).spec_resp_len() == old(self).spec_resp_len(),
            final(self).spec_last_active() == old(self).spec_last_active(),
            final(self).spec_generation() == old(self).spec_generation(),
    {
        let n = data.len();
        let base = self.read_len;
        let mut k: usize = 0;
        while k < n
            invariant
                k <= n,
                base + n <= BUF_SIZE,
                n == data@.len(),
                self.read_buf@.len() == BUF_SIZE,
                self.read_len == base,
                self.scan_offset == old(self).scan_offset,
                self.write_pos == old(self).write_pos,
                self.resp_len == old(self).resp_len,
                self.last_active == old(self).last_active,
                self.generation == old(self).generation,
                forall|j: int| 0 <= j < base ==> self.read_buf@[j] == old(self).read_buf@[j],
                forall|j: int| 0 <= j < k ==> self.read_buf@[base + j] == data@[j],
            decreases n - k,
        {
            self.read_buf[base + k] = data[k];
            k = k + 1;
        }
        self.read_len = base + n;
        proof {
            assert(self.filled() =~= old(self).filled() + data@);
            if old(self).scan_ok() {
                assert(old(self).scan_offset == 0 || old(self).scan_offset + 3 <= old(
                    self,
                ).read_len);
                assert forall|i: int| i + 4 <= self.read_len && i < self.scan_offset implies !terminator_at(
                    self.read_buf@,
                    i,
                ) by {
                    if 0 <= i {
                        assert(i + 3 < self.scan_offset + 3);
                        assert(i + 4 <= old(self).read_len);
                        assert(!terminator_at(old(self).read_buf@, i));
                    }
                }
            }
        }
    }

    /// Scan the filled bytes for the request terminator, resuming just
    /// below where the previous scan stopped. Returns exactly whether the
    /// terminator appears anywhere in the filled bytes.
    pub fn request_complete(&mut self) -> (found: bool)
        requires
            old(self).wf(),
            old(self).scan_ok(),
        ensures
            final(self).wf(),
            found == has_terminator(old(self).filled()),
            !found ==> final(self).scan_ok(),
            final(self).filled() == old(self).filled(),
            final(self).spec_read_len() == old(self).spec_read_len(),
            final(self).spec_write_pos() == old(self).spec_write_pos(),
            final(self).spec_resp_len() == old(self).spec_resp_len(),
            final(self).spec_last_active() == old(self).spec_last_active(),
            final(self).spec_generation() == old(self).spec_generation(),
    {
        let start = if self.scan_offset >= 3 {
            self.scan_offset - 3
        } else {
            0
        };
        let mut i = start;
        let mut found = false;
        while !found && i + 4 <= self.read_len
            invariant
                self.wf(),
                start <= i,
                i <= self.read_len + 4,
                forall|j: int| start <= j < i && j + 4 <= self.read_len ==> !terminator_at(self.read_buf@, j),
                found ==> terminator_at(self.read_buf@, i as int) && i + 4 <= self.read_len,
            decreases self.read_len + 4 - i, (if found { 0int } else { 1int }),
        {
            if self.read_buf[i] == CR && self.read_buf[i + 1] == LF && self.read_buf[i + 2] == CR
                && self.read_buf[i + 3] == LF {
                found = true;
            } else {
                i = i + 1;
            }
        }
        proof {
            if found {
                assert(terminator_at(self.filled(), i as int)) by {
                    assert(terminator_at(self.read_buf@, i as int));
                }
                assert(has_terminator(old(self).filled()));
            } else {
                assert forall|j: int| !terminator_at(old(self).filled(), j) by {
                    if terminator_at(old(self).filled(), j) {
                        assert(terminator_at(self.read_buf@, j));
                        assert(j + 4 <= self.read_len);
                        if j < start {
                            assert(j < old(self).scan_offset);
                            assert(!old(self).scan_ok() || !terminator_at(old(self).read_buf@, j));
                        } else {
                            assert(start <= j < i);
                        }
                    }
                }
            }
        }
        if self.read_len >= 3 {
            self.scan_offset = self.read_len - 3;
        }
        found
    }

    /// Whether part of the response is still to be written.
    pub fn has_pending_write(&self) -> (r: bool)
        requires
            self.wf(),
        ensures
            r == self.in_writing(),
    {
        match self.write_pos {
            Some(p) => p < self.resp_len,
            None => false,
        }
    }

    /// Switch from reading to writing: clear the read cursor, put the write
    /// cursor at the start of the response.
    pub fn arm_write(&mut self)
        requires
            old(self).wf(),
        ensures
            final(self).wf(),
            final(self).scan_ok(),
            final(self).spec_read_len() == 0,
            final(self).spec_write_pos() == Some(0usize),
            final(self).spec_resp_len() == old(self).spec_resp_len(),
            final(self).spec_last_active() == old(self).spec_last_active(),
            final(self).spec_generation() == old(self).spec_generation(),
            old(self).spec_resp_len() > 0 ==> final(self).in_writing(),
    {
        self.read_len = 0;
        self.scan_offset = 0;
        self.write_pos = Some(0);
    }

    /// Record that `n` more response bytes went out.
    pub fn advance_write(&mut self, n: usize)
        requires
            old(self).wf(),
            old(self).spec_write_pos() is Some,
            n + old(self).spec_write_pos().unwrap() <= old(self).spec_resp_len(),
        ensures
            final(self).wf(),
            final(self).spec_write_pos() == Some(
                (old(self).spec_write_pos().unwrap() + n) as usize,
            ),
            final(self).spec_resp_len() == old(self).spec_resp_len(),
            final(self).spec_read_len() == old(self).spec_read_len(),
            final(self).filled() == old(self).filled(),
            old(self).scan_ok() ==> final(self).scan_ok(),
            final(self).spec_last_active() == old(self).spec_last_active(),
            final(self).spec_generation() == old(self).spec_generation(),
    {
        let p = match self.write_pos {
            Some(p) => p,
            None => 0,
        };
        self.write_pos = Some(p + n);
    }

    /// After the whole response went out: back to the reading phase.
    pub fn reset_for_read(&mut self)
        requires
            old(self).wf(),
        ensures
            final(self).wf(),
            final(self).in_reading(),
            final(self).spec_read_len() == old(self).spec_read_len(),
            final(self).filled() == old(self).filled(),
            old(self).scan_ok() ==> final(self).scan_ok(),
            final(self).spec_resp_len() == old(self).spec_resp_len(),
            final(self).spec_last_active() == old(self).spec_last_active(),
            final(self).spec_generation() == old(self).spec_generation(),
    {
        self.write_pos = None;
    }

    /// Record activity now: refresh the timestamp and bump the generation,
    /// so that timeout entries scheduled earlier become stale.
    pub fn touch(&mut self, now: u64)
        requires
            old(self).wf(),
        ensures
            final(self).wf(),
            final(self).spec_last_active() == now,
            final(self).spec_generation() == vstd::wrapping::u64_specs::wrapping_add(
                old(self).spec_generation(),
                1u64,
            ),
            final(self).spec_read_len() == old(self).spec_read_len(),
            final(self).filled() == old(self).filled(),
            old(self).scan_ok() ==> final(self).scan_ok(),
            final(self).spec_write_pos() == old(self).spec_write_pos(),
            final(self).spec_resp_len() == old(self).spec_resp_len(),
    {
        self.last_active = now;
        self.generation = self.generation.wrapping_add(1);
    }

    /// Whether the connection has been idle longer than the idle cap.
    pub fn is_timed_out(&self, now: u64) -> (r: bool)
        requires
            self.wf(),
            self.spec_last_active() <= now,
        ensures
            r == (now - self.spec_last_active() > CONN_TIMEOUT_MS),
    {
        now - self.last_active > CONN_TIMEOUT_MS
    }

    /// Current generation, as carried by fresh timeout entries.
    pub fn generation(&self) -> (g: u64)
        ensures
            g == self.spec_generation(),
    {
        self.generation
    }

    /// How many bytes of the current request have been received.
    pub fn read_len(&self) -> (n: usize)
        ensures
            n == self.spec_read_len(),
    {
        self.read_len
    }

    /// The write cursor, if a response write is in progress.
    pub fn write_pos(&self) -> (p: Option<usize>)
        ensures
            p == self.spec_write_pos(),
    {
        self.write_pos
    }
}

/// At every observable point a well-formed connection is in exactly one of
/// the three phases: reading, writing, or done writing (the transient step
/// before it is reset to reading).
pub proof fn lemma_conn_phase_exclusive(c: Conn)
    requires
        c.wf(),
    ensures
        c.in_reading() || c.in_writing() || c.write_done(),
        c.in_reading() ==> !c.in_writing() && !c.write_done(),
        c.in_writing() ==> !c.in_reading() && !c.write_done(),
        c.write_done() ==> !c.in_reading() && !c.in_writing(),
{
}

} // verus!
