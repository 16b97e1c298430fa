//! The per-worker reactor state and every decision it makes.
//!
//! The caller owns the sockets, the poller and the clock; this type owns the
//! slab, both pools, the timer wheel and the close list, and its methods are
//! the admission, read, write, timeout and close rules of the server. The
//! well-formedness invariant ties the pieces together: the number of buffers
//! on loan always equals the number of live connections, every live
//! connection's token is marked in use, token 0 stays free for the
//! listener, and every live connection record is itself well formed.
use vstd::prelude::*;

use crate::config::{BUF_SIZE, CONN_TIMEOUT_MS, MAX_CONNS, MAX_REQUEST_SIZE};
use crate::conn::{has_terminator, Conn};
use crate::pool::{BufPool, TokenPool};
use crate::slab::Slab;
use crate::timer::{TimerEntry, TimerWheel, WHEEL_SIZE};

verus! {

/// How many slots of `s` hold a live connection.
pub open spec fn occupied_count(s: Seq<Option<Conn>>) -> nat
    decreases s.len(),
{
    if s.len() == 0 {
        0
    } else {
        occupied_count(s.drop_last()) + if s.last() is Some {
            1nat
        } else {
            0nat
        }
    }
}

/// Weight of one slot in `occupied_count`.
pub open spec fn slot_weight(v: Option<Conn>) -> nat {
    if v is Some {
        1
    } else {
        0
    }
}

/// Writing one slot changes the occupied count by the difference of the
/// old and new slot weights.
pub proof fn lemma_occupied_update(s: Seq<Option<Conn>>, t: int, v: Option<Conn>)
    requires
        0 <= t < s.len(),
    ensures
        occupied_count(s.update(t, v)) == occupied_count(s) - slot_weight(s[t]) + slot_weight(v),
    decreases s.len(),
{
    let s2 = s.update(t, v);
    if t == s.len() - 1 {
        assert(s2.drop_last() =~= s.drop_last());
    } else {
        lemma_occupied_update(s.drop_last(), t, v);
        assert(s2.drop_last() =~= s.drop_last().update(t, v));
        assert(s2.last() == s.last());
    }
}

/// A sequence with a live slot has a positive occupied count.
pub proof fn lemma_occupied_pos(s: Seq<Option<Conn>>, t: int)
    requires
        0 <= t < s.len(),
        s[t] is Some,
    ensures
        occupied_count(s) >= 1,
    decreases s.len(),
{
    if t < s.len() - 1 {
        lemma_occupied_pos(s.drop_last(), t);
    }
}

/// A timeout entry matches a live connection: its token's slot is occupied
/// and the record's current generation equals the one the entry carries.
pub open spec fn entry_matches(slab: Seq<Option<Conn>>, e: TimerEntry) -> bool {
    &&& 0 <= e.token < slab.len()
    &&& slab[e.token as int] is Some
    &&& slab[e.token as int].unwrap().spec_generation() == e.generation
}

/// The tokens of the matching entries of `entries`, in order: the
/// connections a batch of due timeout entries closes. Stale entries
/// contribute nothing.
pub open spec fn due_tokens(entries: Seq<TimerEntry>, slab: Seq<Option<Conn>>) -> Seq<usize>
    decreases entries.len(),
{
    if entries.len() == 0 {
        Seq::empty()
    } else {
        due_tokens(entries.drop_last(), slab) + if entry_matches(slab, entries.last()) {
            seq![entries.last().token]
        } else {
            Seq::empty()
        }
    }
}

/// The outcome of trying to admit one accepted connection.
#[derive(Debug, PartialEq, Eq, Structural)]
pub enum AdmitOutcome {
    /// Admitted under this token; the caller registers the socket under it.
    Admitted(usize),
    /// The token space is exhausted; the connection is dropped.
    TokensExhausted,
    /// Every buffer is on loan; the connection is dropped.
    BuffersExhausted,
}

/// The per-worker reactor state: connection table, resource pools, timeout
/// wheel, the list of tokens waiting to be closed, and the count of
/// requests completed on this worker.
pub struct Reactor {
    slab: Slab,
    buf_pool: BufPool,
    token_pool: TokenPool,
    wheel: TimerWheel,
    to_close: Vec<usize>,
    resp_len: usize,
    completed: u64,
}

impl Reactor {
    /// Everything the reactor relies on between events: the slab spans the
    /// whole token space; the pools and the wheel are well formed; buffers
    /// on loan match live connections one to one; every live connection's
    /// token is in use (so token 0, never handed out, has no connection);
    /// every live record is well formed, scanned consistently, writes this
    /// reactor's (never empty) response, and is in exactly one of the
    /// reading and writing phases — the transient done-writing state never
    /// survives past the event that produced it; queued closes are real
    /// tokens.
    pub closed spec fn wf(self) -> bool {
        &&& self.slab@.len() == MAX_CONNS
        &&& self.resp_len > 0
        &&& self.buf_pool.wf()
        &&& self.token_pool.wf()
        &&& self.wheel.wf()
        &&& occupied_count(self.slab@) == self.buf_pool.spec_active()
        &&& forall|t: int|
            #![trigger self.slab@[t]]
            0 <= t < MAX_CONNS && self.slab@[t] is Some ==> self.token_pool.spec_in_use()[t]
        &&& forall|t: int|
            #![trigger self.slab@[t]]
            0 <= t < MAX_CONNS && self.slab@[t] is Some ==> {
                &&& self.slab@[t].unwrap().wf()
                &&& self.slab@[t].unwrap().scan_ok()
                &&& self.slab@[t].unwrap().spec_resp_len() == self.resp_len
                &&& (self.slab@[t].unwrap().in_reading() || self.slab@[t].unwrap().in_writing())
            }
        &&& forall|i: int|
            0 <= i < self.to_close@.len() ==> 1 <= #[trigger] self.to_close@[i] < MAX_CONNS
    }

    /// The connection table.
    pub closed spec fn spec_slab(self) -> Seq<Option<Conn>> {
        self.slab@
    }

    /// How many buffers are on loan, which the invariant ties to the
    /// number of live connections.
    pub closed spec fn spec_buf_active(self) -> usize {
        self.buf_pool.spec_active()
    }

    /// Cap on concurrent connections from the buffer side.
    pub closed spec fn spec_buf_max_active(self) -> usize {
        self.buf_pool.spec_max_active()
    }

    /// Which tokens are in use.
    pub closed spec fn spec_in_use(self) -> Seq<bool> {
        self.token_pool.spec_in_use()
    }

    /// The token pool.
    pub closed spec fn spec_token_pool(self) -> TokenPool {
        self.token_pool
    }

    /// The timer wheel.
    pub closed spec fn spec_wheel(self) -> TimerWheel {
        self.wheel
    }

    /// Tokens queued for closing.
    pub closed spec fn spec_to_close(self) -> Seq<usize> {
        self.to_close@
    }

    /// Length of the response every connection writes.
    pub closed spec fn spec_resp_len(self) -> usize {
        self.resp_len
    }

    /// Requests completed on this worker (wrapping at 2^64, like the
    /// worker's counter slot).
    pub closed spec fn spec_completed(self) -> u64 {
        self.completed
    }

    /// Buffers on loan equal live connections, exactly: the conservation
    /// the admission and close paths maintain.
    pub proof fn lemma_conservation(self)
        requires
            self.wf(),
        ensures
            occupied_count(self.spec_slab()) == self.spec_buf_active(),
            forall|t: int|
                0 <= t < MAX_CONNS && self.spec_slab()[t] is Some ==> self.spec_in_use()[t],
            self.spec_slab()[0] is None,
    {
        crate::pool::lemma_token_pool_disjoint(self.spec_token_pool());
    }

    /// Every live connection is in exactly one of the reading and writing
    /// phases at every observable point: between reactor calls none is ever
    /// left in the transient done-writing state, because completing a write
    /// resets the connection to reading in the same step.
    pub proof fn lemma_live_conn_phase(self, tok: int)
        requires
            self.wf(),
            0 <= tok < MAX_CONNS,
            self.spec_slab()[tok] is Some,
        ensures
            self.spec_slab()[tok].unwrap().in_reading() != self.spec_slab()[tok].unwrap().in_writing(),
    {
        crate::conn::lemma_conn_phase_exclusive(self.spec_slab()[tok].unwrap());
    }

    /// A fresh reactor: an empty slab over the whole token space, full
    /// pools, an empty wheel armed with the idle timeout, nothing queued.
    pub fn new(resp_len: usize, max_active_bufs: usize, max_recycled: usize, now: u64) -> (r:
        Reactor)
        requires
            resp_len > 0,
        ensures
            r.wf(),
            r.spec_buf_active() == 0,
            r.spec_buf_max_active() == max_active_bufs,
            r.spec_resp_len() == resp_len,
            r.spec_completed() == 0,
            r.spec_to_close().len() == 0,
            forall|t: int| 0 <= t < MAX_CONNS ==> r.spec_slab()[t] is None,
            occupied_count(r.spec_slab()) == 0,
            r.spec_wheel().spec_cursor() == 0,
            r.spec_wheel().spec_last_tick() == now,
            r.spec_wheel().spec_timeout_slots() == CONN_TIMEOUT_MS / 1000 + 1,
            forall|j: int| 0 <= j < WHEEL_SIZE ==> #[trigger] r.spec_wheel().spec_slots()[j].len()
                == 0,
    {
        let slab = Slab::new(MAX_CONNS);
        let buf_pool = BufPool::new(max_active_bufs, max_recycled);
        let token_pool = TokenPool::new();
        let wheel = TimerWheel::new(CONN_TIMEOUT_MS, now);
        let r = Reactor {
            slab,
            buf_pool,
            token_pool,
            wheel,
            to_close: Vec::new(),
            resp_len,
            completed: 0,
        };
        proof {
            lemma_occupied_all_none(r.slab@);
        }
        r
    }

    /// Whether the slot of `tok` holds a live connection.
    pub fn occupied(&self, tok: usize) -> (r: bool)
        requires
            self.wf(),
            tok < MAX_CONNS,
        ensures
            r == (self.spec_slab()[tok as int] is Some),
    {
        self.slab.get(tok).is_some()
    }

    /// How many buffers are on loan; by the invariant, how many
    /// connections are live.
    pub fn active_conns(&self) -> (n: usize)
        requires
            self.wf(),
        ensures
            n == self.spec_buf_active(),
    {
        self.buf_pool.active()
    }

    /// Requests completed on this worker so far.
    pub fn completed(&self) -> (n: u64)
        ensures
            n == self.spec_completed(),
    {
        self.completed
    }

    /// Admit one accepted connection: take a token, take a buffer (giving
    /// the token back if no buffer is to be had), install a fresh record in
    /// the slab and schedule its first idle timeout. Fails exactly when a
    /// pool is exhausted, and a failed admission changes no accounting.
    pub fn try_admit(&mut self, now: u64) -> (r: AdmitOutcome)
        requires
            old(self).wf(),
        ensures
            final(self).wf(),
            final(self).spec_resp_len() == old(self).spec_resp_len(),
            final(self).spec_completed() == old(self).spec_completed(),
            final(self).spec_to_close() == old(self).spec_to_close(),
            final(self).spec_buf_max_active() == old(self).spec_buf_max_active(),
            r is Admitted <==> ((old(self).spec_token_pool().spec_free().len() > 0 || old(self).spec_token_pool().spec_next() < MAX_CONNS) && old(self).spec_buf_active() < old(self).spec_buf_max_active()),
            r == AdmitOutcome::TokensExhausted ==> old(self).spec_token_pool().spec_free().len()
                == 0 && old(self).spec_token_pool().spec_next() == MAX_CONNS,
            r == AdmitOutcome::BuffersExhausted ==> old(self).spec_buf_active() >= old(self).spec_buf_max_active(),
            !(r is Admitted) ==> final(self).spec_slab() == old(self).spec_slab() && final(self).spec_buf_active() == old(self).spec_buf_active() && final(self).spec_in_use() == old(self).spec_in_use() && final(self).spec_wheel() == old(self).spec_wheel(),
            r matches AdmitOutcome::Admitted(t) ==> {
                &&& 1 <= t < MAX_CONNS
                &&& old(self).spec_slab()[t as int] is None
                &&& !old(self).spec_in_use()[t as int]
                &&& final(self).spec_in_use() == old(self).spec_in_use().update(t as int, true)
                &&& final(self).spec_slab() == old(self).spec_slab().update(
                    t as int,
                    Some(final(self).spec_slab()[t as int].unwrap()),
                )
                &&& final(self).spec_slab()[t as int] is Some
                &&& final(self).spec_slab()[t as int].unwrap().in_reading()
                &&& final(self).spec_slab()[t as int].unwrap().spec_read_len() == 0
                &&& final(self).spec_slab()[t as int].unwrap().spec_last_active() == now
                &&& final(self).spec_slab()[t as int].unwrap().spec_generation() == 0
                &&& final(self).spec_buf_active() == old(self).spec_buf_active() + 1
                &&& final(self).spec_wheel().spec_slots() == old(self).spec_wheel().spec_slots().update(
                    (old(self).spec_wheel().spec_cursor() + old(self).spec_wheel().spec_timeout_slots()) % (WHEEL_SIZE as int),
                    old(self).spec_wheel().spec_slots()[(old(self).spec_wheel().spec_cursor()
                        + old(self).spec_wheel().spec_timeout_slots()) % (WHEEL_SIZE as int)].push(
                        TimerEntry { token: t, generation: 0 },
                    ),
                )
            },
    {
        let tok = match self.token_pool.acquire() {
            Some(t) => t,
            None => {
                proof {
                    crate::pool::lemma_token_pool_disjoint(old(self).spec_token_pool());
                }
                return AdmitOutcome::TokensExhausted;
            },
        };
        let buf = match self.buf_pool.acquire() {
            Some(b) => b,
            None => {
                proof {
                    crate::pool::lemma_token_pool_disjoint(self.token_pool);
                    assert(self.token_pool.spec_in_use()[tok as int]);
                }
                let ok = self.token_pool.release(tok);
                proof {
                    assert(ok);
                    assert(self.token_pool.spec_in_use() =~= old(self).spec_token_pool().spec_in_use());
                }
                return AdmitOutcome::BuffersExhausted;
            },
        };
        let conn = Conn::new(self.resp_len, buf, now);
        let generation = conn.generation();
        proof {
            crate::pool::lemma_token_pool_disjoint(self.token_pool);
            assert(!old(self).spec_token_pool().spec_in_use()[tok as int]);
            assert(old(self).spec_slab()[tok as int] is None);
            lemma_occupied_update(old(self).spec_slab(), tok as int, Some(conn));
        }
        self.slab.insert(tok, conn);
        self.wheel.add(tok, generation);
        proof {
            assert forall|u: int|
                #![trigger self.slab@[u]]
                0 <= u < MAX_CONNS && self.slab@[u] is Some implies self.token_pool.spec_in_use()[u]
                && self.slab@[u].unwrap().wf() && self.slab@[u].unwrap().scan_ok()
                && self.slab@[u].unwrap().spec_resp_len() == self.resp_len
                && (self.slab@[u].unwrap().in_reading() || self.slab@[u].unwrap().in_writing()) by {
                if u == tok as int {
                    assert(self.slab@[u] == Some(conn));
                } else {
                    assert(self.slab@[u] == old(self).spec_slab()[u]);
                    assert(old(self).spec_token_pool().spec_in_use()[u]);
                }
            }
        }
        AdmitOutcome::Admitted(tok)
    }

    /// Record activity for a live connection (refreshing its idle deadline
    /// and invalidating older timeout entries) and file a fresh timeout
    /// entry carrying its new generation.
    pub fn touch_and_schedule(&mut self, tok: usize, now: u64)
        requires
            old(self).wf(),
            tok < MAX_CONNS,
            old(self).spec_slab()[tok as int] is Some,
        ensures
            final(self).wf(),
            final(self).spec_slab() == old(self).spec_slab().update(
                tok as int,
                Some(final(self).spec_slab()[tok as int].unwrap()),
            ),
            final(self).spec_slab()[tok as int] is Some,
            ({
                let c0 = old(self).spec_slab()[tok as int].unwrap();
                let c1 = final(self).spec_slab()[tok as int].unwrap();
                &&& c1.spec_last_active() == now
                &&& c1.spec_generation() == vstd::wrapping::u64_specs::wrapping_add(
                    c0.spec_generation(),
                    1u64,
                )
                &&& c1.filled() == c0.filled()
                &&& c1.spec_read_len() == c0.spec_read_len()
                &&& c1.spec_write_pos() == c0.spec_write_pos()
                &&& c1.spec_resp_len() == c0.spec_resp_len()
            }),
            final(self).spec_wheel().spec_slots() == old(self).spec_wheel().spec_slots().update(
                (old(self).spec_wheel().spec_cursor() + old(
                    self,
                ).spec_wheel().spec_timeout_slots()) % (WHEEL_SIZE as int),
                old(self).spec_wheel().spec_slots()[(old(self).spec_wheel().spec_cursor() + old(
                    self,
                ).spec_wheel().spec_timeout_slots()) % (WHEEL_SIZE as int)].push(
                    TimerEntry {
                        token: tok,
                        generation: final(self).spec_slab()[tok as int].unwrap().spec_generation(),
                    },
                ),
            ),
            final(self).spec_wheel().spec_cursor() == old(self).spec_wheel().spec_cursor(),
            final(self).spec_wheel().spec_last_tick() == old(self).spec_wheel().spec_last_tick(),
            final(self).spec_buf_active() == old(self).spec_buf_active(),
            final(self).spec_in_use() == old(self).spec_in_use(),
            final(self).spec_completed() == old(self).spec_completed(),
            final(self).spec_resp_len() == old(self).spec_resp_len(),
            final(self).spec_to_close() == old(self).spec_to_close(),
    {
        proof {
            assert(old(self).spec_slab()[tok as int].unwrap().wf());
        }
        let c = self.slab.get_mut(tok);
        c.touch(now);
        let g = c.generation();
        self.wheel.add(tok, g);
        proof {
            let c1 = self.slab@[tok as int].unwrap();
            lemma_wf_conn_replaced(*old(self), self.slab@, self.wheel, tok as int, c1);
        }
    }

    /// Room left in a live connection's read buffer; the caller reads at
    /// most this many bytes before handing them to `feed`, and treats a
    /// full buffer as an oversized request.
    pub fn read_room(&self, tok: usize) -> (n: usize)
        requires
            self.wf(),
            tok < MAX_CONNS,
            self.spec_slab()[tok as int] is Some,
        ensures
            n == BUF_SIZE - self.spec_slab()[tok as int].unwrap().spec_read_len(),
    {
        proof {
            assert(self.spec_slab()[tok as int].unwrap().wf());
        }
        match self.slab.get(tok) {
            Some(c) => c.read_capacity(),
            None => vstd::pervasive::unreached(),
        }
    }

    /// Append bytes just read from a live connection's socket to its
    /// request buffer; only connections in the reading phase receive bytes.
    /// Returns true when the request has become oversized (it exceeds
    /// `MAX_REQUEST_SIZE`, or fills the whole buffer): the caller then
    /// queues the connection for closing instead of reading on.
    pub fn feed(&mut self, tok: usize, data: &[u8]) -> (oversized: bool)
        requires
            old(self).wf(),
            tok < MAX_CONNS,
            old(self).spec_slab()[tok as int] is Some,
            old(self).spec_slab()[tok as int].unwrap().in_reading(),
            old(self).spec_slab()[tok as int].unwrap().spec_read_len() + data@.len() <= BUF_SIZE,
        ensures
            final(self).wf(),
            final(self).spec_slab() == old(self).spec_slab().update(
                tok as int,
                Some(final(self).spec_slab()[tok as int].unwrap()),
            ),
            final(self).spec_slab()[tok as int] is Some,
            ({
                let c0 = old(self).spec_slab()[tok as int].unwrap();
                let c1 = final(self).spec_slab()[tok as int].unwrap();
                &&& c1.filled() == c0.filled() + data@
                &&& c1.spec_read_len() == c0.spec_read_len() + data@.len()
                &&& c1.in_reading()
                &&& c1.spec_last_active() == c0.spec_last_active()
                &&& c1.spec_generation() == c0.spec_generation()
            }),
            oversized == (old(self).spec_slab()[tok as int].unwrap().spec_read_len() + data@.len()
                > MAX_REQUEST_SIZE || old(self).spec_slab()[tok as int].unwrap().spec_read_len()
                + data@.len() == BUF_SIZE),
            final(self).spec_buf_active() == old(self).spec_buf_active(),
            final(self).spec_in_use() == old(self).spec_in_use(),
            final(self).spec_wheel() == old(self).spec_wheel(),
            final(self).spec_completed() == old(self).spec_completed(),
            final(self).spec_resp_len() == old(self).spec_resp_len(),
            final(self).spec_to_close() == old(self).spec_to_close(),
    {
        proof {
            assert(old(self).spec_slab()[tok as int].unwrap().wf());
            assert(old(self).spec_slab()[tok as int].unwrap().scan_ok());
        }
        let c = self.slab.get_mut(tok);
        c.fill(data);
        let rl = c.read_len();
        proof {
            let c1 = self.slab@[tok as int].unwrap();
            lemma_wf_conn_replaced(*old(self), self.slab@, self.wheel, tok as int, c1);
        }
        rl > MAX_REQUEST_SIZE || rl == BUF_SIZE
    }

    /// After a read burst: decide whether the request is complete (the
    /// terminator appears in the filled bytes) and, exactly in that case,
    /// arm the write: clear the read cursor and put the write cursor at the
    /// start of the response. A connection never enters the writing phase
    /// before its request is complete. The caller reregisters the socket
    /// for write readiness when this returns true.
    pub fn try_arm(&mut self, tok: usize) -> (armed: bool)
        requires
            old(self).wf(),
            tok < MAX_CONNS,
            old(self).spec_slab()[tok as int] is Some,
            old(self).spec_slab()[tok as int].unwrap().in_reading(),
        ensures
            final(self).wf(),
            armed == has_terminator(old(self).spec_slab()[tok as int].unwrap().filled()),
            final(self).spec_slab() == old(self).spec_slab().update(
                tok as int,
                Some(final(self).spec_slab()[tok as int].unwrap()),
            ),
            final(self).spec_slab()[tok as int] is Some,
            ({
                let c0 = old(self).spec_slab()[tok as int].unwrap();
                let c1 = final(self).spec_slab()[tok as int].unwrap();
                &&& (armed ==> c1.spec_write_pos() == Some(0usize) && c1.spec_read_len() == 0)
                &&& (!armed ==> c1.in_reading() && c1.filled() == c0.filled()
                    && c1.spec_read_len() == c0.spec_read_len())
                &&& c1.spec_last_active() == c0.spec_last_active()
                &&& c1.spec_generation() == c0.spec_generation()
                &&& c1.spec_resp_len() == c0.spec_resp_len()
            }),
            final(self).spec_buf_active() == old(self).spec_buf_active(),
            final(self).spec_in_use() == old(self).spec_in_use(),
            final(self).spec_wheel() == old(self).spec_wheel(),
            final(self).spec_completed() == old(self).spec_completed(),
            final(self).spec_resp_len() == old(self).spec_resp_len(),
            final(self).spec_to_close() == old(self).spec_to_close(),
    {
        proof {
            assert(old(self).spec_slab()[tok as int].unwrap().wf());
            assert(old(self).spec_slab()[tok as int].unwrap().scan_ok());
        }
        let c = self.slab.get_mut(tok);
        let found = c.request_complete();
        if found {
            c.arm_write();
        }
        proof {
            let c1 = self.slab@[tok as int].unwrap();
            lemma_wf_conn_replaced(*old(self), self.slab@, self.wheel, tok as int, c1);
        }
        found
    }

    /// Whether a live connection has response bytes left to write.
    pub fn has_pending_write(&self, tok: usize) -> (r: bool)
        requires
            self.wf(),
            tok < MAX_CONNS,
            self.spec_slab()[tok as int] is Some,
        ensures
            r == self.spec_slab()[tok as int].unwrap().in_writing(),
    {
        proof {
            assert(self.spec_slab()[tok as int].unwrap().wf());
        }
        match self.slab.get(tok) {
            Some(c) => c.has_pending_write(),
            None => vstd::pervasive::unreached(),
        }
    }

    /// Where in the response the next write starts; the caller writes a
    /// suffix of the response beginning here.
    pub fn write_pos_value(&self, tok: usize) -> (p: usize)
        requires
            self.wf(),
            tok < MAX_CONNS,
            self.spec_slab()[tok as int] is Some,
            self.spec_slab()[tok as int].unwrap().in_writing(),
        ensures
            Some(p) == self.spec_slab()[tok as int].unwrap().spec_write_pos(),
            p < self.spec_resp_len(),
    {
        proof {
            assert(self.spec_slab()[tok as int].unwrap().wf());
        }
        match self.slab.get(tok) {
            Some(c) => match c.write_pos() {
                Some(p) => p,
                None => vstd::pervasive::unreached(),
            },
            None => vstd::pervasive::unreached(),
        }
    }

    /// Record that `n` more response bytes were written. When this
    /// completes the response it counts the request, puts the connection
    /// back into the reading phase in the same step, and returns true; the
    /// caller then reregisters the socket for read readiness only. Exactly
    /// one completed request is counted per armed write.
    pub fn on_wrote(&mut self, tok: usize, n: usize) -> (done: bool)
        requires
            old(self).wf(),
            tok < MAX_CONNS,
            old(self).spec_slab()[tok as int] is Some,
            old(self).spec_slab()[tok as int].unwrap().in_writing(),
            n + old(self).spec_slab()[tok as int].unwrap().spec_write_pos().unwrap() <= old(
                self,
            ).spec_resp_len(),
        ensures
            final(self).wf(),
            done == (old(self).spec_slab()[tok as int].unwrap().spec_write_pos().unwrap() + n
                == old(self).spec_resp_len()),
            final(self).spec_slab() == old(self).spec_slab().update(
                tok as int,
                Some(final(self).spec_slab()[tok as int].unwrap()),
            ),
            final(self).spec_slab()[tok as int] is Some,
            ({
                let c0 = old(self).spec_slab()[tok as int].unwrap();
                let c1 = final(self).spec_slab()[tok as int].unwrap();
                &&& (done ==> c1.in_reading())
                &&& (!done ==> c1.in_writing() && c1.spec_write_pos() == Some(
                    (c0.spec_write_pos().unwrap() + n) as usize,
                ))
                &&& c1.filled() == c0.filled()
                &&& c1.spec_read_len() == c0.spec_read_len()
                &&& c1.spec_last_active() == c0.spec_last_active()
                &&& c1.spec_generation() == c0.spec_generation()
            }),
            done ==> final(self).spec_completed() == vstd::wrapping::u64_specs::wrapping_add(
                old(self).spec_completed(),
                1u64,
            ),
            !done ==> final(self).spec_completed() == old(self).spec_completed(),
            final(self).spec_buf_active() == old(self).spec_buf_active(),
            final(self).spec_in_use() == old(self).spec_in_use(),
            final(self).spec_wheel() == old(self).spec_wheel(),
            final(self).spec_resp_len() == old(self).spec_resp_len(),
            final(self).spec_to_close() == old(self).spec_to_close(),
    {
        proof {
            assert(old(self).spec_slab()[tok as int].unwrap().wf());
        }
        let c = self.slab.get_mut(tok);
        c.advance_write(n);
        let done = !c.has_pending_write();
        if done {
            c.reset_for_read();
            self.completed = self.completed.wrapping_add(1);
        }
        proof {
            let c1 = self.slab@[tok as int].unwrap();
            lemma_wf_conn_replaced(*old(self), self.slab@, self.wheel, tok as int, c1);
        }
        done
    }

    /// Queue a token for closing; the close list is drained once per loop
    /// iteration, after the events are dispatched.
    pub fn mark_close(&mut self, tok: usize)
        requires
            old(self).wf(),
            1 <= tok < MAX_CONNS,
        ensures
            final(self).wf(),
            final(self).spec_to_close() == old(self).spec_to_close().push(tok),
            final(self).spec_slab() == old(self).spec_slab(),
            final(self).spec_buf_active() == old(self).spec_buf_active(),
            final(self).spec_in_use() == old(self).spec_in_use(),
            final(self).spec_wheel() == old(self).spec_wheel(),
            final(self).spec_completed() == old(self).spec_completed(),
            final(self).spec_resp_len() == old(self).spec_resp_len(),
    {
        self.to_close.push(tok);
    }

    /// Hand over the queued closes, leaving the queue empty; the caller
    /// deregisters each socket and then calls `close_now` on the token.
    pub fn take_close_list(&mut self) -> (v: Vec<usize>)
        requires
            old(self).wf(),
        ensures
            final(self).wf(),
            v@ == old(self).spec_to_close(),
            final(self).spec_to_close().len() == 0,
            final(self).spec_slab() == old(self).spec_slab(),
            final(self).spec_buf_active() == old(self).spec_buf_active(),
            final(self).spec_in_use() == old(self).spec_in_use(),
            final(self).spec_wheel() == old(self).spec_wheel(),
            final(self).spec_completed() == old(self).spec_completed(),
            final(self).spec_resp_len() == old(self).spec_resp_len(),
            forall|i: int| 0 <= i < v@.len() ==> 1 <= #[trigger] v@[i] < MAX_CONNS,
    {
        let mut v: Vec<usize> = Vec::new();
        core::mem::swap(&mut v, &mut self.to_close);
        v
    }

    /// Close a connection now: empty its slot and give its buffer and its
    /// token back, keeping the conservation exact. Closing an already
    /// empty slot (a token queued twice) is a no-op.
    pub fn close_now(&mut self, tok: usize) -> (closed: bool)
        requires
            old(self).wf(),
            tok < MAX_CONNS,
        ensures
            final(self).wf(),
            closed == (old(self).spec_slab()[tok as int] is Some),
            final(self).spec_slab() == if closed {
                old(self).spec_slab().update(tok as int, None)
            } else {
                old(self).spec_slab()
            },
            closed ==> final(self).spec_buf_active() == old(self).spec_buf_active() - 1
                && final(self).spec_in_use() == old(self).spec_in_use().update(tok as int, false),
            !closed ==> final(self).spec_buf_active() == old(self).spec_buf_active() && final(self).spec_in_use() == old(self).spec_in_use(),
            final(self).spec_completed() == old(self).spec_completed(),
            final(self).spec_resp_len() == old(self).spec_resp_len(),
            final(self).spec_to_close() == old(self).spec_to_close(),
            final(self).spec_wheel() == old(self).spec_wheel(),
    {
        match self.slab.remove(tok) {
            Some(conn) => {
                proof {
                    crate::pool::lemma_token_pool_disjoint(old(self).spec_token_pool());
                    assert(old(self).spec_slab()[tok as int] is Some);
                    assert(old(self).spec_token_pool().spec_in_use()[tok as int]);
                    assert(1 <= tok);
                    assert(conn.wf());
                    lemma_occupied_update(old(self).spec_slab(), tok as int, None);
                    lemma_occupied_pos(old(self).spec_slab(), tok as int);
                }
                let buf = conn.into_buf();
                let buf_ok = self.buf_pool.release(buf);
                let tok_ok = self.token_pool.release(tok);
                proof {
                    assert(buf_ok);
                    assert(tok_ok);
                }
                true
            },
            None => {
                proof {
                    assert(final(self).spec_slab() =~= old(self).spec_slab());
                }
                false
            },
        }
    }

    /// Drain the timeout entries that have come due and queue for closing
    /// exactly the tokens whose entry still matches the live connection's
    /// generation: a matching entry means no touch happened since it was
    /// scheduled, so the connection has truly been idle for the whole
    /// timeout. Stale entries (generation mismatch or empty slot) are
    /// discarded silently.
    pub fn drain_due(&mut self, now: u64)
        requires
            old(self).wf(),
            old(self).spec_wheel().spec_last_tick() <= now,
        ensures
            final(self).wf(),
            final(self).spec_slab() == old(self).spec_slab(),
            final(self).spec_buf_active() == old(self).spec_buf_active(),
            final(self).spec_in_use() == old(self).spec_in_use(),
            final(self).spec_completed() == old(self).spec_completed(),
            final(self).spec_resp_len() == old(self).spec_resp_len(),
            final(self).spec_to_close() == old(self).spec_to_close() + due_tokens(
                crate::timer::drained_up_to(
                    old(self).spec_wheel().spec_slots(),
                    old(self).spec_wheel().spec_cursor() as int,
                    old(self).spec_wheel().spec_ticks(now),
                ),
                old(self).spec_slab(),
            ),
            final(self).spec_wheel().spec_timeout_slots() == old(
                self,
            ).spec_wheel().spec_timeout_slots(),
            final(self).spec_wheel().spec_cursor() == (old(self).spec_wheel().spec_cursor() + old(
                self,
            ).spec_wheel().spec_ticks(now)) % (WHEEL_SIZE as int),
            final(self).spec_wheel().spec_last_tick() == old(self).spec_wheel().spec_last_tick()
                + 1000 * old(self).spec_wheel().spec_ticks(now),
            final(self).spec_wheel().spec_last_tick() <= now,
            forall|j: int|
                0 <= j < WHEEL_SIZE && crate::timer::drained_slot(
                    old(self).spec_wheel().spec_cursor() as int,
                    old(self).spec_wheel().spec_ticks(now),
                    j,
                ) ==> #[trigger] final(self).spec_wheel().spec_slots()[j].len() == 0,
            forall|j: int|
                0 <= j < WHEEL_SIZE && !crate::timer::drained_slot(
                    old(self).spec_wheel().spec_cursor() as int,
                    old(self).spec_wheel().spec_ticks(now),
                    j,
                ) ==> #[trigger] final(self).spec_wheel().spec_slots()[j] == old(
                    self,
                ).spec_wheel().spec_slots()[j],
    {
        let mut due: Vec<TimerEntry> = Vec::new();
        self.wheel.advance(now, &mut due);
        let ghost drained = due@;
        let ghost wheel_after = self.wheel;
        let mut i: usize = 0;
        while i < due.len()
            invariant
                i <= due@.len(),
                due@ == drained,
                self.slab@ == old(self).spec_slab(),
                self.slab@.len() == MAX_CONNS,
                self.buf_pool == old(self).buf_pool,
                self.token_pool == old(self).token_pool,
                self.wheel == wheel_after,
                wheel_after.spec_last_tick() <= now,
                wheel_after.wf(),
                self.completed == old(self).spec_completed(),
                self.resp_len == old(self).spec_resp_len(),
                old(self).wf(),
                self.to_close@ == old(self).spec_to_close() + due_tokens(
                    drained.take(i as int),
                    old(self).spec_slab(),
                ),
                forall|k: int| 0 <= k < self.to_close@.len() ==> 1 <= #[trigger] self.to_close@[k]
                    < MAX_CONNS,
            decreases due@.len() - i,
        {
            let e = due[i];
            proof {
                assert(drained.take(i + 1).drop_last() =~= drained.take(i as int));
                assert(drained.take(i + 1).last() == drained[i as int]);
            }
            let mut matched = false;
            if e.token < MAX_CONNS {
                match self.slab.get(e.token) {
                    Some(c) => {
                        if c.generation() == e.generation {
                            matched = true;
                        }
                    },
                    None => {},
                }
            }
            proof {
                assert(matched == entry_matches(old(self).spec_slab(), e));
            }
            if matched {
                proof {
                    crate::pool::lemma_token_pool_disjoint(self.token_pool);
                    assert(self.slab@[e.token as int] is Some);
                    assert(self.token_pool.spec_in_use()[e.token as int]);
                    assert(1 <= e.token);
                }
                self.to_close.push(e.token);
            }
            proof {
                assert(self.to_close@ =~= old(self).spec_to_close() + due_tokens(
                    drained.take(i + 1),
                    old(self).spec_slab(),
                ));
            }
            i = i + 1;
        }
        proof {
            assert(drained.take(drained.len() as int) =~= drained);
        }
    }
}

/// Replacing one live record with another well-formed record of the same
/// response, while leaving the pools and the close list alone, preserves
/// the reactor invariant (the slot stays occupied, so the conservation and
/// the token marks are untouched).
proof fn lemma_wf_conn_replaced(pre: Reactor, slab2: Seq<Option<Conn>>, wheel2: TimerWheel, tok: int, c: Conn)
    requires
        pre.wf(),
        0 <= tok < MAX_CONNS,
        pre.slab@[tok] is Some,
        slab2 == pre.slab@.update(tok, Some(c)),
        c.wf(),
        c.scan_ok(),
        c.spec_resp_len() == pre.resp_len,
        c.in_reading() || c.in_writing(),
        wheel2.wf(),
    ensures
        occupied_count(slab2) == occupied_count(pre.slab@),
        forall|t: int|
            #![trigger slab2[t]]
            0 <= t < MAX_CONNS && slab2[t] is Some ==> pre.token_pool.spec_in_use()[t]
                && slab2[t].unwrap().wf() && slab2[t].unwrap().scan_ok()
                && slab2[t].unwrap().spec_resp_len() == pre.resp_len && (slab2[t].unwrap().in_reading()
                || slab2[t].unwrap().in_writing()),
{
    lemma_occupied_update(pre.slab@, tok, Some(c));
    assert forall|t: int|
        #![trigger slab2[t]]
        0 <= t < MAX_CONNS && slab2[t] is Some implies pre.token_pool.spec_in_use()[t]
        && slab2[t].unwrap().wf() && slab2[t].unwrap().scan_ok()
        && slab2[t].unwrap().spec_resp_len() == pre.resp_len && (slab2[t].unwrap().in_reading()
        || slab2[t].unwrap().in_writing()) by {
        if t == tok {
            assert(pre.slab@[t] is Some);
        } else {
            assert(slab2[t] == pre.slab@[t]);
        }
    }
}

/// A sequence of all-empty slots has occupied count zero.
proof fn lemma_occupied_all_none(s: Seq<Option<Conn>>)
    requires
        forall|t: int| 0 <= t < s.len() ==> s[t] is None,
    ensures
        occupied_count(s) == 0,
    decreases s.len(),
{
    if s.len() > 0 {
        lemma_occupied_all_none(s.drop_last());
    }
}

/// A token is queued by a batch of due entries exactly when the batch holds
/// an entry for it that still matches the live connection.
pub proof fn lemma_due_tokens_membership(
    entries: Seq<TimerEntry>,
    slab: Seq<Option<Conn>>,
    tk: usize,
)
    ensures
        due_tokens(entries, slab).contains(tk) <==> exists|i: int|
            0 <= i < entries.len() && (#[trigger] entries[i]).token == tk && entry_matches(
                slab,
                entries[i],
            ),
    decreases entries.len(),
{
    if entries.len() == 0 {
        assert(!due_tokens(entries, slab).contains(tk));
    } else {
        let prev = entries.drop_last();
        lemma_due_tokens_membership(prev, slab, tk);
        let dprev = due_tokens(prev, slab);
        let tail = if entry_matches(slab, entries.last()) {
            seq![entries.last().token]
        } else {
            Seq::<usize>::empty()
        };
        assert(due_tokens(entries, slab) == dprev + tail);
        if (dprev + tail).contains(tk) {
            let idx = choose|idx: int| 0 <= idx < (dprev + tail).len() && (dprev + tail)[idx] == tk;
            if idx < dprev.len() {
                assert(dprev[idx] == tk);
                assert(dprev.contains(tk));
                let i = choose|i: int|
                    0 <= i < prev.len() && (#[trigger] prev[i]).token == tk && entry_matches(
                        slab,
                        prev[i],
                    );
                assert(entries[i] == prev[i]);
            } else {
                assert(tail[idx - dprev.len()] == tk);
                assert(entries[entries.len() - 1].token == tk && entry_matches(
                    slab,
                    entries[entries.len() - 1],
                ));
            }
        }
        if exists|i: int|
            0 <= i < entries.len() && (#[trigger] entries[i]).token == tk && entry_matches(
                slab,
                entries[i],
            ) {
            let i = choose|i: int|
                0 <= i < entries.len() && (#[trigger] entries[i]).token == tk && entry_matches(
                    slab,
                    entries[i],
                );
            if i < entries.len() - 1 {
                assert(prev[i] == entries[i]);
                assert(dprev.contains(tk));
                let idx = choose|idx: int| 0 <= idx < dprev.len() && dprev[idx] == tk;
                assert((dprev + tail)[idx] == tk);
            } else {
                assert(tail == seq![entries.last().token]);
                assert((dprev + tail)[dprev.len() as int] == tk);
            }
            assert(due_tokens(entries, slab).contains(tk));
        }
    }
}

/// Idle-timeout correctness, end to end. Take a live connection whose
/// current generation is carried by exactly one wheel entry, sitting where
/// `add` files entries (which holds after `try_admit` or
/// `touch_and_schedule`: older entries carry older generations, and a
/// generation is never refiled). A drain at time `now` queues the token
/// exactly when at least `timeout_slots` whole seconds have passed since
/// the wheel's tick time — never while the connection has been active more
/// recently, and exactly then once it has been idle the full timeout (the
/// one-second slot granularity stretches the wait by at most one second).
/// Entries with older generations may pop, but they match nothing and are
/// discarded without closing anything.
pub proof fn lemma_drain_queues_idle_token(r: Reactor, tok: usize, now: u64)
    requires
        r.wf(),
        r.spec_wheel().spec_last_tick() <= now,
        tok < MAX_CONNS,
        r.spec_slab()[tok as int] is Some,
        ({
            let e = TimerEntry {
                token: tok,
                generation: r.spec_slab()[tok as int].unwrap().spec_generation(),
            };
            let si = (r.spec_wheel().spec_cursor() + r.spec_wheel().spec_timeout_slots()) % (
            WHEEL_SIZE as int);
            &&& r.spec_wheel().spec_slots()[si].contains(e)
            &&& forall|j: int|
                0 <= j < WHEEL_SIZE && j != si ==> !(#[trigger] r.spec_wheel().spec_slots()[j]).contains(e)
        }),
    ensures
        due_tokens(
            crate::timer::drained_up_to(
                r.spec_wheel().spec_slots(),
                r.spec_wheel().spec_cursor() as int,
                r.spec_wheel().spec_ticks(now),
            ),
            r.spec_slab(),
        ).contains(tok) <==> (now - r.spec_wheel().spec_last_tick()) / 1000
            >= r.spec_wheel().spec_timeout_slots(),
{
    let w = r.spec_wheel();
    let slots = w.spec_slots();
    let c0 = w.spec_cursor() as int;
    let ts = w.spec_timeout_slots() as int;
    let g = r.spec_slab()[tok as int].unwrap().spec_generation();
    let e = TimerEntry { token: tok, generation: g };
    let drained = crate::timer::drained_up_to(slots, c0, w.spec_ticks(now));
    crate::timer::lemma_wheel_shape(w);
    crate::timer::lemma_entry_pops_iff_idle(slots, c0, ts, e, w.spec_last_tick(), now);
    lemma_due_tokens_membership(drained, r.spec_slab(), tok);
    if due_tokens(drained, r.spec_slab()).contains(tok) {
        let i = choose|i: int|
            0 <= i < drained.len() && (#[trigger] drained[i]).token == tok && entry_matches(
                r.spec_slab(),
                drained[i],
            );
        assert(drained[i] == e);
        assert(drained.contains(e));
    }
    if drained.contains(e) {
        let i = choose|i: int| 0 <= i < drained.len() && drained[i] == e;
        assert(entry_matches(r.spec_slab(), drained[i]));
        assert((#[trigger] drained[i]).token == tok);
    }
}

} // verus!
