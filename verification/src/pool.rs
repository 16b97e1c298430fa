//! Fixed-capacity resource pools: read buffers and connection tokens.
//!
//! Both pools are owned by a single worker; their accounting is what keeps
//! admission control honest, so the contracts pin it down exactly.
use vstd::prelude::*;

use crate::config::{BUF_SIZE, MAX_CONNS};

verus! {

/// Lends out fixed-size read buffers, capping how many are on loan at once
/// and how many released ones are kept for reuse.
pub struct BufPool {
    free: Vec<Vec<u8>>,
    active: usize,
    max_active: usize,
    max_recycled: usize,
}

/// True of a byte sequence of exactly `BUF_SIZE` zeroes.
pub open spec fn zeroed_buf(b: Seq<u8>) -> bool {
    b.len() == BUF_SIZE && forall|i: int| 0 <= i < b.len() ==> b[i] == 0u8
}

impl BufPool {
    /// Every recycled buffer is a zeroed `BUF_SIZE` buffer, the free list
    /// respects its cap, and no more than `max_active` buffers are on loan.
    pub closed spec fn wf(self) -> bool {
        &&& self.free@.len() <= self.max_recycled
        &&& forall|i: int| 0 <= i < self.free@.len() ==> zeroed_buf((#[trigger] self.free@[i])@)
        &&& self.active <= self.max_active
    }

    /// How many buffers are currently on loan.
    pub closed spec fn spec_active(&self) -> usize {
        self.active
    }

    /// Cap on buffers on loan at once.
    pub closed spec fn spec_max_active(self) -> usize {
        self.max_active
    }

    /// Cap on buffers kept for reuse.
    pub closed spec fn spec_max_recycled(self) -> usize {
        self.max_recycled
    }

    /// How many buffers are currently on loan.
    #[verifier::when_used_as_spec(spec_active)]
    pub fn active(&self) -> (n: usize)
        ensures
            n == self.spec_active(),
    {
        self.active
    }

    pub fn new(max_active: usize, max_recycled: usize) -> (p: BufPool)
        ensures
            p.wf(),
            p.spec_active() == 0,
            p.spec_max_active() == max_active,
            p.spec_max_recycled() == max_recycled,
    {
        BufPool { free: Vec::new(), active: 0, max_active, max_recycled }
    }

    /// Lend out one zeroed buffer of exactly `BUF_SIZE` bytes, recycled or
    /// fresh; fails exactly when the loan cap is reached.
    pub fn acquire(&mut self) -> (r: Option<Vec<u8>>)
        requires
            old(self).wf(),
        ensures
            final(self).wf(),
            final(self).spec_max_active() == old(self).spec_max_active(),
            final(self).spec_max_recycled() == old(self).spec_max_recycled(),
            r is Some <==> old(self).spec_active() < old(self).spec_max_active(),
            r matches Some(b) ==> zeroed_buf(b@) && final(self).spec_active() == old(
                self,
            ).spec_active() + 1,
            r is None ==> *final(self) == *old(self),
    {
        if self.active >= self.max_active {
            return None;
        }
        self.active = self.active + 1;
        match self.free.pop() {
            Some(b) => Some(b),
            None => {
                let mut b: Vec<u8> = Vec::new();
                let mut i: usize = 0;
                while i < BUF_SIZE
                    invariant
                        i <= BUF_SIZE,
                        b@.len() == i,
                        forall|j: int| 0 <= j < i ==> b@[j] == 0u8,
                    decreases BUF_SIZE - i,
                {
                    b.push(0u8);
                    i = i + 1;
                }
                Some(b)
            },
        }
    }

    /// Take back a buffer that was on loan. Returns false on a double
    /// release (nothing on loan): the count is clamped at zero and the
    /// caller may log the bug. When the free list has room the buffer is
    /// zeroed and retained, else it is dropped.
    pub fn release(&mut self, buf: Vec<u8>) -> (accepted: bool)
        requires
            old(self).wf(),
            buf@.len() == BUF_SIZE,
        ensures
            final(self).wf(),
            final(self).spec_max_active() == old(self).spec_max_active(),
            final(self).spec_max_recycled() == old(self).spec_max_recycled(),
            accepted <==> old(self).spec_active() > 0,
            accepted ==> final(self).spec_active() == old(self).spec_active() - 1,
            !accepted ==> *final(self) == *old(self),
    {
        if self.active == 0 {
            return false;
        }
        self.active = self.active - 1;
        if self.free.len() < self.max_recycled {
            let mut buf = buf;
            let mut i: usize = 0;
            while i < BUF_SIZE
                invariant
                    i <= BUF_SIZE,
                    buf@.len() == BUF_SIZE,
                    forall|j: int| 0 <= j < i ==> buf@[j] == 0u8,
                decreases BUF_SIZE - i,
            {
                buf[i] = 0u8;
                i = i + 1;
            }
            self.free.push(buf);
        }
        true
    }
}

/// Mints small integer slot identifiers in `1 .. MAX_CONNS`; 0 is reserved
/// for the listener. Released ids go to a stack for reuse; `in_use` guards
/// against double release.
pub struct TokenPool {
    next: usize,
    free: Vec<usize>,
    in_use: Vec<bool>,
}

impl TokenPool {
    /// The free stack holds distinct ids below the high-water mark, none of
    /// them marked in use; every id in use is below the high-water mark; id
    /// 0 is never handed out.
    pub closed spec fn wf(self) -> bool {
        &&& 1 <= self.next <= MAX_CONNS
        &&& self.in_use@.len() == MAX_CONNS
        &&& forall|i: int|
            0 <= i < self.free@.len() ==> 1 <= #[trigger] self.free@[i] < self.next
                && !self.in_use@[self.free@[i] as int]
        &&& forall|i: int, j: int|
            #![trigger self.free@[i], self.free@[j]]
            0 <= i < j < self.free@.len() ==> self.free@[i] != self.free@[j]
        &&& !self.in_use@[0]
        &&& forall|t: int| 0 <= t < MAX_CONNS && #[trigger] self.in_use@[t] ==> 1 <= t < self.next
    }

    /// Which ids are currently held by clients.
    pub closed spec fn spec_in_use(self) -> Seq<bool> {
        self.in_use@
    }

    /// The free stack, bottom first.
    pub closed spec fn spec_free(self) -> Seq<usize> {
        self.free@
    }

    /// The high-water mark: no id at or above it was ever handed out.
    pub closed spec fn spec_next(self) -> usize {
        self.next
    }

    pub fn new() -> (p: TokenPool)
        ensures
            p.wf(),
            p.spec_next() == 1,
            p.spec_free().len() == 0,
            forall|t: int| 0 <= t < MAX_CONNS ==> !p.spec_in_use()[t],
    {
        let mut in_use: Vec<bool> = Vec::new();
        let mut i: usize = 0;
        while i < MAX_CONNS
            invariant
                i <= MAX_CONNS,
                in_use@.len() == i,
                forall|j: int| 0 <= j < i ==> !in_use@[j],
            decreases MAX_CONNS - i,
        {
            in_use.push(false);
            i = i + 1;
        }
        TokenPool { next: 1, free: Vec::new(), in_use }
    }

    /// Hand out an id that is not in use: the top of the free stack if any,
    /// else a fresh one below `MAX_CONNS`. Fails exactly when the id space
    /// is exhausted.
    pub fn acquire(&mut self) -> (r: Option<usize>)
        requires
            old(self).wf(),
        ensures
            final(self).wf(),
            final(self).spec_in_use().len() == old(self).spec_in_use().len(),
            r is Some <==> (old(self).spec_free().len() > 0 || old(self).spec_next() < MAX_CONNS),
            r matches Some(t) ==> {
                &&& 1 <= t < MAX_CONNS
                &&& !old(self).spec_in_use()[t as int]
                &&& final(self).spec_in_use()[t as int]
                &&& final(self).spec_in_use() == old(self).spec_in_use().update(t as int, true)
                &&& final(self).spec_free() == if old(self).spec_free().len() > 0 {
                    old(self).spec_free().drop_last()
                } else {
                    old(self).spec_free()
                }
            },
            r is None ==> final(self).spec_in_use() == old(self).spec_in_use()
                && final(self).spec_free() == old(self).spec_free()
                && final(self).spec_next() == old(self).spec_next(),
    {
        match self.free.pop() {
            Some(t) => {
                self.in_use[t] = true;
                Some(t)
            },
            None => {
                if self.next < MAX_CONNS {
                    let t = self.next;
                    self.next = self.next + 1;
                    self.in_use[t] = true;
                    Some(t)
                } else {
                    None
                }
            },
        }
    }

    /// Return an id to the free stack. Returns false when the id is out of
    /// range or not in use (a double release): the pool is left untouched
    /// and the caller may log the bug.
    pub fn release(&mut self, t: usize) -> (ok: bool)
        requires
            old(self).wf(),
        ensures
            final(self).wf(),
            final(self).spec_in_use().len() == old(self).spec_in_use().len(),
            ok <==> (1 <= t < MAX_CONNS && old(self).spec_in_use()[t as int]),
            ok ==> final(self).spec_in_use() == old(self).spec_in_use().update(t as int, false)
                && !final(self).spec_in_use()[t as int]
                && final(self).spec_free() == old(self).spec_free().push(t),
            !ok ==> *final(self) == *old(self),
    {
        if t == 0 || t >= MAX_CONNS {
            return false;
        }
        if !self.in_use[t] {
            return false;
        }
        self.in_use[t] = false;
        self.free.push(t);
        true
    }
}

/// The ids on the free stack and the ids held by clients are disjoint sets,
/// and every id the pool ever hands out lies strictly between 0 and
/// `MAX_CONNS`.
pub proof fn lemma_token_pool_disjoint(p: TokenPool)
    requires
        p.wf(),
    ensures
        p.spec_in_use().len() == MAX_CONNS,
        1 <= p.spec_next() <= MAX_CONNS,
        !p.spec_in_use()[0],
        forall|i: int|
            0 <= i < p.spec_free().len() ==> !p.spec_in_use()[#[trigger] p.spec_free()[i] as int],
        forall|i: int| 0 <= i < p.spec_free().len() ==> 1 <= #[trigger] p.spec_free()[i] < MAX_CONNS,
        forall|t: int| 0 <= t < MAX_CONNS && #[trigger] p.spec_in_use()[t] ==> 1 <= t < MAX_CONNS,
{
}

} // verus!
