//! Per-worker request counters and the stats-delta arithmetic.
//!
//! Each worker owns one slot and only ever adds one to it; the pusher reads
//! all slots and sums them. The model below carries the exact (unbounded)
//! history of each slot alongside the 64-bit machine value, so wrap-around
//! is accounted for: every machine count is the exact count reduced modulo
//! 2^64, and the per-tick delta computed with wrapping subtraction equals
//! the exact growth as long as fewer than 2^64 requests complete per tick.
use vstd::prelude::*;

verus! {

/// One worker's counter slot.
pub struct Slot {
    pub count: u64,
}

/// Exact number of events ever counted across all slots.
pub open spec fn sum_hist(s: Seq<nat>) -> nat
    decreases s.len(),
{
    if s.len() == 0 {
        0
    } else {
        sum_hist(s.drop_last()) + s.last()
    }
}

/// The per-worker request counters: one slot per worker, plus the exact
/// count each slot stands for.
pub struct RpsCounter {
    slots: Vec<Slot>,
    hist: Ghost<Seq<nat>>,
}

impl RpsCounter {
    /// Each machine count is its exact count reduced modulo 2^64.
    pub closed spec fn wf(self) -> bool {
        &&& self.slots@.len() == self.hist@.len()
        &&& forall|i: int|
            0 <= i < self.slots@.len() ==> (#[trigger] self.slots@[i]).count == self.hist@[i]
                % 0x1_0000_0000_0000_0000
    }

    /// The exact (unbounded) count of each slot.
    pub closed spec fn spec_hist(self) -> Seq<nat> {
        self.hist@
    }

    /// The machine value of each slot.
    pub closed spec fn spec_counts(self) -> Seq<u64> {
        Seq::new(self.slots@.len(), |i: int| self.slots@[i].count)
    }

    /// Exact number of events ever counted across all slots.
    pub open spec fn spec_total(self) -> nat {
        sum_hist(self.spec_hist())
    }

    /// One zeroed slot per worker.
    pub fn new(num_workers: usize) -> (c: RpsCounter)
        ensures
            c.wf(),
            c.spec_hist() == Seq::new(num_workers as nat, |i: int| 0nat),
            c.spec_hist().len() == num_workers,
    {
        let mut slots: Vec<Slot> = Vec::new();
        let mut i: usize = 0;
        while i < num_workers
            invariant
                i <= num_workers,
                slots@.len() == i,
                forall|j: int| 0 <= j < i ==> (#[trigger] slots@[j]).count == 0,
            decreases num_workers - i,
        {
            slots.push(Slot { count: 0 });
            i = i + 1;
        }
        let c = RpsCounter { slots, hist: Ghost(Seq::new(num_workers as nat, |i: int| 0nat)) };
        proof {
            assert forall|i: int| 0 <= i < c.slots@.len() implies (#[trigger] c.slots@[i]).count
                == c.hist@[i] % 0x1_0000_0000_0000_0000 by {
                assert(c.hist@[i] == 0nat);
            }
        }
        c
    }

    /// Number of worker slots.
    pub fn num_slots(&self) -> (n: usize)
        requires
            self.wf(),
        ensures
            n == self.spec_hist().len(),
    {
        self.slots.len()
    }

    /// Count one completed request on this worker's own slot: the exact
    /// count rises by exactly one, other slots are untouched, and the exact
    /// total rises by exactly one.
    pub fn increment(&mut self, worker: usize)
        requires
            old(self).wf(),
            worker < old(self).spec_hist().len(),
        ensures
            final(self).wf(),
            final(self).spec_hist() == old(self).spec_hist().update(
                worker as int,
                old(self).spec_hist()[worker as int] + 1,
            ),
            final(self).spec_total() == old(self).spec_total() + 1,
    {
        let c = self.slots[worker].count;
        self.slots[worker] = Slot { count: c.wrapping_add(1) };
        proof {
            self.hist@ = self.hist@.update(worker as int, self.hist@[worker as int] + 1);
            lemma_mod_succ(old(self).spec_hist()[worker as int]);
            lemma_sum_update_incr(old(self).spec_hist(), worker as int);
        }
    }

    /// Sum all slots, wrapping: the result is the exact total reduced
    /// modulo 2^64.
    pub fn total(&self) -> (t: u64)
        requires
            self.wf(),
        ensures
            t == self.spec_total() % 0x1_0000_0000_0000_0000,
    {
        let mut acc: u64 = 0;
        let mut i: usize = 0;
        while i < self.slots.len()
            invariant
                self.wf(),
                i <= self.slots@.len(),
                acc == sum_hist(self.spec_hist().take(i as int)) % 0x1_0000_0000_0000_0000,
            decreases self.slots@.len() - i,
        {
            let ghost partial = sum_hist(self.spec_hist().take(i as int));
            acc = acc.wrapping_add(self.slots[i].count);
            proof {
                assert(self.spec_hist().take(i + 1).drop_last() =~= self.spec_hist().take(i as int));
                assert(self.spec_hist().take(i + 1).last() == self.spec_hist()[i as int]);
                lemma_mod_add_pair(partial, self.spec_hist()[i as int]);
            }
            i = i + 1;
        }
        proof {
            assert(self.spec_hist().take(self.spec_hist().len() as int) =~= self.spec_hist());
        }
        acc
    }
}

/// The per-tick rate: how much the total grew since the previous
/// observation, computed with wrapping subtraction so that it stays right
/// across a 2^64 wrap of the machine counter.
pub fn stats_delta(total: u64, prev: u64) -> (d: u64)
    ensures
        d == vstd::wrapping::u64_specs::wrapping_sub(total, prev),
{
    total.wrapping_sub(prev)
}

/// Adding one and reducing modulo 2^64 agrees with wrapping addition of
/// one to the reduced value.
proof fn lemma_mod_succ(h: nat)
    ensures
        (h + 1) % 0x1_0000_0000_0000_0000 == vstd::wrapping::u64_specs::wrapping_add(
            (h % 0x1_0000_0000_0000_0000) as u64,
            1u64,
        ),
{
    let m = 0x1_0000_0000_0000_0000int;
    vstd::arithmetic::div_mod::lemma_mod_bound(h as int, m);
    vstd::arithmetic::div_mod::lemma_add_mod_noop(h as int, 1, m);
    vstd::arithmetic::div_mod::lemma_small_mod(1nat, m as nat);
    vstd::arithmetic::div_mod::lemma_mod_twice(h as int, m);
    let r = h % 0x1_0000_0000_0000_0000;
    if r + 1 < m {
        vstd::arithmetic::div_mod::lemma_small_mod((r + 1) as nat, m as nat);
    } else {
        vstd::arithmetic::div_mod::lemma_mod_self_0(m);
    }
}

/// Reducing two addends modulo 2^64 and adding with wrap agrees with
/// adding exactly and then reducing.
proof fn lemma_mod_add_pair(a: nat, b: nat)
    ensures
        (a + b) % 0x1_0000_0000_0000_0000 == vstd::wrapping::u64_specs::wrapping_add(
            (a % 0x1_0000_0000_0000_0000) as u64,
            (b % 0x1_0000_0000_0000_0000) as u64,
        ),
{
    let m = 0x1_0000_0000_0000_0000int;
    vstd::arithmetic::div_mod::lemma_mod_bound(a as int, m);
    vstd::arithmetic::div_mod::lemma_mod_bound(b as int, m);
    vstd::arithmetic::div_mod::lemma_add_mod_noop(a as int, b as int, m);
    let ra = a % 0x1_0000_0000_0000_0000;
    let rb = b % 0x1_0000_0000_0000_0000;
    if ra + rb < m {
        vstd::arithmetic::div_mod::lemma_small_mod((ra + rb) as nat, m as nat);
    } else {
        vstd::arithmetic::div_mod::lemma_mod_sub_multiples_vanish((ra + rb) as int, m);
        vstd::arithmetic::div_mod::lemma_small_mod((ra + rb - m) as nat, m as nat);
    }
}

/// Raising one slot by one raises the sum by one.
proof fn lemma_sum_update_incr(s: Seq<nat>, i: int)
    requires
        0 <= i < s.len(),
    ensures
        sum_hist(s.update(i, (s[i] + 1) as nat)) == sum_hist(s) + 1,
    decreases s.len(),
{
    let s2 = s.update(i, (s[i] + 1) as nat);
    if i == s.len() - 1 {
        assert(s2.drop_last() =~= s.drop_last());
        assert(s2.last() == s.last() + 1);
    } else {
        lemma_sum_update_incr(s.drop_last(), i);
        assert(s2.drop_last() =~= s.drop_last().update(i, (s[i] + 1) as nat));
        assert(s2.last() == s.last());
    }
}

/// One increment leaves every slot at least as large as before: each
/// per-worker count is monotonically non-decreasing.
pub proof fn lemma_slot_monotonic(h: Seq<nat>, w: int)
    requires
        0 <= w < h.len(),
    ensures
        forall|i: int| 0 <= i < h.len() ==> h[i] <= #[trigger] h.update(w, (h[w] + 1) as nat)[i],
{
}

/// Slot counts never go down, so the exact total never goes down: if every
/// slot of `h2` is at least the matching slot of `h1`, the total of `h2`
/// is at least the total of `h1`.
pub proof fn lemma_total_monotonic(h1: Seq<nat>, h2: Seq<nat>)
    requires
        h1.len() == h2.len(),
        forall|i: int| 0 <= i < h1.len() ==> h1[i] <= h2[i],
    ensures
        sum_hist(h1) <= sum_hist(h2),
    decreases h1.len(),
{
    if h1.len() > 0 {
        lemma_total_monotonic(h1.drop_last(), h2.drop_last());
    }
}

/// The wrapping delta is exact across wrap-around: for two exact totals
/// `t1 <= t2` whose growth is below 2^64, subtracting the machine values
/// with wrap gives exactly the growth, even when the machine counter
/// wrapped between the two observations.
pub proof fn lemma_wrapping_delta(t1: nat, t2: nat)
    requires
        t1 <= t2,
        t2 - t1 < 0x1_0000_0000_0000_0000,
    ensures
        vstd::wrapping::u64_specs::wrapping_sub(
            (t2 % 0x1_0000_0000_0000_0000) as u64,
            (t1 % 0x1_0000_0000_0000_0000) as u64,
        ) == t2 - t1,
{
    let m = 0x1_0000_0000_0000_0000int;
    let r1 = t1 % 0x1_0000_0000_0000_0000;
    let r2 = t2 % 0x1_0000_0000_0000_0000;
    vstd::arithmetic::div_mod::lemma_mod_bound(t1 as int, m);
    vstd::arithmetic::div_mod::lemma_mod_bound(t2 as int, m);
    vstd::arithmetic::div_mod::lemma_sub_mod_noop(t2 as int, t1 as int, m);
    vstd::arithmetic::div_mod::lemma_mod_twice(t2 as int, m);
    vstd::arithmetic::div_mod::lemma_mod_twice(t1 as int, m);
    assert((r2 - r1) % m == (t2 - t1) % m);
    vstd::arithmetic::div_mod::lemma_small_mod((t2 - t1) as nat, m as nat);
    if r2 >= r1 {
        vstd::arithmetic::div_mod::lemma_small_mod((r2 - r1) as nat, m as nat);
    } else {
        vstd::arithmetic::div_mod::lemma_mod_add_multiples_vanish((r2 - r1) as int, m);
        vstd::arithmetic::div_mod::lemma_small_mod((r2 - r1 + m) as nat, m as nat);
    }
}

} // verus!
