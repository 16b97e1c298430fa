//! Hashed timer wheel for idle timeouts: 64 slots of one second each.
//!
//! `add` files an entry `timeout_slots` ticks ahead of the cursor; `advance`
//! rotates the cursor by the number of whole seconds elapsed (at most a full
//! turn per call) and drains every slot it passes. Entries are never removed
//! when a connection is touched or closed; instead each carries the
//! generation it was scheduled with, and the reactor discards entries whose
//! generation no longer matches the live connection.
use vstd::prelude::*;

verus! {

/// Number of wheel slots; the cursor and every slot index live in
/// `0 .. WHEEL_SIZE`.
pub const WHEEL_SIZE: usize = 64;

/// One scheduled timeout: the token it is for and the generation the
/// connection had when it was scheduled.
#[derive(Clone, Copy, PartialEq, Eq, Structural)]
pub struct TimerEntry {
    pub token: usize,
    pub generation: u64,
}

/// Slot `j` is among those drained by `k` ticks from cursor `c0`.
pub open spec fn drained_slot(c0: int, k: int, j: int) -> bool {
    exists|i: int|
        #![trigger (c0 + i) % (WHEEL_SIZE as int)]
        1 <= i <= k && j == (c0 + i) % (WHEEL_SIZE as int)
}

/// The entries produced by `k` ticks from cursor `c0`, in the order the
/// passed slots are drained.
pub open spec fn drained_up_to(slots: Seq<Seq<TimerEntry>>, c0: int, k: int) -> Seq<TimerEntry>
    decreases k,
{
    if k <= 0 {
        Seq::empty()
    } else {
        drained_up_to(slots, c0, k - 1) + slots[(c0 + k) % (WHEEL_SIZE as int)]
    }
}

pub struct TimerWheel {
    slots: Vec<Vec<TimerEntry>>,
    cursor: usize,
    last_tick: u64,
    timeout_slots: usize,
}

impl TimerWheel {
    /// The wheel has exactly `WHEEL_SIZE` slots, the cursor points at one
    /// of them, and the timeout spans at least one and less than a full
    /// turn of ticks.
    pub closed spec fn wf(self) -> bool {
        &&& self.slots@.len() == WHEEL_SIZE
        &&& self.cursor < WHEEL_SIZE
        &&& 1 <= self.timeout_slots < WHEEL_SIZE
    }

    /// The contents of each slot.
    pub closed spec fn spec_slots(self) -> Seq<Seq<TimerEntry>> {
        Seq::new(self.slots@.len(), |i: int| self.slots@[i]@)
    }

    /// The slot the cursor points at.
    pub closed spec fn spec_cursor(self) -> usize {
        self.cursor
    }

    /// The time (milliseconds) up to which ticks have been accounted for.
    pub closed spec fn spec_last_tick(self) -> u64 {
        self.last_tick
    }

    /// How many ticks ahead of the cursor a new entry is filed.
    pub closed spec fn spec_timeout_slots(self) -> usize {
        self.timeout_slots
    }

    /// How many ticks an `advance` at time `now` performs: the whole
    /// seconds elapsed since `last_tick`, capped at a full turn.
    pub open spec fn spec_ticks(self, now: u64) -> int {
        let t = (now - self.spec_last_tick()) / 1000;
        if t > WHEEL_SIZE {
            WHEEL_SIZE as int
        } else {
            t as int
        }
    }

    /// A wheel started at time `now` whose entries come due `timeout_ms`
    /// later, rounded up to whole seconds (so the real delay is within one
    /// second above the nominal timeout).
    pub fn new(timeout_ms: u64, now: u64) -> (w: TimerWheel)
        ensures
            w.wf(),
            w.spec_cursor() == 0,
            w.spec_last_tick() == now,
            w.spec_timeout_slots() == if timeout_ms / 1000 + 1 < (WHEEL_SIZE - 1) as u64 {
                (timeout_ms / 1000 + 1) as int
            } else {
                (WHEEL_SIZE - 1) as int
            },
            forall|j: int| 0 <= j < WHEEL_SIZE ==> #[trigger] w.spec_slots()[j].len() == 0,
    {
        let mut slots: Vec<Vec<TimerEntry>> = Vec::new();
        let mut i: usize = 0;
        while i < WHEEL_SIZE
            invariant
                i <= WHEEL_SIZE,
                slots@.len() == i,
                forall|j: int| 0 <= j < i ==> (#[trigger] slots@[j])@.len() == 0,
            decreases WHEEL_SIZE - i,
        {
            slots.push(Vec::new());
            i = i + 1;
        }
        let secs = timeout_ms / 1000;
        let timeout_slots: usize = if secs + 1 < (WHEEL_SIZE - 1) as u64 {
            (secs + 1) as usize
        } else {
            WHEEL_SIZE - 1
        };
        let w = TimerWheel { slots, cursor: 0, last_tick: now, timeout_slots };
        proof {
            assert forall|j: int| 0 <= j < WHEEL_SIZE implies #[trigger] w.spec_slots()[j].len()
                == 0 by {
                assert(w.spec_slots()[j] == w.slots@[j]@);
            }
        }
        w
    }

    /// File a timeout entry `timeout_slots` ticks ahead of the cursor. The
    /// entry for a live connection always carries its current generation.
    pub fn add(&mut self, token: usize, generation: u64)
        requires
            old(self).wf(),
        ensures
            final(self).wf(),
            final(self).spec_cursor() == old(self).spec_cursor(),
            final(self).spec_last_tick() == old(self).spec_last_tick(),
            final(self).spec_timeout_slots() == old(self).spec_timeout_slots(),
            final(self).spec_slots() == old(self).spec_slots().update(
                (old(self).spec_cursor() + old(self).spec_timeout_slots()) % (WHEEL_SIZE as int),
                old(self).spec_slots()[(old(self).spec_cursor() + old(self).spec_timeout_slots()) % (
                WHEEL_SIZE as int)].push(TimerEntry { token, generation }),
            ),
    {
        let si = (self.cursor + self.timeout_slots) % WHEEL_SIZE;
        let slot = &mut self.slots[si];
        slot.push(TimerEntry { token, generation });
        proof {
            assert(final(self).spec_slots() =~= old(self).spec_slots().update(
                si as int,
                old(self).spec_slots()[si as int].push(TimerEntry { token, generation }),
            ));
        }
    }

    /// Rotate the cursor by the whole seconds elapsed since the last tick
    /// (at most a full turn) and append the contents of every passed slot
    /// to `out`, in draining order, leaving those slots empty.
    pub fn advance(&mut self, now: u64, out: &mut Vec<TimerEntry>)
        requires
            old(self).wf(),
            old(self).spec_last_tick() <= now,
        ensures
            final(self).wf(),
            final(self).spec_timeout_slots() == old(self).spec_timeout_slots(),
            final(self).spec_cursor() == (old(self).spec_cursor() + old(self).spec_ticks(now)) % (
            WHEEL_SIZE as int),
            final(self).spec_last_tick() == old(self).spec_last_tick() + 1000 * old(
                self,
            ).spec_ticks(now),
            final(self).spec_last_tick() <= now,
            final(out)@ == old(out)@ + drained_up_to(
                old(self).spec_slots(),
                old(self).spec_cursor() as int,
                old(self).spec_ticks(now),
            ),
            forall|j: int|
                0 <= j < WHEEL_SIZE && drained_slot(
                    old(self).spec_cursor() as int,
                    old(self).spec_ticks(now),
                    j,
                ) ==> #[trigger] final(self).spec_slots()[j].len() == 0,
            forall|j: int|
                0 <= j < WHEEL_SIZE && !drained_slot(
                    old(self).spec_cursor() as int,
                    old(self).spec_ticks(now),
                    j,
                ) ==> #[trigger] final(self).spec_slots()[j] == old(self).spec_slots()[j],
    {
        let ghost slots0 = old(self).spec_slots();
        let ghost c0 = old(self).spec_cursor() as int;
        let elapsed = now - self.last_tick;
        let whole = elapsed / 1000;
        let ticks: usize = if whole > WHEEL_SIZE as u64 {
            WHEEL_SIZE
        } else {
            whole as usize
        };
        proof {
            assert(ticks as int == old(self).spec_ticks(now));
            assert((ticks as u64) * 1000 <= elapsed) by {
                assert(whole * 1000 <= elapsed) by {
                    vstd::arithmetic::div_mod::lemma_fundamental_div_mod(
                        elapsed as int,
                        1000int,
                    );
                };
                if whole > WHEEL_SIZE as u64 {
                    assert((ticks as u64) * 1000 <= whole * 1000);
                }
            };
        }
        let mut i: usize = 0;
        while i < ticks
            invariant
                i <= ticks,
                ticks <= WHEEL_SIZE,
                self.slots@.len() == WHEEL_SIZE,
                self.timeout_slots == old(self).spec_timeout_slots(),
                self.last_tick == old(self).spec_last_tick(),
                0 <= c0 < WHEEL_SIZE,
                self.cursor == (c0 + i) % (WHEEL_SIZE as int),
                out@ == old(out)@ + drained_up_to(slots0, c0, i as int),
                forall|j: int|
                    0 <= j < WHEEL_SIZE && drained_slot(c0, i as int, j)
                        ==> #[trigger] self.spec_slots()[j].len() == 0,
                forall|j: int|
                    0 <= j < WHEEL_SIZE && !drained_slot(c0, i as int, j)
                        ==> #[trigger] self.spec_slots()[j] == slots0[j],
            decreases ticks - i,
        {
            let ghost pre_slots = self.spec_slots();
            self.cursor = (self.cursor + 1) % WHEEL_SIZE;
            proof {
                assert(self.spec_slots() =~= pre_slots);
                vstd::arithmetic::div_mod::lemma_mod_bound(c0 + i + 1, WHEEL_SIZE as int);
                assert(self.cursor == (c0 + i + 1) % (WHEEL_SIZE as int)) by {
                    lemma_mod_step(c0 + i, WHEEL_SIZE as int);
                };
                assert(!drained_slot(c0, i as int, self.cursor as int)) by {
                    if drained_slot(c0, i as int, self.cursor as int) {
                        let ii = choose|ii: int|
                            #![trigger (c0 + ii) % (WHEEL_SIZE as int)]
                            1 <= ii <= i && self.cursor as int == (c0 + ii) % (WHEEL_SIZE as int);
                        lemma_mod_injective(c0, ii, i + 1);
                    }
                };
                assert(self.spec_slots()[self.cursor as int] == slots0[self.cursor as int]);
            }
            let ghost slots_before = self.spec_slots();
            let cur = self.cursor;
            let slot = &mut self.slots[cur];
            out.append(slot);
            proof {
                assert(self.spec_slots() =~= slots_before.update(cur as int, Seq::empty()));
                assert(out@ == old(out)@ + drained_up_to(slots0, c0, i + 1)) by {
                    assert(drained_up_to(slots0, c0, i + 1) == drained_up_to(slots0, c0, i as int)
                        + slots0[(c0 + i + 1) % (WHEEL_SIZE as int)]);
                    assert(out@ =~= old(out)@ + (drained_up_to(slots0, c0, i as int) + slots0[(c0
                        + i + 1) % (WHEEL_SIZE as int)]));
                };
                assert forall|j: int|
                    0 <= j < WHEEL_SIZE && drained_slot(c0, i + 1, j) implies #[trigger] self.spec_slots()[j].len()
                    == 0 by {
                    if j != cur as int {
                        let ii = choose|ii: int|
                            #![trigger (c0 + ii) % (WHEEL_SIZE as int)]
                            1 <= ii <= i + 1 && j == (c0 + ii) % (WHEEL_SIZE as int);
                        assert(ii != i + 1);
                        assert(drained_slot(c0, i as int, j));
                        assert(pre_slots[j].len() == 0);
                        assert(slots_before[j] == pre_slots[j]);
                        assert(self.spec_slots()[j] == slots_before[j]);
                    }
                };
                assert forall|j: int|
                    0 <= j < WHEEL_SIZE && !drained_slot(c0, i + 1, j) implies #[trigger] self.spec_slots()[j]
                    == slots0[j] by {
                    assert(!drained_slot(c0, i as int, j)) by {
                        if drained_slot(c0, i as int, j) {
                            let ii = choose|ii: int|
                                #![trigger (c0 + ii) % (WHEEL_SIZE as int)]
                                1 <= ii <= i && j == (c0 + ii) % (WHEEL_SIZE as int);
                            assert(1 <= ii <= i + 1);
                        }
                    };
                    assert(j != cur as int) by {
                        assert(drained_slot(c0, i + 1, cur as int));
                    };
                    assert(pre_slots[j] == slots0[j]);
                };
            }
            i = i + 1;
        }
        let ghost end_slots = self.spec_slots();
        self.last_tick = self.last_tick + (ticks as u64) * 1000;
        proof {
            assert(self.spec_slots() =~= end_slots);
        }
    }
}

/// Stepping a cursor below the wheel size by one and reducing modulo the
/// wheel size agrees with adding one before the reduction.
proof fn lemma_mod_step(x: int, m: int)
    requires
        2 <= m,
        0 <= x,
    ensures
        (x % m + 1) % m == (x + 1) % m,
{
    vstd::arithmetic::div_mod::lemma_add_mod_noop(x, 1, m);
    vstd::arithmetic::div_mod::lemma_small_mod(1nat, m as nat);
}

/// Within one turn of the wheel, distinct tick counts land on distinct
/// slots: the reduction modulo the wheel size is injective on `1 ..= 64`.
proof fn lemma_mod_injective(c0: int, a: int, b: int)
    requires
        0 <= c0 < WHEEL_SIZE,
        1 <= a <= WHEEL_SIZE,
        1 <= b <= WHEEL_SIZE,
        a != b,
    ensures
        (c0 + a) % (WHEEL_SIZE as int) != (c0 + b) % (WHEEL_SIZE as int),
{
    let m = WHEEL_SIZE as int;
    vstd::arithmetic::div_mod::lemma_fundamental_div_mod(c0 + a, m);
    vstd::arithmetic::div_mod::lemma_fundamental_div_mod(c0 + b, m);
    vstd::arithmetic::div_mod::lemma_mod_bound(c0 + a, m);
    vstd::arithmetic::div_mod::lemma_mod_bound(c0 + b, m);
}

/// An entry is among those drained by `k` ticks exactly when one of the
/// passed slots holds it.
proof fn lemma_drained_membership(slots: Seq<Seq<TimerEntry>>, c0: int, k: int, e: TimerEntry)
    requires
        slots.len() == WHEEL_SIZE,
        0 <= c0 < WHEEL_SIZE,
        0 <= k <= WHEEL_SIZE,
    ensures
        drained_up_to(slots, c0, k).contains(e) <==> exists|i: int|
            #![trigger (c0 + i) % (WHEEL_SIZE as int)]
            1 <= i <= k && slots[(c0 + i) % (WHEEL_SIZE as int)].contains(e),
    decreases k,
{
    let m = WHEEL_SIZE as int;
    if k == 0 {
        assert(!drained_up_to(slots, c0, 0).contains(e));
        assert(!(exists|i: int|
            #![trigger (c0 + i) % m]
            1 <= i <= 0 && slots[(c0 + i) % m].contains(e)));
    } else {
        lemma_drained_membership(slots, c0, k - 1, e);
        vstd::arithmetic::div_mod::lemma_mod_bound(c0 + k, m);
        let prev = drained_up_to(slots, c0, k - 1);
        let last = slots[(c0 + k) % m];
        assert(drained_up_to(slots, c0, k) == prev + last);
        if (prev + last).contains(e) {
            let idx = choose|idx: int| 0 <= idx < (prev + last).len() && (prev + last)[idx] == e;
            if idx < prev.len() {
                assert(prev[idx] == e);
                assert(prev.contains(e));
                let i = choose|i: int|
                    #![trigger (c0 + i) % m]
                    1 <= i <= k - 1 && slots[(c0 + i) % m].contains(e);
                assert(1 <= i <= k && slots[(c0 + i) % m].contains(e));
            } else {
                assert(last[idx - prev.len()] == e);
                assert(last.contains(e));
                assert(1 <= k <= k && slots[(c0 + k) % m].contains(e));
            }
        }
        if exists|i: int|
            #![trigger (c0 + i) % m]
            1 <= i <= k && slots[(c0 + i) % m].contains(e) {
            let i = choose|i: int|
                #![trigger (c0 + i) % m]
                1 <= i <= k && slots[(c0 + i) % m].contains(e);
            if i <= k - 1 {
                assert(prev.contains(e));
                let idx = choose|idx: int| 0 <= idx < prev.len() && prev[idx] == e;
                assert((prev + last)[idx] == e);
                assert((prev + last).contains(e));
            } else {
                assert(i == k);
                let idx = choose|idx: int| 0 <= idx < last.len() && last[idx] == e;
                assert((prev + last)[prev.len() + idx] == e);
                assert((prev + last).contains(e));
            }
        }
    }
}

/// Timeout correctness at the wheel level. `add` files an entry
/// `timeout_slots` ticks ahead of the cursor; a later `advance` performs
/// `k` ticks, the whole seconds elapsed (capped at a full turn). Provided
/// the entry sits only in the slot `add` chose — true of a fresh
/// (token, generation) pair, since `touch` bumps the generation — the
/// entry pops exactly when at least `timeout_slots` seconds have elapsed:
/// never while the connection has been active more recently, and exactly
/// once when it has been idle for the full timeout (which the one-second
/// slot granularity stretches by up to one second).
pub proof fn lemma_wheel_entry_due(
    slots: Seq<Seq<TimerEntry>>,
    c0: int,
    ts: int,
    k: int,
    e: TimerEntry,
)
    requires
        slots.len() == WHEEL_SIZE,
        0 <= c0 < WHEEL_SIZE,
        1 <= ts < WHEEL_SIZE,
        0 <= k <= WHEEL_SIZE,
        slots[(c0 + ts) % (WHEEL_SIZE as int)].contains(e),
        forall|j: int|
            0 <= j < WHEEL_SIZE && j != (c0 + ts) % (WHEEL_SIZE as int) ==> !(
            #[trigger] slots[j]).contains(e),
    ensures
        drained_up_to(slots, c0, k).contains(e) <==> k >= ts,
{
    let m = WHEEL_SIZE as int;
    lemma_drained_membership(slots, c0, k, e);
    vstd::arithmetic::div_mod::lemma_mod_bound(c0 + ts, m);
    if k >= ts {
        assert(1 <= ts <= k && slots[(c0 + ts) % m].contains(e));
    }
    if drained_up_to(slots, c0, k).contains(e) {
        let i = choose|i: int|
            #![trigger (c0 + i) % m]
            1 <= i <= k && slots[(c0 + i) % m].contains(e);
        vstd::arithmetic::div_mod::lemma_mod_bound(c0 + i, m);
        if i != ts {
            lemma_mod_injective(c0, i, ts);
            assert(!slots[(c0 + i) % m].contains(e));
        }
        assert(i == ts);
    }
}

/// A well-formed wheel has exactly `WHEEL_SIZE` slots, its cursor on one
/// of them, and a timeout of at least one and less than a full turn of
/// ticks.
pub proof fn lemma_wheel_shape(w: TimerWheel)
    requires
        w.wf(),
    ensures
        w.spec_slots().len() == WHEEL_SIZE,
        w.spec_cursor() < WHEEL_SIZE,
        1 <= w.spec_timeout_slots() < WHEEL_SIZE,
{
}

/// Timeout correctness in clock terms: an entry filed by `add` at a moment
/// when the wheel's tick time was `last_tick` pops out of an `advance` at
/// time `now` exactly when at least `ts` whole seconds have passed — for
/// the reactor's wheel, `ts` is the idle timeout in seconds plus one, so a
/// connection whose matching entry pops has truly been idle at least the
/// timeout, and an entry for a connection touched more recently than the
/// timeout (minus the one-second slot tolerance) never pops.
pub proof fn lemma_entry_pops_iff_idle(
    slots: Seq<Seq<TimerEntry>>,
    c0: int,
    ts: int,
    e: TimerEntry,
    last_tick: u64,
    now: u64,
)
    requires
        slots.len() == WHEEL_SIZE,
        0 <= c0 < WHEEL_SIZE,
        1 <= ts < WHEEL_SIZE,
        last_tick <= now,
        slots[(c0 + ts) % (WHEEL_SIZE as int)].contains(e),
        forall|j: int|
            0 <= j < WHEEL_SIZE && j != (c0 + ts) % (WHEEL_SIZE as int) ==> !(
            #[trigger] slots[j]).contains(e),
    ensures
        ({
            let k = if (now - last_tick) / 1000 > WHEEL_SIZE as u64 {
                WHEEL_SIZE as int
            } else {
                ((now - last_tick) / 1000) as int
            };
            drained_up_to(slots, c0, k).contains(e) <==> (now - last_tick) / 1000 >= ts
        }),
{
    let k = if (now - last_tick) / 1000 > WHEEL_SIZE as u64 {
        WHEEL_SIZE as int
    } else {
        ((now - last_tick) / 1000) as int
    };
    lemma_wheel_entry_due(slots, c0, ts, k, e);
}

} // verus!
