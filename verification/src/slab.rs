//! Dense table of optional connection records, indexed directly by token.
use vstd::prelude::*;

use crate::conn::Conn;

verus! {

/// A fixed-size vector of slots; slot `t` holds the record of the
/// connection whose token is `t`, if one is live.
pub struct Slab {
    slots: Vec<Option<Conn>>,
}

impl View for Slab {
    type V = Seq<Option<Conn>>;

    closed spec fn view(&self) -> Seq<Option<Conn>> {
        self.slots@
    }
}

impl Slab {
    /// A slab of `cap` empty slots.
    pub fn new(cap: usize) -> (s: Slab)
        ensures
            s@.len() == cap,
            forall|t: int| 0 <= t < cap ==> s@[t] is None,
    {
        let mut slots: Vec<Option<Conn>> = Vec::new();
        let mut i: usize = 0;
        while i < cap
            invariant
                i <= cap,
                slots@.len() == i,
                forall|t: int| 0 <= t < i ==> slots@[t] is None,
            decreases cap - i,
        {
            slots.push(None);
            i = i + 1;
        }
        Slab { slots }
    }

    /// Number of slots.
    pub fn len(&self) -> (n: usize)
        ensures
            n == self@.len(),
    {
        self.slots.len()
    }

    /// Put a record into an empty slot. Writing over a live connection
    /// would leak its resources, so the contract forbids it.
    pub fn insert(&mut self, tok: usize, conn: Conn)
        requires
            tok < old(self)@.len(),
            old(self)@[tok as int] is None,
        ensures
            final(self)@ == old(self)@.update(tok as int, Some(conn)),
    {
        self.slots[tok] = Some(conn);
    }

    /// Borrow the record at `tok`, if the slot is occupied.
    pub fn get(&self, tok: usize) -> (r: Option<&Conn>)
        requires
            tok < self@.len(),
        ensures
            match r {
                Some(c) => self@[tok as int] == Some(*c),
                None => self@[tok as int] is None,
            },
    {
        self.slots[tok].as_ref()
    }

    /// Mutably borrow the record in an occupied slot.
    pub fn get_mut(&mut self, tok: usize) -> (c: &mut Conn)
        requires
            tok < old(self)@.len(),
            old(self)@[tok as int] is Some,
        ensures
            *c == old(self)@[tok as int].unwrap(),
            final(self)@ == old(self)@.update(tok as int, Some(*final(c))),
    {
        match &mut self.slots[tok] {
            Some(c) => c,
            None => vstd::pervasive::unreached(),
        }
    }

    /// Empty the slot at `tok`, handing back its record if one was there.
    pub fn remove(&mut self, tok: usize) -> (r: Option<Conn>)
        requires
            tok < old(self)@.len(),
        ensures
            r == old(self)@[tok as int],
            final(self)@ == old(self)@.update(tok as int, None),
    {
        self.slots[tok].take()
    }

    /// The tokens of all occupied slots, ascending: a full sweep, meant for
    /// diagnostics and reaping fallbacks, not for the hot path.
    pub fn tokens(&self) -> (v: Vec<usize>)
        ensures
            forall|i: int| 0 <= i < v@.len() ==> self@[#[trigger] v@[i] as int] is Some,
            forall|t: int| 0 <= t < self@.len() && self@[t] is Some ==> v@.contains(t as usize),
            forall|i: int, j: int| #![trigger v@[i], v@[j]] 0 <= i < j < v@.len() ==> v@[i] < v@[j],
    {
        let mut v: Vec<usize> = Vec::new();
        let mut t: usize = 0;
        while t < self.slots.len()
            invariant
                t <= self@.len(),
                forall|i: int| 0 <= i < v@.len() ==> #[trigger] v@[i] < t,
                forall|i: int| 0 <= i < v@.len() ==> self@[#[trigger] v@[i] as int] is Some,
                forall|u: int| 0 <= u < t && self@[u] is Some ==> v@.contains(u as usize),
                forall|i: int, j: int| #![trigger v@[i], v@[j]] 0 <= i < j < v@.len() ==> v@[i] < v@[j],
            decreases self@.len() - t,
        {
            if self.slots[t].is_some() {
                let ghost v0 = v@;
                v.push(t);
                proof {
                    assert forall|u: int| 0 <= u <= t && self@[u] is Some implies v@.contains(
                        u as usize,
                    ) by {
                        if u < t {
                            let i = choose|i: int| 0 <= i < v0.len() && v0[i] == u as usize;
                            assert(v@[i] == u as usize);
                        } else {
                            assert(v@[v0.len() as int] == t as usize);
                        }
                    }
                }
            }
            t = t + 1;
        }
        v
    }
}

/// The slab index laws: after a record is put into a slot, looking the slot
/// up finds exactly that record; after a slot is emptied, looking it up
/// finds nothing. `insert`, `get` and `remove` are all specified over the
/// same view, so these equalities are what their contracts compose to.
pub proof fn lemma_slab_index_laws(s: Seq<Option<Conn>>, tok: int, c: Conn)
    requires
        0 <= tok < s.len(),
    ensures
        s.update(tok, Some(c))[tok] == Some(c),
        s.update(tok, None)[tok] is None,
        forall|u: int| 0 <= u < s.len() && u != tok ==> s.update(tok, Some(c))[u] == s[u],
        forall|u: int| 0 <= u < s.len() && u != tok ==> s.update(tok, None)[u] == s[u],
{
}

} // verus!
