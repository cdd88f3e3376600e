//! Fixed-capacity ring buffer of shared snapshots.
//!
//! The write position increases monotonically and never wraps; the slot of
//! position `pos` is `pos % capacity`. Each slot stores the position it was
//! written at beside the snapshot, so that a reader can tell that the slot
//! it wanted still holds the position it asked for.
use vstd::prelude::*;

use std::sync::Arc;

use crate::shared::arc_clone;

verus! {

/// A fixed-capacity ring buffer of `Arc<T>` snapshots, retaining the most
/// recent `capacity` of them.
pub struct SnapshotRing<T> {
    slots: Vec<Option<(u64, Arc<T>)>>,
    write_pos: u64,
    capacity: usize,
    pushed: Ghost<Seq<T>>,
}

impl<T> SnapshotRing<T> {
    /// Every snapshot ever pushed, oldest first; its length is the write
    /// position.
    pub closed spec fn history(&self) -> Seq<T> {
        self.pushed@
    }

    /// The number of slots.
    pub closed spec fn capacity_spec(&self) -> nat {
        self.capacity as nat
    }

    /// Whether the snapshot pushed at `pos` is still held: it was pushed,
    /// and fewer than `capacity` pushes came after it.
    pub open spec fn retains(&self, pos: int) -> bool {
        0 <= pos < self.history().len() && self.history().len() - pos <= self.capacity_spec()
    }

    /// The ring's invariant: at least two slots; the write position counts
    /// the pushes; each retained position sits, tagged, in its slot; slots
    /// not yet reached are empty.
    pub closed spec fn wf(&self) -> bool {
        &&& self.capacity >= 2
        &&& self.slots@.len() == self.capacity
        &&& self.pushed@.len() == self.write_pos
        &&& forall|p: int|
            #![trigger self.slots@[p % (self.capacity as int)]]
            self.retains(p) ==> match self.slots@[p % (self.capacity as int)] {
                Some((tag, arc)) => tag == p && *arc == self.pushed@[p],
                None => false,
            }
        &&& forall|s: int| self.write_pos <= s < self.capacity ==> (#[trigger] self.slots@[s]) is None
    }

    /// Create a new ring buffer with the given capacity.
    pub fn new(capacity: usize) -> (r: Self)
        requires
            capacity >= 2,
        ensures
            r.wf(),
            r.history() == Seq::<T>::empty(),
            r.capacity_spec() == capacity,
    {
        let mut slots: Vec<Option<(u64, Arc<T>)>> = Vec::new();
        let mut i: usize = 0;
        while i < capacity
            invariant
                i <= capacity,
                slots@.len() == i,
                forall|s: int| 0 <= s < i ==> (#[trigger] slots@[s]) is None,
            decreases capacity - i,
        {
            slots.push(None);
            i = i + 1;
        }
        SnapshotRing { slots, write_pos: 0, capacity, pushed: Ghost(Seq::empty()) }
    }

    /// The slot index of a write position.
    fn slot_of(&self, pos: u64) -> (s: usize)
        requires
            self.capacity >= 2,
        ensures
            s == (pos as int) % (self.capacity as int),
            s < self.capacity,
    {
        (pos % (self.capacity as u64)) as usize
    }

    /// Push a new snapshot into the ring. Returns the snapshot it displaced:
    /// the one pushed `capacity` positions earlier, if there was one.
    pub fn push(&mut self, snapshot: T) -> (evicted: Option<Arc<T>>)
        requires
            old(self).wf(),
            old(self).history().len() < u64::MAX,
        ensures
            final(self).wf(),
            final(self).history() == old(self).history().push(snapshot),
            final(self).capacity_spec() == old(self).capacity_spec(),
            match evicted {
                Some(arc) => old(self).history().len() >= old(self).capacity_spec() && *arc
                    == old(self).history()[old(self).history().len() - old(self).capacity_spec()],
                None => old(self).history().len() < old(self).capacity_spec(),
            },
    {
        let pos = self.write_pos;
        let idx = self.slot_of(pos);
        let ghost cap = self.capacity as int;
        let ghost old_slots = self.slots@;
        let ghost old_hist = self.pushed@;
        let ghost snap = snapshot;
        let arc = Arc::new(snapshot);
        let mut slot: Option<(u64, Arc<T>)> = Some((pos, arc));
        std::mem::swap(&mut slot, &mut self.slots[idx]);
        let evicted = match slot {
            Some((_tag, prev)) => Some(prev),
            None => None,
        };
        self.write_pos = pos + 1;
        self.pushed = Ghost(old_hist.push(snap));
        proof {
            let new_hist = self.pushed@;
            if pos >= cap {
                let q = pos - cap;
                vstd::arithmetic::div_mod::lemma_mod_sub_multiples_vanish(pos as int, cap);
                assert(q % cap == idx);
                assert(old_slots[q % cap] is Some);
            } else {
                vstd::arithmetic::div_mod::lemma_small_mod(pos as nat, cap as nat);
                assert(idx == pos);
            }
            assert forall|p: int|
                #![trigger self.slots@[p % cap]]
                self.retains(p) implies match self.slots@[p % cap] {
                Some((tag, arc)) => tag == p && *arc == self.pushed@[p],
                None => false,
            } by {
                if p == pos {
                } else {
                    assert(p < pos);
                    lemma_distinct_slots(p, pos as int, cap);
                    assert(old_hist.len() - p <= cap);
                    assert(old_slots[p % cap] == self.slots@[p % cap]);
                }
            }
        }
        evicted
    }

    /// The most recently pushed snapshot, if any was pushed.
    pub fn latest(&self) -> (r: Option<Arc<T>>)
        requires
            self.wf(),
        ensures
            match r {
                Some(arc) => self.history().len() > 0 && *arc == self.history().last(),
                None => self.history().len() == 0,
            },
    {
        let pos = self.write_pos;
        if pos == 0 {
            return None;
        }
        self.get_by_pos(pos - 1)
    }

    /// The snapshot pushed at write position `pos`, if it is still held.
    pub fn get_by_pos(&self, pos: u64) -> (r: Option<Arc<T>>)
        requires
            self.wf(),
        ensures
            match r {
                Some(arc) => self.retains(pos as int) && *arc == self.history()[pos as int],
                None => !self.retains(pos as int),
            },
    {
        let current = self.write_pos;
        if pos >= current {
            return None;
        }
        if current - pos > self.capacity as u64 {
            return None;
        }
        let idx = self.slot_of(pos);
        assert(self.retains(pos as int));
        match &self.slots[idx] {
            Some((tag, arc)) => {
                if *tag == pos {
                    Some(arc_clone(arc))
                } else {
                    None
                }
            },
            None => None,
        }
    }

    /// Number of snapshots currently held: the pushes so far, up to the
    /// capacity.
    pub fn len(&self) -> (n: usize)
        requires
            self.wf(),
        ensures
            n == if self.history().len() < self.capacity_spec() {
                self.history().len()
            } else {
                self.capacity_spec()
            },
    {
        if self.write_pos < self.capacity as u64 {
            self.write_pos as usize
        } else {
            self.capacity
        }
    }

    /// Whether nothing was pushed yet.
    pub fn is_empty(&self) -> (b: bool)
        requires
            self.wf(),
        ensures
            b == (self.history().len() == 0),
    {
        self.write_pos == 0
    }

    /// The ring buffer capacity.
    pub fn capacity(&self) -> (c: usize)
        ensures
            c == self.capacity_spec(),
    {
        self.capacity
    }

    /// The current monotonic write position: the number of pushes so far.
    pub fn write_pos(&self) -> (p: u64)
        requires
            self.wf(),
        ensures
            p == self.history().len(),
    {
        self.write_pos
    }
}

/// Two positions less than `cap` apart sit in different slots.
proof fn lemma_distinct_slots(p: int, q: int, cap: int)
    requires
        0 <= p < q,
        q - p < cap,
    ensures
        p % cap != q % cap,
{
    vstd::arithmetic::div_mod::lemma_fundamental_div_mod(p, cap);
    vstd::arithmetic::div_mod::lemma_fundamental_div_mod(q, cap);
    let a = p / cap;
    let b = q / cap;
    if p % cap == q % cap {
        assert(q - p == cap * (b - a)) by (nonlinear_arith)
            requires
                p == cap * a + p % cap,
                q == cap * b + q % cap,
                p % cap == q % cap,
        ;
        assert(false) by (nonlinear_arith)
            requires
                q - p == cap * (b - a),
                0 < q - p < cap,
        ;
    }
}

} // verus!
