//! Per-tick scratch space for temporary propagator allocations.
use vstd::prelude::*;

use crate::arena::config::{bytes_of, elements_to_bytes};
use crate::arena::segment::fill_range;

verus! {

/// The capacity a scratch region grows to when `needed` elements do not fit
/// in its current `capacity`: twice the largest of the current capacity,
/// 1024 and `needed`, or exactly `needed` where doubling overflows.
pub open spec fn grown_capacity(capacity: nat, needed: nat) -> nat {
    let base = if capacity >= 1024 && capacity >= needed {
        capacity
    } else if 1024 >= needed {
        1024
    } else {
        needed
    };
    if base * 2 <= usize::MAX {
        base * 2
    } else {
        needed
    }
}

/// Bump-allocated scratch space for temporary per-propagator data.
///
/// The region is reset between propagator executions; allocations do not
/// persist across propagators or ticks. The backing storage grows on demand
/// and never shrinks.
pub struct ScratchRegion<T> {
    data: Vec<T>,
    cursor: usize,
    zero: T,
}

impl<T> ScratchRegion<T> {
    /// The cursor lies within the storage.
    #[verifier::type_invariant]
    closed spec fn inv(&self) -> bool {
        self.cursor <= self.data@.len()
    }
}

impl<T: Copy> ScratchRegion<T> {
    /// The backing storage.
    pub closed spec fn contents(&self) -> Seq<T> {
        self.data@
    }

    /// Number of elements allocated so far.
    pub closed spec fn used_spec(&self) -> nat {
        self.cursor as nat
    }

    /// The value freshly allocated elements hold.
    pub closed spec fn fill(&self) -> T {
        self.zero
    }

    /// Create a scratch region of `initial_capacity` elements holding `zero`.
    pub fn new(initial_capacity: usize, zero: T) -> (s: Self)
        ensures
            s.contents() == Seq::new(initial_capacity as nat, |i: int| zero),
            s.used_spec() == 0,
            s.fill() == zero,
    {
        let mut data: Vec<T> = Vec::new();
        Self::grow(&mut data, initial_capacity, zero);
        assert(data@ =~= Seq::new(initial_capacity as nat, |i: int| zero));
        ScratchRegion { data, cursor: 0, zero }
    }

    /// Extend `data` with copies of `zero` up to `len` elements.
    fn grow(data: &mut Vec<T>, len: usize, zero: T)
        requires
            old(data)@.len() <= len,
        ensures
            final(data)@ == old(data)@ + Seq::new((len - old(data)@.len()) as nat, |i: int| zero),
    {
        let ghost start = data@;
        while data.len() < len
            invariant
                start == old(data)@,
                start.len() <= data@.len() <= len,
                data@ == start + Seq::new((data@.len() - start.len()) as nat, |i: int| zero),
            decreases len - data@.len(),
        {
            data.push(zero);
            assert(data@ =~= start + Seq::new((data@.len() - start.len()) as nat, |i: int| zero));
        }
    }

    /// Allocate `len` elements, growing the storage when they do not fit.
    ///
    /// Returns the offset of the region, whose elements hold the fill value;
    /// `None` only when the new cursor would overflow `usize`.
    pub fn allocate(&mut self, len: usize) -> (r: Option<usize>)
        requires
        ensures
            final(self).fill() == old(self).fill(),
            old(self).used_spec() + len > usize::MAX ==> r is None && *final(self) == *old(self),
            old(self).used_spec() + len <= usize::MAX ==> {
                let cap = if old(self).used_spec() + len <= old(self).contents().len() {
                    old(self).contents().len()
                } else {
                    grown_capacity(old(self).contents().len(), (old(self).used_spec() + len) as nat)
                };
                let grown = old(self).contents() + Seq::new(
                    (cap - old(self).contents().len()) as nat,
                    |i: int| old(self).fill(),
                );
                &&& r == Some(old(self).used_spec() as usize)
                &&& final(self).used_spec() == old(self).used_spec() + len
                &&& final(self).contents() == fill_range(
                    grown,
                    old(self).used_spec() as int,
                    old(self).used_spec() + len,
                    old(self).fill(),
                )
            },
    {
        proof {
            use_type_invariant(&*self);
        }
        let new_cursor = match self.cursor.checked_add(len) {
            Some(c) => c,
            None => return None,
        };
        let start = self.cursor;
        self.cursor = 0;
        let mut data: Vec<T> = Vec::new();
        std::mem::swap(&mut data, &mut self.data);
        if new_cursor > data.len() {
            let cap = data.len();
            let base = if cap >= 1024 && cap >= new_cursor {
                cap
            } else if 1024 >= new_cursor {
                1024
            } else {
                new_cursor
            };
            let new_cap = match base.checked_mul(2) {
                Some(c) => c,
                None => new_cursor,
            };
            Self::grow(&mut data, new_cap, self.zero);
        }
        let ghost before = data@;
        let mut i = start;
        while i < new_cursor
            invariant
                start <= i <= new_cursor,
                new_cursor <= data@.len(),
                self.zero == old(self).zero,
                start == old(self).cursor,
                data@.len() == before.len(),
                data@ == fill_range(before, start as int, i as int, self.zero),
            decreases new_cursor - i,
        {
            let z = self.zero;
            data[i] = z;
            i = i + 1;
            assert(data@ =~= fill_range(before, start as int, i as int, self.zero));
        }
        self.data = data;
        self.cursor = new_cursor;
        Some(start)
    }

    /// A shared view of `len` elements at `offset`.
    pub fn slice(&self, offset: usize, len: usize) -> (s: &[T])
        requires
            offset + len <= self.contents().len(),
        ensures
            s@ == self.contents().subrange(offset as int, offset + len),
    {
        let _n = self.data.len();
        &self.data.as_slice()[offset..offset + len]
    }

    /// Overwrite the elements at `offset` with `values`; nothing else changes.
    pub fn write(&mut self, offset: usize, values: &[T])
        requires
            offset + values@.len() <= old(self).contents().len(),
        ensures
            final(self).contents() == old(self).contents().subrange(0, offset as int) + values@
                + old(self).contents().subrange(
                offset + values@.len(),
                old(self).contents().len() as int,
            ),
            final(self).used_spec() == old(self).used_spec(),
            final(self).fill() == old(self).fill(),
    {
        proof {
            use_type_invariant(&*self);
        }
        let n = values.len();
        let cursor = self.cursor;
        self.cursor = 0;
        let mut data: Vec<T> = Vec::new();
        std::mem::swap(&mut data, &mut self.data);
        let total = data.len();
        let mut i: usize = 0;
        while i < n
            invariant
                n == values@.len(),
                offset + n <= data@.len(),
                data@.len() == total,
                total == old(self).data@.len(),
                i <= n,
                forall|k: int|
                    0 <= k < data@.len() ==> #[trigger] data@[k] == if offset <= k < offset + i {
                        values@[k - offset]
                    } else {
                        old(self).data@[k]
                    },
            decreases n - i,
        {
            data[offset + i] = values[i];
            i = i + 1;
        }
        assert(data@ =~= old(self).data@.subrange(0, offset as int) + values@
            + old(self).data@.subrange(offset + n, old(self).data@.len() as int));
        self.data = data;
        self.cursor = cursor;
    }

    /// Reset the region for the next propagator; the storage is kept.
    pub fn reset(&mut self)
        requires
        ensures
            final(self).used_spec() == 0,
            final(self).contents() == old(self).contents(),
            final(self).fill() == old(self).fill(),
    {
        self.cursor = 0;
    }

    /// Number of elements currently allocated.
    pub fn used(&self) -> (n: usize)
        ensures
            n == self.used_spec(),
            n <= self.contents().len(),
    {
        proof {
            use_type_invariant(self);
        }
        self.cursor
    }

    /// Total capacity of the backing storage in elements.
    pub fn capacity(&self) -> (n: usize)
        ensures
            n == self.contents().len(),
    {
        self.data.len()
    }

    /// Memory usage of the backing storage in bytes (saturating).
    pub fn memory_bytes(&self) -> (n: usize)
        ensures
            n == bytes_of::<T>(self.contents().len()),
    {
        elements_to_bytes::<T>(self.data.len())
    }
}

} // verus!
