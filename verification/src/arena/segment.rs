//! Contiguous memory segments with bump allocation, and growable segment lists.
use vstd::prelude::*;

use crate::arena::config::{bytes_of, elements_to_bytes};
use crate::error::ArenaError;

verus! {

/// The result of writing `fill` over positions `[start, end)` of `s`.
pub open spec fn fill_range<T>(s: Seq<T>, start: int, end: int, fill: T) -> Seq<T> {
    Seq::new(s.len(), |i: int| if start <= i < end { fill } else { s[i] })
}

/// `b` is `a` after `len` elements were allocated at `off` of segment `seg`:
/// the range starts at that segment's used count (at 0 in a segment just
/// appended), now holds the fill value and is counted as used; the elements
/// of `seg` below `off` and every other segment of `a` are unchanged.
pub open spec fn fresh_alloc<T: Copy>(a: SegmentList<T>, b: SegmentList<T>, seg: int, off: int, len: int) -> bool {
    &&& 0 <= seg < b.segs().len()
    &&& a.segs().len() <= b.segs().len() <= a.segs().len() + 1
    &&& seg < a.segs().len() ==> off == a.segs()[seg].1
    &&& seg >= a.segs().len() ==> seg == a.segs().len() && off == 0
    &&& b.segs()[seg].1 == off + len
    &&& 0 <= off
    &&& off + len <= b.size()
    &&& b.size() == a.size()
    &&& b.segs()[seg].0.len() == b.size()
    &&& forall|i: int| off <= i < off + len ==> #[trigger] b.segs()[seg].0[i] == a.fill()
    &&& seg < a.segs().len() ==> forall|i: int|
        0 <= i < off ==> #[trigger] b.segs()[seg].0[i] == a.segs()[seg].0[i]
    &&& forall|j: int| 0 <= j < a.segs().len() && j != seg ==> #[trigger] b.segs()[j] == a.segs()[j]
}

/// The allocation state of a pool: the current segment, the elements used
/// in it, and the number of segments.
pub open spec fn pool_state<T: Copy>(p: SegmentList<T>) -> (nat, nat, nat) {
    (p.current_spec(), p.segs()[p.current_spec() as int].1, p.segs().len())
}

/// The allocation state after bump-allocating `len` elements from state
/// `st` in a pool of segments of `size` elements, at most `max` of them:
/// the current segment if it has room, else the next segment (appended if
/// there is none yet); `None` when `len` exceeds a segment or no segment is
/// left.
pub open spec fn alloc_step(st: (nat, nat, nat), len: nat, size: nat, max: nat) -> Option<(nat, nat, nat)> {
    let (c, u, n) = st;
    if len > size {
        None
    } else if u + len <= size {
        Some((c, u + len, n))
    } else if c + 1 < n {
        Some((c + 1, len, n))
    } else if n >= max {
        None
    } else {
        Some((c + 1, len, n + 1))
    }
}

/// Allocating `len` elements in pool `p` fails.
pub open spec fn alloc_fails<T: Copy>(p: SegmentList<T>, len: u32) -> bool {
    alloc_step(pool_state(p), len as nat, p.size(), p.max_count()) is None
}

/// A single contiguous memory segment with bump allocation.
///
/// Each segment is a pre-allocated buffer with a cursor that advances on
/// each allocation. Allocated regions are filled with the segment's fill
/// value (zero) before they are handed out.
pub struct Segment<T> {
    data: Vec<T>,
    cursor: usize,
    zero: T,
}

impl<T: Copy> Segment<T> {
    /// The segment's storage.
    pub closed spec fn contents(&self) -> Seq<T> {
        self.data@
    }

    /// Number of elements allocated so far.
    pub closed spec fn used_spec(&self) -> nat {
        self.cursor as nat
    }

    /// The value freshly allocated elements hold.
    pub closed spec fn fill(&self) -> T {
        self.zero
    }

    /// Total capacity in elements.
    pub open spec fn capacity_spec(&self) -> nat {
        self.contents().len()
    }

    /// The cursor lies within the storage, whose size fits in `u32`.
    pub open spec fn wf(&self) -> bool {
        &&& self.used_spec() <= self.capacity_spec()
        &&& self.capacity_spec() <= u32::MAX
    }

    /// Create a new segment of `capacity` elements, all holding `zero`.
    pub fn new(capacity: u32, zero: T) -> (s: Self)
        ensures
            s.wf(),
            s.contents() == Seq::new(capacity as nat, |i: int| zero),
            s.used_spec() == 0,
            s.fill() == zero,
    {
        let mut data: Vec<T> = Vec::with_capacity(capacity as usize);
        let mut i: u32 = 0;
        while i < capacity
            invariant
                i <= capacity,
                data@ == Seq::new(i as nat, |j: int| zero),
            decreases capacity - i,
        {
            data.push(zero);
            i = i + 1;
            assert(data@ =~= Seq::new(i as nat, |j: int| zero));
        }
        Segment { data, cursor: 0, zero }
    }

    /// Bump-allocate `len` elements, filled with the fill value.
    ///
    /// Returns the offset of the region within this segment, or `None` if
    /// the remaining capacity is too small (the segment is then unchanged).
    pub fn allocate(&mut self, len: u32) -> (r: Option<u32>)
        requires
            old(self).wf(),
        ensures
            final(self).wf(),
            final(self).fill() == old(self).fill(),
            old(self).used_spec() + len <= old(self).capacity_spec() ==> {
                &&& r == Some(old(self).used_spec() as u32)
                &&& final(self).used_spec() == old(self).used_spec() + len
                &&& final(self).contents() == fill_range(
                    old(self).contents(),
                    old(self).used_spec() as int,
                    old(self).used_spec() + len,
                    old(self).fill(),
                )
            },
            old(self).used_spec() + len > old(self).capacity_spec() ==> {
                &&& r is None
                &&& *final(self) == *old(self)
            },
    {
        let len = len as usize;
        if len > self.data.len() - self.cursor {
            return None;
        }
        let start = self.cursor;
        let end = self.cursor + len;
        let ghost before = self.data@;
        let mut i = start;
        while i < end
            invariant
                start <= i <= end,
                end <= self.data.len(),
                self.zero == old(self).zero,
                self.cursor == old(self).cursor,
                start == old(self).cursor,
                before == old(self).data@,
                self.data@.len() == before.len(),
                self.data@ == fill_range(before, start as int, i as int, self.zero),
            decreases end - i,
        {
            let z = self.zero;
            self.data[i] = z;
            i = i + 1;
            assert(self.data@ =~= fill_range(before, start as int, i as int, self.zero));
        }
        self.cursor = end;
        Some(start as u32)
    }

    /// A shared view of `len` elements at `offset`.
    pub fn slice(&self, offset: u32, len: u32) -> (s: &[T])
        requires
            offset + len <= self.capacity_spec(),
        ensures
            s@ == self.contents().subrange(offset as int, offset + len),
    {
        let _n = self.data.len();
        let start = offset as usize;
        let end = start + len as usize;
        &self.data.as_slice()[start..end]
    }

    /// Overwrite the elements at `offset` with `values`; nothing else changes.
    pub fn write(&mut self, offset: u32, values: &[T])
        requires
            offset + values@.len() <= old(self).capacity_spec(),
        ensures
            final(self).contents() == old(self).contents().subrange(0, offset as int) + values@
                + old(self).contents().subrange(
                offset + values@.len(),
                old(self).capacity_spec() as int,
            ),
            final(self).used_spec() == old(self).used_spec(),
            final(self).fill() == old(self).fill(),
    {
        let n = values.len();
        let total = self.data.len();
        let start = offset as usize;
        let mut i: usize = 0;
        while i < n
            invariant
                n == values@.len(),
                start == offset,
                start + n <= self.data@.len(),
                self.data@.len() == total,
                self.data@.len() == old(self).data@.len(),
                self.cursor == old(self).cursor,
                self.zero == old(self).zero,
                i <= n,
                forall|k: int|
                    0 <= k < self.data@.len() ==> #[trigger] self.data@[k] == if start <= k < start
                        + i {
                        values@[k - start]
                    } else {
                        old(self).data@[k]
                    },
            decreases n - i,
        {
            self.data[start + i] = values[i];
            i = i + 1;
        }
        assert(self.data@ =~= old(self).data@.subrange(0, offset as int) + values@
            + old(self).data@.subrange(offset + n, old(self).data@.len() as int));
    }

    /// Reset the bump pointer to zero without deallocating.
    pub fn reset(&mut self)
        requires
            old(self).wf(),
        ensures
            final(self).wf(),
            final(self).used_spec() == 0,
            final(self).contents() == old(self).contents(),
            final(self).fill() == old(self).fill(),
    {
        self.cursor = 0;
    }

    /// Number of elements currently allocated.
    pub fn used(&self) -> (n: usize)
        ensures
            n == self.used_spec(),
    {
        self.cursor
    }

    /// Total capacity in elements.
    pub fn capacity(&self) -> (n: usize)
        ensures
            n == self.capacity_spec(),
    {
        self.data.len()
    }

    /// Remaining free capacity in elements.
    pub fn remaining(&self) -> (n: usize)
        requires
            self.wf(),
        ensures
            n == self.capacity_spec() - self.used_spec(),
    {
        self.data.len() - self.cursor
    }

    /// Memory usage of the backing storage in bytes (saturating).
    pub fn memory_bytes(&self) -> (n: usize)
        ensures
            n == bytes_of::<T>(self.capacity_spec()),
    {
        elements_to_bytes::<T>(self.data.len())
    }
}


/// Sum of the `used` counts of the first `k` segments.
pub open spec fn sum_used<T>(segs: Seq<(Seq<T>, nat)>, k: int) -> nat
    decreases k,
{
    if k <= 0 {
        0
    } else {
        sum_used(segs, k - 1) + segs[k - 1].1
    }
}

proof fn lemma_sum_used_update<T>(segs: Seq<(Seq<T>, nat)>, i: int, v: (Seq<T>, nat), k: int)
    requires
        0 <= i < segs.len(),
        0 <= k <= segs.len(),
    ensures
        sum_used(segs.update(i, v), k) == if i < k {
            sum_used(segs, k) - segs[i].1 + v.1
        } else {
            sum_used(segs, k) as int
        },
    decreases k,
{
    if k > 0 {
        lemma_sum_used_update(segs, i, v, k - 1);
    }
}

proof fn lemma_sum_used_bound<T>(segs: Seq<(Seq<T>, nat)>, k: int, b: nat)
    requires
        0 <= k <= segs.len(),
        forall|j: int| 0 <= j < k ==> #[trigger] segs[j].1 <= b,
    ensures
        sum_used(segs, k) <= k * b,
    decreases k,
{
    if k > 0 {
        lemma_sum_used_bound(segs, k - 1, b);
        assert(sum_used(segs, k) <= (k - 1) * b + b) by (nonlinear_arith)
            requires
                sum_used(segs, k) == sum_used(segs, k - 1) + segs[k - 1].1,
                sum_used(segs, k - 1) <= (k - 1) * b,
                segs[k - 1].1 <= b,
        ;
        assert((k - 1) * b + b == k * b) by (nonlinear_arith);
    }
}

/// Number of bytes `n` elements of type `T` occupy, saturating at `usize::MAX`.
fn u64_elements_to_bytes<T>(n: u64) -> (b: usize)
    ensures
        b == bytes_of::<T>(n as nat),
{
    if n > usize::MAX as u64 {
        if core::mem::size_of::<T>() == 0 {
            0
        } else {
            proof {
                assert(n * vstd::layout::size_of::<T>() >= n) by (nonlinear_arith)
                    requires
                        vstd::layout::size_of::<T>() >= 1,
                ;
            }
            usize::MAX
        }
    } else {
        elements_to_bytes::<T>(n as usize)
    }
}

/// A growable list of [`Segment`]s with overflow-based bump allocation.
///
/// When the current segment is full, allocation moves on to the next
/// segment, appending a new one up to `max_segments`. An allocation is never
/// split across segments.
pub struct SegmentList<T> {
    segments: Vec<Segment<T>>,
    segment_size: u32,
    max_segments: u16,
    current: usize,
    zero: T,
}

impl<T: Copy> SegmentList<T> {
    /// Each segment's storage and used count, in order.
    pub closed spec fn segs(&self) -> Seq<(Seq<T>, nat)> {
        Seq::new(
            self.segments@.len(),
            |j: int| (self.segments@[j].contents(), self.segments@[j].used_spec()),
        )
    }

    /// Index of the segment currently being filled.
    pub closed spec fn current_spec(&self) -> nat {
        self.current as nat
    }

    /// Capacity of each segment, in elements.
    pub closed spec fn size(&self) -> nat {
        self.segment_size as nat
    }

    /// Most segments the list may hold (at least the one it starts with).
    pub closed spec fn max_count(&self) -> nat {
        if self.max_segments == 0 {
            1
        } else {
            self.max_segments as nat
        }
    }

    /// The value freshly allocated elements hold.
    pub closed spec fn fill(&self) -> T {
        self.zero
    }

    /// Elements allocated across all segments.
    pub open spec fn total_used_spec(&self) -> nat {
        sum_used(self.segs(), self.segs().len() as int)
    }

    /// Well-formedness: at least one and at most `max_count` segments, each
    /// of `size` elements; the current segment exists and every segment
    /// after it is empty; all the pool's elements are addressable.
    pub open spec fn wf(&self) -> bool {
        &&& self.inner_wf()
        &&& self.size() <= u32::MAX
        &&& 1 <= self.segs().len() <= self.max_count()
        &&& self.current_spec() < self.segs().len()
        &&& self.max_count() * self.size() <= usize::MAX
        &&& forall|j: int|
            0 <= j < self.segs().len() ==> {
                &&& (#[trigger] self.segs()[j]).0.len() == self.size()
                &&& self.segs()[j].1 <= self.size()
                &&& j > self.current_spec() ==> self.segs()[j].1 == 0
            }
    }

    /// Every segment is well formed and fills with the list's fill value.
    pub closed spec fn inner_wf(&self) -> bool {
        forall|j: int|
            0 <= j < self.segments@.len() ==> {
                &&& (#[trigger] self.segments@[j]).wf()
                &&& self.segments@[j].fill() == self.zero
            }
    }

    /// Create a segment list holding one empty segment of `segment_size`
    /// elements filled with `zero`.
    pub fn new(segment_size: u32, max_segments: u16, zero: T) -> (l: Self)
        requires
            (if max_segments == 0 {
                1
            } else {
                max_segments as int
            }) * segment_size <= usize::MAX,
        ensures
            l.wf(),
            l.segs() == seq![(Seq::new(segment_size as nat, |i: int| zero), 0nat)],
            l.current_spec() == 0,
            l.size() == segment_size,
            l.max_count() == if max_segments == 0 {
                1
            } else {
                max_segments as nat
            },
            l.fill() == zero,
    {
        let mut segments: Vec<Segment<T>> = Vec::new();
        segments.push(Segment::new(segment_size, zero));
        let l = SegmentList { segments, segment_size, max_segments, current: 0, zero };
        assert(l.segs() =~= seq![(Seq::new(segment_size as nat, |i: int| zero), 0nat)]);
        l
    }

    /// Bump-allocate `len` elements, moving on to the next segment (reused
    /// or newly appended) when the current one is full.
    ///
    /// Returns `(segment_index, offset)`; the region is filled with the fill
    /// value. Fails with `CapacityExceeded` when `len` exceeds the segment
    /// size or when all `max_count` segments are in use; the list is then
    /// unchanged.
    pub fn allocate(&mut self, len: u32) -> (r: Result<(u16, u32), ArenaError>)
        requires
            old(self).wf(),
        ensures
            final(self).wf(),
            final(self).size() == old(self).size(),
            final(self).max_count() == old(self).max_count(),
            final(self).fill() == old(self).fill(),
            final(self).segs().len() >= old(self).segs().len(),
            r is Ok ==> r->Ok_0.0 < final(self).segs().len() && r->Ok_0.1 + len <= final(self).size(),
            r is Ok ==> fresh_alloc(*old(self), *final(self), r->Ok_0.0 as int, r->Ok_0.1 as int, len as int),
            r is Err <==> alloc_fails(*old(self), len),
            r is Ok ==> alloc_step(pool_state(*old(self)), len as nat, old(self).size(), old(self).max_count())
                == Some(pool_state(*final(self))),
            r is Err ==> r->Err_0 is CapacityExceeded && *final(self) == *old(self),
            ({
                let o = *old(self);
                let n = *final(self);
                let cur = o.current_spec() as int;
                let (cur_data, cur_used) = o.segs()[cur];
                if len > o.size() {
                    &&& r == Err::<(u16, u32), ArenaError>(
                        ArenaError::CapacityExceeded {
                            requested: bytes_of::<T>(len as nat),
                            capacity: bytes_of::<T>(o.size()),
                        },
                    )
                    &&& n == o
                } else if cur_used + len <= o.size() {
                    &&& r == Ok::<(u16, u32), ArenaError>((cur as u16, cur_used as u32))
                    &&& n.segs() == o.segs().update(
                        cur,
                        (fill_range(cur_data, cur_used as int, cur_used + len, o.fill()), (cur_used + len) as nat),
                    )
                    &&& n.current_spec() == o.current_spec()
                } else if cur + 1 < o.segs().len() {
                    &&& r == Ok::<(u16, u32), ArenaError>(((cur + 1) as u16, 0u32))
                    &&& n.segs() == o.segs().update(
                        cur + 1,
                        (fill_range(o.segs()[cur + 1].0, 0, len as int, o.fill()), len as nat),
                    )
                    &&& n.current_spec() == cur + 1
                } else if o.segs().len() >= o.max_count() {
                    &&& r == Err::<(u16, u32), ArenaError>(
                        ArenaError::CapacityExceeded {
                            requested: bytes_of::<T>(len as nat),
                            capacity: bytes_of::<T>(o.segs().len() * o.size()),
                        },
                    )
                    &&& n == o
                } else {
                    &&& r == Ok::<(u16, u32), ArenaError>((o.segs().len() as u16, 0u32))
                    &&& n.segs() == o.segs().push(
                        (Seq::new(o.size(), |i: int| o.fill()), len as nat),
                    )
                    &&& n.current_spec() == o.segs().len()
                }
            }),
    {
        let ghost o_segs = self.segs();
        if len > self.segment_size {
            return Err(
                ArenaError::CapacityExceeded {
                    requested: elements_to_bytes::<T>(len as usize),
                    capacity: elements_to_bytes::<T>(self.segment_size as usize),
                },
            );
        }
        let cur = self.current;
        assert(o_segs[cur as int].0.len() == self.size());
        if len as usize <= self.segments[cur].remaining() {
            let r = self.segments[cur].allocate(len);
            if let Some(offset) = r {
                proof {
                    assert(self.segs() =~= o_segs.update(
                        cur as int,
                        (fill_range(o_segs[cur as int].0, o_segs[cur as int].1 as int, o_segs[cur as int].1 + len, self.zero), (o_segs[cur as int].1 + len) as nat),
                    ));
                }
                return Ok((cur as u16, offset));
            }
            proof {
                assert(false);
            }
        }
        let next = cur + 1;
        if next < self.segments.len() {
            proof {
                assert(o_segs[next as int].1 == 0);
                assert(o_segs[next as int].0.len() == self.size());
            }
            let r2 = self.segments[next].allocate(len);
            if let Some(offset) = r2 {
                self.current = next;
                proof {
                    assert(self.segs() =~= o_segs.update(
                        next as int,
                        (fill_range(o_segs[next as int].0, 0, len as int, self.zero), len as nat),
                    ));
                }
                return Ok((next as u16, offset));
            }
            proof {
                assert(false);
            }
        }
        if self.segments.len() >= self.max_segments as usize {
            return Err(
                ArenaError::CapacityExceeded {
                    requested: elements_to_bytes::<T>(len as usize),
                    capacity: u64_elements_to_bytes::<T>(
                        self.segments.len() as u64 * self.segment_size as u64,
                    ),
                },
            );
        }
        let mut seg = Segment::new(self.segment_size, self.zero);
        let r3 = seg.allocate(len);
        proof {
            assert(fill_range(Seq::new(self.segment_size as nat, |i: int| self.zero), 0, len as int, self.zero)
                =~= Seq::new(self.segment_size as nat, |i: int| self.zero));
        }
        self.segments.push(seg);
        self.current = self.segments.len() - 1;
        proof {
            assert(self.segs() =~= o_segs.push(
                (Seq::new(self.segment_size as nat, |i: int| self.zero), len as nat),
            ));
        }
        match r3 {
            Some(offset) => Ok((self.current as u16, offset)),
            None => {
                proof {
                    assert(false);
                }
                Ok((0, 0))
            },
        }
    }

    /// A shared view of `len` elements at `offset` of segment `segment_index`.
    pub fn slice(&self, segment_index: u16, offset: u32, len: u32) -> (s: &[T])
        requires
            self.wf(),
            segment_index < self.segs().len(),
            offset + len <= self.size(),
        ensures
            s@ == self.segs()[segment_index as int].0.subrange(offset as int, offset + len),
    {
        assert(self.segs()[segment_index as int].0.len() == self.size());
        self.segments[segment_index as usize].slice(offset, len)
    }

    /// Overwrite the elements at `offset` of segment `segment_index` with
    /// `values`; nothing else changes.
    pub fn write(&mut self, segment_index: u16, offset: u32, values: &[T])
        requires
            old(self).wf(),
            segment_index < old(self).segs().len(),
            offset + values@.len() <= old(self).size(),
        ensures
            final(self).wf(),
            final(self).segs() == old(self).segs().update(
                segment_index as int,
                (
                    old(self).segs()[segment_index as int].0.subrange(0, offset as int) + values@
                        + old(self).segs()[segment_index as int].0.subrange(
                        offset + values@.len(),
                        old(self).size() as int,
                    ),
                    old(self).segs()[segment_index as int].1,
                ),
            ),
            final(self).current_spec() == old(self).current_spec(),
            final(self).size() == old(self).size(),
            final(self).max_count() == old(self).max_count(),
            final(self).fill() == old(self).fill(),
    {
        let ghost o_segs = self.segs();
        let ghost i = segment_index as int;
        assert(o_segs[i].0.len() == self.size());
        self.segments[segment_index as usize].write(offset, values);
        assert(self.segs() =~= o_segs.update(
            i,
            (
                o_segs[i].0.subrange(0, offset as int) + values@ + o_segs[i].0.subrange(
                    offset + values@.len(),
                    self.size() as int,
                ),
                o_segs[i].1,
            ),
        ));
    }

    /// Reset all segments' bump pointers without deallocating; allocation
    /// starts again at the beginning of segment 0.
    pub fn reset(&mut self)
        requires
            old(self).wf(),
        ensures
            final(self).wf(),
            final(self).segs() == Seq::new(old(self).segs().len(), |j: int| (old(self).segs()[j].0, 0nat)),
            final(self).current_spec() == 0,
            final(self).size() == old(self).size(),
            final(self).max_count() == old(self).max_count(),
            final(self).fill() == old(self).fill(),
    {
        let ghost o_segs = self.segs();
        let n = self.segments.len();
        let mut i: usize = 0;
        while i < n
            invariant
                n == self.segments.len(),
                i <= n,
                self.segment_size == old(self).segment_size,
                self.max_segments == old(self).max_segments,
                self.zero == old(self).zero,
                self.current == old(self).current,
                o_segs == old(self).segs(),
                self.inner_wf(),
                self.segs().len() == o_segs.len(),
                forall|j: int| 0 <= j < n ==> (#[trigger] self.segs()[j]).0 == o_segs[j].0,
                forall|j: int| 0 <= j < i ==> (#[trigger] self.segs()[j]).1 == 0,
                forall|j: int| i <= j < n ==> (#[trigger] self.segs()[j]).1 == o_segs[j].1,
            decreases n - i,
        {
            let ghost before = self.segs();
            self.segments[i].reset();
            assert(self.segs() =~= before.update(i as int, (before[i as int].0, 0nat)));
            i = i + 1;
        }
        self.current = 0;
        assert(self.segs() =~= Seq::new(o_segs.len(), |j: int| (o_segs[j].0, 0nat)));
    }

    /// Total number of segments currently allocated.
    pub fn segment_count(&self) -> (n: usize)
        ensures
            n == self.segs().len(),
    {
        self.segments.len()
    }

    /// Total memory usage across all segments in bytes (saturating).
    pub fn memory_bytes(&self) -> (n: usize)
        requires
            self.wf(),
        ensures
            n == bytes_of::<T>(self.segs().len() * self.size()),
    {
        proof {
            assert(self.segs().len() * self.size() <= self.max_count() * self.size()) by (nonlinear_arith)
                requires
                    self.segs().len() <= self.max_count(),
            ;
        }
        u64_elements_to_bytes::<T>(self.segments.len() as u64 * self.segment_size as u64)
    }

    /// Total used elements across all segments.
    pub fn total_used(&self) -> (n: usize)
        requires
            self.wf(),
        ensures
            n == self.total_used_spec(),
    {
        let n = self.segments.len();
        let mut total: usize = 0;
        let mut i: usize = 0;
        while i < n
            invariant
                self.wf(),
                n == self.segs().len(),
                i <= n,
                total == sum_used(self.segs(), i as int),
            decreases n - i,
        {
            proof {
                lemma_sum_used_bound(self.segs(), (i + 1) as int, self.size());
                assert((i + 1) * self.size() <= self.max_count() * self.size()) by (nonlinear_arith)
                    requires
                        i + 1 <= self.max_count(),
                ;
            }
            total = total + self.segments[i].used();
            i = i + 1;
        }
        total
    }
}


impl<T: Copy> Clone for Segment<T> {
    fn clone(&self) -> (s: Self)
        ensures
            s.contents() == self.contents(),
            s.used_spec() == self.used_spec(),
            s.fill() == self.fill(),
    {
        let n = self.data.len();
        let mut data: Vec<T> = Vec::with_capacity(n);
        let mut i: usize = 0;
        while i < n
            invariant
                n == self.data@.len(),
                i <= n,
                data@ == self.data@.subrange(0, i as int),
            decreases n - i,
        {
            data.push(self.data[i]);
            i = i + 1;
            assert(data@ =~= self.data@.subrange(0, i as int));
        }
        assert(data@ =~= self.data@);
        Segment { data, cursor: self.cursor, zero: self.zero }
    }
}

impl<T: Copy> Clone for SegmentList<T> {
    fn clone(&self) -> (l: Self)
        ensures
            l.segs() == self.segs(),
            l.current_spec() == self.current_spec(),
            l.size() == self.size(),
            l.max_count() == self.max_count(),
            l.fill() == self.fill(),
            self.wf() ==> l.wf(),
    {
        let n = self.segments.len();
        let mut segments: Vec<Segment<T>> = Vec::with_capacity(n);
        let mut i: usize = 0;
        while i < n
            invariant
                n == self.segments@.len(),
                i <= n,
                segments@.len() == i,
                forall|j: int|
                    0 <= j < i ==> {
                        &&& (#[trigger] segments@[j]).contents() == self.segments@[j].contents()
                        &&& segments@[j].used_spec() == self.segments@[j].used_spec()
                        &&& segments@[j].fill() == self.segments@[j].fill()
                    },
            decreases n - i,
        {
            segments.push(self.segments[i].clone());
            i = i + 1;
        }
        let l = SegmentList {
            segments,
            segment_size: self.segment_size,
            max_segments: self.max_segments,
            current: self.current,
            zero: self.zero,
        };
        assert(l.segs() =~= self.segs());
        l
    }
}

} // verus!
