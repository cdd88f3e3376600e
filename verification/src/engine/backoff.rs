//! Sliding window of recent force-unpin rejections, for adaptive backoff.
use vstd::prelude::*;

verus! {

/// Number of `true` entries in `s`.
pub open spec fn count_true(s: Seq<bool>) -> nat
    decreases s.len(),
{
    if s.len() == 0 {
        0
    } else {
        count_true(s.drop_last()) + if s.last() {
            1nat
        } else {
            0nat
        }
    }
}

proof fn lemma_count_true_update(s: Seq<bool>, i: int, b: bool)
    requires
        0 <= i < s.len(),
    ensures
        count_true(s.update(i, b)) == count_true(s) - (if s[i] {
            1int
        } else {
            0int
        }) + (if b {
            1int
        } else {
            0int
        }),
        count_true(s) <= s.len(),
    decreases s.len(),
{
    if s.len() > 0 {
        if i < s.len() - 1 {
            assert(s.update(i, b).drop_last() =~= s.drop_last().update(i, b));
            lemma_count_true_update(s.drop_last(), i, b);
        } else {
            assert(s.update(i, b).drop_last() =~= s.drop_last());
            lemma_count_true_le(s.drop_last());
        }
    }
}

proof fn lemma_count_true_le(s: Seq<bool>)
    ensures
        count_true(s) <= s.len(),
    decreases s.len(),
{
    if s.len() > 0 {
        lemma_count_true_le(s.drop_last());
    }
}

proof fn lemma_count_false(n: nat)
    ensures
        count_true(Seq::new(n, |i: int| false)) == 0,
    decreases n,
{
    if n > 0 {
        assert(Seq::new(n, |i: int| false).drop_last() =~= Seq::new((n - 1) as nat, |i: int| false));
        lemma_count_false((n - 1) as nat);
    }
}

/// Ring buffer of booleans (`true` = a rejection occurred on that tick),
/// with the number of rejections it currently holds.
pub struct RejectionWindow {
    window: Vec<bool>,
    pos: usize,
    count: usize,
}

impl RejectionWindow {
    /// The recorded entries, by slot.
    pub closed spec fn entries(&self) -> Seq<bool> {
        self.window@
    }

    /// The slot the next entry goes to.
    pub closed spec fn next_slot(&self) -> nat {
        self.pos as nat
    }

    /// The slot cursor lies in the window and `count` counts its `true` entries.
    pub closed spec fn wf(&self) -> bool {
        &&& self.window@.len() > 0
        &&& self.pos < self.window@.len()
        &&& self.count == count_true(self.window@)
    }

    /// Create a window of `size` slots, all `false`.
    pub fn new(size: usize) -> (w: Self)
        requires
            size > 0,
        ensures
            w.wf(),
            w.entries() == Seq::new(size as nat, |i: int| false),
            w.next_slot() == 0,
    {
        let mut window: Vec<bool> = Vec::new();
        let mut i: usize = 0;
        while i < size
            invariant
                i <= size,
                window@ == Seq::new(i as nat, |k: int| false),
            decreases size - i,
        {
            window.push(false);
            i = i + 1;
            assert(window@ =~= Seq::new(i as nat, |k: int| false));
        }
        proof {
            lemma_count_false(size as nat);
        }
        RejectionWindow { window, pos: 0, count: 0 }
    }

    /// Record one tick: overwrite the oldest slot and advance cyclically.
    pub fn push(&mut self, rejected: bool)
        requires
            old(self).wf(),
        ensures
            final(self).wf(),
            final(self).entries() == old(self).entries().update(
                old(self).next_slot() as int,
                rejected,
            ),
            final(self).next_slot() == (old(self).next_slot() + 1) % old(self).entries().len(),
    {
        let n = self.window.len();
        proof {
            lemma_count_true_update(self.window@, self.pos as int, rejected);
            lemma_count_true_update(self.window@, self.pos as int, false);
            lemma_count_true_le(self.window@.update(self.pos as int, rejected));
        }
        let prev = self.window[self.pos];
        if prev {
            self.count = self.count - 1;
        }
        self.window.set(self.pos, rejected);
        if rejected {
            self.count = self.count + 1;
        }
        self.pos = (self.pos + 1) % n;
    }

    /// Number of rejections in the window.
    pub fn count(&self) -> (n: usize)
        requires
            self.wf(),
        ensures
            n == count_true(self.entries()),
    {
        self.count
    }

    /// Number of slots in the window.
    pub fn len(&self) -> (n: usize)
        ensures
            n == self.entries().len(),
    {
        self.window.len()
    }
}

/// The entries of a window of `n` slots, fresh (all `false`, next slot 0),
/// after `pushes` were pushed into it in order.
pub open spec fn window_after(n: nat, pushes: Seq<bool>) -> Seq<bool>
    decreases pushes.len(),
{
    if pushes.len() == 0 {
        Seq::new(n, |i: int| false)
    } else {
        window_after(n, pushes.drop_last()).update((pushes.len() - 1) % (n as int), pushes.last())
    }
}

/// A fresh window is `window_after` of no pushes, and one more push updates
/// the slot `RejectionWindow::push` writes: a window made by `new(n)` and
/// pushed `pushes` holds `window_after(n, pushes)`, with next slot
/// `pushes.len() % n`.
pub proof fn lemma_window_after_push(n: nat, pushes: Seq<bool>, b: bool)
    requires
        n > 0,
    ensures
        window_after(n, Seq::empty()) == Seq::new(n, |i: int| false),
        window_after(n, pushes.push(b)) == window_after(n, pushes).update(
            pushes.len() as int % (n as int),
            b,
        ),
{
    assert(pushes.push(b).drop_last() =~= pushes);
}

/// The latest of the first `m` pushes that went to slot `j`, if any.
pub open spec fn latest_at(n: nat, m: int, j: int) -> Option<int>
    decreases m,
{
    if m <= 0 {
        None
    } else if (m - 1) % (n as int) == j {
        Some(m - 1)
    } else {
        latest_at(n, m - 1, j)
    }
}

/// Each slot holds the latest push that went to it, or `false`.
proof fn lemma_window_slot(n: nat, pushes: Seq<bool>, j: int)
    requires
        n > 0,
        0 <= j < n,
    ensures
        window_after(n, pushes).len() == n,
        window_after(n, pushes)[j] == match latest_at(n, pushes.len() as int, j) {
            Some(k) => pushes[k],
            None => false,
        },
    decreases pushes.len(),
{
    if pushes.len() > 0 {
        let m = pushes.len() as int;
        lemma_window_slot(n, pushes.drop_last(), j);
        vstd::arithmetic::div_mod::lemma_mod_pos_bound(m - 1, n as int);
        if (m - 1) % (n as int) != j {
            lemma_latest_prefix(n, pushes, m - 1, j);
        }
    }
}

/// `latest_at` over a prefix reads the same pushes.
proof fn lemma_latest_prefix(n: nat, pushes: Seq<bool>, m: int, j: int)
    requires
        0 <= m < pushes.len(),
    ensures
        match latest_at(n, m, j) {
            Some(k) => 0 <= k < m && pushes.drop_last()[k] == pushes[k],
            None => true,
        },
    decreases m,
{
    if m > 0 && (m - 1) % (n as int) != j {
        lemma_latest_prefix(n, pushes, m - 1, j);
    }
}

/// The slot the `m`-th push goes to last held push `m - n`, or nothing when
/// fewer than `n` pushes came before.
proof fn lemma_latest_before(n: nat, m: int, t: int)
    requires
        n > 0,
        0 <= m,
        m - n < t <= m,
        0 <= t,
    ensures
        latest_at(n, t, m % (n as int)) == if m >= n {
            Some(m - n)
        } else {
            None::<int>
        },
    decreases t,
{
    let nn = n as int;
    if t > 0 {
        let k = t - 1;
        if m >= n && k == m - nn {
            assert((-nn + m) % nn == m % nn) by {
                vstd::arithmetic::div_mod::lemma_mod_sub_multiples_vanish(m, nn);
            }
        } else {
            assert(k % nn != m % nn) by {
                vstd::arithmetic::div_mod::lemma_mod_equivalence(m, k, nn);
                vstd::arithmetic::div_mod::lemma_small_mod((m - k) as nat, n);
            }
            lemma_latest_before(n, m, t - 1);
        }
    }
}

/// `true` entries of `s`, counted from the front.
proof fn lemma_count_true_front(s: Seq<bool>)
    requires
        s.len() > 0,
    ensures
        count_true(s) == count_true(s.drop_first()) + if s[0] {
            1nat
        } else {
            0nat
        },
    decreases s.len(),
{
    if s.len() > 1 {
        lemma_count_true_front(s.drop_last());
        assert(s.drop_last().drop_first() =~= s.drop_first().drop_last());
        assert(s.drop_first().last() == s.last());
        assert(count_true(s.drop_first()) == count_true(s.drop_first().drop_last()) + if s.last() {
            1nat
        } else {
            0nat
        });
        assert(s.drop_last()[0] == s[0]);
    } else {
        assert(s.drop_first().len() == 0);
        assert(s.drop_last().len() == 0);
        assert(count_true(s.drop_first()) == 0);
        assert(count_true(s.drop_last()) == 0);
        assert(s.last() == s[0]);
    }
}

/// A window of `n` slots holds as many rejections as the last `n` pushes
/// (all of them, when fewer were pushed).
pub proof fn lemma_window_counts_recent(n: nat, pushes: Seq<bool>)
    requires
        n > 0,
    ensures
        count_true(window_after(n, pushes)) == count_true(
            pushes.subrange(
                if pushes.len() >= n {
                    pushes.len() - n
                } else {
                    0
                },
                pushes.len() as int,
            ),
        ),
    decreases pushes.len(),
{
    let m = pushes.len() as int;
    let nn = n as int;
    if m == 0 {
        lemma_count_false(n);
        assert(pushes.subrange(0, 0).len() == 0);
    } else {
        let p = pushes.drop_last();
        let w = window_after(n, p);
        let slot = (m - 1) % nn;
        lemma_window_counts_recent(n, p);
        vstd::arithmetic::div_mod::lemma_mod_pos_bound(m - 1, nn);
        lemma_window_slot(n, p, slot);
        lemma_latest_before(n, m - 1, m - 1);
        lemma_count_true_update(w, slot, pushes.last());
        let lo = if m >= nn {
            m - nn
        } else {
            0
        };
        let lo1 = if m - 1 >= nn {
            m - 1 - nn
        } else {
            0
        };
        assert(pushes.subrange(lo, m).drop_last() =~= pushes.subrange(lo, m - 1));
        assert(p.subrange(lo1, m - 1) =~= pushes.subrange(lo1, m - 1));
        if m - 1 >= nn {
            lemma_count_true_front(pushes.subrange(lo1, m - 1));
            assert(pushes.subrange(lo1, m - 1).drop_first() =~= pushes.subrange(lo, m - 1));
            assert(p[m - 1 - nn] == pushes[m - 1 - nn]);
        }
    }
}

/// Over a run of pushes: if `windows[0]` is a fresh window of `n` slots
/// (what `RejectionWindow::new(n)` ensures) and each next window is the one
/// before after pushing `pushes[k]` (what `RejectionWindow::push` ensures),
/// the last window holds `window_after(n, pushes)`, its next slot is the
/// number of pushes modulo `n`, and its count of rejections is that of the
/// last `min(pushes.len(), n)` pushes.
pub proof fn lemma_pushes_fill_window(n: nat, windows: Seq<RejectionWindow>, pushes: Seq<bool>)
    requires
        n > 0,
        windows.len() == pushes.len() + 1,
        windows[0].entries() == Seq::new(n, |i: int| false),
        windows[0].next_slot() == 0,
        forall|k: int|
            0 <= k < pushes.len() ==> #[trigger] windows[k + 1].entries() == windows[k].entries().update(
                windows[k].next_slot() as int,
                pushes[k],
            ) && windows[k + 1].next_slot() == (windows[k].next_slot() + 1) % windows[k].entries().len(),
    ensures
        windows.last().entries() == window_after(n, pushes),
        windows.last().next_slot() == pushes.len() % n,
        count_true(windows.last().entries()) == count_true(
            pushes.subrange(
                if pushes.len() >= n {
                    pushes.len() - n
                } else {
                    0
                },
                pushes.len() as int,
            ),
        ),
    decreases pushes.len(),
{
    let m = pushes.len() as int;
    if m == 0 {
        assert(window_after(n, pushes) == Seq::new(n, |i: int| false));
    } else {
        let p = pushes.drop_last();
        let ws = windows.drop_last();
        assert forall|k: int| 0 <= k < p.len() implies #[trigger] ws[k + 1].entries() == ws[k].entries().update(
            ws[k].next_slot() as int,
            p[k],
        ) && ws[k + 1].next_slot() == (ws[k].next_slot() + 1) % ws[k].entries().len() by {
            assert(windows[k + 1] == ws[k + 1]);
        }
        lemma_pushes_fill_window(n, ws, p);
        let k = m - 1;
        assert(windows[k + 1].entries() == windows[k].entries().update(
            windows[k].next_slot() as int,
            pushes[k],
        ));
        lemma_window_slot(n, p, 0);
        assert(ws.last() == windows[k]);
        assert(windows[k].entries().len() == n);
        assert(((m - 1) % (n as int) + 1) % (n as int) == m % (n as int)) by {
            vstd::arithmetic::div_mod::lemma_add_mod_noop(m - 1, 1, n as int);
            vstd::arithmetic::div_mod::lemma_mod_twice(m - 1, n as int);
            if n > 1 {
                vstd::arithmetic::div_mod::lemma_small_mod(1, n);
            } else {
                vstd::arithmetic::div_mod::lemma_mod_self_0(1);
                vstd::arithmetic::div_mod::lemma_mod_pos_bound(m - 1, 1);
                vstd::arithmetic::div_mod::lemma_mod_pos_bound(m, 1);
            }
        }
        assert(pushes.drop_last() == p);
    }
    lemma_window_counts_recent(n, pushes);
}

} // verus!
