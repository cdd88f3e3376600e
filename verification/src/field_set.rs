//! [`FieldSet`]: a set of field IDs held as a dynamically-sized bitset.
use vstd::prelude::*;

use crate::id::FieldId;

verus! {

/// Whether bit `b` of word `w` is set.
pub open spec fn word_has(w: u64, b: u64) -> bool {
    ((w >> b) & 1u64) == 1u64
}

/// Word `j` of a bitset, or 0 past its end.
pub open spec fn word_at(bits: Seq<u64>, j: int) -> u64 {
    if 0 <= j < bits.len() {
        bits[j]
    } else {
        0u64
    }
}

/// Whether position `f` is set in a bitset of 64-bit words.
pub open spec fn bits_contain(bits: Seq<u64>, f: int) -> bool {
    0 <= f && f / 64 < bits.len() && word_has(bits[f / 64], (f % 64) as u64)
}

/// The field ids held by a bitset of 64-bit words.
pub open spec fn bits_set(bits: Seq<u64>) -> Set<u32> {
    Set::new(|f: u32| bits_contain(bits, f as int))
}

/// Number of set positions below `n`.
pub open spec fn count_below(bits: Seq<u64>, n: int) -> nat
    decreases n,
{
    if n <= 0 {
        0
    } else {
        count_below(bits, n - 1) + if bits_contain(bits, n - 1) {
            1nat
        } else {
            0nat
        }
    }
}

/// Most words a field set holds: enough for every `u32` field id.
pub const MAX_WORDS: usize = 0x400_0000;

proof fn lemma_or(a: u64, b: u64, k: u64)
    by (bit_vector)
    requires
        k < 64,
    ensures
        word_has(a | b, k) == (word_has(a, k) || word_has(b, k)),
{
}

proof fn lemma_and(a: u64, b: u64, k: u64)
    by (bit_vector)
    requires
        k < 64,
    ensures
        word_has(a & b, k) == (word_has(a, k) && word_has(b, k)),
{
}

proof fn lemma_and_not(a: u64, b: u64, k: u64)
    by (bit_vector)
    requires
        k < 64,
    ensures
        word_has(a & !b, k) == (word_has(a, k) && !word_has(b, k)),
{
}

pub(crate) proof fn lemma_zero(k: u64)
    by (bit_vector)
    ensures
        !word_has(0u64, k),
{
}

pub(crate) proof fn lemma_set_bit(w: u64, b: u64, k: u64)
    by (bit_vector)
    requires
        b < 64,
        k < 64,
    ensures
        word_has(w | (1u64 << b), k) == (word_has(w, k) || k == b),
{
}

pub(crate) proof fn lemma_test_bit(w: u64, b: u64)
    by (bit_vector)
    requires
        b < 64,
    ensures
        ((w & (1u64 << b)) != 0u64) == word_has(w, b),
{
}

proof fn lemma_shift_step(a: u64, b: u64, n: u64)
    by (bit_vector)
    requires
        n < 64,
        (a >> ((n + 1) as u64)) == (b >> ((n + 1) as u64)),
        ((a >> n) & 1u64) == ((b >> n) & 1u64),
    ensures
        (a >> n) == (b >> n),
{
}

proof fn lemma_shift_all(a: u64, b: u64)
    by (bit_vector)
    ensures
        (a >> 64u64) == (b >> 64u64),
        (a >> 0u64) == a,
{
}

/// Two words with the same bits are equal.
proof fn lemma_word_ext(a: u64, b: u64)
    requires
        forall|k: u64| k < 64 ==> word_has(a, k) == word_has(b, k),
    ensures
        a == b,
{
    lemma_word_ext_from(a, b, 0);
    lemma_shift_all(a, b);
    lemma_shift_all(b, a);
}

proof fn lemma_word_ext_from(a: u64, b: u64, n: u64)
    requires
        n <= 64,
        forall|k: u64| k < 64 ==> word_has(a, k) == word_has(b, k),
    ensures
        (a >> n) == (b >> n),
    decreases 64 - n,
{
    if n == 64 {
        lemma_shift_all(a, b);
    } else {
        lemma_word_ext_from(a, b, (n + 1) as u64);
        assert(word_has(a, n) == word_has(b, n));
        lemma_bit_value(a, n);
        lemma_bit_value(b, n);
        lemma_shift_step(a, b, n);
    }
}

proof fn lemma_bit_value(a: u64, n: u64)
    by (bit_vector)
    ensures
        ((a >> n) & 1u64) == 0u64 || ((a >> n) & 1u64) == 1u64,
{
}

/// A word whose bits are all clear is zero.
proof fn lemma_word_zero(a: u64)
    requires
        forall|k: u64| k < 64 ==> !word_has(a, k),
    ensures
        a == 0,
{
    assert forall|k: u64| k < 64 implies word_has(a, k) == word_has(0u64, k) by {
        lemma_zero(k);
    }
    lemma_word_ext(a, 0u64);
}

/// Positions of a bitset split into word and bit.
proof fn lemma_pos(f: int)
    requires
        0 <= f,
    ensures
        f == (f / 64) * 64 + f % 64,
        0 <= f % 64 < 64,
        0 <= f / 64,
{
}

/// The members below `n` form a finite set with `count_below(n)` elements.
proof fn lemma_count_below(bits: Seq<u64>, n: int)
    requires
        0 <= n <= 0x1_0000_0000,
    ensures
        Set::new(|f: u32| f < n && bits_contain(bits, f as int)).finite(),
        Set::new(|f: u32| f < n && bits_contain(bits, f as int)).len() == count_below(bits, n),
    decreases n,
{
    let s = Set::new(|f: u32| f < n && bits_contain(bits, f as int));
    if n == 0 {
        assert(s =~= Set::empty());
    } else {
        lemma_count_below(bits, n - 1);
        let p = Set::new(|f: u32| f < n - 1 && bits_contain(bits, f as int));
        let last = (n - 1) as u32;
        if bits_contain(bits, n - 1) {
            assert(s =~= p.insert(last));
        } else {
            assert(s =~= p);
        }
    }
}

/// A set of field IDs implemented as a dynamically-sized bitset.
///
/// Used by propagators to declare which fields they read and write.
#[derive(Debug)]
pub struct FieldSet {
    bits: Vec<u64>,
}

impl View for FieldSet {
    type V = Set<u32>;

    /// The ids of the fields in the set.
    closed spec fn view(&self) -> Set<u32> {
        bits_set(self.bits@)
    }
}

impl FieldSet {
    #[verifier::type_invariant]
    closed spec fn wf(self) -> bool {
        &&& self.bits.len() <= MAX_WORDS
        &&& 64 * self.bits.len() <= usize::MAX
    }

    /// Every field set is finite.
    pub proof fn lemma_finite(&self)
        ensures
            self@.finite(),
    {
        lemma_count_below(self.bits@, 0x1_0000_0000);
        assert(self@ =~= Set::new(
            |f: u32| f < 0x1_0000_0000 && bits_contain(self.bits@, f as int),
        ));
    }

    proof fn lemma_view_below(&self)
        requires
            self.bits.len() <= MAX_WORDS,
        ensures
            self@ == Set::new(
                |f: u32| f < 64 * self.bits.len() && bits_contain(self.bits@, f as int),
            ),
            self@.finite(),
            self@.len() == count_below(self.bits@, 64 * self.bits.len()),
    {
        let n = 64 * self.bits.len();
        assert(self@ =~= Set::new(|f: u32| f < n && bits_contain(self.bits@, f as int)));
        lemma_count_below(self.bits@, n);
    }

    /// Create an empty field set.
    pub fn empty() -> (s: Self)
        ensures
            s@ == Set::<u32>::empty(),
    {
        let s = FieldSet { bits: Vec::new() };
        assert(s@ =~= Set::<u32>::empty());
        s
    }

    /// Insert a field ID into the set.
    pub fn insert(&mut self, field: FieldId)
        requires
            64 * (field.0 / 64 + 1) <= usize::MAX,
        ensures
            final(self)@ == old(self)@.insert(field.0),
    {
        proof {
            use_type_invariant(&*self);
        }
        let ghost old_bits = self.bits@;
        let word = (field.0 / 64) as usize;
        let bit = (field.0 % 64) as u64;
        let mut bits: Vec<u64> = Vec::new();
        std::mem::swap(&mut bits, &mut self.bits);
        if word >= bits.len() {
            bits.resize(word + 1, 0);
        }
        let w = bits[word];
        bits[word] = w | (1u64 << bit);
        let ghost nb = bits@;
        self.bits = bits;
        proof {
            assert forall|f: u32| #[trigger] bits_contain(nb, f as int) == (bits_contain(old_bits, f as int) || f == field.0) by {
                lemma_pos(f as int);
                lemma_pos(field.0 as int);
                let j = f as int / 64;
                let k = (f as int % 64) as u64;
                if j == word as int {
                    lemma_set_bit(w, bit, k);
                    if j >= old_bits.len() {
                        lemma_zero(k);
                    }
                } else if j >= old_bits.len() && j < nb.len() {
                    lemma_zero(k);
                }
            }
            assert(bits_set(nb) =~= bits_set(old_bits).insert(field.0));
        }
    }

    /// The set of the given field IDs.
    pub fn from_ids(ids: &[FieldId]) -> (s: Self)
        requires
            forall|i: int| 0 <= i < ids@.len() ==> 64 * ((#[trigger] ids@[i]).0 / 64 + 1) <= usize::MAX,
        ensures
            s@ == Set::new(|f: u32| exists|i: int| 0 <= i < ids@.len() && (#[trigger] ids@[i]).0 == f),
    {
        let mut s = FieldSet::empty();
        let mut k: usize = 0;
        while k < ids.len()
            invariant
                k <= ids@.len(),
                forall|i: int| 0 <= i < ids@.len() ==> 64 * ((#[trigger] ids@[i]).0 / 64 + 1) <= usize::MAX,
                s@ == Set::new(|f: u32| exists|i: int| 0 <= i < k && (#[trigger] ids@[i]).0 == f),
            decreases ids@.len() - k,
        {
            let ghost before = s@;
            s.insert(ids[k]);
            proof {
                assert(s@ =~= Set::new(|f: u32| exists|i: int| 0 <= i < k + 1 && (#[trigger] ids@[i]).0 == f)) by {
                    assert forall|f: u32| s@.contains(f) == (exists|i: int| 0 <= i < k + 1 && (#[trigger] ids@[i]).0 == f) by {
                        if f == ids@[k as int].0 {
                            assert(0 <= k < k + 1 && ids@[k as int].0 == f);
                        }
                        if exists|i: int| 0 <= i < k + 1 && (#[trigger] ids@[i]).0 == f {
                            let i = choose|i: int| 0 <= i < k + 1 && (#[trigger] ids@[i]).0 == f;
                            if i < k {
                                assert(before.contains(f));
                            }
                        }
                    }
                }
            }
            k = k + 1;
        }
        s
    }

    /// Check whether the set contains a field ID.
    pub fn contains(&self, field: FieldId) -> (r: bool)
        ensures
            r == self@.contains(field.0),
    {
        let word = (field.0 / 64) as usize;
        let bit = (field.0 % 64) as u64;
        if word < self.bits.len() {
            let w = self.bits[word];
            proof {
                lemma_test_bit(w, bit);
            }
            (w & (1u64 << bit)) != 0
        } else {
            false
        }
    }

    /// Return the union of two sets (`self | other`).
    pub fn union(&self, other: &Self) -> (s: Self)
        ensures
            s@ == self@.union(other@),
    {
        proof {
            use_type_invariant(self);
            use_type_invariant(other);
        }
        let n = if self.bits.len() >= other.bits.len() {
            self.bits.len()
        } else {
            other.bits.len()
        };
        let mut bits: Vec<u64> = Vec::with_capacity(n);
        let mut i: usize = 0;
        while i < n
            invariant
                n == if self.bits.len() >= other.bits.len() {
                    self.bits.len()
                } else {
                    other.bits.len()
                },
                i <= n,
                bits.len() == i,
                forall|j: int|
                    0 <= j < i ==> #[trigger] bits@[j] == word_at(self.bits@, j) | word_at(
                        other.bits@,
                        j,
                    ),
            decreases n - i,
        {
            let a = if i < self.bits.len() {
                self.bits[i]
            } else {
                0
            };
            let b = if i < other.bits.len() {
                other.bits[i]
            } else {
                0
            };
            bits.push(a | b);
            i = i + 1;
        }
        let s = FieldSet { bits };
        proof {
            assert forall|f: u32| #[trigger] bits_contain(s.bits@, f as int) == (bits_contain(self.bits@, f as int) || bits_contain(other.bits@, f as int)) by {
                lemma_pos(f as int);
                let j = f as int / 64;
                let k = (f as int % 64) as u64;
                lemma_or(word_at(self.bits@, j), word_at(other.bits@, j), k);
                lemma_zero(k);
            }
            assert(s@ =~= self@.union(other@));
        }
        s
    }

    /// Drop trailing zero words; the members are unchanged.
    fn trim(bits: &mut Vec<u64>)
        ensures
            bits_set(final(bits)@) == bits_set(old(bits)@),
            final(bits).len() <= old(bits).len(),
            final(bits)@ == old(bits)@.subrange(0, final(bits).len() as int),
            final(bits).len() == 0 || final(bits)@.last() != 0,
            forall|i: int| final(bits).len() <= i < old(bits).len() ==> #[trigger] old(bits)@[i] == 0,
    {
        while bits.len() > 0 && bits[bits.len() - 1] == 0
            invariant
                bits_set(bits@) == bits_set(old(bits)@),
                bits.len() <= old(bits).len(),
                bits@ == old(bits)@.subrange(0, bits.len() as int),
                forall|i: int| bits.len() <= i < old(bits).len() ==> #[trigger] old(bits)@[i] == 0,
            decreases bits.len(),
        {
            let ghost before = bits@;
            bits.pop();
            proof {
                assert forall|f: u32| #[trigger] bits_contain(bits@, f as int) == bits_contain(before, f as int) by {
                    lemma_pos(f as int);
                    lemma_zero((f as int % 64) as u64);
                }
                assert(bits_set(bits@) =~= bits_set(before));
            }
        }
    }

    /// Return the intersection of two sets (`self & other`).
    pub fn intersection(&self, other: &Self) -> (s: Self)
        ensures
            s@ == self@.intersect(other@),
    {
        proof {
            use_type_invariant(self);
            use_type_invariant(other);
        }
        let n = if self.bits.len() <= other.bits.len() {
            self.bits.len()
        } else {
            other.bits.len()
        };
        let mut bits: Vec<u64> = Vec::with_capacity(n);
        let mut i: usize = 0;
        while i < n
            invariant
                n <= self.bits.len(),
                n <= other.bits.len(),
                n == self.bits.len() || n == other.bits.len(),
                i <= n,
                bits.len() == i,
                forall|j: int| 0 <= j < i ==> #[trigger] bits@[j] == self.bits@[j] & other.bits@[j],
            decreases n - i,
        {
            bits.push(self.bits[i] & other.bits[i]);
            i = i + 1;
        }
        proof {
            assert forall|f: u32| #[trigger] bits_contain(bits@, f as int) == (bits_contain(self.bits@, f as int) && bits_contain(other.bits@, f as int)) by {
                lemma_pos(f as int);
                let j = f as int / 64;
                let k = (f as int % 64) as u64;
                if j < n {
                    lemma_and(self.bits@[j], other.bits@[j], k);
                }
            }
        }
        let ghost full = bits@;
        Self::trim(&mut bits);
        let s = FieldSet { bits };
        assert(s@ =~= self@.intersect(other@));
        s
    }

    /// Return the set difference (`self - other`): elements in `self` but not `other`.
    pub fn difference(&self, other: &Self) -> (s: Self)
        ensures
            s@ == self@.difference(other@),
    {
        proof {
            use_type_invariant(self);
            use_type_invariant(other);
        }
        let n = self.bits.len();
        let mut bits: Vec<u64> = Vec::with_capacity(n);
        let mut i: usize = 0;
        while i < n
            invariant
                n == self.bits.len(),
                i <= n,
                bits.len() == i,
                forall|j: int|
                    0 <= j < i ==> #[trigger] bits@[j] == self.bits@[j] & !word_at(other.bits@, j),
            decreases n - i,
        {
            let b = if i < other.bits.len() {
                other.bits[i]
            } else {
                0
            };
            bits.push(self.bits[i] & !b);
            i = i + 1;
        }
        proof {
            assert forall|f: u32| #[trigger] bits_contain(bits@, f as int) == (bits_contain(self.bits@, f as int) && !bits_contain(other.bits@, f as int)) by {
                lemma_pos(f as int);
                let j = f as int / 64;
                let k = (f as int % 64) as u64;
                lemma_zero(k);
                if j < n {
                    lemma_and_not(self.bits@[j], word_at(other.bits@, j), k);
                }
            }
        }
        Self::trim(&mut bits);
        let s = FieldSet { bits };
        assert(s@ =~= self@.difference(other@));
        s
    }

    /// Check whether `self` is a subset of `other`.
    pub fn is_subset(&self, other: &Self) -> (r: bool)
        ensures
            r == self@.subset_of(other@),
    {
        proof {
            use_type_invariant(self);
            use_type_invariant(other);
        }
        let n = self.bits.len();
        let mut i: usize = 0;
        while i < n
            invariant
                n <= MAX_WORDS,
                n == self.bits.len(),
                i <= n,
                forall|f: u32|
                    f < 64 * i ==> (#[trigger] bits_contain(self.bits@, f as int) ==> bits_contain(
                        other.bits@,
                        f as int,
                    )),
            decreases n - i,
        {
            let b = if i < other.bits.len() {
                other.bits[i]
            } else {
                0
            };
            let d = self.bits[i] & !b;
            if d != 0 {
                proof {
                    if forall|k: u64| k < 64 ==> !word_has(d, k) {
                        lemma_word_zero(d);
                    }
                    let k = choose|k: u64| k < 64 && word_has(d, k);
                    lemma_and_not(self.bits@[i as int], b, k);
                    lemma_zero(k);
                    let f = (64 * i + k) as u32;
                    lemma_pos(f as int);
                    assert(self@.contains(f) && !other@.contains(f));
                }
                return false;
            }
            proof {
                assert forall|f: u32| f < 64 * (i + 1) && #[trigger] bits_contain(self.bits@, f as int) implies bits_contain(other.bits@, f as int) by {
                    lemma_pos(f as int);
                    if f >= 64 * i {
                        let k = (f as int % 64) as u64;
                        lemma_and_not(self.bits@[i as int], b, k);
                        lemma_zero(k);
                        lemma_zero_bits(d, k);
                    }
                }
            }
            i = i + 1;
        }
        proof {
            assert forall|f: u32| self@.contains(f) implies other@.contains(f) by {
                lemma_pos(f as int);
            }
        }
        true
    }

    /// Returns `true` if the set contains no fields.
    pub fn is_empty(&self) -> (r: bool)
        ensures
            r == (self@ == Set::<u32>::empty()),
    {
        proof {
            use_type_invariant(self);
        }
        let n = self.bits.len();
        let mut i: usize = 0;
        while i < n
            invariant
                n <= MAX_WORDS,
                n == self.bits.len(),
                i <= n,
                forall|f: u32| f < 64 * i ==> !#[trigger] bits_contain(self.bits@, f as int),
            decreases n - i,
        {
            let w = self.bits[i];
            if w != 0 {
                proof {
                    if forall|k: u64| k < 64 ==> !word_has(w, k) {
                        lemma_word_zero(w);
                    }
                    let k = choose|k: u64| k < 64 && word_has(w, k);
                    let f = (64 * i + k) as u32;
                    lemma_pos(f as int);
                    assert(self@.contains(f));
                }
                return false;
            }
            proof {
                assert forall|f: u32| f < 64 * (i + 1) implies !#[trigger] bits_contain(self.bits@, f as int) by {
                    lemma_pos(f as int);
                    lemma_zero((f as int % 64) as u64);
                }
            }
            i = i + 1;
        }
        proof {
            assert forall|f: u32| !self@.contains(f) by {
                lemma_pos(f as int);
            }
            assert(self@ =~= Set::<u32>::empty());
        }
        true
    }

    /// Returns the number of fields in the set.
    pub fn len(&self) -> (r: usize)
        ensures
            r == self@.len(),
    {
        proof {
            use_type_invariant(self);
            self.lemma_view_below();
        }
        let n = self.bits.len();
        let mut total: usize = 0;
        let mut i: usize = 0;
        while i < n
            invariant
                n == self.bits.len(),
                n <= MAX_WORDS,
                64 * n <= usize::MAX,
                i <= n,
                total == count_below(self.bits@, 64 * i),
                total <= 64 * i,
            decreases n - i,
        {
            let w = self.bits[i];
            let mut b: u64 = 0;
            while b < 64
                invariant
                    n == self.bits.len(),
                    n <= MAX_WORDS,
                    64 * n <= usize::MAX,
                    i < n,
                    w == self.bits@[i as int],
                    b <= 64,
                    total == count_below(self.bits@, 64 * i + b),
                    total <= 64 * i + b,
                decreases 64 - b,
            {
                proof {
                    let f = 64 * i + b;
                    lemma_pos(f);
                    assert(f / 64 == i && f % 64 == b);
                    lemma_bit_value(w, b);
                }
                if (w >> b) & 1 == 1 {
                    total = total + 1;
                }
                b = b + 1;
            }
            i = i + 1;
        }
        total
    }

    /// The position at which iteration starts: the first id of the set.
    pub fn iter(&self) -> (it: FieldSetIter)
        ensures
            it.members() == self@,
            it.position() == 0,
    {
        proof {
            use_type_invariant(self);
        }
        let bits = self.bits.clone();
        assert(bits@ =~= self.bits@);
        FieldSetIter { bits, word_idx: 0, bit_idx: 0 }
    }

    /// The ids of the set in ascending order.
    pub fn to_vec(&self) -> (v: Vec<FieldId>)
        ensures
            forall|i: int, j: int| 0 <= i < j < v@.len() ==> v@[i].0 < v@[j].0,
            forall|i: int| 0 <= i < v@.len() ==> self@.contains(#[trigger] v@[i].0),
            forall|f: u32| self@.contains(f) ==> exists|i: int| 0 <= i < v@.len() && #[trigger] v@[i].0 == f,
    {
        let mut it = self.iter();
        let mut v: Vec<FieldId> = Vec::new();
        loop
            invariant
                it.members() == self@,
                it.position() <= 0x1_0000_0000,
                forall|i: int, j: int| 0 <= i < j < v@.len() ==> v@[i].0 < v@[j].0,
                forall|i: int| 0 <= i < v@.len() ==> self@.contains(#[trigger] v@[i].0),
                forall|i: int| 0 <= i < v@.len() ==> (#[trigger] v@[i].0) < it.position(),
                forall|f: u32|
                    self@.contains(f) && f < it.position() ==> exists|i: int|
                        0 <= i < v@.len() && #[trigger] v@[i].0 == f,
            ensures
                forall|f: u32|
                    self@.contains(f) ==> exists|i: int| 0 <= i < v@.len() && #[trigger] v@[i].0 == f,
            decreases 0x1_0000_0000 - it.position(),
        {
            let ghost p = it.position();
            match it.next() {
                Some(f) => {
                    let ghost old_v = v@;
                    v.push(f);
                    proof {
                        assert forall|g: u32| self@.contains(g) && g < it.position() implies exists|i: int| 0 <= i < v@.len() && #[trigger] v@[i].0 == g by {
                            if g == f.0 {
                                assert(v@[old_v.len() as int].0 == g);
                            } else {
                                assert(g < p);
                                let i = choose|i: int| 0 <= i < old_v.len() && #[trigger] old_v[i].0 == g;
                                assert(v@[i] == old_v[i]);
                            }
                        }
                    }
                },
                None => {
                    break ;
                },
            }
        }
        v
    }
}

proof fn lemma_zero_bits(d: u64, k: u64)
    requires
        d == 0,
    ensures
        !word_has(d, k),
{
    lemma_zero(k);
}

/// Sets are equal when they hold the same field ids, whatever words they use.
impl PartialEq for FieldSet {
    fn eq(&self, other: &Self) -> (r: bool) {
        proof {
            use_type_invariant(self);
            use_type_invariant(other);
        }
        let n = if self.bits.len() >= other.bits.len() {
            self.bits.len()
        } else {
            other.bits.len()
        };
        let mut i: usize = 0;
        while i < n
            invariant
                n <= MAX_WORDS,
                n == if self.bits.len() >= other.bits.len() {
                    self.bits.len()
                } else {
                    other.bits.len()
                },
                i <= n,
                forall|f: u32|
                    f < 64 * i ==> (#[trigger] bits_contain(self.bits@, f as int) == bits_contain(
                        other.bits@,
                        f as int,
                    )),
            decreases n - i,
        {
            let a = if i < self.bits.len() {
                self.bits[i]
            } else {
                0
            };
            let b = if i < other.bits.len() {
                other.bits[i]
            } else {
                0
            };
            if a != b {
                proof {
                    if forall|k: u64| k < 64 ==> word_has(a, k) == word_has(b, k) {
                        lemma_word_ext(a, b);
                    }
                    let k = choose|k: u64| k < 64 && word_has(a, k) != word_has(b, k);
                    lemma_zero(k);
                    let f = (64 * i + k) as u32;
                    lemma_pos(f as int);
                    assert(self@.contains(f) != other@.contains(f));
                }
                return false;
            }
            proof {
                assert forall|f: u32| f < 64 * (i + 1) implies (#[trigger] bits_contain(self.bits@, f as int) == bits_contain(other.bits@, f as int)) by {
                    lemma_pos(f as int);
                    lemma_zero((f as int % 64) as u64);
                }
            }
            i = i + 1;
        }
        proof {
            assert forall|f: u32| self@.contains(f) == other@.contains(f) by {
                lemma_pos(f as int);
            }
            assert(self@ =~= other@);
        }
        true
    }
}

impl vstd::std_specs::cmp::PartialEqSpecImpl for FieldSet {
    open spec fn obeys_eq_spec() -> bool {
        true
    }

    open spec fn eq_spec(&self, other: &Self) -> bool {
        self@ == other@
    }
}

impl Clone for FieldSet {
    fn clone(&self) -> (s: Self)
        ensures
            s@ == self@,
    {
        proof {
            use_type_invariant(self);
        }
        let bits = self.bits.clone();
        assert(bits@ =~= self.bits@);
        FieldSet { bits }
    }
}

impl Eq for FieldSet {

}

/// Iterator over the field IDs of a [`FieldSet`], in ascending order.
pub struct FieldSetIter {
    bits: Vec<u64>,
    word_idx: usize,
    bit_idx: usize,
}

impl FieldSetIter {
    /// The ids the iterator walks over.
    pub closed spec fn members(&self) -> Set<u32> {
        bits_set(self.bits@)
    }

    /// The smallest id not yet passed.
    pub closed spec fn position(&self) -> int {
        64 * self.word_idx + self.bit_idx
    }

    #[verifier::type_invariant]
    closed spec fn wf(&self) -> bool {
        &&& self.bits.len() <= MAX_WORDS
        &&& self.word_idx <= self.bits.len()
        &&& self.bit_idx < 64
        &&& self.word_idx == self.bits.len() ==> self.bit_idx == 0
    }

    /// Yield the smallest member at or after the current position.
    pub fn next(&mut self) -> (r: Option<FieldId>)
        ensures
            final(self).members() == old(self).members(),
            final(self).position() <= 0x1_0000_0000,
            match r {
                Some(f) => {
                    &&& old(self).members().contains(f.0)
                    &&& old(self).position() <= f.0
                    &&& forall|g: u32|
                        old(self).position() <= g < f.0 ==> !old(self).members().contains(g)
                    &&& final(self).position() == f.0 + 1
                },
                None => {
                    &&& forall|g: u32|
                        old(self).position() <= g ==> !old(self).members().contains(g)
                    &&& old(self).position() <= final(self).position()
                },
            },
    {
        proof {
            use_type_invariant(&*self);
        }
        let ghost start = self.position();
        let n = self.bits.len();
        let mut w = self.word_idx;
        let mut b = self.bit_idx;
        while w < n
            invariant
                n == self.bits.len(),
                n <= MAX_WORDS,
                self.bits@ == old(self).bits@,
                self.word_idx == old(self).word_idx,
                self.bit_idx == old(self).bit_idx,
                self.bit_idx < 64,
                self.word_idx <= n,
                start == 64 * self.word_idx + self.bit_idx,
                w <= n,
                b < 64,
                w == n ==> b == 0,
                start <= 64 * w + b,
                forall|g: u32|
                    start <= g < 64 * w + b ==> !#[trigger] bits_contain(self.bits@, g as int),
            decreases n - w, 64 - b,
        {
            let word = self.bits[w];
            let bit = b as u64;
            let f = w * 64 + b;
            proof {
                lemma_pos(f as int);
                lemma_test_bit(word, bit);
            }
            if word & (1u64 << bit) != 0 {
                if b + 1 < 64 {
                    self.word_idx = w;
                    self.bit_idx = b + 1;
                } else {
                    self.bit_idx = 0;
                    self.word_idx = w + 1;
                }
                return Some(FieldId(f as u32));
            }
            if b + 1 < 64 {
                b = b + 1;
            } else {
                b = 0;
                w = w + 1;
            }
            proof {
                assert forall|g: u32| start <= g < 64 * w + b implies !#[trigger] bits_contain(self.bits@, g as int) by {
                    lemma_pos(g as int);
                }
            }
        }
        self.bit_idx = 0;
        self.word_idx = w;
        proof {
            assert forall|g: u32| start <= g implies !#[trigger] bits_contain(self.bits@, g as int) by {
                lemma_pos(g as int);
            }
        }
        None
    }
}

/// Union is commutative: `a | b == b | a`.
pub proof fn lemma_union_commutative(a: FieldSet, b: FieldSet)
    ensures
        a@.union(b@) == b@.union(a@),
{
    assert(a@.union(b@) =~= b@.union(a@));
}

/// Intersection is commutative: `a & b == b & a`.
pub proof fn lemma_intersection_commutative(a: FieldSet, b: FieldSet)
    ensures
        a@.intersect(b@) == b@.intersect(a@),
{
    assert(a@.intersect(b@) =~= b@.intersect(a@));
}

/// Union is associative: `(a | b) | c == a | (b | c)`.
pub proof fn lemma_union_associative(a: FieldSet, b: FieldSet, c: FieldSet)
    ensures
        a@.union(b@).union(c@) == a@.union(b@.union(c@)),
{
    assert(a@.union(b@).union(c@) =~= a@.union(b@.union(c@)));
}

/// Intersection is associative: `(a & b) & c == a & (b & c)`.
pub proof fn lemma_intersection_associative(a: FieldSet, b: FieldSet, c: FieldSet)
    ensures
        a@.intersect(b@).intersect(c@) == a@.intersect(b@.intersect(c@)),
{
    assert(a@.intersect(b@).intersect(c@) =~= a@.intersect(b@.intersect(c@)));
}

/// The empty set is the identity of union, and union and intersection are
/// idempotent: `a | {} == a`, `a | a == a`, `a & a == a`.
pub proof fn lemma_union_identity_and_idempotence(a: FieldSet)
    ensures
        a@.union(Set::<u32>::empty()) == a@,
        a@.union(a@) == a@,
        a@.intersect(a@) == a@,
{
    assert(a@.union(Set::<u32>::empty()) =~= a@);
    assert(a@.union(a@) =~= a@);
    assert(a@.intersect(a@) =~= a@);
}

/// Intersecting with the empty set gives the empty set.
pub proof fn lemma_intersection_with_empty(a: FieldSet)
    ensures
        a@.intersect(Set::<u32>::empty()) == Set::<u32>::empty(),
{
    assert(a@.intersect(Set::<u32>::empty()) =~= Set::<u32>::empty());
}

/// Every element of `a - b` is in `a` and not in `b`.
pub proof fn lemma_difference_removes_common(a: FieldSet, b: FieldSet)
    ensures
        forall|f: u32| #[trigger] a@.difference(b@).contains(f) ==> a@.contains(f) && !b@.contains(f),
{
}

/// Intersection distributes over union: `a & (b | c) == (a & b) | (a & c)`.
pub proof fn lemma_intersection_distributes_over_union(a: FieldSet, b: FieldSet, c: FieldSet)
    ensures
        a@.intersect(b@.union(c@)) == a@.intersect(b@).union(a@.intersect(c@)),
{
    assert(a@.intersect(b@.union(c@)) =~= a@.intersect(b@).union(a@.intersect(c@)));
}

/// Every set is a subset of itself, and the empty set is a subset of every set.
pub proof fn lemma_subset_reflexive_and_empty(a: FieldSet)
    ensures
        a@.subset_of(a@),
        Set::<u32>::empty().subset_of(a@),
{
}

/// Inserting one id into the empty set gives a set that holds it and has one element.
pub proof fn lemma_insert_into_empty(id: u32)
    ensures
        Set::<u32>::empty().insert(id).contains(id),
        Set::<u32>::empty().insert(id).len() == 1,
{
    assert(Set::<u32>::empty().insert(id) =~= set![id]);
}

} // verus!
