//! Index from coordinates to the entities at them, in arrival order.
use vstd::prelude::*;

use crate::id::EntityId;

verus! {

/// `s` without any occurrence of `id`, order kept.
pub open spec fn without(s: Seq<EntityId>, id: EntityId) -> Seq<EntityId>
    decreases s.len(),
{
    if s.len() == 0 {
        s
    } else if s.last() == id {
        without(s.drop_last(), id)
    } else {
        without(s.drop_last(), id).push(s.last())
    }
}

/// The entities listed at `c` in the entries `v`; none if `c` has no entry.
pub open spec fn lookup(v: Seq<(Seq<i32>, Seq<EntityId>)>, c: Seq<i32>) -> Seq<EntityId>
    decreases v.len(),
{
    if v.len() == 0 {
        Seq::empty()
    } else if v.last().0 == c {
        v.last().1
    } else {
        lookup(v.drop_last(), c)
    }
}

/// Coordinates are listed once each, and each with at least one entity.
pub open spec fn entries_wf(v: Seq<(Seq<i32>, Seq<EntityId>)>) -> bool {
    &&& forall|i: int, j: int| 0 <= i < j < v.len() ==> (#[trigger] v[i]).0 != (#[trigger] v[j]).0
    &&& forall|i: int| 0 <= i < v.len() ==> (#[trigger] v[i]).1.len() > 0
}

proof fn lemma_lookup_at(v: Seq<(Seq<i32>, Seq<EntityId>)>, k: int)
    requires
        entries_wf(v),
        0 <= k < v.len(),
    ensures
        lookup(v, v[k].0) == v[k].1,
    decreases v.len(),
{
    if k < v.len() - 1 {
        assert(v.drop_last()[k] == v[k]);
        assert(entries_wf(v.drop_last()));
        lemma_lookup_at(v.drop_last(), k);
    }
}

proof fn lemma_lookup_absent(v: Seq<(Seq<i32>, Seq<EntityId>)>, c: Seq<i32>)
    requires
        forall|i: int| 0 <= i < v.len() ==> (#[trigger] v[i]).0 != c,
    ensures
        lookup(v, c) == Seq::<EntityId>::empty(),
    decreases v.len(),
{
    if v.len() > 0 {
        assert(v.last() == v[v.len() - 1]);
        lemma_lookup_absent(v.drop_last(), c);
    }
}

proof fn lemma_lookup_update(
    v: Seq<(Seq<i32>, Seq<EntityId>)>,
    k: int,
    ids: Seq<EntityId>,
    c: Seq<i32>,
)
    requires
        entries_wf(v),
        0 <= k < v.len(),
    ensures
        lookup(v.update(k, (v[k].0, ids)), c) == if c == v[k].0 {
            ids
        } else {
            lookup(v, c)
        },
    decreases v.len(),
{
    let w = v.update(k, (v[k].0, ids));
    if k == v.len() - 1 {
        assert(w.drop_last() =~= v.drop_last());
    } else {
        assert(w.drop_last() =~= v.drop_last().update(k, (v[k].0, ids)));
        assert(entries_wf(v.drop_last()));
        assert(v.drop_last()[k] == v[k]);
        lemma_lookup_update(v.drop_last(), k, ids, c);
    }
}

proof fn lemma_lookup_remove(v: Seq<(Seq<i32>, Seq<EntityId>)>, k: int, c: Seq<i32>)
    requires
        entries_wf(v),
        0 <= k < v.len(),
    ensures
        lookup(v.remove(k), c) == if c == v[k].0 {
            Seq::<EntityId>::empty()
        } else {
            lookup(v, c)
        },
    decreases v.len(),
{
    let w = v.remove(k);
    if k == v.len() - 1 {
        assert(w =~= v.drop_last());
        if c == v[k].0 {
            assert forall|i: int| 0 <= i < w.len() implies (#[trigger] w[i]).0 != c by {
                assert(w[i] == v[i]);
            }
            lemma_lookup_absent(w, c);
        }
    } else {
        assert(w.drop_last() =~= v.drop_last().remove(k));
        assert(w.last() == v.last());
        assert(entries_wf(v.drop_last()));
        assert(v.drop_last()[k] == v[k]);
        lemma_lookup_remove(v.drop_last(), k, c);
    }
}

/// Coordinates and the entities at each, in the order they arrived there.
pub struct CoordIndex {
    entries: Vec<(Vec<i32>, Vec<EntityId>)>,
}

impl CoordIndex {
    /// The entries, as coordinate and entity sequences.
    pub closed spec fn view_entries(&self) -> Seq<(Seq<i32>, Seq<EntityId>)> {
        Seq::new(self.entries@.len(), |i: int| (self.entries@[i].0@, self.entries@[i].1@))
    }

    /// The entities listed at `c`, in arrival order.
    pub open spec fn ids_at(&self, c: Seq<i32>) -> Seq<EntityId> {
        lookup(self.view_entries(), c)
    }

    /// Each coordinate listed once, none with an empty list.
    pub open spec fn wf(&self) -> bool {
        entries_wf(self.view_entries())
    }

    /// An index with no entries.
    pub fn new() -> (x: Self)
        ensures
            x.wf(),
            forall|c: Seq<i32>| #[trigger] x.ids_at(c) == Seq::<EntityId>::empty(),
    {
        let x = CoordIndex { entries: Vec::new() };
        assert(x.view_entries() =~= Seq::<(Seq<i32>, Seq<EntityId>)>::empty());
        x
    }

    /// The position of the entry for `c`, if there is one.
    fn find(&self, c: &Vec<i32>) -> (k: Option<usize>)
        requires
            self.wf(),
        ensures
            match k {
                Some(k) => k < self.view_entries().len() && self.view_entries()[k as int].0 == c@,
                None => forall|i: int|
                    0 <= i < self.view_entries().len() ==> (#[trigger] self.view_entries()[i]).0
                        != c@,
            },
    {
        let mut i: usize = 0;
        while i < self.entries.len()
            invariant
                i <= self.entries@.len(),
                forall|j: int| 0 <= j < i ==> (#[trigger] self.view_entries()[j]).0 != c@,
            decreases self.entries@.len() - i,
        {
            if same_coord(&self.entries[i].0, c) {
                return Some(i);
            }
            i = i + 1;
        }
        None
    }

    /// Append `id` to the entities at `c`.
    pub fn push(&mut self, c: Vec<i32>, id: EntityId)
        requires
            old(self).wf(),
        ensures
            final(self).wf(),
            forall|d: Seq<i32>|
                #[trigger] final(self).ids_at(d) == if d == c@ {
                    old(self).ids_at(d).push(id)
                } else {
                    old(self).ids_at(d)
                },
    {
        let ghost v = self.view_entries();
        match self.find(&c) {
            Some(k) => {
                let (key, mut ids) = self.entries.remove(k);
                ids.push(id);
                self.entries.insert(k, (key, ids));
                proof {
                    let ids_v = v[k as int].1.push(id);
                    assert(self.view_entries() =~= v.update(k as int, (v[k as int].0, ids_v)));
                    lemma_lookup_at(v, k as int);
                    assert forall|d: Seq<i32>|
                        #[trigger] self.ids_at(d) == if d == c@ {
                            lookup(v, d).push(id)
                        } else {
                            lookup(v, d)
                        } by {
                        lemma_lookup_update(v, k as int, ids_v, d);
                    }
                }
            },
            None => {
                let mut ids: Vec<EntityId> = Vec::new();
                ids.push(id);
                let ghost cv = c@;
                self.entries.push((c, ids));
                proof {
                    let w = self.view_entries();
                    assert(w =~= v.push((cv, seq![id])));
                    assert(w.drop_last() =~= v);
                    lemma_lookup_absent(v, cv);
                    assert(seq![id] =~= Seq::<EntityId>::empty().push(id));
                }
            },
        }
    }

    /// Remove `id` from the entities at `c`, dropping the entry if it
    /// empties.
    pub fn remove(&mut self, c: &Vec<i32>, id: EntityId)
        requires
            old(self).wf(),
        ensures
            final(self).wf(),
            forall|d: Seq<i32>|
                #[trigger] final(self).ids_at(d) == if d == c@ {
                    without(old(self).ids_at(d), id)
                } else {
                    old(self).ids_at(d)
                },
    {
        let ghost v = self.view_entries();
        match self.find(c) {
            Some(k) => {
                let (key, ids) = self.entries.remove(k);
                proof {
                    lemma_lookup_at(v, k as int);
                }
                let kept = retain_other(&ids, id);
                if kept.len() == 0 {
                    proof {
                        assert(self.view_entries() =~= v.remove(k as int));
                        assert forall|d: Seq<i32>|
                            #[trigger] self.ids_at(d) == if d == c@ {
                                without(lookup(v, d), id)
                            } else {
                                lookup(v, d)
                            } by {
                            lemma_lookup_remove(v, k as int, d);
                            if d == c@ {
                                assert(without(lookup(v, d), id) =~= Seq::<EntityId>::empty());
                            }
                        }
                    }
                } else {
                    self.entries.insert(k, (key, kept));
                    proof {
                        let ids_v = without(v[k as int].1, id);
                        assert(self.view_entries() =~= v.update(k as int, (v[k as int].0, ids_v)));
                        assert forall|d: Seq<i32>|
                            #[trigger] self.ids_at(d) == if d == c@ {
                                without(lookup(v, d), id)
                            } else {
                                lookup(v, d)
                            } by {
                            lemma_lookup_update(v, k as int, ids_v, d);
                        }
                    }
                }
            },
            None => {
                proof {
                    lemma_lookup_absent(v, c@);
                    assert(without(Seq::<EntityId>::empty(), id) =~= Seq::<EntityId>::empty());
                }
            },
        }
    }

    /// The entities at `c`, in arrival order.
    pub fn get(&self, c: &Vec<i32>) -> (ids: &[EntityId])
        requires
            self.wf(),
        ensures
            ids@ == self.ids_at(c@),
    {
        match self.find(c) {
            Some(k) => {
                proof {
                    lemma_lookup_at(self.view_entries(), k as int);
                }
                self.entries[k].1.as_slice()
            },
            None => {
                proof {
                    lemma_lookup_absent(self.view_entries(), c@);
                }
                &[]
            },
        }
    }

    /// A copy of this index.
    pub fn copy(&self) -> (x: Self)
        requires
            self.wf(),
        ensures
            x.wf(),
            x.view_entries() == self.view_entries(),
    {
        let mut entries: Vec<(Vec<i32>, Vec<EntityId>)> = Vec::new();
        let mut i: usize = 0;
        while i < self.entries.len()
            invariant
                i <= self.entries@.len(),
                entries@.len() == i,
                forall|j: int|
                    0 <= j < i ==> (#[trigger] entries@[j]).0@ == self.entries@[j].0@
                        && entries@[j].1@ == self.entries@[j].1@,
            decreases self.entries@.len() - i,
        {
            let key = copy_coord(&self.entries[i].0);
            let ids = copy_ids(&self.entries[i].1);
            entries.push((key, ids));
            i = i + 1;
        }
        let x = CoordIndex { entries };
        assert(x.view_entries() =~= self.view_entries());
        x
    }
}

/// Whether two coordinates are equal.
pub fn same_coord(a: &Vec<i32>, b: &Vec<i32>) -> (r: bool)
    ensures
        r == (a@ == b@),
{
    if a.len() != b.len() {
        return false;
    }
    let mut i: usize = 0;
    while i < a.len()
        invariant
            a@.len() == b@.len(),
            i <= a@.len(),
            forall|j: int| 0 <= j < i ==> a@[j] == b@[j],
        decreases a@.len() - i,
    {
        if a[i] != b[i] {
            return false;
        }
        i = i + 1;
    }
    assert(a@ =~= b@);
    true
}

/// A copy of a coordinate.
pub fn copy_coord(a: &Vec<i32>) -> (r: Vec<i32>)
    ensures
        r@ == a@,
{
    let mut r: Vec<i32> = Vec::new();
    let mut i: usize = 0;
    while i < a.len()
        invariant
            i <= a@.len(),
            r@ == a@.subrange(0, i as int),
        decreases a@.len() - i,
    {
        r.push(a[i]);
        proof {
            assert(r@ =~= a@.subrange(0, i + 1));
        }
        i = i + 1;
    }
    assert(r@ =~= a@);
    r
}

/// A copy of a list of entity IDs.
fn copy_ids(a: &Vec<EntityId>) -> (r: Vec<EntityId>)
    ensures
        r@ == a@,
{
    let mut r: Vec<EntityId> = Vec::new();
    let mut i: usize = 0;
    while i < a.len()
        invariant
            i <= a@.len(),
            r@ == a@.subrange(0, i as int),
        decreases a@.len() - i,
    {
        r.push(a[i]);
        proof {
            assert(r@ =~= a@.subrange(0, i + 1));
        }
        i = i + 1;
    }
    assert(r@ =~= a@);
    r
}

/// The IDs of `ids` other than `id`, in order.
fn retain_other(ids: &Vec<EntityId>, id: EntityId) -> (r: Vec<EntityId>)
    ensures
        r@ == without(ids@, id),
{
    let mut r: Vec<EntityId> = Vec::new();
    let mut i: usize = 0;
    while i < ids.len()
        invariant
            i <= ids@.len(),
            r@ == without(ids@.subrange(0, i as int), id),
        decreases ids@.len() - i,
    {
        proof {
            assert(ids@.subrange(0, i + 1).drop_last() =~= ids@.subrange(0, i as int));
        }
        if ids[i] != id {
            r.push(ids[i]);
        }
        i = i + 1;
    }
    assert(ids@.subrange(0, ids@.len() as int) =~= ids@);
    r
}

} // verus!
