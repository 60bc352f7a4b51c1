//! Sparse-set component storage.
//!
//! Components live in a dense vector with a parallel vector of owning ids;
//! a sparse array maps an entity's slot index to its dense slot, so insert,
//! lookup and removal are O(1) and removal swap-pops to keep the dense
//! arrays without holes. The sparse entry records the owner's full id, so a
//! lookup with a stale handle (same index, older generation) misses.

use vstd::prelude::*;

use super::entity::EntityId;

verus! {

/// Marker of an unused sparse entry.
const EMPTY: u32 = 0xFFFF_FFFFu32;

/// Some dense slot holds an id with slot index `i`.
pub open spec fn holds_index(ids: Seq<EntityId>, i: u32) -> bool {
    exists|j: int| 0 <= j < ids.len() && (#[trigger] ids[j]).idx() == i
}

/// The dense slot holding an id with slot index `i`.
pub open spec fn index_slot(ids: Seq<EntityId>, i: u32) -> int {
    choose|j: int| 0 <= j < ids.len() && (#[trigger] ids[j]).idx() == i
}

/// The dense slot holding `id`.
pub open spec fn slot_in(ids: Seq<EntityId>, id: EntityId) -> int {
    choose|j: int| 0 <= j < ids.len() && ids[j] == id
}

/// No two dense slots hold ids with the same slot index.
pub open spec fn distinct_indices(ids: Seq<EntityId>) -> bool {
    forall|a: int, b: int|
        0 <= a < ids.len() && 0 <= b < ids.len() && a != b ==> (#[trigger] ids[a]).idx() != (#[trigger] ids[b]).idx()
}

/// Remove position `j` by moving the last element into it.
pub open spec fn swap_pop<A>(s: Seq<A>, j: int) -> Seq<A> {
    s.update(j, s.last()).drop_last()
}

/// The component stored for `id`, if any.
pub open spec fn lookup<T>(ids: Seq<EntityId>, values: Seq<T>, id: EntityId) -> Option<T> {
    if ids.contains(id) {
        Some(values[slot_in(ids, id)])
    } else {
        None
    }
}

pub proof fn lemma_slot_in_unique(ids: Seq<EntityId>, id: EntityId, j: int)
    requires
        distinct_indices(ids),
        0 <= j < ids.len(),
        ids[j] == id,
    ensures
        ids.contains(id),
        slot_in(ids, id) == j,
        holds_index(ids, id.idx()),
        index_slot(ids, id.idx()) == j,
{
    let k = slot_in(ids, id);
    assert(ids[j] == id);
    let m = index_slot(ids, id.idx());
    assert(ids[m].idx() == id.idx());
}

proof fn lemma_swap_pop_distinct(ids: Seq<EntityId>, j: int)
    requires
        distinct_indices(ids),
        0 <= j < ids.len(),
    ensures
        distinct_indices(swap_pop(ids, j)),
        forall|k: int|
            0 <= k < swap_pop(ids, j).len() ==> #[trigger] swap_pop(ids, j)[k] == ids[if k == j {
                ids.len() - 1
            } else {
                k
            }],
{
    let n = ids.len();
    let ids2 = swap_pop(ids, j);
    assert forall|a: int, b: int|
        0 <= a < ids2.len() && 0 <= b < ids2.len() && a != b implies (#[trigger] ids2[a]).idx()
        != (#[trigger] ids2[b]).idx() by {
        let oa = if a == j { n - 1 } else { a };
        let ob = if b == j { n - 1 } else { b };
        assert(ids2[a] == ids[oa]);
        assert(ids2[b] == ids[ob]);
    }
}

/// A sequence of ids with distinct slot indices, all below `n`, has at
/// most `n` elements.
pub proof fn lemma_len_bounded_by_indices(ids: Seq<EntityId>, n: nat)
    requires
        distinct_indices(ids),
        forall|j: int| 0 <= j < ids.len() ==> (#[trigger] ids[j]).idx() < n,
    ensures
        ids.len() <= n,
    decreases n,
{
    if n == 0 {
        if ids.len() > 0 {
            assert(ids[0].idx() < n);
        }
    } else if holds_index(ids, (n - 1) as u32) {
        let k = index_slot(ids, (n - 1) as u32);
        lemma_swap_pop_distinct(ids, k);
        let ids2 = swap_pop(ids, k);
        assert forall|j: int| 0 <= j < ids2.len() implies (#[trigger] ids2[j]).idx() < (n - 1) as nat by {
            let oj = if j == k { ids.len() - 1 } else { j };
            assert(ids2[j] == ids[oj]);
            assert(oj != k);
        }
        lemma_len_bounded_by_indices(ids2, (n - 1) as nat);
    } else {
        assert forall|j: int| 0 <= j < ids.len() implies (#[trigger] ids[j]).idx() < (n - 1) as nat by {
            if ids[j].idx() == n - 1 {
                assert(holds_index(ids, (n - 1) as u32));
            }
        }
        lemma_len_bounded_by_indices(ids, (n - 1) as nat);
    }
}

proof fn lemma_lookup_swap_pop<T>(ids: Seq<EntityId>, vals: Seq<T>, j: int, x: EntityId)
    requires
        distinct_indices(ids),
        ids.len() == vals.len(),
        0 <= j < ids.len(),
    ensures
        distinct_indices(swap_pop(ids, j)),
        swap_pop(ids, j).len() == swap_pop(vals, j).len(),
        lookup(swap_pop(ids, j), swap_pop(vals, j), x) == if x == ids[j] {
            None
        } else {
            lookup(ids, vals, x)
        },
{
    let n = ids.len();
    let ids2 = swap_pop(ids, j);
    let vals2 = swap_pop(vals, j);
    assert forall|a: int, b: int|
        0 <= a < ids2.len() && 0 <= b < ids2.len() && a != b implies (#[trigger] ids2[a]).idx()
        != (#[trigger] ids2[b]).idx() by {
        let oa = if a == j { n - 1 } else { a };
        let ob = if b == j { n - 1 } else { b };
        assert(ids2[a] == ids[oa]);
        assert(ids2[b] == ids[ob]);
    }
    if x == ids[j] {
        if ids2.contains(x) {
            let k = choose|k: int| 0 <= k < ids2.len() && ids2[k] == x;
            let ok = if k == j { n - 1 } else { k };
            assert(ids2[k] == ids[ok]);
        }
    } else if ids.contains(x) {
        let k = choose|k: int| 0 <= k < ids.len() && ids[k] == x;
        lemma_slot_in_unique(ids, x, k);
        let nk = if k == n - 1 { j } else { k };
        assert(ids2[nk] == x);
        lemma_slot_in_unique(ids2, x, nk);
    } else {
        if ids2.contains(x) {
            let k = choose|k: int| 0 <= k < ids2.len() && ids2[k] == x;
            let ok = if k == j { n - 1 } else { k };
            assert(ids2[k] == ids[ok]);
        }
    }
}

proof fn lemma_lookup_push<T>(ids: Seq<EntityId>, vals: Seq<T>, id: EntityId, v: T, x: EntityId)
    requires
        distinct_indices(ids),
        ids.len() == vals.len(),
        !holds_index(ids, id.idx()),
    ensures
        distinct_indices(ids.push(id)),
        lookup(ids.push(id), vals.push(v), x) == if x == id {
            Some(v)
        } else {
            lookup(ids, vals, x)
        },
{
    let n = ids.len();
    let ids2 = ids.push(id);
    assert forall|a: int, b: int|
        0 <= a < ids2.len() && 0 <= b < ids2.len() && a != b implies (#[trigger] ids2[a]).idx()
        != (#[trigger] ids2[b]).idx() by {
        if a == n {
            assert(ids2[b] == ids[b]);
        } else if b == n {
            assert(ids2[a] == ids[a]);
        }
    }
    if x == id {
        lemma_slot_in_unique(ids2, x, n as int);
    } else if ids.contains(x) {
        let k = choose|k: int| 0 <= k < ids.len() && ids[k] == x;
        lemma_slot_in_unique(ids, x, k);
        assert(ids2[k] == x);
        lemma_slot_in_unique(ids2, x, k);
    } else {
        if ids2.contains(x) {
            let k = choose|k: int| 0 <= k < ids2.len() && ids2[k] == x;
            assert(k < n);
            assert(ids[k] == x);
        }
    }
}

proof fn lemma_lookup_update<T>(ids: Seq<EntityId>, vals: Seq<T>, j: int, v: T, x: EntityId)
    requires
        distinct_indices(ids),
        ids.len() == vals.len(),
        0 <= j < ids.len(),
    ensures
        lookup(ids, vals.update(j, v), x) == if x == ids[j] {
            Some(v)
        } else {
            lookup(ids, vals, x)
        },
{
    if ids.contains(x) {
        let k = choose|k: int| 0 <= k < ids.len() && ids[k] == x;
        lemma_slot_in_unique(ids, x, k);
        if x == ids[j] {
            lemma_slot_in_unique(ids, x, j);
        }
    }
}

#[derive(Debug)]
pub struct SparseSet<T> {
    /// entity index -> dense slot, EMPTY if absent.
    sparse: Vec<u32>,
    /// dense slot -> owning entity.
    entities: Vec<EntityId>,
    dense: Vec<T>,
}

impl<T> Default for SparseSet<T> {
    fn default() -> (r: Self)
        ensures
            r.wf(),
            r.ids().len() == 0,
            r.values().len() == 0,
    {
        Self::new()
    }
}

impl<T> SparseSet<T> {
    /// Owners of the dense slots, in dense (iteration) order.
    pub closed spec fn ids(&self) -> Seq<EntityId> {
        self.entities@
    }

    /// Components of the dense slots, aligned with `ids()`.
    pub closed spec fn values(&self) -> Seq<T> {
        self.dense@
    }

    pub open spec fn spec_contains(&self, id: EntityId) -> bool {
        self.ids().contains(id)
    }

    pub open spec fn spec_get(&self, id: EntityId) -> Option<T> {
        lookup(self.ids(), self.values(), id)
    }

    pub open spec fn spec_len(&self) -> nat {
        self.ids().len()
    }

    /// Internal consistency of sparse and dense arrays.
    pub closed spec fn wf(&self) -> bool {
        &&& self.entities@.len() == self.dense@.len()
        &&& self.dense@.len() < EMPTY
        &&& forall|i: int|
            0 <= i < self.sparse@.len() && #[trigger] self.sparse@[i] != EMPTY ==> {
                &&& self.sparse@[i] < self.entities@.len()
                &&& self.entities@[self.sparse@[i] as int].idx() == i
            }
        &&& forall|j: int|
            0 <= j < self.entities@.len() ==> {
                &&& (#[trigger] self.entities@[j]).idx() < self.sparse@.len()
                &&& self.sparse@[self.entities@[j].idx() as int] == j
            }
    }

    pub proof fn lemma_wf_facts(&self)
        requires
            self.wf(),
        ensures
            self.values().len() == self.ids().len(),
            self.ids().len() < u32::MAX,
            distinct_indices(self.ids()),
    {
        assert forall|a: int, b: int|
            0 <= a < self.ids().len() && 0 <= b < self.ids().len() && a != b implies (#[trigger] self.ids()[a]).idx()
            != (#[trigger] self.ids()[b]).idx() by {
            assert(self.sparse@[self.entities@[a].idx() as int] == a);
            assert(self.sparse@[self.entities@[b].idx() as int] == b);
        }
    }

    pub fn new() -> (r: Self)
        ensures
            r.wf(),
            r.ids().len() == 0,
            r.values().len() == 0,
    {
        SparseSet { sparse: Vec::new(), entities: Vec::new(), dense: Vec::new() }
    }

    fn dense_index(&self, id: EntityId) -> (r: Option<usize>)
        requires
            self.wf(),
        ensures
            r.is_some() == self.spec_contains(id),
            r.is_some() ==> r.unwrap() < self.ids().len() && self.ids()[r.unwrap() as int] == id
                && slot_in(self.ids(), id) == r.unwrap(),
    {
        proof {
            self.lemma_wf_facts();
        }
        let i = id.index() as usize;
        if i >= self.sparse.len() {
            proof {
                if self.ids().contains(id) {
                    let j = choose|j: int| 0 <= j < self.ids().len() && self.ids()[j] == id;
                    assert(self.entities@[j].idx() < self.sparse@.len());
                }
            }
            return None;
        }
        let slot = self.sparse[i];
        if slot == EMPTY {
            proof {
                if self.ids().contains(id) {
                    let j = choose|j: int| 0 <= j < self.ids().len() && self.ids()[j] == id;
                    assert(self.sparse@[self.entities@[j].idx() as int] == j);
                }
            }
            return None;
        }
        if self.entities[slot as usize] == id {
            proof {
                lemma_slot_in_unique(self.ids(), id, slot as int);
            }
            Some(slot as usize)
        } else {
            proof {
                if self.ids().contains(id) {
                    let j = choose|j: int| 0 <= j < self.ids().len() && self.ids()[j] == id;
                    assert(self.sparse@[self.entities@[j].idx() as int] == j);
                }
            }
            None
        }
    }

    pub fn contains(&self, id: EntityId) -> (r: bool)
        requires
            self.wf(),
        ensures
            r == self.spec_contains(id),
    {
        self.dense_index(id).is_some()
    }

    pub fn get(&self, id: EntityId) -> (r: Option<&T>)
        requires
            self.wf(),
        ensures
            r.is_some() == self.spec_contains(id),
            r.is_some() ==> self.spec_get(id) == Some(*r.unwrap()),
            r.is_none() ==> self.spec_get(id).is_none(),
    {
        match self.dense_index(id) {
            Some(i) => Some(&self.dense[i]),
            None => None,
        }
    }

    /// Remove and return the entity's component, moving the last dense
    /// element into the vacated slot.
    pub fn remove(&mut self, id: EntityId) -> (r: Option<T>)
        requires
            old(self).wf(),
        ensures
            final(self).wf(),
            r == old(self).spec_get(id),
            old(self).spec_contains(id) ==> {
                let j = slot_in(old(self).ids(), id);
                &&& final(self).ids() == swap_pop(old(self).ids(), j)
                &&& final(self).values() == swap_pop(old(self).values(), j)
            },
            !old(self).spec_contains(id) ==> final(self).ids() == old(self).ids() && final(self).values()
                == old(self).values(),
            final(self).spec_get(id).is_none(),
            forall|x: EntityId| x != id ==> #[trigger] final(self).spec_get(x) == old(self).spec_get(x),
    {
        proof {
            self.lemma_wf_facts();
        }
        let slot = match self.dense_index(id) {
            Some(s) => s,
            None => return None,
        };
        let ghost old_sparse = self.sparse@;
        let ghost ids = self.entities@;
        let idx = id.index() as usize;
        self.sparse.set(idx, EMPTY);
        let last = self.dense.len() - 1;
        if slot != last {
            let moved = self.entities[last];
            self.sparse.set(moved.index() as usize, slot as u32);
        }
        self.entities.swap_remove(slot);
        let v = self.dense.swap_remove(slot);
        proof {
            let n = ids.len();
            assert(ids[slot as int].idx() == idx);
            assert forall|i: int|
                0 <= i < self.sparse@.len() && #[trigger] self.sparse@[i] != EMPTY implies {
                    &&& self.sparse@[i] < self.entities@.len()
                    &&& self.entities@[self.sparse@[i] as int].idx() == i
                } by {
                if i == ids[n - 1].idx() && slot != last {
                    assert(self.sparse@[i] == slot);
                } else {
                    assert(i != idx);
                    assert(self.sparse@[i] == old_sparse[i]);
                    let s = old_sparse[i];
                    assert(ids[s as int].idx() == i);
                    assert(s != slot);
                    assert(s != last);
                }
            }
            assert forall|j: int| 0 <= j < self.entities@.len() implies {
                &&& (#[trigger] self.entities@[j]).idx() < self.sparse@.len()
                &&& self.sparse@[self.entities@[j].idx() as int] == j
            } by {
                if j == slot {
                    assert(self.entities@[j] == ids[n - 1]);
                } else {
                    assert(self.entities@[j] == ids[j]);
                    assert(ids[j].idx() != idx);
                    assert(ids[j].idx() != ids[n - 1].idx());
                }
            }
            assert forall|x: EntityId| x != id implies #[trigger] self.spec_get(x) == old(self).spec_get(x) by {
                lemma_lookup_swap_pop(ids, old(self).values(), slot as int, x);
            }
            lemma_lookup_swap_pop(ids, old(self).values(), slot as int, id);
        }
        Some(v)
    }

    /// Insert or replace the component of `id`. Returns the previous value
    /// when `id` already had one. An entry left by a stale generation of
    /// the same slot index is evicted first, so it cannot linger in dense
    /// storage.
    pub fn insert(&mut self, id: EntityId, value: T) -> (r: Option<T>)
        requires
            old(self).wf(),
            old(self).spec_len() + 1 < u32::MAX,
        ensures
            final(self).wf(),
            r == old(self).spec_get(id),
            old(self).spec_contains(id) ==> {
                let j = slot_in(old(self).ids(), id);
                &&& final(self).ids() == old(self).ids()
                &&& final(self).values() == old(self).values().update(j, value)
            },
            !old(self).spec_contains(id) && holds_index(old(self).ids(), id.idx()) ==> {
                let j = index_slot(old(self).ids(), id.idx());
                &&& final(self).ids() == swap_pop(old(self).ids(), j).push(id)
                &&& final(self).values() == swap_pop(old(self).values(), j).push(value)
            },
            !holds_index(old(self).ids(), id.idx()) ==> {
                &&& final(self).ids() == old(self).ids().push(id)
                &&& final(self).values() == old(self).values().push(value)
            },
            final(self).spec_get(id) == Some(value),
            forall|x: EntityId|
                x != id ==> #[trigger] final(self).spec_get(x) == if x.idx() == id.idx() {
                    None
                } else {
                    old(self).spec_get(x)
                },
    {
        proof {
            self.lemma_wf_facts();
        }
        let index = id.index() as usize;
        if index < self.sparse.len() && self.sparse[index] != EMPTY {
            let slot = self.sparse[index] as usize;
            proof {
                lemma_slot_in_unique(self.ids(), self.entities@[slot as int], slot as int);
            }
            if self.entities[slot] == id {
                self.dense.push(value);
                let prev = self.dense.swap_remove(slot);
                proof {
                    assert(self.dense@ =~= old(self).dense@.update(slot as int, value));
                    assert forall|x: EntityId| x != id implies #[trigger] self.spec_get(x) == if x.idx() == id.idx() {
                        None
                    } else {
                        old(self).spec_get(x)
                    } by {
                        lemma_lookup_update(old(self).ids(), old(self).values(), slot as int, value, x);
                        if x.idx() == id.idx() && old(self).ids().contains(x) {
                            let k = choose|k: int| 0 <= k < old(self).ids().len() && old(self).ids()[k] == x;
                            assert(old(self).ids()[k].idx() == old(self).ids()[slot as int].idx());
                        }
                    }
                    lemma_lookup_update(old(self).ids(), old(self).values(), slot as int, value, id);
                }
                return Some(prev);
            }
            let stale = self.entities[slot];
            proof {
                if self.ids().contains(id) {
                    let j = choose|j: int| 0 <= j < self.ids().len() && self.ids()[j] == id;
                    assert(self.entities@[j].idx() == index);
                }
            }
            self.remove(stale);
        } else {
            proof {
                if holds_index(self.ids(), id.idx()) {
                    let j = choose|j: int| 0 <= j < self.ids().len() && (#[trigger] self.ids()[j]).idx() == id.idx();
                    assert(self.sparse@[self.entities@[j].idx() as int] == j);
                }
            }
        }
        proof {
            self.lemma_wf_facts();
            assert(!holds_index(self.ids(), id.idx())) by {
                if holds_index(self.ids(), id.idx()) {
                    let j = choose|j: int| 0 <= j < self.ids().len() && (#[trigger] self.ids()[j]).idx() == id.idx();
                    if holds_index(old(self).ids(), id.idx()) {
                        let k = index_slot(old(self).ids(), id.idx());
                        let n = old(self).ids().len();
                        if j == k {
                            assert(self.ids()[j] == old(self).ids()[n - 1]);
                        } else {
                            assert(self.ids()[j] == old(self).ids()[j]);
                        }
                    }
                }
            }
        }
        let ghost mid_sparse = self.sparse@;
        let ghost mid_ids = self.entities@;
        let ghost mid_dense = self.dense@;
        assert(self.wf());
        assert(self.dense@.len() + 1 < EMPTY);
        while self.sparse.len() <= index
            invariant
                self.entities@ == mid_ids,
                self.dense@ == mid_dense,
                mid_ids.len() == mid_dense.len(),
                mid_dense.len() + 1 < EMPTY,
                !holds_index(mid_ids, id.idx()),
                forall|i: int|
                    0 <= i < mid_sparse.len() && #[trigger] mid_sparse[i] != EMPTY ==> {
                        &&& mid_sparse[i] < mid_ids.len()
                        &&& mid_ids[mid_sparse[i] as int].idx() == i
                    },
                forall|j: int|
                    0 <= j < mid_ids.len() ==> {
                        &&& (#[trigger] mid_ids[j]).idx() < mid_sparse.len()
                        &&& mid_sparse[mid_ids[j].idx() as int] == j
                    },
                self.sparse@.len() >= mid_sparse.len(),
                forall|i: int| 0 <= i < mid_sparse.len() ==> self.sparse@[i] == mid_sparse[i],
                forall|i: int| mid_sparse.len() <= i < self.sparse@.len() ==> self.sparse@[i] == EMPTY,
            decreases index + 1 - self.sparse@.len(),
        {
            self.sparse.push(EMPTY);
        }
        let ghost pre_sparse = self.sparse@;
        let ghost pre_ids = self.entities@;
        proof {
            assert forall|i: int|
                0 <= i < pre_sparse.len() && #[trigger] pre_sparse[i] != EMPTY implies {
                &&& pre_sparse[i] < pre_ids.len()
                &&& pre_ids[pre_sparse[i] as int].idx() == i
            } by {
                assert(i < mid_sparse.len());
                assert(pre_sparse[i] == mid_sparse[i]);
                assert(mid_sparse[i] != EMPTY);
            }
            if pre_sparse[index as int] != EMPTY {
                assert(pre_ids[pre_sparse[index as int] as int].idx() == index);
            }
        }
        self.sparse.set(index, self.dense.len() as u32);
        self.entities.push(id);
        self.dense.push(value);
        proof {
            assert forall|i: int|
                0 <= i < self.sparse@.len() && #[trigger] self.sparse@[i] != EMPTY implies {
                    &&& self.sparse@[i] < self.entities@.len()
                    &&& self.entities@[self.sparse@[i] as int].idx() == i
                } by {
                if i != index {
                    assert(self.sparse@[i] == pre_sparse[i]);
                }
            }
            assert forall|j: int| 0 <= j < self.entities@.len() implies {
                &&& (#[trigger] self.entities@[j]).idx() < self.sparse@.len()
                &&& self.sparse@[self.entities@[j].idx() as int] == j
            } by {
                if j < pre_ids.len() {
                    assert(self.entities@[j] == pre_ids[j]);
                    assert(pre_ids[j].idx() != index);
                }
            }
            let oids = old(self).ids();
            let ovals = old(self).values();
            assert forall|x: EntityId| true implies #[trigger] self.spec_get(x) == if x == id {
                Some(value)
            } else if x.idx() == id.idx() {
                None
            } else {
                old(self).spec_get(x)
            } by {
                lemma_lookup_push(mid_ids, mid_dense, id, value, x);
                if holds_index(oids, id.idx()) {
                    lemma_lookup_swap_pop(oids, ovals, index_slot(oids, id.idx()), x);
                }
                if x != id && x.idx() == id.idx() && oids.contains(x) {
                    let k = choose|k: int| 0 <= k < oids.len() && oids[k] == x;
                    lemma_slot_in_unique(oids, x, k);
                }
            }
            assert(self.spec_get(id) == Some(value));
        }
        None
    }

    /// Mutable access to the component of `id`.
    pub fn get_mut(&mut self, id: EntityId) -> (r: Option<&mut T>)
        requires
            old(self).wf(),
        ensures
            r.is_some() == old(self).spec_contains(id),
            r.is_some() ==> {
                &&& old(self).spec_get(id) == Some(*r.unwrap())
                &&& final(self).ids() == old(self).ids()
                &&& final(self).values() == old(self).values().update(
                    slot_in(old(self).ids(), id),
                    *final(r.unwrap()),
                )
            },
            r.is_none() ==> *final(self) == *old(self),
            final(self).wf(),
    {
        match self.dense_index(id) {
            Some(i) => Some(&mut self.dense[i]),
            None => None,
        }
    }

    /// (owner, component) pairs in dense order.
    pub fn iter(&self) -> (r: Vec<(EntityId, &T)>)
        requires
            self.wf(),
        ensures
            r.len() == self.spec_len(),
            forall|k: int| 0 <= k < r.len() ==> (#[trigger] r@[k]).0 == self.ids()[k] && *r@[k].1 == self.values()[k],
    {
        let mut out: Vec<(EntityId, &T)> = Vec::new();
        let n = self.dense.len();
        let mut k: usize = 0;
        while k < n
            invariant
                self.wf(),
                n == self.spec_len(),
                n == self.values().len(),
                k <= n,
                out.len() == k,
                forall|m: int| 0 <= m < k ==> (#[trigger] out@[m]).0 == self.ids()[m] && *out@[m].1 == self.values()[m],
            decreases n - k,
        {
            out.push((self.entities[k], &self.dense[k]));
            k = k + 1;
        }
        out
    }

    /// Owner of dense slot `slot`.
    pub fn id_at(&self, slot: usize) -> (r: EntityId)
        requires
            self.wf(),
            slot < self.spec_len(),
        ensures
            r == self.ids()[slot as int],
    {
        self.entities[slot]
    }

    /// Mutable access to the component in dense slot `slot`; the dense walk
    /// that systems use to update every component in place.
    pub fn value_at_mut(&mut self, slot: usize) -> (r: &mut T)
        requires
            old(self).wf(),
            slot < old(self).spec_len(),
        ensures
            *r == old(self).values()[slot as int],
            final(self).ids() == old(self).ids(),
            final(self).values() == old(self).values().update(slot as int, *final(r)),
            final(self).wf(),
    {
        proof {
            self.lemma_wf_facts();
        }
        &mut self.dense[slot]
    }

    pub fn len(&self) -> (r: usize)
        requires
            self.wf(),
        ensures
            r == self.spec_len(),
    {
        self.dense.len()
    }

    pub fn is_empty(&self) -> (r: bool)
        requires
            self.wf(),
        ensures
            r == (self.spec_len() == 0),
    {
        self.dense.len() == 0
    }

    pub fn clear(&mut self)
        ensures
            final(self).wf(),
            final(self).ids().len() == 0,
            final(self).values().len() == 0,
    {
        self.sparse.clear();
        self.entities.clear();
        self.dense.clear();
    }
}

} // verus!
