//! Generational entity allocator.
//!
//! An [`EntityId`] is a slot index plus a generation counter. Deallocating
//! bumps the slot's generation and recycles the index through a free list,
//! so a handle from an earlier lifetime of a slot never aliases its new
//! occupant.

use vstd::prelude::*;

verus! {

/// Handle to an entity: slot index and generation.
#[derive(Debug, Clone, Copy, PartialEq, Eq, Hash, Structural)]
pub struct EntityId {
    pub(crate) index: u32,
    pub(crate) generation: u32,
}

impl EntityId {
    /// Slot index of the handle.
    pub closed spec fn idx(self) -> u32 {
        self.index
    }

    /// Generation of the handle.
    pub closed spec fn generation_of(self) -> u32 {
        self.generation
    }

    /// Two handles are the same handle when index and generation agree.
    pub proof fn lemma_ext(a: EntityId, b: EntityId)
        ensures
            (a.idx() == b.idx() && a.generation_of() == b.generation_of()) <==> a == b,
    {
    }

    pub fn index(self) -> (r: u32)
        ensures
            r == self.idx(),
    {
        self.index
    }

    pub fn generation(self) -> (r: u32)
        ensures
            r == self.generation_of(),
    {
        self.generation
    }
}

} // verus!

verus! {

/// Number of `true` flags in `s`: the live slots of an allocator.
pub open spec fn count_alive(s: Seq<bool>) -> nat
    decreases s.len(),
{
    if s.len() == 0 {
        0
    } else {
        count_alive(s.drop_last()) + if s.last() {
            1nat
        } else {
            0nat
        }
    }
}

proof fn lemma_count_le_len(s: Seq<bool>)
    ensures
        count_alive(s) <= s.len(),
    decreases s.len(),
{
    if s.len() > 0 {
        lemma_count_le_len(s.drop_last());
    }
}

proof fn lemma_count_push(s: Seq<bool>, b: bool)
    ensures
        count_alive(s.push(b)) == count_alive(s) + if b {
            1nat
        } else {
            0nat
        },
{
    assert(s.push(b).drop_last() =~= s);
}

proof fn lemma_count_update(s: Seq<bool>, i: int, b: bool)
    requires
        0 <= i < s.len(),
    ensures
        count_alive(s.update(i, b)) + (if s[i] {
            1nat
        } else {
            0nat
        }) == count_alive(s) + if b {
            1nat
        } else {
            0nat
        },
    decreases s.len(),
{
    if i == s.len() - 1 {
        assert(s.update(i, b).drop_last() =~= s.drop_last());
    } else {
        lemma_count_update(s.drop_last(), i, b);
        assert(s.update(i, b).drop_last() =~= s.drop_last().update(i, b));
    }
}

proof fn lemma_count_empty(n: nat)
    ensures
        count_alive(Seq::<bool>::new(n, |i: int| false)) == 0,
    decreases n,
{
    if n > 0 {
        assert(Seq::<bool>::new(n, |i: int| false).drop_last() =~= Seq::<bool>::new(
            (n - 1) as nat,
            |i: int| false,
        ));
        lemma_count_empty((n - 1) as nat);
    }
}

/// Allocates entity slots, recycling indices through a LIFO free list.
pub struct EntityAllocator {
    generations: Vec<u32>,
    alive: Vec<bool>,
    free: Vec<u32>,
    live_count: usize,
    /// Slot indices handed out by `allocate` since `new` or the last
    /// `clear`.
    handed: Ghost<Set<u32>>,
}

impl Default for EntityAllocator {
    /// An allocator with no slots, as [`EntityAllocator::new`].
    fn default() -> (r: Self)
        ensures
            r.wf(),
            r.slots() == 0,
            r.free_list().len() == 0,
            r.live() == 0,
            r.handed_out().is_empty(),
    {
        Self::new()
    }
}

impl EntityAllocator {
    /// Generation per slot.
    pub closed spec fn generations(&self) -> Seq<u32> {
        self.generations@
    }

    /// Liveness per slot.
    pub closed spec fn alive_flags(&self) -> Seq<bool> {
        self.alive@
    }

    /// Recycled slot indices; the last one is reused first.
    pub closed spec fn free_list(&self) -> Seq<u32> {
        self.free@
    }

    /// Slot indices handed out by `allocate` since the allocator was made
    /// or last cleared.
    pub closed spec fn handed_out(&self) -> Set<u32> {
        self.handed@
    }

    /// Number of slots ever allocated (since the last `clear`).
    pub open spec fn slots(&self) -> nat {
        self.generations().len()
    }

    /// Number of live entities.
    pub open spec fn live(&self) -> nat {
        count_alive(self.alive_flags())
    }

    /// `id` names the current occupant of a live slot.
    pub open spec fn spec_is_alive(&self, id: EntityId) -> bool {
        &&& id.idx() < self.slots()
        &&& self.alive_flags()[id.idx() as int]
        &&& self.generations()[id.idx() as int] == id.generation_of()
    }

    /// `id` belongs to an earlier lifetime of its slot: the slot's
    /// generation has moved past it.
    pub open spec fn retired(&self, id: EntityId) -> bool {
        &&& id.idx() < self.slots()
        &&& self.generations()[id.idx() as int] > id.generation_of()
    }

    /// Internal consistency of the allocator.
    pub closed spec fn wf(&self) -> bool {
        &&& self.generations@.len() == self.alive@.len()
        &&& self.generations@.len() <= u32::MAX as nat + 1
        &&& self.live_count as nat == count_alive(self.alive@)
        &&& self.free@.no_duplicates()
        &&& forall|k: int|
            0 <= k < self.free@.len() ==> {
                &&& (#[trigger] self.free@[k]) < self.alive@.len()
                &&& !self.alive@[self.free@[k] as int]
            }
        &&& forall|i: int| 0 <= i < self.alive@.len() && !#[trigger] self.alive@[i] ==> self.free@.contains(i as u32)
        &&& self.free@.len() + count_alive(self.alive@) == self.alive@.len()
        &&& forall|i: u32| #[trigger] self.handed@.contains(i) <==> (i as int) < self.alive@.len()
    }

    /// The allocator can hand out one more id without running out of
    /// 32-bit slot indices.
    pub open spec fn can_allocate(&self) -> bool {
        self.free_list().len() > 0 || self.slots() <= u32::MAX as nat
    }

    pub proof fn lemma_wf_facts(&self)
        requires
            self.wf(),
        ensures
            self.alive_flags().len() == self.slots(),
            self.live() <= self.slots(),
            self.slots() <= u32::MAX as nat + 1,
            forall|k: int|
                0 <= k < self.free_list().len() ==> {
                    &&& (#[trigger] self.free_list()[k]) < self.slots()
                    &&& !self.alive_flags()[self.free_list()[k] as int]
                },
            // Every slot below the slot count has been handed out: it is
            // live now, or it was freed and waits on the free list.
            forall|i: int|
                0 <= i < self.slots() ==> #[trigger] self.alive_flags()[i] || self.free_list().contains(i as u32),
            self.free_list().len() + self.live() == self.slots(),
            self.free_list().no_duplicates(),
    {
        lemma_count_le_len(self.alive@);
    }

    /// The slot count is one more than the highest slot index handed out
    /// since the allocator was made or last cleared, and 0 when none was:
    /// the indices handed out are exactly those below the count.
    pub proof fn lemma_slot_count(&self)
        requires
            self.wf(),
        ensures
            forall|i: u32| #[trigger] self.handed_out().contains(i) <==> (i as int) < self.slots(),
            self.slots() == 0 <==> self.handed_out().is_empty(),
            self.slots() > 0 ==> self.handed_out().contains((self.slots() - 1) as u32),
    {
        if self.slots() == 0 {
            assert(self.handed_out() =~= Set::<u32>::empty());
        } else {
            assert(self.handed_out().contains((self.slots() - 1) as u32));
        }
    }

    pub fn new() -> (r: Self)
        ensures
            r.wf(),
            r.handed_out().is_empty(),
            r.slots() == 0,
            r.free_list().len() == 0,
            r.live() == 0,
    {
        EntityAllocator {
            generations: Vec::new(),
            alive: Vec::new(),
            free: Vec::new(),
            live_count: 0,
            handed: Ghost(Set::empty()),
        }
    }

    /// Hand out a live id: the most recently freed slot (keeping its bumped
    /// generation) if any, otherwise a fresh slot at generation 0.
    pub fn allocate(&mut self) -> (id: EntityId)
        requires
            old(self).wf(),
            old(self).can_allocate(),
        ensures
            final(self).wf(),
            old(self).free_list().len() > 0 ==> {
                &&& id.idx() == old(self).free_list().last()
                &&& id.generation_of() == old(self).generations()[id.idx() as int]
                &&& final(self).generations() == old(self).generations()
                &&& final(self).alive_flags() == old(self).alive_flags().update(id.idx() as int, true)
                &&& final(self).free_list() == old(self).free_list().drop_last()
            },
            old(self).free_list().len() == 0 ==> {
                &&& id.idx() == old(self).slots()
                &&& id.generation_of() == 0
                &&& final(self).generations() == old(self).generations().push(0)
                &&& final(self).alive_flags() == old(self).alive_flags().push(true)
                &&& final(self).free_list() == old(self).free_list()
            },
            final(self).handed_out() == old(self).handed_out().insert(id.idx()),
            final(self).slots() == if old(self).live() == old(self).slots() {
                old(self).slots() + 1
            } else {
                old(self).slots()
            },
            !old(self).spec_is_alive(id),
            final(self).spec_is_alive(id),
            final(self).live() == old(self).live() + 1,
            forall|x: EntityId| x != id ==> final(self).spec_is_alive(x) == old(self).spec_is_alive(x),
            forall|x: EntityId| old(self).retired(x) ==> #[trigger] final(self).retired(x),
    {
        proof {
            self.lemma_wf_facts();
        }
        if let Some(index) = self.free.pop() {
            proof {
                assert(old(self).free@.last() == index);
                lemma_count_update(self.alive@, index as int, true);
                lemma_count_le_len(self.alive@.update(index as int, true));
            }
            self.alive.set(index as usize, true);
            proof {
                assert(self.alive@.len() == self.alive.len());
            }
            self.live_count = self.live_count + 1;
            let id = EntityId { index, generation: self.generations[index as usize] };
            proof {
                assert forall|k: int| 0 <= k < self.free@.len() implies {
                    &&& (#[trigger] self.free@[k]) < self.alive@.len()
                    &&& !self.alive@[self.free@[k] as int]
                } by {
                    assert(self.free@[k] == old(self).free@[k]);
                    assert(old(self).free@[k] != old(self).free@[old(self).free@.len() - 1]);
                }
                assert forall|i: int| 0 <= i < self.alive@.len() && !#[trigger] self.alive@[i] implies self.free@.contains(
                    i as u32,
                ) by {
                    assert(old(self).free@.contains(i as u32));
                    let k = choose|k: int| 0 <= k < old(self).free@.len() && old(self).free@[k] == i as u32;
                    assert(k != old(self).free@.len() - 1);
                    assert(self.free@[k] == i as u32);
                }
                assert forall|x: EntityId| x != id implies final(self).spec_is_alive(x) == old(self).spec_is_alive(x) by {
                    EntityId::lemma_ext(x, id);
                }
            }
            id
        } else {
            let index = self.generations.len() as u32;
            proof {
                lemma_count_push(self.alive@, true);
                lemma_count_le_len(self.alive@.push(true));
            }
            self.generations.push(0);
            self.alive.push(true);
            proof {
                self.handed@ = self.handed@.insert(index);
            }
            proof {
                assert(self.alive@.len() == self.alive.len());
                assert forall|i: int| 0 <= i < self.alive@.len() && !#[trigger] self.alive@[i] implies self.free@.contains(
                    i as u32,
                ) by {
                    assert(old(self).alive@[i] == self.alive@[i]);
                }
            }
            self.live_count = self.live_count + 1;
            EntityId { index, generation: 0 }
        }
    }

    /// Free the slot of a live id. Returns false, changing nothing, when the
    /// id was already stale.
    pub fn deallocate(&mut self, id: EntityId) -> (r: bool)
        requires
            old(self).wf(),
            old(self).spec_is_alive(id) ==> id.generation_of() < u32::MAX,
        ensures
            final(self).wf(),
            r == old(self).spec_is_alive(id),
            r ==> {
                &&& final(self).generations() == old(self).generations().update(
                    id.idx() as int,
                    (id.generation_of() + 1) as u32,
                )
                &&& final(self).alive_flags() == old(self).alive_flags().update(id.idx() as int, false)
                &&& final(self).free_list() == old(self).free_list().push(id.idx())
                &&& final(self).live() + 1 == old(self).live()
                &&& final(self).retired(id)
            },
            !r ==> *final(self) == *old(self),
            final(self).handed_out() == old(self).handed_out(),
            !final(self).spec_is_alive(id),
            forall|x: EntityId| x != id ==> final(self).spec_is_alive(x) == old(self).spec_is_alive(x),
            forall|x: EntityId| old(self).retired(x) ==> #[trigger] final(self).retired(x),
    {
        if !self.is_alive(id) {
            return false;
        }
        proof {
            lemma_count_update(self.alive@, id.index as int, false);
        }
        let i = id.index as usize;
        self.alive.set(i, false);
        self.generations.set(i, id.generation + 1);
        self.free.push(id.index);
        self.live_count = self.live_count - 1;
        proof {
            assert forall|k: int| 0 <= k < self.free@.len() implies {
                &&& (#[trigger] self.free@[k]) < self.alive@.len()
                &&& !self.alive@[self.free@[k] as int]
            } by {
                if k < old(self).free@.len() {
                    assert(self.free@[k] == old(self).free@[k]);
                }
            }
            assert(self.free@.no_duplicates()) by {
                assert forall|a: int, b: int|
                    0 <= a < self.free@.len() && 0 <= b < self.free@.len() && a != b implies self.free@[a]
                    != self.free@[b] by {
                    if a < old(self).free@.len() && b < old(self).free@.len() {
                        assert(old(self).free@[a] != old(self).free@[b]);
                    } else if a < old(self).free@.len() {
                        assert(!old(self).alive@[old(self).free@[a] as int]);
                    } else {
                        assert(!old(self).alive@[old(self).free@[b] as int]);
                    }
                }
            }
            assert forall|j: int| 0 <= j < self.alive@.len() && !#[trigger] self.alive@[j] implies self.free@.contains(
                j as u32,
            ) by {
                if j == i {
                    assert(self.free@[self.free@.len() - 1] == j as u32);
                } else {
                    assert(old(self).free@.contains(j as u32));
                    let k = choose|k: int| 0 <= k < old(self).free@.len() && old(self).free@[k] == j as u32;
                    assert(self.free@[k] == j as u32);
                }
            }
            assert forall|x: EntityId| x != id implies final(self).spec_is_alive(x) == old(self).spec_is_alive(x) by {
                EntityId::lemma_ext(x, id);
            }
        }
        true
    }

    pub fn is_alive(&self, id: EntityId) -> (r: bool)
        requires
            self.wf(),
        ensures
            r == self.spec_is_alive(id),
    {
        let i = id.index as usize;
        if i < self.alive.len() {
            self.alive[i] && self.generations[i] == id.generation
        } else {
            false
        }
    }

    pub fn len(&self) -> (r: usize)
        requires
            self.wf(),
        ensures
            r == self.live(),
    {
        self.live_count
    }

    pub fn is_empty(&self) -> (r: bool)
        requires
            self.wf(),
        ensures
            r == (self.live() == 0),
    {
        self.live_count == 0
    }

    /// Capacity of the sparse arrays (highest index ever allocated + 1).
    pub fn slot_count(&self) -> (r: usize)
        requires
            self.wf(),
        ensures
            r == self.slots(),
    {
        self.generations.len()
    }

    /// Forget every slot. Handles from before the call are no longer
    /// distinguishable from new ones.
    pub fn clear(&mut self)
        requires
            old(self).wf(),
        ensures
            final(self).wf(),
            final(self).slots() == 0,
            final(self).free_list().len() == 0,
            final(self).live() == 0,
            final(self).handed_out().is_empty(),
    {
        self.generations.clear();
        self.alive.clear();
        self.free.clear();
        self.live_count = 0;
        self.handed = Ghost(Set::empty());
    }

    /// Live entity ids in slot order.
    pub fn iter(&self) -> (r: Vec<EntityId>)
        requires
            self.wf(),
        ensures
            forall|k: int| 0 <= k < r.len() ==> self.spec_is_alive(#[trigger] r@[k]),
            forall|a: int, b: int| 0 <= a < b < r.len() ==> (#[trigger] r@[a]).idx() < (#[trigger] r@[b]).idx(),
            forall|i: int|
                0 <= i < self.slots() && #[trigger] self.alive_flags()[i] ==> exists|k: int|
                    0 <= k < r.len() && (#[trigger] r@[k]).idx() == i,
    {
        let mut out: Vec<EntityId> = Vec::new();
        let n = self.alive.len();
        let mut i: usize = 0;
        while i < n
            invariant
                self.wf(),
                n == self.alive@.len(),
                i <= n,
                forall|k: int| 0 <= k < out.len() ==> self.spec_is_alive(#[trigger] out@[k]),
                forall|k: int| 0 <= k < out.len() ==> (#[trigger] out@[k]).idx() < i,
                forall|a: int, b: int| 0 <= a < b < out.len() ==> (#[trigger] out@[a]).idx() < (#[trigger] out@[b]).idx(),
                forall|j: int|
                    0 <= j < i && #[trigger] self.alive@[j] ==> exists|k: int|
                        0 <= k < out.len() && (#[trigger] out@[k]).idx() == j,
            decreases n - i,
        {
            let ghost prev = out@;
            if self.alive[i] {
                let id = EntityId { index: i as u32, generation: self.generations[i] };
                out.push(id);
                proof {
                    assert(out@[out.len() - 1] == id);
                }
            }
            proof {
                assert forall|j: int|
                    0 <= j < i + 1 && #[trigger] self.alive@[j] implies exists|k: int|
                        0 <= k < out.len() && (#[trigger] out@[k]).idx() == j by {
                    if j < i {
                        let k = choose|k: int| 0 <= k < prev.len() && (#[trigger] prev[k]).idx() == j;
                        assert(out@[k] == prev[k]);
                    } else {
                        assert(out@[out.len() - 1].idx() == j);
                    }
                }
            }
            i = i + 1;
        }
        out
    }
}

} // verus!
