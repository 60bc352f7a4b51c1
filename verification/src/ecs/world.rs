//! World: entity allocator plus one sparse set per component type.
//!
//! The roster is fixed: every live entity has a name and a transform;
//! velocity and sprite are optional. The transform and velocity payloads
//! are type parameters — the world's bookkeeping never looks inside them —
//! so the movement integrator lives with the numeric types that fill them.

use vstd::prelude::*;

use super::entity::{EntityAllocator, EntityId};
use super::sparse_set::{lemma_len_bounded_by_indices, SparseSet};
use super::Sprite;

verus! {

pub struct World<T, V> {
    allocator: EntityAllocator,
    names: SparseSet<String>,
    transforms: SparseSet<T>,
    velocities: SparseSet<V>,
    sprites: SparseSet<Sprite>,
}

/// Every key of `store` names a live entity of `allocator`.
pub open spec fn keys_live(ids: Seq<EntityId>, allocator: EntityAllocator) -> bool {
    forall|id: EntityId| #[trigger] ids.contains(id) ==> allocator.spec_is_alive(id)
}

/// The keys of `store` are exactly the live entities of `allocator`.
pub open spec fn keys_exactly_live(ids: Seq<EntityId>, allocator: EntityAllocator) -> bool {
    forall|id: EntityId|
        #![trigger ids.contains(id)]
        #![trigger allocator.spec_is_alive(id)]
        ids.contains(id) <==> allocator.spec_is_alive(id)
}

impl<T, V> Default for World<T, V> {
    fn default() -> (r: Self)
        ensures
            r.wf(),
            r.allocator_view().slots() == 0,
            r.live() == 0,
    {
        Self::new()
    }
}

impl<T, V> World<T, V> {
    pub closed spec fn allocator_view(&self) -> EntityAllocator {
        self.allocator
    }

    pub closed spec fn name_store(&self) -> SparseSet<String> {
        self.names
    }

    pub closed spec fn transform_store(&self) -> SparseSet<T> {
        self.transforms
    }

    pub closed spec fn velocity_store(&self) -> SparseSet<V> {
        self.velocities
    }

    pub closed spec fn sprite_store(&self) -> SparseSet<Sprite> {
        self.sprites
    }

    pub open spec fn spec_is_alive(&self, id: EntityId) -> bool {
        self.allocator_view().spec_is_alive(id)
    }

    pub open spec fn live(&self) -> nat {
        self.allocator_view().live()
    }

    /// The world can spawn one more entity without running out of 32-bit
    /// slot indices or dense slots.
    pub open spec fn can_spawn(&self) -> bool {
        self.allocator_view().slots() + 1 < u32::MAX as nat
    }

    pub closed spec fn wf(&self) -> bool {
        &&& self.allocator.wf()
        &&& self.names.wf()
        &&& self.transforms.wf()
        &&& self.velocities.wf()
        &&& self.sprites.wf()
        &&& keys_exactly_live(self.names.ids(), self.allocator)
        &&& keys_exactly_live(self.transforms.ids(), self.allocator)
        &&& keys_live(self.velocities.ids(), self.allocator)
        &&& keys_live(self.sprites.ids(), self.allocator)
    }

    /// What the world invariant says about the stores.
    pub proof fn lemma_roster(&self)
        requires
            self.wf(),
        ensures
            keys_exactly_live(self.name_store().ids(), self.allocator_view()),
            keys_exactly_live(self.transform_store().ids(), self.allocator_view()),
            keys_live(self.velocity_store().ids(), self.allocator_view()),
            keys_live(self.sprite_store().ids(), self.allocator_view()),
    {
    }

    proof fn lemma_store_room<C>(store: SparseSet<C>, allocator: EntityAllocator)
        requires
            store.wf(),
            allocator.wf(),
            keys_live(store.ids(), allocator),
        ensures
            store.spec_len() <= allocator.slots(),
    {
        store.lemma_wf_facts();
        assert forall|j: int| 0 <= j < store.ids().len() implies (#[trigger] store.ids()[j]).idx() < allocator.slots() by {
            assert(store.ids().contains(store.ids()[j]));
        }
        lemma_len_bounded_by_indices(store.ids(), allocator.slots());
    }

    pub fn new() -> (r: Self)
        ensures
            r.wf(),
            r.allocator_view().slots() == 0,
            r.live() == 0,
            forall|id: EntityId| !r.spec_is_alive(id),
    {
        World {
            allocator: EntityAllocator::new(),
            names: SparseSet::new(),
            transforms: SparseSet::new(),
            velocities: SparseSet::new(),
            sprites: SparseSet::new(),
        }
    }

    /// Spawn a live entity with `name` and `transform` and no optional
    /// components.
    pub fn spawn_with(&mut self, name: String, transform: T) -> (id: EntityId)
        requires
            old(self).wf(),
            old(self).can_spawn(),
        ensures
            final(self).wf(),
            !old(self).spec_is_alive(id),
            final(self).spec_is_alive(id),
            final(self).live() == old(self).live() + 1,
            old(self).allocator_view().free_list().len() > 0 ==> {
                &&& id.idx() == old(self).allocator_view().free_list().last()
                &&& id.generation_of() == old(self).allocator_view().generations()[id.idx() as int]
                &&& final(self).allocator_view().free_list() == old(self).allocator_view().free_list().drop_last()
                &&& final(self).allocator_view().slots() == old(self).allocator_view().slots()
            },
            old(self).allocator_view().free_list().len() == 0 ==> {
                &&& id.idx() == old(self).allocator_view().slots()
                &&& id.generation_of() == 0
                &&& final(self).allocator_view().slots() == old(self).allocator_view().slots() + 1
            },
            forall|x: EntityId| old(self).allocator_view().retired(x) ==> #[trigger] final(self).allocator_view().retired(x),
            forall|x: EntityId| x != id ==> final(self).spec_is_alive(x) == old(self).spec_is_alive(x),
            final(self).name_store().spec_get(id) == Some(name),
            final(self).transform_store().spec_get(id) == Some(transform),
            final(self).velocity_store().spec_get(id).is_none(),
            final(self).sprite_store().spec_get(id).is_none(),
            forall|x: EntityId|
                x != id ==> {
                    &&& #[trigger] final(self).name_store().spec_get(x) == old(self).name_store().spec_get(x)
                    &&& final(self).transform_store().spec_get(x) == old(self).transform_store().spec_get(x)
                    &&& final(self).velocity_store().spec_get(x) == old(self).velocity_store().spec_get(x)
                    &&& final(self).sprite_store().spec_get(x) == old(self).sprite_store().spec_get(x)
                },
    {
        proof {
            Self::lemma_store_room(self.names, self.allocator);
            Self::lemma_store_room(self.transforms, self.allocator);
            self.allocator.lemma_wf_facts();
        }
        let id = self.allocator.allocate();
        proof {
            // No store holds an entry at the fresh id's slot index: such an
            // entry would be live, and the slot was free.
            assert forall|x: EntityId| x.idx() == id.idx() implies !old(self).names.ids().contains(x)
                && !old(self).transforms.ids().contains(x) && !old(self).velocities.ids().contains(x)
                && !old(self).sprites.ids().contains(x) by {
                if old(self).allocator.spec_is_alive(x) {
                    EntityId::lemma_ext(x, id);
                    if old(self).allocator.free_list().len() > 0 {
                        let k = old(self).allocator.free_list().len() - 1;
                        assert(old(self).allocator.free_list()[k] == id.idx());
                    }
                }
            }
            assert(!super::sparse_set::holds_index(old(self).names.ids(), id.idx())) by {
                if super::sparse_set::holds_index(old(self).names.ids(), id.idx()) {
                    let j = choose|j: int| 0 <= j < old(self).names.ids().len() && (#[trigger] old(self).names.ids()[j]).idx() == id.idx();
                    assert(old(self).names.ids().contains(old(self).names.ids()[j]));
                }
            }
            assert(!super::sparse_set::holds_index(old(self).transforms.ids(), id.idx())) by {
                if super::sparse_set::holds_index(old(self).transforms.ids(), id.idx()) {
                    let j = choose|j: int| 0 <= j < old(self).transforms.ids().len() && (#[trigger] old(self).transforms.ids()[j]).idx() == id.idx();
                    assert(old(self).transforms.ids().contains(old(self).transforms.ids()[j]));
                }
            }
        }
        self.names.insert(id, name);
        self.transforms.insert(id, transform);
        proof {
            assert forall|x: EntityId|
                #![trigger self.names.ids().contains(x)]
                #![trigger self.allocator.spec_is_alive(x)]
                self.names.ids().contains(x) <==> self.allocator.spec_is_alive(x) by {
                if x != id && x.idx() == id.idx() {
                    assert(self.names.spec_get(x).is_none());
                    assert(!old(self).allocator.spec_is_alive(x) || x == id) by {
                        if old(self).allocator.spec_is_alive(x) {
                            assert(old(self).names.ids().contains(x));
                        }
                    }
                }
                if x != id {
                    assert(self.names.spec_get(x) == old(self).names.spec_get(x) || x.idx() == id.idx());
                }
            }
            assert forall|x: EntityId|
                #![trigger self.transforms.ids().contains(x)]
                #![trigger self.allocator.spec_is_alive(x)]
                self.transforms.ids().contains(x) <==> self.allocator.spec_is_alive(x) by {
                if x != id && x.idx() == id.idx() {
                    assert(self.transforms.spec_get(x).is_none());
                    assert(!old(self).allocator.spec_is_alive(x) || x == id) by {
                        if old(self).allocator.spec_is_alive(x) {
                            assert(old(self).transforms.ids().contains(x));
                        }
                    }
                }
            }
            assert forall|x: EntityId| #[trigger] self.velocities.ids().contains(x) implies self.allocator.spec_is_alive(x) by {
                assert(old(self).velocities.ids().contains(x));
            }
            assert forall|x: EntityId| #[trigger] self.sprites.ids().contains(x) implies self.allocator.spec_is_alive(x) by {
                assert(old(self).sprites.ids().contains(x));
            }
            assert(!old(self).velocities.ids().contains(id));
            assert(!old(self).sprites.ids().contains(id));
            assert forall|x: EntityId| x != id implies {
                &&& #[trigger] self.names.spec_get(x) == old(self).names.spec_get(x)
                &&& self.transforms.spec_get(x) == old(self).transforms.spec_get(x)
            } by {
                if x.idx() == id.idx() {
                    assert(!old(self).names.ids().contains(x));
                    assert(!old(self).transforms.ids().contains(x));
                }
            }
        }
        id
    }

    /// Spawn a live entity with `name`, the default transform, and no
    /// optional components.
    pub fn spawn(&mut self, name: String) -> (id: EntityId)
        where T: Default
        requires
            old(self).wf(),
            old(self).can_spawn(),
        ensures
            final(self).wf(),
            !old(self).spec_is_alive(id),
            final(self).spec_is_alive(id),
            final(self).live() == old(self).live() + 1,
            old(self).allocator_view().free_list().len() > 0 ==> {
                &&& id.idx() == old(self).allocator_view().free_list().last()
                &&& id.generation_of() == old(self).allocator_view().generations()[id.idx() as int]
                &&& final(self).allocator_view().free_list() == old(self).allocator_view().free_list().drop_last()
                &&& final(self).allocator_view().slots() == old(self).allocator_view().slots()
            },
            old(self).allocator_view().free_list().len() == 0 ==> {
                &&& id.idx() == old(self).allocator_view().slots()
                &&& id.generation_of() == 0
                &&& final(self).allocator_view().slots() == old(self).allocator_view().slots() + 1
            },
            forall|x: EntityId| old(self).allocator_view().retired(x) ==> #[trigger] final(self).allocator_view().retired(x),
            forall|x: EntityId| x != id ==> final(self).spec_is_alive(x) == old(self).spec_is_alive(x),
            final(self).name_store().spec_get(id) == Some(name),
            final(self).transform_store().spec_contains(id),
            final(self).velocity_store().spec_get(id).is_none(),
            final(self).sprite_store().spec_get(id).is_none(),
            forall|x: EntityId|
                x != id ==> {
                    &&& #[trigger] final(self).name_store().spec_get(x) == old(self).name_store().spec_get(x)
                    &&& final(self).transform_store().spec_get(x) == old(self).transform_store().spec_get(x)
                    &&& final(self).velocity_store().spec_get(x) == old(self).velocity_store().spec_get(x)
                    &&& final(self).sprite_store().spec_get(x) == old(self).sprite_store().spec_get(x)
                },
    {
        let t = T::default();
        self.spawn_with(name, t)
    }

    /// Despawn the entity, removing all its components. Returns false,
    /// changing nothing, when the id was already stale.
    pub fn despawn(&mut self, id: EntityId) -> (r: bool)
        requires
            old(self).wf(),
            old(self).spec_is_alive(id) ==> id.generation_of() < u32::MAX,
        ensures
            final(self).wf(),
            r == old(self).spec_is_alive(id),
            !r ==> *final(self) == *old(self),
            r ==> final(self).live() + 1 == old(self).live(),
            r ==> final(self).allocator_view().free_list() == old(self).allocator_view().free_list().push(id.idx()),
            r ==> final(self).allocator_view().generations() == old(self).allocator_view().generations().update(
                id.idx() as int,
                (id.generation_of() + 1) as u32,
            ),
            final(self).allocator_view().slots() == old(self).allocator_view().slots(),
            !final(self).spec_is_alive(id),
            r ==> final(self).allocator_view().retired(id),
            forall|x: EntityId| old(self).allocator_view().retired(x) ==> #[trigger] final(self).allocator_view().retired(x),
            forall|x: EntityId| x != id ==> final(self).spec_is_alive(x) == old(self).spec_is_alive(x),
            final(self).name_store().spec_get(id).is_none(),
            final(self).transform_store().spec_get(id).is_none(),
            final(self).velocity_store().spec_get(id).is_none(),
            final(self).sprite_store().spec_get(id).is_none(),
            forall|x: EntityId|
                x != id ==> {
                    &&& #[trigger] final(self).name_store().spec_get(x) == old(self).name_store().spec_get(x)
                    &&& final(self).transform_store().spec_get(x) == old(self).transform_store().spec_get(x)
                    &&& final(self).velocity_store().spec_get(x) == old(self).velocity_store().spec_get(x)
                    &&& final(self).sprite_store().spec_get(x) == old(self).sprite_store().spec_get(x)
                },
    {
        if !self.allocator.deallocate(id) {
            proof {
                assert(!old(self).names.ids().contains(id));
                assert(!old(self).transforms.ids().contains(id));
                assert(!old(self).velocities.ids().contains(id));
                assert(!old(self).sprites.ids().contains(id));
            }
            return false;
        }
        self.names.remove(id);
        self.transforms.remove(id);
        self.velocities.remove(id);
        self.sprites.remove(id);
        proof {
            assert forall|x: EntityId|
                #![trigger self.names.ids().contains(x)]
                #![trigger self.allocator.spec_is_alive(x)]
                self.names.ids().contains(x) <==> self.allocator.spec_is_alive(x) by {
                if x != id {
                    assert(self.names.spec_get(x) == old(self).names.spec_get(x));
                    assert(old(self).names.ids().contains(x) <==> old(self).allocator.spec_is_alive(x));
                }
            }
            assert forall|x: EntityId|
                #![trigger self.transforms.ids().contains(x)]
                #![trigger self.allocator.spec_is_alive(x)]
                self.transforms.ids().contains(x) <==> self.allocator.spec_is_alive(x) by {
                if x != id {
                    assert(self.transforms.spec_get(x) == old(self).transforms.spec_get(x));
                    assert(old(self).transforms.ids().contains(x) <==> old(self).allocator.spec_is_alive(x));
                }
            }
            assert forall|x: EntityId| #[trigger] self.velocities.ids().contains(x) implies self.allocator.spec_is_alive(x) by {
                if x != id {
                    assert(self.velocities.spec_get(x) == old(self).velocities.spec_get(x));
                    assert(old(self).velocities.ids().contains(x));
                }
            }
            assert forall|x: EntityId| #[trigger] self.sprites.ids().contains(x) implies self.allocator.spec_is_alive(x) by {
                if x != id {
                    assert(self.sprites.spec_get(x) == old(self).sprites.spec_get(x));
                    assert(old(self).sprites.ids().contains(x));
                }
            }
        }
        true
    }

    pub fn is_alive(&self, id: EntityId) -> (r: bool)
        requires
            self.wf(),
        ensures
            r == self.spec_is_alive(id),
    {
        self.allocator.is_alive(id)
    }

    /// Remove every entity and component; slot indices start over.
    pub fn clear(&mut self)
        requires
            old(self).wf(),
        ensures
            final(self).wf(),
            final(self).live() == 0,
            final(self).allocator_view().slots() == 0,
            forall|id: EntityId| !final(self).spec_is_alive(id),
    {
        self.allocator.clear();
        self.names.clear();
        self.transforms.clear();
        self.velocities.clear();
        self.sprites.clear();
    }

    pub fn len(&self) -> (r: usize)
        requires
            self.wf(),
        ensures
            r == self.live(),
    {
        self.allocator.len()
    }

    pub fn is_empty(&self) -> (r: bool)
        requires
            self.wf(),
        ensures
            r == (self.live() == 0),
    {
        self.allocator.is_empty()
    }

    /// Slots ever allocated since the last `clear` (highest index + 1).
    pub fn slot_count(&self) -> (r: usize)
        requires
            self.wf(),
        ensures
            r == self.allocator_view().slots(),
    {
        self.allocator.slot_count()
    }

    /// Live entity ids in slot order.
    pub fn entities(&self) -> (r: Vec<EntityId>)
        requires
            self.wf(),
        ensures
            forall|k: int| 0 <= k < r.len() ==> self.spec_is_alive(#[trigger] r@[k]),
            forall|a: int, b: int| 0 <= a < b < r.len() ==> (#[trigger] r@[a]).idx() < (#[trigger] r@[b]).idx(),
            forall|id: EntityId| #[trigger] self.spec_is_alive(id) ==> r@.contains(id),
    {
        let r = self.allocator.iter();
        proof {
            assert forall|id: EntityId| #[trigger] self.spec_is_alive(id) implies r@.contains(id) by {
                assert(self.allocator.alive_flags()[id.idx() as int]);
                let k = choose|k: int| 0 <= k < r.len() && (#[trigger] r@[k]).idx() == id.idx();
                EntityId::lemma_ext(r@[k], id);
            }
        }
        r
    }

    // ----- Component access -------------------------------------------------

    pub fn name(&self, id: EntityId) -> (r: Option<&str>)
        requires
            self.wf(),
        ensures
            r.is_some() == self.name_store().spec_contains(id),
            r.is_some() ==> self.name_store().spec_get(id).unwrap()@ == r.unwrap()@,
    {
        match self.names.get(id) {
            Some(s) => Some(s.as_str()),
            None => None,
        }
    }

    pub fn transform(&self, id: EntityId) -> (r: Option<&T>)
        requires
            self.wf(),
        ensures
            r.is_some() == self.transform_store().spec_contains(id),
            r.is_some() ==> self.transform_store().spec_get(id) == Some(*r.unwrap()),
    {
        self.transforms.get(id)
    }

    pub fn velocity(&self, id: EntityId) -> (r: Option<&V>)
        requires
            self.wf(),
        ensures
            r.is_some() == self.velocity_store().spec_contains(id),
            r.is_some() ==> self.velocity_store().spec_get(id) == Some(*r.unwrap()),
    {
        self.velocities.get(id)
    }

    pub fn sprite(&self, id: EntityId) -> (r: Option<&Sprite>)
        requires
            self.wf(),
        ensures
            r.is_some() == self.sprite_store().spec_contains(id),
            r.is_some() ==> self.sprite_store().spec_get(id) == Some(*r.unwrap()),
    {
        self.sprites.get(id)
    }

    pub fn transform_mut(&mut self, id: EntityId) -> (r: Option<&mut T>)
        requires
            old(self).wf(),
        ensures
            final(self).wf(),
            r.is_some() == old(self).transform_store().spec_contains(id),
            r.is_some() ==> old(self).transform_store().spec_get(id) == Some(*r.unwrap()),
            r.is_some() ==> final(self).transform_store().spec_get(id) == Some(*final(r.unwrap())),
            final(self).allocator_view() == old(self).allocator_view(),
            final(self).name_store() == old(self).name_store(),
            final(self).velocity_store() == old(self).velocity_store(),
            final(self).sprite_store() == old(self).sprite_store(),
            forall|x: EntityId|
                x != id ==> #[trigger] final(self).transform_store().spec_get(x) == old(self).transform_store().spec_get(x),
    {
        proof {
            self.transforms.lemma_wf_facts();
        }
        let r = self.transforms.get_mut(id);
        r
    }

    pub fn velocity_mut(&mut self, id: EntityId) -> (r: Option<&mut V>)
        requires
            old(self).wf(),
        ensures
            final(self).wf(),
            r.is_some() == old(self).velocity_store().spec_contains(id),
            r.is_some() ==> old(self).velocity_store().spec_get(id) == Some(*r.unwrap()),
            r.is_some() ==> final(self).velocity_store().spec_get(id) == Some(*final(r.unwrap())),
            final(self).allocator_view() == old(self).allocator_view(),
            final(self).name_store() == old(self).name_store(),
            final(self).transform_store() == old(self).transform_store(),
            final(self).sprite_store() == old(self).sprite_store(),
            forall|x: EntityId|
                x != id ==> #[trigger] final(self).velocity_store().spec_get(x) == old(self).velocity_store().spec_get(x),
    {
        proof {
            self.velocities.lemma_wf_facts();
        }
        let r = self.velocities.get_mut(id);
        r
    }

    /// Give a live entity a velocity (replacing any it had); no effect on a
    /// dead handle.
    pub fn set_velocity(&mut self, id: EntityId, v: V)
        requires
            old(self).wf(),
            old(self).spec_is_alive(id) ==> old(self).can_spawn(),
        ensures
            final(self).wf(),
            !old(self).spec_is_alive(id) ==> *final(self) == *old(self),
            old(self).spec_is_alive(id) ==> final(self).velocity_store().spec_get(id) == Some(v),
            final(self).allocator_view() == old(self).allocator_view(),
            final(self).name_store() == old(self).name_store(),
            final(self).transform_store() == old(self).transform_store(),
            final(self).sprite_store() == old(self).sprite_store(),
            forall|x: EntityId|
                x != id ==> #[trigger] final(self).velocity_store().spec_get(x) == old(self).velocity_store().spec_get(x),
    {
        if self.is_alive(id) {
            proof {
                Self::lemma_store_room(self.velocities, self.allocator);
                self.allocator.lemma_wf_facts();
            }
            self.velocities.insert(id, v);
            proof {
                self.lemma_same_slot_not_stored(old(self).velocities, id);
                assert forall|x: EntityId| #[trigger] self.velocities.ids().contains(x) implies self.allocator.spec_is_alive(x) by {
                    if x != id {
                        assert(self.velocities.spec_get(x) == old(self).velocities.spec_get(x));
                        assert(old(self).velocities.ids().contains(x));
                    }
                }
            }
        }
    }

    /// A live id is the only possible key of a live-keyed store at its slot
    /// index.
    proof fn lemma_same_slot_not_stored<C>(&self, store: SparseSet<C>, id: EntityId)
        requires
            self.allocator.wf(),
            keys_live(store.ids(), self.allocator),
            self.allocator.spec_is_alive(id),
        ensures
            forall|x: EntityId| x != id && x.idx() == id.idx() ==> !#[trigger] store.ids().contains(x),
    {
        assert forall|x: EntityId| x != id && x.idx() == id.idx() implies !#[trigger] store.ids().contains(x) by {
            if store.ids().contains(x) {
                EntityId::lemma_ext(x, id);
            }
        }
    }

    pub fn remove_velocity(&mut self, id: EntityId) -> (r: Option<V>)
        requires
            old(self).wf(),
        ensures
            final(self).wf(),
            r == old(self).velocity_store().spec_get(id),
            final(self).velocity_store().spec_get(id).is_none(),
            final(self).allocator_view() == old(self).allocator_view(),
            final(self).name_store() == old(self).name_store(),
            final(self).transform_store() == old(self).transform_store(),
            final(self).sprite_store() == old(self).sprite_store(),
            forall|x: EntityId|
                x != id ==> #[trigger] final(self).velocity_store().spec_get(x) == old(self).velocity_store().spec_get(x),
    {
        let r = self.velocities.remove(id);
        proof {
            assert forall|x: EntityId| #[trigger] self.velocities.ids().contains(x) implies self.allocator.spec_is_alive(x) by {
                if x != id {
                    assert(self.velocities.spec_get(x) == old(self).velocities.spec_get(x));
                }
            }
        }
        r
    }

    /// Give a live entity a sprite (replacing any it had); no effect on a
    /// dead handle.
    pub fn set_sprite(&mut self, id: EntityId, s: Sprite)
        requires
            old(self).wf(),
            old(self).spec_is_alive(id) ==> old(self).can_spawn(),
        ensures
            final(self).wf(),
            !old(self).spec_is_alive(id) ==> *final(self) == *old(self),
            old(self).spec_is_alive(id) ==> final(self).sprite_store().spec_get(id) == Some(s),
            final(self).allocator_view() == old(self).allocator_view(),
            final(self).name_store() == old(self).name_store(),
            final(self).transform_store() == old(self).transform_store(),
            final(self).velocity_store() == old(self).velocity_store(),
            forall|x: EntityId|
                x != id ==> #[trigger] final(self).sprite_store().spec_get(x) == old(self).sprite_store().spec_get(x),
    {
        if self.is_alive(id) {
            proof {
                Self::lemma_store_room(self.sprites, self.allocator);
                self.allocator.lemma_wf_facts();
            }
            self.sprites.insert(id, s);
            proof {
                self.lemma_same_slot_not_stored(old(self).sprites, id);
                assert forall|x: EntityId| #[trigger] self.sprites.ids().contains(x) implies self.allocator.spec_is_alive(x) by {
                    if x != id {
                        assert(self.sprites.spec_get(x) == old(self).sprites.spec_get(x));
                        assert(old(self).sprites.ids().contains(x));
                    }
                }
            }
        }
    }

    pub fn remove_sprite(&mut self, id: EntityId) -> (r: Option<Sprite>)
        requires
            old(self).wf(),
        ensures
            final(self).wf(),
            r == old(self).sprite_store().spec_get(id),
            final(self).sprite_store().spec_get(id).is_none(),
            final(self).allocator_view() == old(self).allocator_view(),
            final(self).name_store() == old(self).name_store(),
            final(self).transform_store() == old(self).transform_store(),
            final(self).velocity_store() == old(self).velocity_store(),
            forall|x: EntityId|
                x != id ==> #[trigger] final(self).sprite_store().spec_get(x) == old(self).sprite_store().spec_get(x),
    {
        let r = self.sprites.remove(id);
        proof {
            assert forall|x: EntityId| #[trigger] self.sprites.ids().contains(x) implies self.allocator.spec_is_alive(x) by {
                if x != id {
                    assert(self.sprites.spec_get(x) == old(self).sprites.spec_get(x));
                }
            }
        }
        r
    }

    /// Entities that have a velocity, in the velocity store's dense order:
    /// the walk a movement system makes.
    pub fn velocity_entities(&self) -> (r: Vec<EntityId>)
        requires
            self.wf(),
        ensures
            r@ == self.velocity_store().ids(),
    {
        let pairs = self.velocities.iter();
        let mut out: Vec<EntityId> = Vec::new();
        let mut k: usize = 0;
        while k < pairs.len()
            invariant
                k <= pairs.len(),
                pairs.len() == self.velocity_store().ids().len(),
                forall|m: int| 0 <= m < pairs.len() ==> (#[trigger] pairs@[m]).0 == self.velocity_store().ids()[m],
                out@ == self.velocity_store().ids().subrange(0, k as int),
            decreases pairs.len() - k,
        {
            out.push(pairs[k].0);
            k = k + 1;
            proof {
                assert(out@ =~= self.velocity_store().ids().subrange(0, k as int));
            }
        }
        proof {
            assert(out@ =~= self.velocity_store().ids());
        }
        out
    }

    /// Every live entity has a name and a transform, and every name,
    /// transform, velocity or sprite belongs to a live entity: what the
    /// world answers for `id` is `None` exactly for the parts it lacks.
    pub proof fn lemma_live_have_name_and_transform(&self, id: EntityId)
        requires
            self.wf(),
        ensures
            self.spec_is_alive(id) <==> self.name_store().spec_get(id).is_some(),
            self.spec_is_alive(id) <==> self.transform_store().spec_get(id).is_some(),
            self.velocity_store().spec_get(id).is_some() ==> self.spec_is_alive(id),
            self.sprite_store().spec_get(id).is_some() ==> self.spec_is_alive(id),
    {
    }

    /// A handle whose slot has been recycled past its generation is dead,
    /// and no component store answers for it.
    pub proof fn lemma_stale_handle_misses(&self, id: EntityId)
        requires
            self.wf(),
            self.allocator_view().retired(id),
        ensures
            !self.spec_is_alive(id),
            self.name_store().spec_get(id).is_none(),
            self.transform_store().spec_get(id).is_none(),
            self.velocity_store().spec_get(id).is_none(),
            self.sprite_store().spec_get(id).is_none(),
    {
        assert(!self.names.ids().contains(id));
        assert(!self.transforms.ids().contains(id));
        assert(!self.velocities.ids().contains(id));
        assert(!self.sprites.ids().contains(id));
    }
}

} // verus!
