//! Scene model: entities with a list of components, and the scene file
//! that holds them. The transform and velocity payloads are type
//! parameters; the component bookkeeping never looks inside them.

use vstd::prelude::*;

use super::model::{new_uuid_v4, uuid_v4_text, ScriptComponent, SpriteComponent};
use crate::text::str_eq;

verus! {

pub enum Component<TC, VC> {
    Transform(TC),
    Sprite(SpriteComponent),
    Script(ScriptComponent),
    Velocity(VC),
}

pub struct Entity<TC, VC> {
    pub id: String,
    pub name: String,
    pub components: Vec<Component<TC, VC>>,
}

/// `j` is the first position of `comps` holding a component of the kind
/// `is_kind` tests.
pub open spec fn first_of<TC, VC>(comps: Seq<Component<TC, VC>>, j: int, is_kind: spec_fn(Component<TC, VC>) -> bool) -> bool {
    &&& 0 <= j < comps.len()
    &&& is_kind(comps[j])
    &&& forall|k: int| 0 <= k < j ==> !is_kind(#[trigger] comps[k])
}

pub open spec fn none_of<TC, VC>(comps: Seq<Component<TC, VC>>, is_kind: spec_fn(Component<TC, VC>) -> bool) -> bool {
    forall|k: int| 0 <= k < comps.len() ==> !is_kind(#[trigger] comps[k])
}

pub open spec fn is_transform<TC, VC>(c: Component<TC, VC>) -> bool {
    c is Transform
}

pub open spec fn is_sprite<TC, VC>(c: Component<TC, VC>) -> bool {
    c is Sprite
}

pub open spec fn is_velocity<TC, VC>(c: Component<TC, VC>) -> bool {
    c is Velocity
}

impl<TC, VC> Entity<TC, VC> {
    /// A new entity named `name` with a fresh random id and no components.
    pub fn new(name: String) -> (r: Self)
        ensures
            r.name == name,
            uuid_v4_text(r.id@),
            r.components@.len() == 0,
    {
        Entity { id: new_uuid_v4(), name, components: Vec::new() }
    }

    fn find_transform(&self) -> (r: Option<usize>)
        ensures
            r matches Some(j) ==> first_of(self.components@, j as int, |c: Component<TC, VC>| is_transform(c)),
            r is None ==> none_of(self.components@, |c: Component<TC, VC>| is_transform(c)),
    {
        let mut k: usize = 0;
        while k < self.components.len()
            invariant
                k <= self.components@.len(),
                forall|m: int| 0 <= m < k ==> !is_transform(#[trigger] self.components@[m]),
            decreases self.components@.len() - k,
        {
            if let Component::Transform(_) = &self.components[k] {
                return Some(k);
            }
            k = k + 1;
        }
        None
    }

    /// The entity's first transform component.
    pub fn transform(&self) -> (r: Option<&TC>)
        ensures
            r matches Some(t) ==> exists|j: int|
                first_of(self.components@, j, |c: Component<TC, VC>| is_transform(c)) && self.components@[j]
                    == Component::<TC, VC>::Transform(*t),
            r is None ==> none_of(self.components@, |c: Component<TC, VC>| is_transform(c)),
    {
        match self.find_transform() {
            Some(j) => match &self.components[j] {
                Component::Transform(t) => Some(t),
                _ => None,
            },
            None => None,
        }
    }

    /// Mutable access to the entity's first transform component.
    pub fn transform_mut(&mut self) -> (r: Option<&mut TC>)
        ensures
            r is None ==> none_of(old(self).components@, |c: Component<TC, VC>| is_transform(c)) && *final(self)
                == *old(self),
            r matches Some(t) ==> exists|j: int|
                {
                    &&& first_of(old(self).components@, j, |c: Component<TC, VC>| is_transform(c))
                    &&& old(self).components@[j] == Component::<TC, VC>::Transform(*t)
                    &&& final(self).components@ == old(self).components@.update(
                        j,
                        Component::<TC, VC>::Transform(*final(t)),
                    )
                    &&& final(self).id == old(self).id
                    &&& final(self).name == old(self).name
                },
    {
        match self.find_transform() {
            Some(j) => match &mut self.components[j] {
                Component::Transform(t) => Some(t),
                _ => None,
            },
            None => None,
        }
    }

    fn find_sprite(&self) -> (r: Option<usize>)
        ensures
            r matches Some(j) ==> first_of(self.components@, j as int, |c: Component<TC, VC>| is_sprite(c)),
            r is None ==> none_of(self.components@, |c: Component<TC, VC>| is_sprite(c)),
    {
        let mut k: usize = 0;
        while k < self.components.len()
            invariant
                k <= self.components@.len(),
                forall|m: int| 0 <= m < k ==> !is_sprite(#[trigger] self.components@[m]),
            decreases self.components@.len() - k,
        {
            if let Component::Sprite(_) = &self.components[k] {
                return Some(k);
            }
            k = k + 1;
        }
        None
    }

    fn find_velocity(&self) -> (r: Option<usize>)
        ensures
            r matches Some(j) ==> first_of(self.components@, j as int, |c: Component<TC, VC>| is_velocity(c)),
            r is None ==> none_of(self.components@, |c: Component<TC, VC>| is_velocity(c)),
    {
        let mut k: usize = 0;
        while k < self.components.len()
            invariant
                k <= self.components@.len(),
                forall|m: int| 0 <= m < k ==> !is_velocity(#[trigger] self.components@[m]),
            decreases self.components@.len() - k,
        {
            if let Component::Velocity(_) = &self.components[k] {
                return Some(k);
            }
            k = k + 1;
        }
        None
    }

    /// The entity's first sprite component.
    pub fn sprite(&self) -> (r: Option<&SpriteComponent>)
        ensures
            r matches Some(sp) ==> exists|j: int|
                first_of(self.components@, j, |c: Component<TC, VC>| is_sprite(c)) && self.components@[j]
                    == Component::<TC, VC>::Sprite(*sp),
            r is None ==> none_of(self.components@, |c: Component<TC, VC>| is_sprite(c)),
    {
        match self.find_sprite() {
            Some(j) => match &self.components[j] {
                Component::Sprite(sp) => Some(sp),
                _ => None,
            },
            None => None,
        }
    }

    /// The entity's first velocity component.
    pub fn velocity(&self) -> (r: Option<&VC>)
        ensures
            r matches Some(v) ==> exists|j: int|
                first_of(self.components@, j, |c: Component<TC, VC>| is_velocity(c)) && self.components@[j]
                    == Component::<TC, VC>::Velocity(*v),
            r is None ==> none_of(self.components@, |c: Component<TC, VC>| is_velocity(c)),
    {
        match self.find_velocity() {
            Some(j) => match &self.components[j] {
                Component::Velocity(v) => Some(v),
                _ => None,
            },
            None => None,
        }
    }

    /// Mutable access to the entity's first velocity component.
    pub fn velocity_mut(&mut self) -> (r: Option<&mut VC>)
        ensures
            r is None ==> none_of(old(self).components@, |c: Component<TC, VC>| is_velocity(c)) && *final(self)
                == *old(self),
            r matches Some(v) ==> exists|j: int|
                {
                    &&& first_of(old(self).components@, j, |c: Component<TC, VC>| is_velocity(c))
                    &&& old(self).components@[j] == Component::<TC, VC>::Velocity(*v)
                    &&& final(self).components@ == old(self).components@.update(
                        j,
                        Component::<TC, VC>::Velocity(*final(v)),
                    )
                    &&& final(self).id == old(self).id
                    &&& final(self).name == old(self).name
                },
    {
        match self.find_velocity() {
            Some(j) => match &mut self.components[j] {
                Component::Velocity(v) => Some(v),
                _ => None,
            },
            None => None,
        }
    }

    /// The entity's velocity component, adding a default one at the end of
    /// the component list when it has none.
    pub fn ensure_velocity(&mut self) -> (r: &mut VC)
        where VC: Default
        ensures
            final(self).id == old(self).id,
            final(self).name == old(self).name,
            !none_of(old(self).components@, |c: Component<TC, VC>| is_velocity(c)) ==> exists|j: int|
                {
                    &&& first_of(old(self).components@, j, |c: Component<TC, VC>| is_velocity(c))
                    &&& old(self).components@[j] == Component::<TC, VC>::Velocity(*r)
                    &&& final(self).components@ == old(self).components@.update(
                        j,
                        Component::<TC, VC>::Velocity(*final(r)),
                    )
                },
            none_of(old(self).components@, |c: Component<TC, VC>| is_velocity(c)) ==> final(self).components@
                == old(self).components@.push(Component::<TC, VC>::Velocity(*final(r))),
    {
        let j = match self.find_velocity() {
            Some(j) => j,
            None => {
                self.components.push(Component::Velocity(VC::default()));
                proof {
                    assert(first_of(
                        self.components@,
                        self.components@.len() - 1,
                        |c: Component<TC, VC>| is_velocity(c),
                    ));
                }
                self.components.len() - 1
            },
        };
        match &mut self.components[j] {
            Component::Velocity(v) => v,
            _ => vstd::pervasive::unreached(),
        }
    }
}


pub struct SceneFile<TC, VC> {
    pub version: u32,
    pub name: String,
    pub entities: Vec<Entity<TC, VC>>,
}

impl<TC, VC> SceneFile<TC, VC> {
    pub const CURRENT_VERSION: u32 = 1;

    /// An empty scene named `name`, at the current format version.
    pub fn new(name: String) -> (r: Self)
        ensures
            r.version == 1,
            r.name == name,
            r.entities@.len() == 0,
    {
        SceneFile { version: 1, name, entities: Vec::new() }
    }
}

/// `j` is the first position of `entities` whose id is `id`.
pub open spec fn first_with_id<TC, VC>(entities: Seq<Entity<TC, VC>>, id: Seq<char>, j: int) -> bool {
    &&& 0 <= j < entities.len()
    &&& entities[j].id@ == id
    &&& forall|k: int| 0 <= k < j ==> (#[trigger] entities[k]).id@ != id
}

/// Position of the first entity with id `id`, if any.
pub fn find_entity<TC, VC>(entities: &Vec<Entity<TC, VC>>, id: &str) -> (r: Option<usize>)
    ensures
        r matches Some(j) ==> first_with_id(entities@, id@, j as int),
        r is None ==> forall|k: int| 0 <= k < entities@.len() ==> (#[trigger] entities@[k]).id@ != id@,
{
    let mut k: usize = 0;
    while k < entities.len()
        invariant
            k <= entities@.len(),
            forall|m: int| 0 <= m < k ==> (#[trigger] entities@[m]).id@ != id@,
        decreases entities@.len() - k,
    {
        if str_eq(entities[k].id.as_str(), id) {
            return Some(k);
        }
        k = k + 1;
    }
    None
}

/// `entities` with every entity whose id is `id` left out, order kept.
pub open spec fn without_id<TC, VC>(entities: Seq<Entity<TC, VC>>, id: Seq<char>) -> Seq<Entity<TC, VC>>
    decreases entities.len(),
{
    if entities.len() == 0 {
        entities
    } else {
        let rest = without_id(entities.drop_last(), id);
        if entities.last().id@ == id {
            rest
        } else {
            rest.push(entities.last())
        }
    }
}

proof fn lemma_without_id_prefix<TC, VC>(s: Seq<Entity<TC, VC>>, id: Seq<char>, m: int)
    requires
        0 <= m < s.len(),
    ensures
        without_id(s.subrange(0, m + 1), id) == if s[m].id@ == id {
            without_id(s.subrange(0, m), id)
        } else {
            without_id(s.subrange(0, m), id).push(s[m])
        },
{
    assert(s.subrange(0, m + 1).drop_last() =~= s.subrange(0, m));
}

/// Remove every entity whose id is `id`, keeping the others in order.
pub fn remove_entity<TC, VC>(entities: &mut Vec<Entity<TC, VC>>, id: &str)
    ensures
        final(entities)@ == without_id(old(entities)@, id@),
{
    let ghost orig = entities@;
    let mut i: usize = 0;
    let ghost mut m: int = 0;
    while i < entities.len()
        invariant
            0 <= m <= orig.len(),
            i <= entities@.len(),
            entities@ == without_id(orig.subrange(0, m), id@) + orig.subrange(m, orig.len() as int),
            i == without_id(orig.subrange(0, m), id@).len(),
        decreases entities@.len() - i,
    {
        proof {
            lemma_without_id_prefix(orig, id@, m);
            assert(entities@[i as int] == orig[m]);
        }
        if str_eq(entities[i].id.as_str(), id) {
            let _gone = entities.remove(i);
            proof {
                m = m + 1;
                assert(entities@ =~= without_id(orig.subrange(0, m), id@) + orig.subrange(m, orig.len() as int));
            }
        } else {
            i = i + 1;
            proof {
                m = m + 1;
                assert(entities@ =~= without_id(orig.subrange(0, m), id@) + orig.subrange(m, orig.len() as int));
            }
        }
    }
    proof {
        assert(orig.subrange(0, orig.len() as int) =~= orig);
        assert(entities@ =~= without_id(orig, id@));
    }
}

/// Rename the first entity whose id is `id`. Returns whether one was found.
pub fn rename_entity<TC, VC>(entities: &mut Vec<Entity<TC, VC>>, id: &str, name: String) -> (r: bool)
    ensures
        r == exists|j: int| first_with_id(old(entities)@, id@, j),
        !r ==> final(entities)@ == old(entities)@,
        r ==> exists|j: int|
            {
                &&& first_with_id(old(entities)@, id@, j)
                &&& final(entities)@.len() == old(entities)@.len()
                &&& final(entities)@[j].name == name
                &&& final(entities)@[j].id == old(entities)@[j].id
                &&& final(entities)@[j].components == old(entities)@[j].components
                &&& forall|k: int| 0 <= k < old(entities)@.len() && k != j ==> final(entities)@[k] == old(entities)@[k]
            },
{
    match find_entity(entities, id) {
        Some(j) => {
            entities[j].name = name;
            true
        },
        None => {
            proof {
                if exists|j: int| first_with_id(old(entities)@, id@, j) {
                    let j = choose|j: int| first_with_id(old(entities)@, id@, j);
                    assert(old(entities)@[j].id@ == id@);
                }
            }
            false
        },
    }
}

} // verus!
