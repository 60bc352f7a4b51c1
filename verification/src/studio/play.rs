//! Starting play: the authored scene copied into the engine world.

use vstd::prelude::*;

use crate::ecs::entity::EntityId;
use crate::ecs::world::World;
use crate::ecs::Sprite;

verus! {

/// One authored entity as the engine world receives it: its scene id and
/// name, and the components the world keeps, already in the world's types.
pub struct SceneSpawn<T, V> {
    pub id: String,
    pub name: String,
    pub transform: Option<T>,
    pub velocity: Option<V>,
    pub sprite: Option<Sprite>,
}

/// Entity `k` of `spawns` is in `world` as `eid`: live, with the spawn's
/// name, its transform (the default one when it has none), and exactly its
/// velocity and sprite.
pub open spec fn spawned_as<T, V>(world: World<T, V>, s: SceneSpawn<T, V>, eid: EntityId) -> bool {
    &&& world.spec_is_alive(eid)
    &&& world.name_store().spec_get(eid) == Some(s.name)
    &&& world.transform_store().spec_contains(eid)
    &&& (s.transform matches Some(t) ==> world.transform_store().spec_get(eid) == Some(t))
    &&& world.velocity_store().spec_get(eid) == s.velocity
    &&& world.sprite_store().spec_get(eid) == s.sprite
}

fn copy_sprite(s: &Option<Sprite>) -> (r: Option<Sprite>)
    ensures
        r == *s,
{
    match s {
        Some(sp) => Some(Sprite { asset_path: sp.asset_path.clone() }),
        None => None,
    }
}

/// Clear `world` and spawn every authored entity into it, in order. Returns
/// each entity's scene id with the engine id it got, in the same order.
pub fn compile_scene<T: Default + Copy, V: Copy>(world: &mut World<T, V>, spawns: &Vec<SceneSpawn<T, V>>) -> (r: Vec<
    (String, EntityId),
>)
    requires
        old(world).wf(),
        spawns@.len() + 1 < u32::MAX,
    ensures
        final(world).wf(),
        final(world).live() == spawns@.len(),
        r@.len() == spawns@.len(),
        forall|k: int|
            0 <= k < r@.len() ==> (#[trigger] r@[k]).0 == spawns@[k].id && spawned_as(*final(world), spawns@[k], r@[k].1),
        forall|a: int, b: int| 0 <= a < r@.len() && 0 <= b < r@.len() && a != b ==> #[trigger] r@[a].1 != #[trigger] r@[b].1,
{
    world.clear();
    let n = spawns.len();
    let mut out: Vec<(String, EntityId)> = Vec::new();
    let mut k: usize = 0;
    while k < n
        invariant
            n == spawns@.len(),
            n + 1 < u32::MAX,
            k <= n,
            world.wf(),
            world.live() == k,
            world.allocator_view().slots() <= k,
            out@.len() == k,
            forall|j: int| 0 <= j < k ==> (#[trigger] out@[j]).0 == spawns@[j].id && spawned_as(*world, spawns@[j], out@[j].1),
            forall|a: int, b: int| 0 <= a < k && 0 <= b < k && a != b ==> #[trigger] out@[a].1 != #[trigger] out@[b].1,
        decreases n - k,
    {
        let s = &spawns[k];
        let ghost before = *world;
        let id = match s.transform {
            Some(t) => world.spawn_with(s.name.clone(), t),
            None => world.spawn(s.name.clone()),
        };
        let ghost after_spawn = *world;
        if let Some(v) = s.velocity {
            world.set_velocity(id, v);
        }
        let ghost after_velocity = *world;
        let sprite = copy_sprite(&s.sprite);
        if let Some(sp) = sprite {
            world.set_sprite(id, sp);
        }
        proof {
            assert forall|j: int| 0 <= j < k implies (#[trigger] out@[j]).0 == spawns@[j].id && spawned_as(
                *world,
                spawns@[j],
                out@[j].1,
            ) by {
                let x = out@[j].1;
                assert(before.spec_is_alive(x));
                assert(x != id);
            }
        }
        out.push((s.id.clone(), id));
        proof {
            assert forall|a: int, b: int| 0 <= a < k + 1 && 0 <= b < k + 1 && a != b implies #[trigger] out@[a].1
                != #[trigger] out@[b].1 by {
                if a == k as int {
                    assert(before.spec_is_alive(out@[b].1));
                } else if b == k as int {
                    assert(before.spec_is_alive(out@[a].1));
                }
            }
        }
        k = k + 1;
    }
    out
}

} // verus!
