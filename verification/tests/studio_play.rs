use neudel::ecs::world::World;
use neudel::ecs::Sprite;
use neudel::studio::play::{compile_scene, SceneSpawn};

#[derive(Debug, Clone, Copy, PartialEq)]
struct T {
    x: f32,
}

impl Default for T {
    fn default() -> Self {
        T { x: -1.0 }
    }
}

#[derive(Debug, Clone, Copy, PartialEq)]
struct V {
    vx: f32,
}

fn spawn(id: &str, name: &str, transform: Option<T>, velocity: Option<V>, sprite: Option<&str>) -> SceneSpawn<T, V> {
    SceneSpawn {
        id: id.to_string(),
        name: name.to_string(),
        transform,
        velocity,
        sprite: sprite.map(|p| Sprite { asset_path: p.to_string() }),
    }
}

#[test]
fn compiling_the_scene_spawns_every_entity_with_its_components() {
    let mut world: World<T, V> = World::new();
    let stale = world.spawn("left over".to_string());
    let spawns = vec![
        spawn("u1", "hero", Some(T { x: 5.0 }), Some(V { vx: 2.0 }), Some("hero.png")),
        spawn("u2", "rock", None, None, None),
    ];
    let map = compile_scene(&mut world, &spawns);
    assert_eq!(world.len(), 2);
    assert_eq!(map.len(), 2);
    assert_eq!(map[0].0, "u1");
    assert_eq!(map[1].0, "u2");
    let (hero, rock) = (map[0].1, map[1].1);
    assert_ne!(hero, rock);
    assert_eq!(world.name(hero), Some("hero"));
    assert_eq!(world.transform(hero), Some(&T { x: 5.0 }));
    assert_eq!(world.velocity(hero), Some(&V { vx: 2.0 }));
    assert_eq!(world.sprite(hero).map(|s| s.asset_path.as_str()), Some("hero.png"));
    assert_eq!(world.name(rock), Some("rock"));
    assert_eq!(world.transform(rock), Some(&T { x: -1.0 }));
    assert!(world.velocity(rock).is_none() && world.sprite(rock).is_none());
    // The world was cleared first: slots start over from zero.
    assert_eq!((hero.index(), rock.index()), (0, 1));
    let _ = stale;
}
