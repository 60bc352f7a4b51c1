use neudel::ecs::world::World;
use neudel::ecs::Sprite;

#[derive(Debug, Clone, Copy)]
struct Transform {
    x: f32,
    y: f32,
    scale_x: f32,
    scale_y: f32,
    rotation: f32,
}

impl Default for Transform {
    fn default() -> Self {
        Self { x: 0.0, y: 0.0, scale_x: 1.0, scale_y: 1.0, rotation: 0.0 }
    }
}

#[derive(Debug, Clone, Copy, Default, PartialEq)]
struct Velocity {
    vx: f32,
    vy: f32,
    vrot: f32,
}

fn world() -> World<Transform, Velocity> {
    World::new()
}

#[test]
fn spawn_gives_name_and_default_transform() {
    let mut w = world();
    let e = w.spawn("player".to_string());
    assert_eq!(w.name(e), Some("player"));
    let t = w.transform(e).unwrap();
    assert_eq!((t.x, t.y, t.scale_x), (0.0, 0.0, 1.0));
    assert!(w.velocity(e).is_none());
    assert_eq!(w.len(), 1);
}

#[test]
fn despawn_removes_components_and_invalidates_handle() {
    let mut w = world();
    let e = w.spawn("enemy".to_string());
    w.set_velocity(e, Velocity { vx: 1.0, vy: 0.0, vrot: 0.0 });
    assert!(w.despawn(e));
    assert!(!w.is_alive(e));
    assert!(w.transform(e).is_none());
    assert!(w.velocity(e).is_none());
    assert!(!w.despawn(e), "double despawn rejected");
    // Recycled slot must start clean.
    let f = w.spawn("fresh".to_string());
    assert_eq!(f.index(), e.index());
    assert!(w.velocity(f).is_none());
    assert_eq!(w.name(f), Some("fresh"));
}

#[test]
fn set_velocity_on_dead_entity_is_noop() {
    let mut w = world();
    let e = w.spawn("ghost".to_string());
    w.despawn(e);
    w.set_velocity(e, Velocity { vx: 1.0, vy: 1.0, vrot: 0.0 });
    let f = w.spawn("live".to_string()); // recycles e's slot
    assert!(w.velocity(f).is_none());
}

#[test]
fn spawn_with_keeps_the_given_transform() {
    let mut w = world();
    let e = w.spawn_with("rock".to_string(), Transform { x: 3.0, y: 4.0, ..Transform::default() });
    let t = w.transform(e).unwrap();
    assert_eq!((t.x, t.y), (3.0, 4.0));
}

#[test]
fn transform_mut_writes_through() {
    let mut w = world();
    let e = w.spawn("ball".to_string());
    w.transform_mut(e).unwrap().x = 99.0;
    assert_eq!(w.transform(e).unwrap().x, 99.0);
    w.set_velocity(e, Velocity { vx: 2.0, vy: 0.0, vrot: 0.0 });
    w.velocity_mut(e).unwrap().vx = -2.0;
    assert_eq!(w.velocity(e).unwrap().vx, -2.0);
}

#[test]
fn velocity_and_sprite_come_and_go() {
    let mut w = world();
    let a = w.spawn("a".to_string());
    let b = w.spawn("b".to_string());
    w.set_velocity(b, Velocity { vx: 1.0, vy: 2.0, vrot: 3.0 });
    w.set_sprite(a, Sprite { asset_path: "hero.png".to_string() });
    assert_eq!(w.velocity_entities(), vec![b]);
    assert_eq!(w.sprite(a).unwrap().asset_path, "hero.png");
    assert_eq!(w.remove_velocity(b), Some(Velocity { vx: 1.0, vy: 2.0, vrot: 3.0 }));
    assert!(w.velocity_entities().is_empty());
    assert_eq!(w.remove_sprite(a).unwrap().asset_path, "hero.png");
    assert!(w.sprite(a).is_none());
    assert_eq!(w.remove_velocity(a), None);
}

#[test]
fn entities_lists_live_ids_and_clear_empties() {
    let mut w = world();
    let a = w.spawn("a".to_string());
    let b = w.spawn("b".to_string());
    let c = w.spawn("c".to_string());
    w.despawn(b);
    assert_eq!(w.entities(), vec![a, c]);
    assert!(!w.is_empty());
    w.clear();
    assert!(w.is_empty());
    assert_eq!(w.len(), 0);
    assert!(!w.is_alive(a));
}
