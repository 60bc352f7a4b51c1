use neudel::studio::model::{ScriptComponent, ScriptLang, SpriteComponent};
use neudel::studio::scene::{find_entity, remove_entity, rename_entity, Component, Entity, SceneFile};

#[derive(Debug, Clone, Copy, Default, PartialEq)]
struct T {
    x: f32,
    y: f32,
}

#[derive(Debug, Clone, Copy, Default, PartialEq)]
struct V {
    vx: f32,
}

type E = Entity<T, V>;

fn named(name: &str, id: &str) -> E {
    let mut e = E::new(name.to_string());
    e.id = id.to_string();
    e
}

#[test]
fn new_entity_has_a_fresh_uuid_and_no_components() {
    let a = E::new("a".to_string());
    let b = E::new("b".to_string());
    assert_eq!(a.id.len(), 36);
    assert_eq!(a.id.chars().nth(14), Some('4'));
    assert!(matches!(a.id.chars().nth(19), Some('8' | '9' | 'a' | 'b')));
    assert_ne!(a.id, b.id);
    assert!(a.components.is_empty());
    assert!(a.transform().is_none() && a.sprite().is_none() && a.velocity().is_none());
}

#[test]
fn component_lookup_finds_the_first_of_each_kind() {
    let mut e = named("hero", "h");
    e.components.push(Component::Script(ScriptComponent { file_path: "a.py".into(), lang: ScriptLang::Python }));
    e.components.push(Component::Transform(T { x: 1.0, y: 2.0 }));
    e.components.push(Component::Transform(T { x: 9.0, y: 9.0 }));
    e.components.push(Component::Sprite(SpriteComponent { asset_path: "hero.png".into(), data_url: String::new() }));
    assert_eq!(e.transform(), Some(&T { x: 1.0, y: 2.0 }));
    assert_eq!(e.sprite().unwrap().asset_path, "hero.png");
    e.transform_mut().unwrap().x = 5.0;
    assert_eq!(e.transform(), Some(&T { x: 5.0, y: 2.0 }));
    assert!(e.velocity_mut().is_none());
}

#[test]
fn ensure_velocity_adds_a_default_once() {
    let mut e = named("ball", "b");
    e.ensure_velocity().vx = 3.0;
    assert_eq!(e.velocity(), Some(&V { vx: 3.0 }));
    e.ensure_velocity().vx += 1.0;
    assert_eq!(e.velocity(), Some(&V { vx: 4.0 }));
    assert_eq!(e.components.len(), 1);
    e.velocity_mut().unwrap().vx = 0.5;
    assert_eq!(e.velocity(), Some(&V { vx: 0.5 }));
}

#[test]
fn scene_entities_are_found_renamed_and_removed_by_id() {
    let mut scene: SceneFile<T, V> = SceneFile::new("untitled".to_string());
    assert_eq!(scene.version, SceneFile::<T, V>::CURRENT_VERSION);
    scene.entities.push(named("a", "1"));
    scene.entities.push(named("b", "2"));
    scene.entities.push(named("c", "1"));
    assert_eq!(find_entity(&scene.entities, "1"), Some(0));
    assert_eq!(find_entity(&scene.entities, "3"), None);
    assert!(rename_entity(&mut scene.entities, "2", "bee".to_string()));
    assert_eq!(scene.entities[1].name, "bee");
    assert!(!rename_entity(&mut scene.entities, "9", "x".to_string()));
    remove_entity(&mut scene.entities, "1");
    let names: Vec<_> = scene.entities.iter().map(|e| e.name.clone()).collect();
    assert_eq!(names, vec!["bee".to_string()]);
}
