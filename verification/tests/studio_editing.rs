use neudel::studio::editing::{add_and_select, remove_and_deselect, restore_transforms, selected_index, snapshot_transforms};
use neudel::studio::scene::{Component, Entity};

#[derive(Debug, Clone, Copy, Default, PartialEq)]
struct T {
    x: f32,
    y: f32,
}

#[derive(Debug, Clone, Copy, Default, PartialEq)]
struct V {
    vx: f32,
}

type E = Entity<T, V>;

fn with_transform(id: &str, x: f32, y: f32) -> E {
    let mut e = E::new(id.to_uppercase());
    e.id = id.to_string();
    e.components.push(Component::Velocity(V { vx: 1.0 }));
    e.components.push(Component::Transform(T { x, y }));
    e
}

fn bare(id: &str) -> E {
    let mut e = E::new(id.to_uppercase());
    e.id = id.to_string();
    e
}

#[test]
fn adding_an_entity_selects_it() {
    let mut entities = vec![bare("a")];
    let mut selected = Some("a".to_string());
    add_and_select(&mut entities, &mut selected, bare("b"));
    assert_eq!(entities.len(), 2);
    assert_eq!(entities[1].id, "b");
    assert_eq!(selected.as_deref(), Some("b"));
}

#[test]
fn removing_the_selected_entity_clears_the_selection() {
    let mut entities = vec![bare("a"), bare("b"), bare("a")];
    let mut selected = Some("a".to_string());
    remove_and_deselect(&mut entities, &mut selected, "a");
    assert_eq!(entities.len(), 1);
    assert_eq!(entities[0].id, "b");
    assert_eq!(selected, None);
}

#[test]
fn removing_another_entity_keeps_the_selection() {
    let mut entities = vec![bare("a"), bare("b")];
    let mut selected = Some("a".to_string());
    remove_and_deselect(&mut entities, &mut selected, "b");
    assert_eq!(entities.len(), 1);
    assert_eq!(selected.as_deref(), Some("a"));

    let mut none: Option<String> = None;
    remove_and_deselect(&mut entities, &mut none, "a");
    assert!(entities.is_empty());
    assert_eq!(none, None);
}

#[test]
fn selected_index_follows_the_selected_id() {
    let entities = vec![bare("a"), bare("b")];
    assert_eq!(selected_index(&entities, &Some("b".to_string())), Some(1));
    assert_eq!(selected_index(&entities, &Some("z".to_string())), None);
    assert_eq!(selected_index(&entities, &None), None);
}

#[test]
fn snapshot_keeps_the_first_transform_of_each_entity_that_has_one() {
    let mut a = with_transform("a", 1.0, 2.0);
    a.components.push(Component::Transform(T { x: 7.0, y: 7.0 }));
    let entities = vec![a, bare("b"), with_transform("c", 3.0, 4.0)];
    let saved = snapshot_transforms(&entities);
    assert_eq!(saved.len(), 2);
    assert_eq!(saved[0], ("a".to_string(), T { x: 1.0, y: 2.0 }));
    assert_eq!(saved[1], ("c".to_string(), T { x: 3.0, y: 4.0 }));
}

#[test]
fn stop_reverts_to_the_authored_transforms() {
    let mut entities = vec![with_transform("a", 1.0, 2.0), bare("b"), with_transform("c", 3.0, 4.0)];
    let saved = snapshot_transforms(&entities);
    // Play moves the entities.
    *entities[0].transform_mut().unwrap() = T { x: 50.0, y: 60.0 };
    *entities[2].transform_mut().unwrap() = T { x: -5.0, y: 0.5 };
    restore_transforms(&mut entities, &saved);
    assert_eq!(entities[0].transform(), Some(&T { x: 1.0, y: 2.0 }));
    assert!(entities[1].transform().is_none());
    assert_eq!(entities[2].transform(), Some(&T { x: 3.0, y: 4.0 }));
    assert_eq!(entities[0].velocity(), Some(&V { vx: 1.0 }));
    assert_eq!(entities[2].name, "C");
}

#[test]
fn restore_uses_the_newest_entry_and_skips_unknown_ids() {
    let mut entities = vec![with_transform("a", 0.0, 0.0), with_transform("z", 9.0, 9.0)];
    let saved = vec![("a".to_string(), T { x: 1.0, y: 1.0 }), ("a".to_string(), T { x: 2.0, y: 2.0 })];
    restore_transforms(&mut entities, &saved);
    assert_eq!(entities[0].transform(), Some(&T { x: 2.0, y: 2.0 }));
    assert_eq!(entities[1].transform(), Some(&T { x: 9.0, y: 9.0 }));
}
