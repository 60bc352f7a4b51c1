//! Edits the studio's panels make to the authored scene: which entity is
//! selected as entities come and go, and the transforms saved when play
//! starts so that stopping can put them back.

use vstd::prelude::*;

use super::scene::{first_of, first_with_id, find_entity, is_transform, none_of, remove_entity, without_id, Component, Entity};
use crate::text::str_eq;

verus! {

/// The selection once the entities with id `id` are gone: cleared when it
/// named `id`, kept otherwise.
pub open spec fn deselected(selected: Option<String>, id: Seq<char>) -> Option<String> {
    match selected {
        Some(s) => if s@ == id {
            None
        } else {
            Some(s)
        },
        None => None,
    }
}

/// Append `entity` to the scene and make it the selection.
pub fn add_and_select<TC, VC>(
    entities: &mut Vec<Entity<TC, VC>>,
    selected: &mut Option<String>,
    entity: Entity<TC, VC>,
)
    ensures
        final(entities)@ == old(entities)@.push(entity),
        *final(selected) == Some(entity.id),
{
    let id = entity.id.clone();
    entities.push(entity);
    *selected = Some(id);
}

/// Remove every entity whose id is `id`, and clear the selection when it
/// was that entity.
pub fn remove_and_deselect<TC, VC>(
    entities: &mut Vec<Entity<TC, VC>>,
    selected: &mut Option<String>,
    id: &str,
)
    ensures
        final(entities)@ == without_id(old(entities)@, id@),
        *final(selected) == deselected(*old(selected), id@),
{
    remove_entity(entities, id);
    let clear = match &*selected {
        Some(s) => str_eq(s.as_str(), id),
        None => false,
    };
    if clear {
        *selected = None;
    }
}

/// Position of the selected entity in `entities`, if there is a selection
/// and an entity with that id.
pub fn selected_index<TC, VC>(entities: &Vec<Entity<TC, VC>>, selected: &Option<String>) -> (r: Option<usize>)
    ensures
        selected is None ==> r is None,
        selected matches Some(s) ==> (r matches Some(j) ==> first_with_id(entities@, s@, j as int)),
        selected matches Some(s) ==> (r is None ==> forall|k: int|
            0 <= k < entities@.len() ==> (#[trigger] entities@[k]).id@ != s@),
{
    match selected {
        Some(s) => find_entity(entities, s.as_str()),
        None => None,
    }
}

/// The value of the first transform component in `comps`, if any.
pub open spec fn first_transform<TC, VC>(comps: Seq<Component<TC, VC>>) -> Option<TC>
    decreases comps.len(),
{
    if comps.len() == 0 {
        None
    } else {
        match comps[0] {
            Component::Transform(t) => Some(t),
            _ => first_transform(comps.drop_first()),
        }
    }
}

/// `comps` with its first transform component set to `t`; unchanged when
/// it has none.
pub open spec fn replace_first_transform<TC, VC>(comps: Seq<Component<TC, VC>>, t: TC) -> Seq<Component<TC, VC>>
    decreases comps.len(),
{
    if comps.len() == 0 {
        comps
    } else {
        match comps[0] {
            Component::Transform(_) => comps.update(0, Component::Transform(t)),
            _ => seq![comps[0]] + replace_first_transform(comps.drop_first(), t),
        }
    }
}

/// The authored transforms of a scene: for each entity that has a
/// transform, in order, its id with the value of its first transform.
pub open spec fn authored<TC, VC>(entities: Seq<Entity<TC, VC>>) -> Seq<(String, TC)>
    decreases entities.len(),
{
    if entities.len() == 0 {
        Seq::empty()
    } else {
        let rest = authored(entities.drop_last());
        match first_transform(entities.last().components@) {
            Some(t) => rest.push((entities.last().id, t)),
            None => rest,
        }
    }
}

/// The transform saved for `id`: the last entry of `saved` under that id,
/// as a map filled from `saved` in order would hold it.
pub open spec fn saved_for<TC>(saved: Seq<(String, TC)>, id: Seq<char>) -> Option<TC>
    decreases saved.len(),
{
    if saved.len() == 0 {
        None
    } else if saved.last().0@ == id {
        Some(saved.last().1)
    } else {
        saved_for(saved.drop_last(), id)
    }
}

/// The components of `e` once its saved transform, if any, is put back.
pub open spec fn reverted<TC, VC>(e: Entity<TC, VC>, saved: Seq<(String, TC)>) -> Seq<Component<TC, VC>> {
    match saved_for(saved, e.id@) {
        Some(t) => replace_first_transform(e.components@, t),
        None => e.components@,
    }
}

/// No two entities share an id.
pub open spec fn distinct_ids<TC, VC>(entities: Seq<Entity<TC, VC>>) -> bool {
    forall|i: int, j: int|
        0 <= i < entities.len() && 0 <= j < entities.len() && i != j ==> (#[trigger] entities[i]).id@
            != (#[trigger] entities[j]).id@
}

proof fn lemma_first_transform_at<TC, VC>(comps: Seq<Component<TC, VC>>, j: int, t: TC)
    requires
        first_of(comps, j, |c: Component<TC, VC>| is_transform(c)),
        comps[j] == Component::<TC, VC>::Transform(t),
    ensures
        first_transform(comps) == Some(t),
        forall|u: TC| replace_first_transform(comps, u) == comps.update(j, Component::<TC, VC>::Transform(u)),
    decreases comps.len(),
{
    if j == 0 {
        match comps[0] {
            Component::Transform(_) => {},
            _ => {},
        }
    } else {
        let rest = comps.drop_first();
        assert(!is_transform(comps[0]));
        assert(rest[j - 1] == comps[j]);
        assert forall|k: int| 0 <= k < j - 1 implies !is_transform(#[trigger] rest[k]) by {
            assert(rest[k] == comps[k + 1]);
        }
        lemma_first_transform_at(rest, j - 1, t);
        assert forall|u: TC| replace_first_transform(comps, u) == comps.update(j, Component::<TC, VC>::Transform(u)) by {
            assert(replace_first_transform(rest, u) == rest.update(j - 1, Component::<TC, VC>::Transform(u)));
            assert(seq![comps[0]] + rest.update(j - 1, Component::<TC, VC>::Transform(u)) =~= comps.update(
                j,
                Component::<TC, VC>::Transform(u),
            ));
        }
    }
}

proof fn lemma_no_transform<TC, VC>(comps: Seq<Component<TC, VC>>)
    requires
        none_of(comps, |c: Component<TC, VC>| is_transform(c)),
    ensures
        first_transform(comps) is None,
        forall|u: TC| replace_first_transform(comps, u) == comps,
    decreases comps.len(),
{
    if comps.len() > 0 {
        let rest = comps.drop_first();
        assert(!is_transform(comps[0]));
        assert forall|k: int| 0 <= k < rest.len() implies !is_transform(#[trigger] rest[k]) by {
            assert(rest[k] == comps[k + 1]);
        }
        lemma_no_transform(rest);
        assert forall|u: TC| replace_first_transform(comps, u) == comps by {
            assert(replace_first_transform(rest, u) == rest);
            assert(seq![comps[0]] + rest =~= comps);
        }
    }
}

/// The authored transforms of `entities`, to be saved when play starts.
pub fn snapshot_transforms<TC: Copy, VC>(entities: &Vec<Entity<TC, VC>>) -> (r: Vec<(String, TC)>)
    ensures
        r@ == authored(entities@),
{
    let mut out: Vec<(String, TC)> = Vec::new();
    let mut k: usize = 0;
    while k < entities.len()
        invariant
            k <= entities@.len(),
            out@ == authored(entities@.subrange(0, k as int)),
        decreases entities@.len() - k,
    {
        let ghost pre = entities@.subrange(0, k as int);
        let ghost next = entities@.subrange(0, k + 1);
        proof {
            assert(next.drop_last() =~= pre);
            assert(next.last() == entities@[k as int]);
        }
        match entities[k].transform() {
            Some(t) => {
                proof {
                    let j = choose|j: int|
                        first_of(entities@[k as int].components@, j, |c: Component<TC, VC>| is_transform(c))
                            && entities@[k as int].components@[j] == Component::<TC, VC>::Transform(*t);
                    lemma_first_transform_at(entities@[k as int].components@, j, *t);
                }
                let tv: TC = *t;
                out.push((entities[k].id.clone(), tv));
            },
            None => {
                proof {
                    lemma_no_transform(entities@[k as int].components@);
                }
            },
        }
        k = k + 1;
    }
    proof {
        assert(entities@.subrange(0, entities@.len() as int) =~= entities@);
    }
    out
}

proof fn lemma_saved_for_prefix<TC>(saved: Seq<(String, TC)>, id: Seq<char>, m: int)
    requires
        0 <= m < saved.len(),
    ensures
        saved_for(saved.subrange(0, m + 1), id) == if saved[m].0@ == id {
            Some(saved[m].1)
        } else {
            saved_for(saved.subrange(0, m), id)
        },
{
    assert(saved.subrange(0, m + 1).drop_last() =~= saved.subrange(0, m));
}

/// The transform saved for `id`, searching from the newest entry.
fn saved_lookup<TC: Copy>(saved: &Vec<(String, TC)>, id: &str) -> (r: Option<TC>)
    ensures
        r == saved_for(saved@, id@),
{
    let mut m: usize = saved.len();
    proof {
        assert(saved@.subrange(0, m as int) =~= saved@);
    }
    while m > 0
        invariant
            m <= saved@.len(),
            saved_for(saved@, id@) == saved_for(saved@.subrange(0, m as int), id@),
        decreases m,
    {
        m = m - 1;
        proof {
            lemma_saved_for_prefix(saved@, id@, m as int);
        }
        if str_eq(saved[m].0.as_str(), id) {
            return Some(saved[m].1);
        }
    }
    None
}

/// Put the saved transforms back: each entity whose id has a saved
/// transform gets it as the value of its first transform component (the
/// newest entry wins when an id was saved twice); everything else is left
/// as it is.
pub fn restore_transforms<TC: Copy, VC>(entities: &mut Vec<Entity<TC, VC>>, saved: &Vec<(String, TC)>)
    ensures
        final(entities)@.len() == old(entities)@.len(),
        forall|k: int|
            #![trigger final(entities)@[k]]
            0 <= k < old(entities)@.len() ==> {
                &&& final(entities)@[k].id == old(entities)@[k].id
                &&& final(entities)@[k].name == old(entities)@[k].name
                &&& final(entities)@[k].components@ == reverted(old(entities)@[k], saved@)
            },
{
    let ghost orig = entities@;
    let mut k: usize = 0;
    while k < entities.len()
        invariant
            entities@.len() == orig.len(),
            k <= orig.len(),
            forall|i: int|
                #![trigger entities@[i]]
                0 <= i < k ==> {
                    &&& entities@[i].id == orig[i].id
                    &&& entities@[i].name == orig[i].name
                    &&& entities@[i].components@ == reverted(orig[i], saved@)
                },
            forall|i: int| k <= i < orig.len() ==> #[trigger] entities@[i] == orig[i],
        decreases orig.len() - k,
    {
        let found = saved_lookup(saved, entities[k].id.as_str());
        match found {
            Some(t) => {
                let ghost before = entities@[k as int];
                let e = &mut entities[k];
                match e.transform_mut() {
                    Some(tm) => {
                        proof {
                            let j = choose|j: int|
                                first_of(before.components@, j, |c: Component<TC, VC>| is_transform(c))
                                    && before.components@[j] == Component::<TC, VC>::Transform(*tm);
                            lemma_first_transform_at(before.components@, j, *tm);
                        }
                        *tm = t;
                    },
                    None => {
                        proof {
                            lemma_no_transform(before.components@);
                        }
                    },
                }
            },
            None => {},
        }
        k = k + 1;
    }
}

/// Stopping play reverts to the authored transforms: when the transforms
/// were saved from a scene whose ids are distinct, and play changed
/// nothing but the value of each entity's first transform, putting the
/// saved transforms back gives each entity its authored components.
pub proof fn lemma_stop_reverts<TC, VC>(scene: Seq<Entity<TC, VC>>, played: Seq<Entity<TC, VC>>)
    requires
        distinct_ids(scene),
        played.len() == scene.len(),
        forall|k: int|
            0 <= k < scene.len() ==> (#[trigger] played[k]).id == scene[k].id && exists|t: TC|
                played[k].components@ == replace_first_transform(scene[k].components@, t),
    ensures
        forall|k: int| 0 <= k < scene.len() ==> reverted(#[trigger] played[k], authored(scene)) == scene[k].components@,
{
    assert forall|k: int| 0 <= k < scene.len() implies reverted(#[trigger] played[k], authored(scene))
        == scene[k].components@ by {
        let t = choose|t: TC| played[k].components@ == replace_first_transform(scene[k].components@, t);
        lemma_saved_for_authored(scene, k);
        match first_transform(scene[k].components@) {
            Some(t0) => {
                lemma_replace_twice(scene[k].components@, t, t0);
                lemma_replace_with_own(scene[k].components@);
            },
            None => {
                lemma_replace_absent(scene[k].components@, t);
            },
        }
    }
}

/// With distinct ids, the transform saved for an entity's id is the value
/// of that entity's own first transform.
proof fn lemma_saved_for_authored<TC, VC>(scene: Seq<Entity<TC, VC>>, k: int)
    requires
        distinct_ids(scene),
        0 <= k < scene.len(),
    ensures
        saved_for(authored(scene), scene[k].id@) == first_transform(scene[k].components@),
    decreases scene.len(),
{
    let pre = scene.drop_last();
    let last = scene.last();
    assert forall|i: int, j: int|
        0 <= i < pre.len() && 0 <= j < pre.len() && i != j implies (#[trigger] pre[i]).id@
        != (#[trigger] pre[j]).id@ by {
        assert(pre[i] == scene[i] && pre[j] == scene[j]);
    }
    let rest = authored(pre);
    match first_transform(last.components@) {
        Some(t) => {
            let a = rest.push((last.id, t));
            assert(a.drop_last() =~= rest);
            assert(a.last() == (last.id, t));
        },
        None => {},
    }
    if k == scene.len() - 1 {
        if first_transform(last.components@) is None {
            assert forall|i: int| 0 <= i < pre.len() implies (#[trigger] pre[i]).id@ != last.id@ by {
                assert(pre[i] == scene[i]);
            }
            lemma_saved_for_absent(pre, last.id@);
        }
    } else {
        assert(pre[k] == scene[k]);
        assert(last.id@ != scene[k].id@) by {
            assert(scene[scene.len() - 1] == last);
        }
        lemma_saved_for_authored(pre, k);
    }
}

/// An id held by no entity has nothing saved under it.
proof fn lemma_saved_for_absent<TC, VC>(scene: Seq<Entity<TC, VC>>, id: Seq<char>)
    requires
        forall|i: int| 0 <= i < scene.len() ==> (#[trigger] scene[i]).id@ != id,
    ensures
        saved_for(authored(scene), id) is None,
    decreases scene.len(),
{
    if scene.len() > 0 {
        let pre = scene.drop_last();
        assert forall|i: int| 0 <= i < pre.len() implies (#[trigger] pre[i]).id@ != id by {
            assert(pre[i] == scene[i]);
        }
        assert(scene[scene.len() - 1].id@ != id);
        lemma_saved_for_absent(pre, id);
        let rest = authored(pre);
        match first_transform(scene.last().components@) {
            Some(t) => {
                let a = rest.push((scene.last().id, t));
                assert(a.drop_last() =~= rest);
                assert(a.last() == (scene.last().id, t));
            },
            None => {},
        }
    }
}

proof fn lemma_replace_twice<TC, VC>(comps: Seq<Component<TC, VC>>, t: TC, u: TC)
    ensures
        replace_first_transform(replace_first_transform(comps, t), u) == replace_first_transform(comps, u),
    decreases comps.len(),
{
    if comps.len() > 0 {
        match comps[0] {
            Component::Transform(_) => {
                let once = comps.update(0, Component::<TC, VC>::Transform(t));
                assert(once.update(0, Component::<TC, VC>::Transform(u)) =~= comps.update(
                    0,
                    Component::<TC, VC>::Transform(u),
                ));
            },
            _ => {
                let rest = comps.drop_first();
                lemma_replace_twice(rest, t, u);
                let once = seq![comps[0]] + replace_first_transform(rest, t);
                assert(once[0] == comps[0]);
                assert(once.drop_first() =~= replace_first_transform(rest, t));
            },
        }
    }
}

proof fn lemma_replace_with_own<TC, VC>(comps: Seq<Component<TC, VC>>)
    requires
        first_transform(comps) is Some,
    ensures
        replace_first_transform(comps, first_transform(comps).unwrap()) == comps,
    decreases comps.len(),
{
    match comps[0] {
        Component::Transform(t) => {
            assert(comps.update(0, Component::<TC, VC>::Transform(t)) =~= comps);
        },
        _ => {
            let rest = comps.drop_first();
            lemma_replace_with_own(rest);
            assert(seq![comps[0]] + rest =~= comps);
        },
    }
}

proof fn lemma_replace_absent<TC, VC>(comps: Seq<Component<TC, VC>>, t: TC)
    requires
        first_transform(comps) is None,
    ensures
        replace_first_transform(comps, t) == comps,
    decreases comps.len(),
{
    if comps.len() > 0 {
        match comps[0] {
            Component::Transform(_) => {},
            _ => {
                let rest = comps.drop_first();
                lemma_replace_absent(rest, t);
                assert(seq![comps[0]] + rest =~= comps);
            },
        }
    }
}

} // verus!
