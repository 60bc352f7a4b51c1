use neudel::ecs::entity::EntityAllocator;
use neudel::ecs::sparse_set::SparseSet;

#[test]
fn insert_get_remove_roundtrip() {
    let mut alloc = EntityAllocator::new();
    let mut set = SparseSet::new();
    let a = alloc.allocate();
    let b = alloc.allocate();
    assert_eq!(set.insert(a, 10), None);
    assert_eq!(set.insert(b, 20), None);
    assert_eq!(set.get(a), Some(&10));
    assert_eq!(set.insert(a, 11), Some(10));
    assert_eq!(set.remove(a), Some(11));
    assert_eq!(set.get(a), None);
    assert_eq!(set.get(b), Some(&20), "swap-remove must repoint survivor");
    assert_eq!(set.len(), 1);
}

#[test]
fn stale_generation_misses() {
    let mut alloc = EntityAllocator::new();
    let mut set = SparseSet::new();
    let a = alloc.allocate();
    set.insert(a, 1);
    alloc.deallocate(a);
    let b = alloc.allocate(); // same index, new generation
    assert_eq!(set.get(b), None, "new entity must not see old component");
    assert!(set.contains(a), "old id still owns the slot until removed");
    set.insert(b, 2);
    assert_eq!(set.get(b), Some(&2));
    assert_eq!(set.get(a), None, "stale id evicted by new insert");
    assert_eq!(set.len(), 1, "eviction must not leave a zombie in dense");
}

#[test]
fn dense_iteration_visits_all() {
    let mut alloc = EntityAllocator::new();
    let mut set = SparseSet::new();
    let ids: Vec<_> = (0..100)
        .map(|i| {
            let id = alloc.allocate();
            set.insert(id, i);
            id
        })
        .collect();
    // Remove every third to force swap-pops.
    for id in ids.iter().step_by(3) {
        set.remove(*id);
    }
    let visited: Vec<_> = set.iter().iter().map(|(_, v)| **v).collect();
    assert_eq!(visited.len(), set.len());
    assert!(visited.iter().all(|v| v % 3 != 0));
}

#[test]
fn remove_moves_the_last_component_into_the_hole() {
    let mut alloc = EntityAllocator::new();
    let mut set = SparseSet::new();
    let a = alloc.allocate();
    let b = alloc.allocate();
    let c = alloc.allocate();
    set.insert(a, 'a');
    set.insert(b, 'b');
    set.insert(c, 'c');
    assert_eq!(set.remove(a), Some('a'));
    let order: Vec<_> = set.iter().iter().map(|(id, v)| (*id, **v)).collect();
    assert_eq!(order, vec![(c, 'c'), (b, 'b')]);
    assert_eq!(set.remove(a), None);
    assert_eq!(set.id_at(0), c);
}

#[test]
fn get_mut_and_value_at_mut_write_through() {
    let mut alloc = EntityAllocator::new();
    let mut set = SparseSet::new();
    let a = alloc.allocate();
    let b = alloc.allocate();
    set.insert(a, 1u32);
    set.insert(b, 2u32);
    *set.get_mut(a).unwrap() = 7;
    *set.value_at_mut(1) += 10;
    assert_eq!(set.get(a), Some(&7));
    assert_eq!(set.get(b), Some(&12));
    let c = alloc.allocate();
    assert!(set.get_mut(c).is_none());
}

#[test]
fn clear_empties_the_set() {
    let mut alloc = EntityAllocator::new();
    let mut set = SparseSet::new();
    let a = alloc.allocate();
    set.insert(a, 5u8);
    assert!(!set.is_empty());
    set.clear();
    assert!(set.is_empty());
    assert!(!set.contains(a));
}
