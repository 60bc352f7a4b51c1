use neudel::ecs::entity::EntityAllocator;

#[test]
fn allocate_is_sequential_from_zero() {
    let mut alloc = EntityAllocator::new();
    let a = alloc.allocate();
    let b = alloc.allocate();
    assert_eq!((a.index(), a.generation()), (0, 0));
    assert_eq!((b.index(), b.generation()), (1, 0));
    assert_eq!(alloc.len(), 2);
}

#[test]
fn deallocate_recycles_index_with_new_generation() {
    let mut alloc = EntityAllocator::new();
    let a = alloc.allocate();
    assert!(alloc.deallocate(a));
    assert!(!alloc.is_alive(a));
    let b = alloc.allocate();
    assert_eq!(b.index(), a.index());
    assert_eq!(b.generation(), a.generation() + 1);
    assert!(alloc.is_alive(b));
    assert!(!alloc.is_alive(a), "stale handle must stay dead");
}

#[test]
fn double_deallocate_is_rejected() {
    let mut alloc = EntityAllocator::new();
    let a = alloc.allocate();
    assert!(alloc.deallocate(a));
    assert!(!alloc.deallocate(a));
    assert_eq!(alloc.len(), 0);
}

#[test]
fn free_list_is_last_in_first_out() {
    let mut alloc = EntityAllocator::new();
    let a = alloc.allocate();
    let b = alloc.allocate();
    let c = alloc.allocate();
    assert!(alloc.deallocate(a));
    assert!(alloc.deallocate(c));
    let d = alloc.allocate();
    let e = alloc.allocate();
    let f = alloc.allocate();
    assert_eq!((d.index(), d.generation()), (2, 1));
    assert_eq!((e.index(), e.generation()), (0, 1));
    assert_eq!((f.index(), f.generation()), (3, 0));
    assert!(alloc.is_alive(b));
    assert_eq!(alloc.slot_count(), 4);
    assert_eq!(alloc.len(), 4);
}

#[test]
fn iter_lists_live_ids_in_slot_order() {
    let mut alloc = EntityAllocator::new();
    let ids: Vec<_> = (0..5).map(|_| alloc.allocate()).collect();
    assert!(alloc.deallocate(ids[1]));
    assert!(alloc.deallocate(ids[3]));
    let live = alloc.iter();
    assert_eq!(live, vec![ids[0], ids[2], ids[4]]);
    assert!(!alloc.is_empty());
}

#[test]
fn clear_forgets_every_slot() {
    let mut alloc = EntityAllocator::new();
    let a = alloc.allocate();
    alloc.allocate();
    alloc.clear();
    assert!(alloc.is_empty());
    assert_eq!(alloc.slot_count(), 0);
    assert!(!alloc.is_alive(a));
    let b = alloc.allocate();
    assert_eq!((b.index(), b.generation()), (0, 0));
}

#[test]
fn retired_handle_never_comes_back() {
    let mut alloc = EntityAllocator::new();
    let a = alloc.allocate();
    assert!(alloc.deallocate(a));
    for _ in 0..10 {
        let x = alloc.allocate();
        assert!(!alloc.is_alive(a));
        assert!(alloc.deallocate(x));
    }
    assert!(!alloc.is_alive(a));
}

#[test]
fn slot_count_grows_only_when_no_slot_is_free() {
    let mut a = EntityAllocator::default();
    assert!(a.is_empty() && a.slot_count() == 0);
    let x = a.allocate();
    let y = a.allocate();
    assert_eq!(a.slot_count(), 2);
    assert!(a.deallocate(x));
    // A freed slot is reused before the slot count grows.
    let z = a.allocate();
    assert_eq!(z.index(), x.index());
    assert_eq!(a.slot_count(), 2);
    assert_eq!(a.len(), a.slot_count());
    let w = a.allocate();
    assert_eq!(w.index(), 2);
    assert_eq!(a.slot_count(), 3);
    assert!(a.is_alive(y) && a.is_alive(w));
}
