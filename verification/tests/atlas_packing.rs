use neudel::atlas::{pack_shelves, PAD};

fn overlap(a: (u32, u32), sa: (u32, u32), b: (u32, u32), sb: (u32, u32)) -> bool {
    let disjoint_x = a.0 + sa.0 <= b.0 || b.0 + sb.0 <= a.0;
    let disjoint_y = a.1 + sa.1 <= b.1 || b.1 + sb.1 <= a.1;
    !(disjoint_x || disjoint_y)
}

#[test]
fn single_shelf_when_everything_fits() {
    let cells = vec![(10, 4), (20, 8), (5, 2)];
    let p = pack_shelves(&cells, 100);
    assert_eq!(p.placements, vec![(0, 0), (10, 0), (30, 0)]);
    assert_eq!((p.width, p.height), (35, 8));
}

#[test]
fn narrow_limit_opens_new_shelves_below_the_tallest_cell() {
    let cells = vec![(24, 24), (34, 12), (64, 30), (10, 10)];
    let p = pack_shelves(&cells, 64);
    assert_eq!(p.placements, vec![(0, 0), (24, 0), (0, 24), (0, 54)]);
    assert_eq!((p.width, p.height), (64, 64));
    for i in 0..cells.len() {
        let (x, y) = p.placements[i];
        assert!(x + cells[i].0 <= p.width && y + cells[i].1 <= p.height);
        for j in (i + 1)..cells.len() {
            assert!(!overlap(p.placements[i], cells[i], p.placements[j], cells[j]), "cells {i} and {j} overlap");
        }
    }
}

#[test]
fn oversized_cell_gets_its_own_shelf() {
    let cells = vec![(5, 5), (100, 3), (5, 5)];
    let p = pack_shelves(&cells, 50);
    assert_eq!(p.placements, vec![(0, 0), (0, 5), (0, 8)]);
    assert_eq!((p.width, p.height), (100, 13));
}

#[test]
fn empty_input_packs_to_nothing() {
    let p = pack_shelves(&Vec::new(), 64);
    assert!(p.placements.is_empty());
    assert_eq!((p.width, p.height), (0, 0));
    assert_eq!(PAD, 2);
}
