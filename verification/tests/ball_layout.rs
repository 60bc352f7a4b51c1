use neudel::ball::game::{Game, Hand, STATIONS};
use neudel::ball::layout::{
    digit_segments, role_lit, segment_roles, Role, DIGIT_SEGMENTS, SEGMENT_COUNT, SHAPE_COUNT, SH_BALL, SH_HBAR, SH_VBAR,
};

#[test]
fn digit_table_is_sane() {
    let mut seen = std::collections::HashSet::new();
    for mask in DIGIT_SEGMENTS {
        assert!(mask < 0x80, "only 7 bits");
        assert!(seen.insert(mask), "digit masks must be distinct");
    }
    assert_eq!(DIGIT_SEGMENTS[8], 0x7F, "8 lights all segments");
    assert_eq!(DIGIT_SEGMENTS[1].count_ones(), 2, "1 is two bars");
}

#[test]
fn digit_segments_matches_the_table() {
    for d in 0..10 {
        assert_eq!(digit_segments(d), DIGIT_SEGMENTS[d]);
    }
}

#[test]
fn stations_and_arms_follow_the_game() {
    let occupied = vec![0usize, 3];
    assert!(role_lit(Role::Station(3), &occupied, Hand::Left, 0, 0));
    assert!(!role_lit(Role::Station(4), &occupied, Hand::Left, 0, 0));
    assert!(role_lit(Role::ArmLeft, &occupied, Hand::Left, 0, 0));
    assert!(!role_lit(Role::ArmRight, &occupied, Hand::Left, 0, 0));
    assert!(role_lit(Role::ArmRight, &occupied, Hand::Right, 0, 0));
    assert!(role_lit(Role::Always, &occupied, Hand::Right, 0, 0));
}

#[test]
fn score_digits_and_miss_marks() {
    let none: Vec<usize> = Vec::new();
    // Score 17: tens 1 (bars b, c), ones 7 (bars a, b, c).
    let tens: Vec<bool> = (0..7u8)
        .map(|bit| role_lit(Role::Digit { slot: 0, bit }, &none, Hand::Left, 17, 0))
        .collect();
    assert_eq!(tens, vec![false, true, true, false, false, false, false]);
    let ones: Vec<bool> = (0..7u8)
        .map(|bit| role_lit(Role::Digit { slot: 1, bit }, &none, Hand::Left, 17, 0))
        .collect();
    assert_eq!(ones, vec![true, true, true, false, false, false, false]);
    // Fresh game: "00" lights 6 bars per digit.
    let lit = (0..2usize)
        .flat_map(|slot| (0..7u8).map(move |bit| Role::Digit { slot, bit }))
        .filter(|&r| role_lit(r, &none, Hand::Left, 0, 0))
        .count();
    assert_eq!(lit, 12);
    assert!(role_lit(Role::Miss(1), &none, Hand::Left, 0, 2));
    assert!(!role_lit(Role::Miss(2), &none, Hand::Left, 0, 2));
}

#[test]
fn scene_has_all_stations_and_both_poses() {
    let segments = segment_roles();
    for s in 0..STATIONS {
        assert!(segments.iter().any(|seg| seg.1 == Role::Station(s)));
    }
    assert!(segments.iter().any(|s| s.1 == Role::ArmLeft));
    assert!(segments.iter().any(|s| s.1 == Role::ArmRight));
    // 7 bars per digit slot.
    for slot in 0..2 {
        let bars = segments
            .iter()
            .filter(|s| matches!(s.1, Role::Digit { slot: sl, .. } if sl == slot))
            .count();
        assert_eq!(bars, 7);
    }
}

#[test]
fn segment_list_shapes_and_order() {
    let segments = segment_roles();
    assert_eq!(segments.len(), SEGMENT_COUNT);
    assert!(segments.iter().all(|s| s.0 < SHAPE_COUNT));
    assert_eq!(segments[0], (SH_BALL, Role::Station(0)));
    assert_eq!(segments[14], (SH_HBAR, Role::Digit { slot: 0, bit: 0 }));
    assert_eq!(segments[15], (SH_VBAR, Role::Digit { slot: 0, bit: 1 }));
    assert_eq!(segments[27], (SH_HBAR, Role::Digit { slot: 1, bit: 6 }));
    assert_eq!(segments[30].1, Role::Miss(2));
}

#[test]
fn fresh_game_lights_balls_body_one_arm_and_double_zero() {
    let game: Game<(i32, i32), ()> = Game::new();
    let occupied = game.ball_stations();
    let lit = segment_roles()
        .iter()
        .filter(|s| role_lit(s.1, &occupied, game.hand, game.score, game.misses))
        .count();
    // 2 ball stations, head+torso+ground, one arm pose with its hand cue,
    // digit "00" (6 bars x 2), zero misses.
    assert_eq!(lit, 2 + 3 + 2 + 12);
}
