use std::time::Duration;

use neudel::ball::controls::{press, Key, Response};
use neudel::ball::game::{Game, Hand, MAX_MISSES, STATIONS};

#[derive(Debug, Clone, Copy, Default)]
struct Transform {
    x: f32,
    y: f32,
}

type G = Game<Transform, ()>;

#[test]
fn new_game_has_two_balls_in_world_and_store() {
    let g = G::new();
    assert_eq!(g.world.len(), 2);
    assert_eq!(g.ball_states.len(), 2);
    assert_eq!(g.score, 0);
    assert_eq!(g.misses, 0);
    assert!(!g.over);
}

#[test]
fn balls_advance_one_station_per_tick_and_stay_in_range() {
    let mut g = G::new();
    let before: Vec<_> = g.ball_stations();
    g.tick();
    let after: Vec<_> = g.ball_stations();
    for (b, a) in before.iter().zip(&after) {
        assert_eq!((*a as i32 - *b as i32).abs(), 1);
    }
    for _ in 0..100 {
        g.set_hand(if g.ticks % 6 < 3 { Hand::Right } else { Hand::Left });
        g.tick();
        assert!(g.ball_stations().iter().all(|&s| s < STATIONS), "station escaped the arc");
    }
}

#[test]
fn rrll_rhythm_scores_with_correct_hands() {
    let mut g = G::new();
    // Arrivals: t3 right, t6 right, t9 left, t12 left.
    g.set_hand(Hand::Right);
    for _ in 0..6 {
        g.tick();
    }
    assert_eq!((g.score, g.misses), (2, 0));
    g.set_hand(Hand::Left);
    for _ in 0..6 {
        g.tick();
    }
    assert_eq!((g.score, g.misses), (4, 0));
    assert!(!g.over);
}

#[test]
fn wrong_hand_misses_and_three_misses_end_the_game() {
    let mut g = G::new();
    // Hand stays Left: t3 and t6 arrive right (miss, miss), t9 and t12
    // arrive left (catch), t15 arrives right (third miss) — game over.
    for _ in 0..15 {
        g.tick();
    }
    assert_eq!(g.misses, MAX_MISSES);
    assert_eq!(g.score, 2);
    assert!(g.over);
    // Frozen after game over.
    let (ticks, stations): (u64, Vec<_>) = (g.ticks, g.ball_stations());
    g.tick();
    assert_eq!(g.ticks, ticks);
    assert_eq!(g.ball_stations(), stations);
}

#[test]
fn tick_interval_ramps_down_to_a_floor() {
    let mut g = G::new();
    let start = g.tick_interval();
    g.score = 20;
    let mid = g.tick_interval();
    g.score = 10_000;
    let floor = g.tick_interval();
    assert!(start > mid && mid > floor);
    assert_eq!(floor, Duration::from_millis(140));
}

#[test]
fn tick_interval_values() {
    let mut g = G::new();
    assert_eq!(g.tick_interval_ms(), 420);
    g.score = 20;
    assert_eq!(g.tick_interval_ms(), 300);
    assert_eq!(g.tick_interval(), Duration::from_millis(300));
    g.score = 46;
    assert_eq!(g.tick_interval_ms(), 144);
    g.score = 47;
    assert_eq!(g.tick_interval_ms(), 140);
    g.score = 70;
    assert_eq!(g.tick_interval_ms(), 140);
    g.score = u32::MAX;
    assert_eq!(g.tick_interval_ms(), 140);
}

#[test]
fn restart_resets_state_but_keeps_hand() {
    let mut g = G::new();
    g.set_hand(Hand::Right);
    for _ in 0..20 {
        g.tick();
    }
    g.restart();
    assert_eq!((g.score, g.misses, g.ticks), (0, 0, 0));
    assert!(!g.over);
    assert_eq!(g.hand, Hand::Right);
    assert_eq!(g.world.len(), 2);
}

#[test]
fn station_pairs_match_the_store_and_the_world() {
    let mut g = G::new();
    g.tick();
    let pairs = g.ball_station_pairs();
    assert_eq!(pairs.len(), 2);
    assert_eq!(pairs.iter().map(|p| p.1).collect::<Vec<_>>(), g.ball_stations());
    assert_eq!(pairs.iter().map(|p| p.1).collect::<Vec<_>>(), vec![1, 4]);
    for (id, _) in &pairs {
        assert!(g.world.is_alive(*id));
        assert!(g.world.transform(*id).is_some());
    }
    assert_eq!(g.world.name(pairs[0].0), Some("ball-0"));
    assert_eq!(g.world.name(pairs[1].0), Some("ball-1"));
}

#[test]
fn catch_up_runs_every_whole_interval_and_keeps_the_rest() {
    let mut g = G::new();
    // 420 ms per tick at score 0: 1000 ms covers two ticks, 160 ms left.
    let (rest, ticked) = g.catch_up(1_000_000_000);
    assert!(ticked);
    assert_eq!(g.ticks, 2);
    assert_eq!(rest, 160_000_000);

    let mut h = G::new();
    let (rest, ticked) = h.catch_up(419_999_999);
    assert!(!ticked);
    assert_eq!(h.ticks, 0);
    assert_eq!(rest, 419_999_999);
}

#[test]
fn catch_up_rereads_the_interval_after_scoring() {
    let mut g = G::new();
    g.set_hand(Hand::Right);
    // Ticks 1..3 at 420 ms; the third catches (score 1), so tick 4 costs
    // 414 ms: 3 * 420 + 414 = 1674 ms.
    let (rest, _) = g.catch_up(1_674_000_000);
    assert_eq!(g.ticks, 4);
    assert_eq!(g.score, 1);
    assert_eq!(rest, 0);
}

#[test]
fn keys_move_the_hand_restart_and_quit() {
    let mut g = G::new();
    assert_eq!(press(&mut g, Key::ArrowRight), Response::Continue);
    assert_eq!(g.hand, Hand::Right);
    assert_eq!(press(&mut g, Key::ArrowLeft), Response::Continue);
    assert_eq!(g.hand, Hand::Left);
    // Space during play does nothing.
    g.tick();
    assert_eq!(press(&mut g, Key::Space), Response::Continue);
    assert_eq!(g.ticks, 1);
    assert_eq!(press(&mut g, Key::Other), Response::Continue);
    assert_eq!(press(&mut g, Key::Escape), Response::Quit);
    // Left hand held: the third miss comes on tick 15.
    press(&mut g, Key::ArrowRight);
    press(&mut g, Key::ArrowLeft);
    for _ in 0..14 {
        g.tick();
    }
    assert!(g.over);
    assert_eq!(press(&mut g, Key::Enter), Response::ResetClock);
    assert!(!g.over);
    assert_eq!((g.score, g.misses, g.ticks), (0, 0, 0));
    assert_eq!(g.hand, Hand::Left);
}

#[test]
fn new_game_names_its_balls() {
    let g = G::new();
    let pairs = g.ball_station_pairs();
    assert_eq!(g.world.name(pairs[0].0), Some("ball-0"));
    assert_eq!(g.world.name(pairs[1].0), Some("ball-1"));
}
