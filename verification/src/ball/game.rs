//! *Ball* rules on the engine ECS.
//!
//! Two balls bounce along a fixed arc of [`STATIONS`] discrete stations
//! (0 = left hand, `STATIONS - 1` = right hand), one station per tick, out
//! of phase. The player's hand pose decides each arrival: the right pose at
//! an end station is a catch (score + 1), the wrong one a miss; either way
//! the ball turns back. Three misses end the game; the tick clock speeds up
//! with score.
//!
//! Balls are entities of the engine [`World`]; the game-specific
//! [`BallState`] component lives in a game-owned [`SparseSet`] keyed by the
//! same ids.

use std::time::Duration;

use vstd::prelude::*;

use crate::ecs::entity::EntityId;
use crate::ecs::sparse_set::SparseSet;
use crate::ecs::world::{keys_live, World};

verus! {

/// Number of stations on the arc, hands included.
pub const STATIONS: usize = 7;

pub const MAX_MISSES: u32 = 3;

#[derive(Debug, Clone, Copy, PartialEq, Eq, Structural)]
pub enum Hand {
    Left,
    Right,
}

/// Per-ball component: where on the arc, and which way it travels.
#[derive(Debug, Clone, Copy)]
pub struct BallState {
    pub station: usize,
    /// Direction of travel: +1 towards the right hand, -1 towards the left.
    pub dir: i32,
}

impl BallState {
    /// On the arc, moving one station per tick, and turned back at either end.
    pub open spec fn wf(self) -> bool {
        &&& self.station < STATIONS
        &&& (self.dir == 1 || self.dir == -1)
        &&& self.station == 0 ==> self.dir == 1
        &&& self.station == STATIONS - 1 ==> self.dir == -1
    }

    /// The station the ball reaches on the next tick.
    pub open spec fn next_station(self) -> int {
        self.station + self.dir
    }

    /// The hand that must be raised when the ball reaches its next
    /// station, if that station is a hand.
    pub open spec fn arrival(self) -> Option<Hand> {
        if self.next_station() == 0 {
            Some(Hand::Left)
        } else if self.next_station() == STATIONS - 1 {
            Some(Hand::Right)
        } else {
            None
        }
    }

    /// The ball one tick later.
    pub open spec fn stepped(self, next: BallState) -> bool {
        &&& next.station == self.next_station()
        &&& next.dir == if self.arrival().is_some() {
            -self.dir
        } else {
            self.dir as int
        }
    }
}

/// Position of a ball in its 12-tick bounce cycle: 0 at the left hand
/// heading right, 6 at the right hand heading left.
pub open spec fn phase(b: BallState) -> int {
    if b.dir == 1 {
        b.station as int
    } else {
        12 - b.station
    }
}

/// Each tick moves a ball one step through its cycle; it reaches the right
/// hand as its phase turns 6 and the left hand as it turns 0, and nowhere
/// else.
pub proof fn lemma_phase_advances(b: BallState, next: BallState)
    requires
        b.wf(),
        b.stepped(next),
    ensures
        next.wf(),
        0 <= phase(b) < 12,
        phase(next) == (phase(b) + 1) % 12,
        b.arrival() == if phase(next) == 6 {
            Some(Hand::Right)
        } else if phase(next) == 0 {
            Some(Hand::Left)
        } else {
            None
        },
{
}

/// The hand a ball that started at phase `start` needs on tick `t`, if it
/// arrives at a hand on that tick.
pub open spec fn hand_due(start: int, t: int) -> Option<Hand> {
    let q = (start + t) % 12;
    if q == 6 {
        Some(Hand::Right)
    } else if q == 0 {
        Some(Hand::Left)
    } else {
        None
    }
}

/// With the balls half a bounce apart (phases 0 and 3, as a new game
/// starts them), arrivals come every third tick, never two at once, in a
/// right, right, left, left rhythm.
pub proof fn lemma_rrll_rhythm(t: int)
    requires
        t >= 1,
    ensures
        (hand_due(0, t).is_some() || hand_due(3, t).is_some()) <==> t % 3 == 0,
        !(hand_due(0, t).is_some() && hand_due(3, t).is_some()),
        (t % 12 == 3 || t % 12 == 6) ==> (hand_due(0, t) == Some(Hand::Right) || hand_due(3, t) == Some(Hand::Right)),
        (t % 12 == 9 || t % 12 == 0) ==> (hand_due(0, t) == Some(Hand::Left) || hand_due(3, t) == Some(Hand::Left)),
{
}

/// Balls among `balls` whose next arrival the hand `hand` catches.
pub open spec fn caught_by(balls: Seq<BallState>, hand: Hand) -> nat
    decreases balls.len(),
{
    if balls.len() == 0 {
        0
    } else {
        caught_by(balls.drop_last(), hand) + if balls.last().arrival() == Some(hand) {
            1nat
        } else {
            0nat
        }
    }
}

/// Balls among `balls` that arrive at a hand other than `hand`.
pub open spec fn missed_by(balls: Seq<BallState>, hand: Hand) -> nat
    decreases balls.len(),
{
    if balls.len() == 0 {
        0
    } else {
        missed_by(balls.drop_last(), hand) + if balls.last().arrival().is_some()
            && balls.last().arrival() != Some(hand) {
            1nat
        } else {
            0nat
        }
    }
}

/// Number of balls among `balls` whose next station is `station`.
pub open spec fn arriving_at(balls: Seq<BallState>, station: int) -> nat {
    balls.filter(|b: BallState| b.next_station() == station).len()
}

/// The end station of the arc where `hand` catches: station 0 for the left
/// hand, the last station for the right.
pub open spec fn hand_station(hand: Hand) -> int {
    match hand {
        Hand::Left => 0,
        Hand::Right => STATIONS - 1,
    }
}

/// The hand that is not `hand`.
pub open spec fn other_hand(hand: Hand) -> Hand {
    match hand {
        Hand::Left => Hand::Right,
        Hand::Right => Hand::Left,
    }
}

proof fn lemma_counts_are_arrivals(balls: Seq<BallState>, hand: Hand)
    ensures
        caught_by(balls, hand) == arriving_at(balls, hand_station(hand)),
        missed_by(balls, hand) == arriving_at(balls, hand_station(other_hand(hand))),
    decreases balls.len(),
{
    reveal_with_fuel(Seq::<BallState>::filter, 1);
    if balls.len() > 0 {
        lemma_counts_are_arrivals(balls.drop_last(), hand);
    }
}

/// What a tick scores: for a game that is not over, the raised hand
/// catches every ball arriving at its own end of the arc, and every ball
/// arriving at the other end is a miss (so a ball reaching the left hand
/// while the right hand is up always costs a miss).
pub proof fn lemma_tick_scores_and_misses<T, V>(g: Game<T, V>, next: Game<T, V>)
    requires
        !g.over,
        g.ticks_to(next),
    ensures
        next.score == g.score + arriving_at(g.ball_states.values(), hand_station(g.hand)),
        next.misses == g.misses + arriving_at(g.ball_states.values(), hand_station(other_hand(g.hand))),
        next.over == (next.misses >= MAX_MISSES),
{
    lemma_counts_are_arrivals(g.ball_states.values(), g.hand);
}

proof fn lemma_counts_bounded(balls: Seq<BallState>, hand: Hand)
    ensures
        caught_by(balls, hand) <= balls.len(),
        missed_by(balls, hand) <= balls.len(),
    decreases balls.len(),
{
    if balls.len() > 0 {
        lemma_counts_bounded(balls.drop_last(), hand);
    }
}

/// Tick interval for a score: 420 ms, 6 ms shorter per point, never below
/// 140 ms.
pub open spec fn interval_ms(score: u32) -> u64 {
    let dec = 6 * score as int;
    let base = if dec >= 420 {
        0
    } else {
        420 - dec
    };
    if base < 140 {
        140
    } else {
        base as u64
    }
}

/// The clock never runs faster than the floor, and never slows down as
/// the score grows.
pub proof fn lemma_interval_floor_and_monotone(s1: u32, s2: u32)
    ensures
        140 <= interval_ms(s1) <= 420,
        s1 <= s2 ==> interval_ms(s2) <= interval_ms(s1),
{
}

/// What `Duration::from_millis` returns for `ms`.
pub uninterp spec fn millis_duration(ms: u64) -> Duration;

/// `std::time::Duration::from_millis`: a span of `ms` milliseconds.
#[verifier::external_body]
fn duration_from_millis(ms: u64) -> (d: Duration)
    ensures
        d == millis_duration(ms),
{
    Duration::from_millis(ms)
}

/// Nanoseconds between ticks at `score`.
pub open spec fn interval_ns(score: u32) -> nat {
    (interval_ms(score) * 1_000_000) as nat
}

/// Fewest nanoseconds between two ticks: the interval at its floor.
pub const MIN_INTERVAL_NS: u128 = 140_000_000;

/// `trace` is a run of games, each the one before it one tick later.
pub open spec fn tick_run<T, V>(trace: Seq<Game<T, V>>) -> bool {
    &&& trace.len() >= 1
    &&& forall|i: int| 0 <= i < trace.len() - 1 ==> (#[trigger] trace[i]).ticks_to(trace[i + 1])
}

/// Time a run of ticks uses up: for every game of `trace` but the last,
/// the tick interval at its score.
pub open spec fn consumed<T, V>(trace: Seq<Game<T, V>>) -> nat
    decreases trace.len(),
{
    if trace.len() <= 1 {
        0
    } else {
        consumed(trace.drop_last()) + interval_ns(trace[trace.len() - 2].score)
    }
}

/// One tick adds at most one point, one miss and one tick count per ball,
/// and keeps the number of balls.
proof fn lemma_tick_bounds<T, V>(g: Game<T, V>, next: Game<T, V>)
    requires
        g.balls_ok(),
        g.ticks_to(next),
    ensures
        next.score <= g.score + g.ball_states.spec_len(),
        next.misses <= g.misses + g.ball_states.spec_len(),
        next.ticks <= g.ticks + 1,
        next.ball_states.spec_len() == g.ball_states.spec_len(),
{
    g.ball_states.lemma_wf_facts();
    lemma_counts_bounded(g.ball_states.values(), g.hand);
}

/// Extending a run by one more tick keeps it a run, and uses up the
/// interval at the score of the game it ticked from.
proof fn lemma_run_extend<T, V>(trace: Seq<Game<T, V>>, next: Game<T, V>)
    requires
        tick_run(trace),
        trace.last().ticks_to(next),
    ensures
        tick_run(trace.push(next)),
        consumed(trace.push(next)) == consumed(trace) + interval_ns(trace.last().score),
{
    let ext = trace.push(next);
    assert(ext.drop_last() =~= trace);
    assert(ext[ext.len() - 2] == trace.last());
    assert forall|i: int| 0 <= i < ext.len() - 1 implies (#[trigger] ext[i]).ticks_to(ext[i + 1]) by {
        if i < trace.len() - 1 {
            assert(ext[i] == trace[i] && ext[i + 1] == trace[i + 1]);
        }
    }
}

/// A run with at least one tick uses up some time.
proof fn lemma_consumed_positive<T, V>(trace: Seq<Game<T, V>>)
    requires
        trace.len() > 1,
    ensures
        consumed(trace) > 0,
{
    assert(interval_ns(trace[trace.len() - 2].score) > 0);
}

pub struct Game<T, V> {
    pub world: World<T, V>,
    /// Game-side component store, keyed by world entity ids.
    pub ball_states: SparseSet<BallState>,
    pub hand: Hand,
    pub score: u32,
    pub misses: u32,
    pub ticks: u64,
    pub over: bool,
}

impl<T: Default, V> Default for Game<T, V> {
    /// A fresh round, as [`Game::new`].
    fn default() -> (g: Self)
        ensures
            g.fresh(Hand::Left),
    {
        Self::new()
    }
}

impl<T, V> Game<T, V> {
    /// Consistency of a game: every ball is a world entity on the arc, and
    /// the game is over exactly when the misses have run out.
    pub open spec fn wf(&self) -> bool {
        &&& self.world.wf()
        &&& self.ball_states.wf()
        &&& keys_live(self.ball_states.ids(), self.world.allocator_view())
        &&& forall|k: int| 0 <= k < self.ball_states.values().len() ==> (#[trigger] self.ball_states.values()[k]).wf()
        &&& self.over == (self.misses >= MAX_MISSES)
    }

    /// A fresh round with `hand` raised: a consistent game whose world
    /// holds just the two balls, named `ball-0` and `ball-1`, one at the
    /// left hand and one half a bounce ahead at station 3, both heading
    /// right; no score, no misses, no ticks.
    pub open spec fn fresh(&self, hand: Hand) -> bool {
        &&& self.wf()
        &&& self.world.live() == 2
        &&& self.ball_states.spec_len() == 2
        &&& self.ball_states.values()[0].station == 0 && self.ball_states.values()[0].dir == 1
        &&& self.ball_states.values()[1].station == 3 && self.ball_states.values()[1].dir == 1
        &&& self.hand == hand
        &&& self.score == 0
        &&& self.misses == 0
        &&& self.ticks == 0
        &&& !self.over
        &&& self.world.name_store().spec_get(self.ball_states.ids()[0]) matches Some(n0) && n0@ == "ball-0"@
        &&& self.world.name_store().spec_get(self.ball_states.ids()[1]) matches Some(n1) && n1@ == "ball-1"@
    }

    /// The ball store is consistent and every ball is on the arc: what
    /// advancing the balls relies on.
    pub open spec fn balls_ok(&self) -> bool {
        &&& self.ball_states.wf()
        &&& forall|k: int| 0 <= k < self.ball_states.values().len() ==> (#[trigger] self.ball_states.values()[k]).wf()
    }

    /// `next` is this game one tick later: unchanged once the game is
    /// over; otherwise every ball has moved one station (turning back at
    /// the hands), the raised hand scored its catches and the other
    /// arrivals count as misses, the game is over once the misses reach
    /// [`MAX_MISSES`], and the world, the hand and the ball ids are as they
    /// were.
    pub open spec fn ticks_to(self, next: Self) -> bool {
        if self.over {
            next == self
        } else {
            &&& next.ticks == self.ticks + 1
            &&& next.world == self.world
            &&& next.hand == self.hand
            &&& next.ball_states.ids() == self.ball_states.ids()
            &&& next.ball_states.values().len() == self.ball_states.values().len()
            &&& forall|k: int|
                0 <= k < self.ball_states.values().len() ==> (#[trigger] self.ball_states.values()[k]).stepped(
                    next.ball_states.values()[k],
                )
            &&& next.score == self.score + caught_by(self.ball_states.values(), self.hand)
            &&& next.misses == self.misses + missed_by(self.ball_states.values(), self.hand)
            &&& next.over == (next.misses >= MAX_MISSES)
        }
    }

    /// Stations occupied by the balls, in store order.
    pub open spec fn stations(&self) -> Seq<usize> {
        self.ball_states.values().map_values(|b: BallState| b.station)
    }

    /// Fresh round: two balls spawned into a new world, one at the left
    /// hand and one half a bounce ahead at station 3, both heading right;
    /// left hand up, no score, no misses.
    pub fn new() -> (g: Self)
        where T: Default
        ensures
            g.fresh(Hand::Left),
    {
        let mut world: World<T, V> = World::new();
        let mut ball_states: SparseSet<BallState> = SparseSet::new();
        let a = world.spawn("ball-0".to_string());
        let b = world.spawn("ball-1".to_string());
        proof {
            assert(a != b);
        }
        ball_states.insert(a, BallState { station: 0, dir: 1 });
        ball_states.insert(b, BallState { station: 3, dir: 1 });
        proof {
            crate::ecs::sparse_set::lemma_slot_in_unique(ball_states.ids(), a, 0);
            assert forall|id: EntityId| #[trigger] ball_states.ids().contains(id) implies world.spec_is_alive(id) by {
                let j = choose|j: int| 0 <= j < ball_states.ids().len() && ball_states.ids()[j] == id;
                assert(j == 0 || j == 1);
            }
        }
        Game { world, ball_states, hand: Hand::Left, score: 0, misses: 0, ticks: 0, over: false }
    }

    pub fn set_hand(&mut self, hand: Hand)
        ensures
            *final(self) == (Game { hand, ..*old(self) }),
    {
        self.hand = hand;
    }

    /// Advance every ball one station and resolve arrivals. Frozen once the
    /// game is over.
    pub fn tick(&mut self)
        requires
            old(self).balls_ok(),
            !old(self).over ==> {
                &&& old(self).ticks < u64::MAX
                &&& old(self).score + caught_by(old(self).ball_states.values(), old(self).hand) <= u32::MAX
                &&& old(self).misses + missed_by(old(self).ball_states.values(), old(self).hand) <= u32::MAX
            },
        ensures
            final(self).balls_ok(),
            old(self).wf() ==> final(self).wf(),
            old(self).ticks_to(*final(self)),
    {
        if self.over {
            return;
        }
        proof {
            self.ball_states.lemma_wf_facts();
            lemma_counts_bounded(self.ball_states.values(), self.hand);
        }
        self.ticks = self.ticks + 1;
        let ghost before = self.ball_states.values();
        let ghost hand = self.hand;
        let n = self.ball_states.len();
        let mut caught: u32 = 0;
        let mut missed: u32 = 0;
        let mut k: usize = 0;
        while k < n
            invariant
                self.ball_states.wf(),
                self.hand == hand,
                self.score == old(self).score,
                self.misses == old(self).misses,
                self.world == old(self).world,
                self.over == old(self).over,
                self.ticks == old(self).ticks + 1,
                hand == old(self).hand,
                before == old(self).ball_states.values(),
                n == before.len(),
                n == self.ball_states.spec_len(),
                k <= n,
                self.ball_states.ids() == old(self).ball_states.ids(),
                self.ball_states.values().len() == n,
                forall|m: int| 0 <= m < n ==> (#[trigger] before[m]).wf(),
                forall|m: int| 0 <= m < k ==> (#[trigger] before[m]).stepped(self.ball_states.values()[m]),
                forall|m: int| 0 <= m < k ==> (#[trigger] self.ball_states.values()[m]).wf(),
                forall|m: int| k <= m < n ==> #[trigger] self.ball_states.values()[m] == before[m],
                caught == caught_by(before.subrange(0, k as int), hand),
                missed == missed_by(before.subrange(0, k as int), hand),
                caught <= k,
                missed <= k,
                n < u32::MAX,
            decreases n - k,
        {
            let ghost b0 = before[k as int];
            let current = self.hand;
            let ball = self.ball_states.value_at_mut(k);
            let station = (ball.station as i32 + ball.dir) as usize;
            ball.station = station;
            if station == 0 || station == STATIONS - 1 {
                let required = if station == 0 {
                    Hand::Left
                } else {
                    Hand::Right
                };
                if required == current {
                    caught = caught + 1;
                } else {
                    missed = missed + 1;
                }
                // Caught balls are tossed back; missed ones bounce anyway so the
                // round keeps flowing (the penalty is the miss mark).
                ball.dir = -ball.dir;
            }
            proof {
                let pre = before.subrange(0, k as int);
                let post = before.subrange(0, k + 1);
                assert(post.drop_last() =~= pre);
                assert(post.last() == b0);
            }
            k = k + 1;
        }
        proof {
            assert(before.subrange(0, n as int) =~= before);
            assert forall|m: int| 0 <= m < n implies (#[trigger] self.ball_states.values()[m]).wf() by {
                assert(before[m].stepped(self.ball_states.values()[m]));
            }
        }
        self.score = self.score + caught;
        self.misses = self.misses + missed;
        if self.misses >= MAX_MISSES {
            self.over = true;
        }
    }

    /// Milliseconds between ticks: starts leisurely, tightens 6 ms per
    /// point down to a 140 ms floor.
    pub fn tick_interval_ms(&self) -> (r: u64)
        ensures
            r == interval_ms(self.score),
    {
        let dec: u64 = 6 * (self.score as u64);
        let base: u64 = if dec >= 420 {
            0
        } else {
            420 - dec
        };
        if base < 140 {
            140
        } else {
            base
        }
    }

    /// Time between ticks, as a `Duration` of [`Game::tick_interval_ms`].
    pub fn tick_interval(&self) -> (r: Duration)
        ensures
            r == millis_duration(interval_ms(self.score)),
    {
        duration_from_millis(self.tick_interval_ms())
    }

    /// Fixed-timestep catch-up: while the accumulated time covers the tick
    /// interval at the current score, take that interval off and tick (the
    /// interval is read again after every tick, since scoring shortens it).
    /// Returns the time left over and whether any tick ran.
    pub fn catch_up(&mut self, accumulated_ns: u128) -> (r: (u128, bool))
        requires
            old(self).balls_ok(),
            old(self).score + old(self).ball_states.spec_len() * (accumulated_ns / MIN_INTERVAL_NS) <= u32::MAX,
            old(self).misses + old(self).ball_states.spec_len() * (accumulated_ns / MIN_INTERVAL_NS) <= u32::MAX,
            old(self).ticks + accumulated_ns / MIN_INTERVAL_NS <= u64::MAX,
        ensures
            final(self).balls_ok(),
            old(self).wf() ==> final(self).wf(),
            r.0 < interval_ns(final(self).score),
            r.1 == (r.0 < accumulated_ns),
            exists|trace: Seq<Game<T, V>>|
                {
                    &&& tick_run(trace)
                    &&& trace[0] == *old(self)
                    &&& trace.last() == *final(self)
                    &&& r.1 == (trace.len() > 1)
                    &&& accumulated_ns - r.0 == consumed(trace)
                },
    {
        let ghost start = *self;
        let ghost mut trace: Seq<Game<T, V>> = seq![*self];
        let ghost n_max = accumulated_ns / MIN_INTERVAL_NS;
        let ghost len = self.ball_states.spec_len();
        let mut acc: u128 = accumulated_ns;
        let mut ticked = false;
        loop
            invariant_except_break
                acc <= accumulated_ns,
            invariant
                self.balls_ok(),
                start == *old(self),
                start.wf() ==> self.wf(),
                self.ball_states.spec_len() == len,
                len == old(self).ball_states.spec_len(),
                n_max == accumulated_ns / MIN_INTERVAL_NS,
                tick_run(trace),
                trace[0] == start,
                trace.last() == *self,
                acc <= accumulated_ns,
                accumulated_ns - acc == consumed(trace),
                (trace.len() - 1) * MIN_INTERVAL_NS <= consumed(trace),
                ticked == (trace.len() > 1),
                self.score <= start.score + (trace.len() - 1) * len,
                self.misses <= start.misses + (trace.len() - 1) * len,
                self.ticks <= start.ticks + (trace.len() - 1),
                start.score + len * n_max <= u32::MAX,
                start.misses + len * n_max <= u32::MAX,
                start.ticks + n_max <= u64::MAX,
            ensures
                acc < interval_ns(self.score),
            decreases acc,
        {
            let interval: u128 = (self.tick_interval_ms() as u128) * 1_000_000;
            if acc < interval {
                break;
            }
            let ghost before = *self;
            let ghost n = trace.len() - 1;
            proof {
                assert(MIN_INTERVAL_NS <= interval);
                assert((n + 1) * MIN_INTERVAL_NS <= accumulated_ns) by {
                    assert(n * MIN_INTERVAL_NS + MIN_INTERVAL_NS <= consumed(trace) + interval);
                }
                assert(n + 1 <= n_max) by (nonlinear_arith)
                    requires
                        (n + 1) * MIN_INTERVAL_NS <= accumulated_ns,
                        n_max == accumulated_ns / MIN_INTERVAL_NS,
                        MIN_INTERVAL_NS > 0,
                        n >= 0,
                ;
                assert((n + 1) * len <= len * n_max) by (nonlinear_arith)
                    requires
                        n + 1 <= n_max,
                        len >= 0,
                ;
                assert(n * len + len == (n + 1) * len) by (nonlinear_arith);
                self.ball_states.lemma_wf_facts();
                lemma_counts_bounded(self.ball_states.values(), self.hand);
            }
            acc = acc - interval;
            self.tick();
            proof {
                lemma_tick_bounds(before, *self);
                lemma_run_extend(trace, *self);
                trace = trace.push(*self);
            }
            ticked = true;
        }
        proof {
            assert(acc < accumulated_ns <==> trace.len() > 1) by {
                if trace.len() > 1 {
                    lemma_consumed_positive(trace);
                }
            }
        }
        (acc, ticked)
    }

    /// Fresh round; the hand pose is kept (you're still holding the console).
    pub fn restart(&mut self)
        where T: Default
        ensures
            final(self).fresh(old(self).hand),
    {
        let hand = self.hand;
        *self = Self::new();
        self.hand = hand;
    }

    /// Stations currently occupied by balls, in store order.
    pub fn ball_stations(&self) -> (r: Vec<usize>)
        requires
            self.ball_states.wf(),
        ensures
            r@ == self.stations(),
    {
        let pairs = self.ball_states.iter();
        proof {
            self.ball_states.lemma_wf_facts();
        }
        let mut out: Vec<usize> = Vec::new();
        let mut k: usize = 0;
        while k < pairs.len()
            invariant
                k <= pairs.len(),
                pairs.len() == self.ball_states.values().len(),
                forall|m: int| 0 <= m < pairs.len() ==> *(#[trigger] pairs@[m]).1 == self.ball_states.values()[m],
                out@ == self.stations().subrange(0, k as int),
            decreases pairs.len() - k,
        {
            out.push(pairs[k].1.station);
            k = k + 1;
            proof {
                assert(out@ =~= self.stations().subrange(0, k as int));
            }
        }
        proof {
            assert(out@ =~= self.stations());
        }
        out
    }

    /// Each ball's entity id with the station it occupies, in store order:
    /// what a renderer mirrors into the world transforms.
    pub fn ball_station_pairs(&self) -> (r: Vec<(EntityId, usize)>)
        requires
            self.ball_states.wf(),
        ensures
            r.len() == self.ball_states.spec_len(),
            forall|k: int|
                0 <= k < r.len() ==> (#[trigger] r@[k]).0 == self.ball_states.ids()[k] && r@[k].1
                    == self.ball_states.values()[k].station,
    {
        let pairs = self.ball_states.iter();
        let mut out: Vec<(EntityId, usize)> = Vec::new();
        let mut k: usize = 0;
        while k < pairs.len()
            invariant
                k <= pairs.len(),
                pairs.len() == self.ball_states.spec_len(),
                forall|m: int|
                    0 <= m < pairs.len() ==> (#[trigger] pairs@[m]).0 == self.ball_states.ids()[m] && *pairs@[m].1
                        == self.ball_states.values()[m],
                out.len() == k,
                forall|m: int|
                    0 <= m < k ==> (#[trigger] out@[m]).0 == self.ball_states.ids()[m] && out@[m].1
                        == self.ball_states.values()[m].station,
            decreases pairs.len() - k,
        {
            out.push((pairs[k].0, pairs[k].1.station));
            k = k + 1;
        }
        out
    }
}

} // verus!
