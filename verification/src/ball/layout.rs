//! LCD panel logic: which segments are lit.
//!
//! A Game & Watch LCD has a fixed set of segments that only ever toggle;
//! motion is adjacent segments lighting in sequence. Every segment is drawn
//! every frame, lit or as a faint ghost; this module decides which, from
//! the segment's [`Role`] and the game state.

use vstd::prelude::*;

use super::game::{Hand, MAX_MISSES, STATIONS};

verus! {

/// What turns a segment on.
#[derive(Debug, Clone, Copy, PartialEq, Eq, Structural)]
pub enum Role {
    /// Lit while a ball occupies this station.
    Station(usize),
    /// Lit while the hand pose is Left.
    ArmLeft,
    /// Lit while the hand pose is Right.
    ArmRight,
    /// Always lit (body, head, ground).
    Always,
    /// One bar of a 7-segment digit. `slot` 0 = tens, 1 = ones.
    Digit { slot: usize, bit: u8 },
    /// Lit when the miss count exceeds the index (taken as a `u32`).
    Miss(usize),
}

/// Standard 7-segment encodings, bit i = segment i in [a, b, c, d, e, f, g]
/// (a top, b top-right, c bottom-right, d bottom, e bottom-left, f
/// top-left, g middle).
pub const DIGIT_SEGMENTS: [u8; 10] = [0x3F, 0x06, 0x5B, 0x4F, 0x66, 0x6D, 0x7D, 0x07, 0x7F, 0x6F];

/// Bar mask of decimal digit `d`, as in [`DIGIT_SEGMENTS`].
pub open spec fn digit_mask(d: int) -> u8 {
    if d == 0 {
        0x3F
    } else if d == 1 {
        0x06
    } else if d == 2 {
        0x5B
    } else if d == 3 {
        0x4F
    } else if d == 4 {
        0x66
    } else if d == 5 {
        0x6D
    } else if d == 6 {
        0x7D
    } else if d == 7 {
        0x07
    } else if d == 8 {
        0x7F
    } else {
        0x6F
    }
}

/// The 7-segment mask of digit `d` (0..=9).
pub fn digit_segments(d: usize) -> (r: u8)
    requires
        d < 10,
    ensures
        r == digit_mask(d as int),
{
    let table = DIGIT_SEGMENTS;
    proof {
        assert(table@ =~= seq![0x3Fu8, 0x06u8, 0x5Bu8, 0x4Fu8, 0x66u8, 0x6Du8, 0x7Du8, 0x07u8, 0x7Fu8, 0x6Fu8]);
    }
    table[d]
}

/// Every mask uses only the seven bars, and no two digits look alike.
pub proof fn lemma_digit_table_sane()
    ensures
        forall|d: int| 0 <= d < 10 ==> #[trigger] digit_mask(d) < 0x80,
        forall|a: int, b: int| 0 <= a < 10 && 0 <= b < 10 && a != b ==> #[trigger] digit_mask(a) != #[trigger] digit_mask(b),
        digit_mask(8) == 0x7F,
{
}

/// Digit shown in score slot `slot`: 0 = tens, 1 = ones.
pub open spec fn score_digit(score: u32, slot: usize) -> int {
    if slot == 0 {
        (score / 10 % 10) as int
    } else {
        (score % 10) as int
    }
}

/// Whether a segment with `role` is lit, given the occupied stations, the
/// hand pose, the score and the miss count.
pub open spec fn spec_lit(role: Role, occupied: Seq<usize>, hand: Hand, score: u32, misses: u32) -> bool {
    match role {
        Role::Station(s) => occupied.contains(s),
        Role::ArmLeft => hand == Hand::Left,
        Role::ArmRight => hand == Hand::Right,
        Role::Always => true,
        Role::Digit { slot, bit } => digit_mask(score_digit(score, slot)) & (1u8 << bit) != 0,
        Role::Miss(m) => misses > (m as u32),
    }
}

/// Miss marks are cumulative: with `misses` misses, marks `0` up to
/// `misses - 1` are lit and none after them. So a lit mark implies every
/// earlier mark is lit, the mark for the latest miss is lit, and the next
/// one is not (for mark indices that fit the 32-bit miss count).
pub proof fn lemma_miss_marks_cumulative(occupied: Seq<usize>, hand: Hand, score: u32, misses: u32)
    ensures
        forall|m: usize, earlier: usize|
            earlier <= m <= u32::MAX && #[trigger] spec_lit(Role::Miss(m), occupied, hand, score, misses)
                ==> #[trigger] spec_lit(Role::Miss(earlier), occupied, hand, score, misses),
        misses > 0 ==> spec_lit(Role::Miss((misses - 1) as usize), occupied, hand, score, misses),
        !spec_lit(Role::Miss(misses as usize), occupied, hand, score, misses),
        forall|m: usize, more: u32|
            m <= u32::MAX && misses <= more && #[trigger] spec_lit(Role::Miss(m), occupied, hand, score, misses)
                ==> #[trigger] spec_lit(Role::Miss(m), occupied, hand, score, more),
{
    assert forall|m: usize, earlier: usize|
        earlier <= m <= u32::MAX && #[trigger] spec_lit(Role::Miss(m), occupied, hand, score, misses) implies #[trigger] spec_lit(
        Role::Miss(earlier),
        occupied,
        hand,
        score,
        misses,
    ) by {
        assert((m as u32) as int == m as int);
        assert((earlier as u32) as int == earlier as int);
    }
    assert forall|m: usize, more: u32|
        m <= u32::MAX && misses <= more && #[trigger] spec_lit(Role::Miss(m), occupied, hand, score, misses) implies #[trigger] spec_lit(
        Role::Miss(m),
        occupied,
        hand,
        score,
        more,
    ) by {
    }
    if misses > 0 {
        assert(((misses - 1) as usize) as u32 == misses - 1);
    }
    assert((misses as usize) as u32 == misses);
}

/// Exactly one arm pose is lit at a time, the body is always lit, and
/// only the last two decimal digits of the score are shown: scores that
/// differ by a multiple of 100 light the same digit bars.
pub proof fn lemma_panel_shows(occupied: Seq<usize>, hand: Hand, score: u32, misses: u32, k: u32)
    requires
        score as int + 100 * k as int <= u32::MAX,
    ensures
        spec_lit(Role::ArmLeft, occupied, hand, score, misses) != spec_lit(Role::ArmRight, occupied, hand, score, misses),
        spec_lit(Role::Always, occupied, hand, score, misses),
        forall|slot: usize, bit: u8|
            #![trigger spec_lit(Role::Digit { slot, bit }, occupied, hand, score, misses)]
            spec_lit(Role::Digit { slot, bit }, occupied, hand, score, misses) == spec_lit(
                Role::Digit { slot, bit },
                occupied,
                hand,
                (score + 100 * k) as u32,
                misses,
            ),
{
    let s2 = (score + 100 * k) as u32;
    assert(s2 % 10 == score % 10) by (nonlinear_arith)
        requires
            s2 == score + 100 * k,
    ;
    assert(s2 / 10 % 10 == score / 10 % 10) by (nonlinear_arith)
        requires
            s2 == score + 100 * k,
    ;
}

/// A role's bar index, if it has one, is one of the eight bits of a mask.
pub open spec fn role_ok(role: Role) -> bool {
    match role {
        Role::Digit { bit, .. } => bit < 8,
        _ => true,
    }
}

/// Whether the segment with `role` is lit in this frame.
pub fn role_lit(role: Role, occupied: &Vec<usize>, hand: Hand, score: u32, misses: u32) -> (r: bool)
    requires
        role_ok(role),
    ensures
        r == spec_lit(role, occupied@, hand, score, misses),
{
    match role {
        Role::Station(s) => {
            let mut k: usize = 0;
            while k < occupied.len()
                invariant
                    role == Role::Station(s),
                    k <= occupied.len(),
                    forall|m: int| 0 <= m < k ==> occupied@[m] != s,
                decreases occupied.len() - k,
            {
                if occupied[k] == s {
                    proof {
                        assert(occupied@[k as int] == s);
                        assert(occupied@.contains(s));
                    }
                    return true;
                }
                k = k + 1;
            }
            false
        },
        Role::ArmLeft => hand == Hand::Left,
        Role::ArmRight => hand == Hand::Right,
        Role::Always => true,
        Role::Digit { slot, bit } => {
            let digit = if slot == 0 {
                (score / 10 % 10) as usize
            } else {
                (score % 10) as usize
            };
            digit_segments(digit) & (1u8 << bit) != 0
        },
        Role::Miss(m) => misses > (m as u32),
    }
}

/// Index of each shape in the panel's shape list.
pub const SH_BALL: usize = 0;
pub const SH_HBAR: usize = 1;
pub const SH_VBAR: usize = 2;
pub const SH_HEAD: usize = 3;
pub const SH_TORSO: usize = 4;
pub const SH_ARM_L: usize = 5;
pub const SH_ARM_R: usize = 6;
pub const SH_HAND: usize = 7;
pub const SH_MISS: usize = 8;
pub const SH_GROUND: usize = 9;

/// Number of shapes in the panel's shape list.
pub const SHAPE_COUNT: usize = 10;

/// Number of segments on the panel: the ball stations, the juggler's
/// seven pieces, two digits of seven bars and three miss marks.
pub const SEGMENT_COUNT: usize = 31;

/// Bars a, d and g of a digit are horizontal; the others vertical.
pub open spec fn horizontal_bar(bit: int) -> bool {
    bit == 0 || bit == 3 || bit == 6
}

/// Shape of bar `bit` of a digit.
pub open spec fn bar_shape(bit: int) -> usize {
    if horizontal_bar(bit) {
        SH_HBAR
    } else {
        SH_VBAR
    }
}

/// Shape and role of segment `i` of the panel, in drawing order: the ball
/// stations left to right; head, torso and ground; the left arm and its
/// hand cue; the right arm and its hand cue; the seven bars of the tens
/// digit, then of the ones digit; the three miss marks.
pub open spec fn panel_segment(i: int) -> (usize, Role) {
    if i < 7 {
        (SH_BALL, Role::Station(i as usize))
    } else if i == 7 {
        (SH_HEAD, Role::Always)
    } else if i == 8 {
        (SH_TORSO, Role::Always)
    } else if i == 9 {
        (SH_GROUND, Role::Always)
    } else if i == 10 {
        (SH_ARM_L, Role::ArmLeft)
    } else if i == 11 {
        (SH_HAND, Role::ArmLeft)
    } else if i == 12 {
        (SH_ARM_R, Role::ArmRight)
    } else if i == 13 {
        (SH_HAND, Role::ArmRight)
    } else if i < 21 {
        (bar_shape(i - 14), Role::Digit { slot: 0, bit: (i - 14) as u8 })
    } else if i < 28 {
        (bar_shape(i - 21), Role::Digit { slot: 1, bit: (i - 21) as u8 })
    } else {
        (SH_MISS, Role::Miss((i - 28) as usize))
    }
}

/// The panel's segments, each as its shape index and the role that
/// lights it.
pub open spec fn panel() -> Seq<(usize, Role)> {
    Seq::new(SEGMENT_COUNT as nat, |i: int| panel_segment(i))
}

/// The panel is complete: one ball segment per station, both arm poses,
/// each bar of both digits exactly once, a mark per miss before game
/// over; every segment names a shape of the list, and every bar index
/// fits a mask.
pub proof fn lemma_panel_complete()
    ensures
        panel().len() == SEGMENT_COUNT,
        forall|i: int| 0 <= i < panel().len() ==> #[trigger] panel()[i].0 < SHAPE_COUNT && role_ok(panel()[i].1),
        forall|s: int| 0 <= s < STATIONS ==> #[trigger] panel()[s] == (SH_BALL, Role::Station(s as usize)),
        panel()[10].1 == Role::ArmLeft && panel()[12].1 == Role::ArmRight,
        forall|slot: int, bit: int|
            0 <= slot < 2 && 0 <= bit < 7 ==> #[trigger] panel()[14 + 7 * slot + bit].1 == (Role::Digit {
                slot: slot as usize,
                bit: bit as u8,
            }),
        forall|i: int, j: int|
            0 <= i < panel().len() && 0 <= j < panel().len() && i != j && (#[trigger] panel()[i]).1 is Digit
                ==> (#[trigger] panel()[j]).1 != panel()[i].1,
        forall|m: int| 0 <= m < MAX_MISSES ==> #[trigger] panel()[28 + m].1 == Role::Miss(m as usize),
{
}

/// The panel's segments, each as its shape index and the role that
/// lights it; the caller places them.
pub fn segment_roles() -> (r: Vec<(usize, Role)>)
    ensures
        r@ == panel(),
{
    let mut out: Vec<(usize, Role)> = Vec::new();
    let mut s: usize = 0;
    while s < STATIONS
        invariant
            s <= STATIONS,
            out.len() == s,
            forall|i: int| 0 <= i < out.len() ==> #[trigger] out@[i] == panel_segment(i),
        decreases STATIONS - s,
    {
        out.push((SH_BALL, Role::Station(s)));
        s = s + 1;
    }
    out.push((SH_HEAD, Role::Always));
    out.push((SH_TORSO, Role::Always));
    out.push((SH_GROUND, Role::Always));
    out.push((SH_ARM_L, Role::ArmLeft));
    out.push((SH_HAND, Role::ArmLeft));
    out.push((SH_ARM_R, Role::ArmRight));
    out.push((SH_HAND, Role::ArmRight));
    let mut slot: usize = 0;
    while slot < 2
        invariant
            slot <= 2,
            out.len() == 14 + 7 * slot,
            forall|i: int| 0 <= i < out.len() ==> #[trigger] out@[i] == panel_segment(i),
        decreases 2 - slot,
    {
        let mut bit: u8 = 0;
        while bit < 7
            invariant
                slot < 2,
                bit <= 7,
                out.len() == 14 + 7 * slot + bit,
                forall|i: int| 0 <= i < out.len() ==> #[trigger] out@[i] == panel_segment(i),
            decreases 7 - bit,
        {
            let shape = if bit == 0 || bit == 3 || bit == 6 {
                SH_HBAR
            } else {
                SH_VBAR
            };
            out.push((shape, Role::Digit { slot, bit }));
            bit = bit + 1;
        }
        slot = slot + 1;
    }
    let mut m: usize = 0;
    while m < 3
        invariant
            m <= 3,
            out.len() == 28 + m,
            forall|i: int| 0 <= i < out.len() ==> #[trigger] out@[i] == panel_segment(i),
        decreases 3 - m,
    {
        out.push((SH_MISS, Role::Miss(m)));
        m = m + 1;
    }
    proof {
        assert(out@ =~= panel());
    }
    out
}

} // verus!
