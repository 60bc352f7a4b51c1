//! Shelf packer for the procedural shape atlas.
//!
//! Shapes are rasterized on the CPU into one coverage texture; each shape
//! gets a rectangular cell (its padded bounding box), and the cells are
//! packed left to right into shelves no wider than a limit. A cell that
//! does not fit on the current shelf opens a new shelf below the tallest
//! cell of the current one. This module is that packing, on integer cell
//! sizes; rasterizing the shapes into the cells is numeric work done by
//! the caller.

use vstd::prelude::*;

verus! {

/// Transparent border around each cell so linear sampling never bleeds
/// into a neighbor.
pub const PAD: u32 = 2;

/// Packer state after some prefix of the cells.
pub struct PackState {
    /// Top-left corner of each placed cell, in input order.
    pub placed: Seq<(int, int)>,
    /// Cursor on the current shelf.
    pub x: int,
    /// Top of the current shelf.
    pub y: int,
    /// Height of the tallest cell on the current shelf.
    pub shelf: int,
    /// Widest extent reached so far.
    pub width: int,
}

/// The shelf packing of `cells` (width, height) with shelves of
/// `max_width`: each cell goes at the cursor, unless it would overflow the
/// shelf and the shelf is not empty, in which case a new shelf starts.
pub open spec fn pack(cells: Seq<(u32, u32)>, max_width: int) -> PackState
    decreases cells.len(),
{
    if cells.len() == 0 {
        PackState { placed: Seq::empty(), x: 0, y: 0, shelf: 0, width: 0 }
    } else {
        let s = pack(cells.drop_last(), max_width);
        let w = cells.last().0 as int;
        let h = cells.last().1 as int;
        let wrap = s.x + w > max_width && s.x > 0;
        let x0 = if wrap {
            0
        } else {
            s.x
        };
        let y0 = if wrap {
            s.y + s.shelf
        } else {
            s.y
        };
        let sh0 = if wrap {
            0
        } else {
            s.shelf
        };
        PackState {
            placed: s.placed.push((x0, y0)),
            x: x0 + w,
            y: y0,
            shelf: if h > sh0 {
                h
            } else {
                sh0
            },
            width: if x0 + w > s.width {
                x0 + w
            } else {
                s.width
            },
        }
    }
}

/// The packing is never wider than the shelf limit or the widest cell,
/// whichever is larger: a shelf only overflows the limit when the cell
/// that overflows it is alone on it.
pub proof fn lemma_width_bound(cells: Seq<(u32, u32)>, max_width: int, widest: int)
    requires
        0 <= max_width,
        forall|i: int| 0 <= i < cells.len() ==> (#[trigger] cells[i]).0 <= widest,
    ensures
        pack(cells, max_width).width <= if max_width > widest {
            max_width
        } else {
            widest
        },
        pack(cells, max_width).x <= if max_width > widest {
            max_width
        } else {
            widest
        },
    decreases cells.len(),
{
    if cells.len() > 0 {
        let pre = cells.drop_last();
        assert forall|i: int| 0 <= i < pre.len() implies (#[trigger] pre[i]).0 <= widest by {
            assert(pre[i] == cells[i]);
        }
        lemma_width_bound(pre, max_width, widest);
        assert(cells.last().0 <= widest) by {
            assert(cells[cells.len() - 1].0 <= widest);
        }
    }
}

/// Height of the packing: bottom of the last shelf.
pub open spec fn pack_height(cells: Seq<(u32, u32)>, max_width: int) -> int {
    pack(cells, max_width).y + pack(cells, max_width).shelf
}

pub open spec fn sum_widths(cells: Seq<(u32, u32)>) -> int
    decreases cells.len(),
{
    if cells.len() == 0 {
        0
    } else {
        sum_widths(cells.drop_last()) + cells.last().0
    }
}

pub open spec fn sum_heights(cells: Seq<(u32, u32)>) -> int
    decreases cells.len(),
{
    if cells.len() == 0 {
        0
    } else {
        sum_heights(cells.drop_last()) + cells.last().1
    }
}

/// Two placed cells share no pixel.
pub open spec fn disjoint(p: (int, int), a: (u32, u32), q: (int, int), b: (u32, u32)) -> bool {
    ||| p.0 + a.0 <= q.0
    ||| q.0 + b.0 <= p.0
    ||| p.1 + a.1 <= q.1
    ||| q.1 + b.1 <= p.1
}

/// Invariant of the packer after a prefix: cells on the current shelf end
/// before the cursor and are no taller than the shelf, earlier shelves end
/// above it, every cell lies in the packed extent, and no two overlap.
pub open spec fn pack_inv(cells: Seq<(u32, u32)>, s: PackState) -> bool {
    &&& s.placed.len() == cells.len()
    &&& 0 <= s.y
    &&& 0 <= s.shelf
    &&& 0 <= s.x <= s.width
    &&& forall|i: int|
        0 <= i < cells.len() ==> {
            &&& 0 <= (#[trigger] s.placed[i]).0
            &&& 0 <= s.placed[i].1
            &&& s.placed[i].0 + cells[i].0 <= s.width
            &&& ((s.placed[i].1 == s.y && s.placed[i].0 + cells[i].0 <= s.x && cells[i].1 <= s.shelf)
                || s.placed[i].1 + cells[i].1 <= s.y)
        }
    &&& forall|i: int, j: int|
        0 <= i < cells.len() && 0 <= j < cells.len() && i != j ==> disjoint(
            #[trigger] s.placed[i],
            cells[i],
            #[trigger] s.placed[j],
            cells[j],
        )
}

proof fn lemma_pack_inv(cells: Seq<(u32, u32)>, max_width: int)
    ensures
        pack_inv(cells, pack(cells, max_width)),
        pack(cells, max_width).x <= sum_widths(cells),
        pack(cells, max_width).width <= sum_widths(cells),
        pack_height(cells, max_width) <= sum_heights(cells),
    decreases cells.len(),
{
    if cells.len() > 0 {
        let prev = cells.drop_last();
        lemma_pack_inv(prev, max_width);
        let s = pack(prev, max_width);
        let t = pack(cells, max_width);
        let n = prev.len() as int;
        assert forall|i: int| 0 <= i < n implies #[trigger] cells[i] == prev[i] by {}
        assert forall|i: int| 0 <= i < n implies #[trigger] t.placed[i] == s.placed[i] by {}
        assert forall|i: int|
            0 <= i < cells.len() implies {
                &&& 0 <= (#[trigger] t.placed[i]).0
                &&& 0 <= t.placed[i].1
                &&& t.placed[i].0 + cells[i].0 <= t.width
                &&& ((t.placed[i].1 == t.y && t.placed[i].0 + cells[i].0 <= t.x && cells[i].1 <= t.shelf)
                    || t.placed[i].1 + cells[i].1 <= t.y)
            } by {
            if i < n {
                assert(s.placed[i] == t.placed[i]);
                assert(cells[i] == prev[i]);
            }
        }
        assert forall|i: int, j: int|
            0 <= i < cells.len() && 0 <= j < cells.len() && i != j implies disjoint(
                #[trigger] t.placed[i],
                cells[i],
                #[trigger] t.placed[j],
                cells[j],
            ) by {
            if i < n && j < n {
                assert(disjoint(s.placed[i], prev[i], s.placed[j], prev[j]));
            } else if i < n {
                assert(s.placed[i] == t.placed[i]);
                assert(cells[i] == prev[i]);
            } else {
                assert(s.placed[j] == t.placed[j]);
                assert(cells[j] == prev[j]);
            }
        }
    }
}

proof fn lemma_pack_prefix(cells: Seq<(u32, u32)>, max_width: int, i: int)
    requires
        0 <= i < cells.len(),
    ensures
        pack(cells, max_width).placed[i] == pack(cells.subrange(0, i + 1), max_width).placed[i],
    decreases cells.len(),
{
    if i == cells.len() - 1 {
        assert(cells.subrange(0, i + 1) =~= cells);
    } else {
        let prev = cells.drop_last();
        lemma_pack_inv(prev, max_width);
        lemma_pack_prefix(prev, max_width, i);
        assert(prev.subrange(0, i + 1) =~= cells.subrange(0, i + 1));
    }
}

/// Shelves are filled before new ones open: each cell goes at the cursor
/// of the current shelf when it fits within `max_width` there (or the
/// shelf is still empty), and otherwise at the left edge of a new shelf
/// just below the tallest cell of the current one.
pub proof fn lemma_shelf_fill(cells: Seq<(u32, u32)>, max_width: int)
    ensures
        forall|i: int|
            0 <= i < cells.len() ==> {
                let s = pack(cells.subrange(0, i), max_width);
                &&& (s.x + cells[i].0 <= max_width || s.x == 0) ==> #[trigger] pack(cells, max_width).placed[i] == (
                s.x,
                s.y,
                )
                &&& (s.x + cells[i].0 > max_width && s.x > 0) ==> pack(cells, max_width).placed[i] == (
                0int,
                s.y + s.shelf,
                )
            },
{
    assert forall|i: int| 0 <= i < cells.len() implies {
        let s = pack(cells.subrange(0, i), max_width);
        &&& (s.x + cells[i].0 <= max_width || s.x == 0) ==> #[trigger] pack(cells, max_width).placed[i] == (s.x, s.y)
        &&& (s.x + cells[i].0 > max_width && s.x > 0) ==> pack(cells, max_width).placed[i] == (0int, s.y + s.shelf)
    } by {
        lemma_pack_prefix(cells, max_width, i);
        let pre = cells.subrange(0, i + 1);
        assert(pre.drop_last() =~= cells.subrange(0, i));
        assert(pre.last() == cells[i]);
        lemma_pack_inv(cells.subrange(0, i), max_width);
    }
}

/// Packing never overlaps two cells, and every cell lies inside the packed
/// texture.
pub proof fn lemma_packing_sound(cells: Seq<(u32, u32)>, max_width: int)
    ensures
        pack(cells, max_width).placed.len() == cells.len(),
        forall|i: int|
            0 <= i < cells.len() ==> {
                &&& 0 <= (#[trigger] pack(cells, max_width).placed[i]).0
                &&& 0 <= pack(cells, max_width).placed[i].1
                &&& pack(cells, max_width).placed[i].0 + cells[i].0 <= pack(cells, max_width).width
                &&& pack(cells, max_width).placed[i].1 + cells[i].1 <= pack_height(cells, max_width)
            },
        forall|i: int, j: int|
            0 <= i < cells.len() && 0 <= j < cells.len() && i != j ==> disjoint(
                #[trigger] pack(cells, max_width).placed[i],
                cells[i],
                #[trigger] pack(cells, max_width).placed[j],
                cells[j],
            ),
{
    lemma_pack_inv(cells, max_width);
}

/// Where each cell landed, and the size of the packed texture.
pub struct ShelfPacking {
    /// Top-left pixel of each cell, in input order.
    pub placements: Vec<(u32, u32)>,
    pub width: u32,
    pub height: u32,
}

/// Pack `cells` (width, height) left to right into shelves of
/// `max_width`. A cell wider than `max_width` gets a shelf of its own.
pub fn pack_shelves(cells: &Vec<(u32, u32)>, max_width: u32) -> (r: ShelfPacking)
    requires
        sum_widths(cells@) <= u32::MAX,
        sum_heights(cells@) <= u32::MAX,
    ensures
        r.placements.len() == cells.len(),
        forall|i: int|
            0 <= i < cells.len() ==> (#[trigger] r.placements@[i]).0 == pack(cells@, max_width as int).placed[i].0
                && r.placements@[i].1 == pack(cells@, max_width as int).placed[i].1,
        r.width == pack(cells@, max_width as int).width,
        r.height == pack_height(cells@, max_width as int),
{
    let mut placements: Vec<(u32, u32)> = Vec::new();
    let mut cursor_x: u32 = 0;
    let mut cursor_y: u32 = 0;
    let mut shelf_h: u32 = 0;
    let mut atlas_w: u32 = 0;
    let mut k: usize = 0;
    proof {
        lemma_pack_inv(cells@, max_width as int);
    }
    while k < cells.len()
        invariant
            k <= cells.len(),
            sum_widths(cells@) <= u32::MAX,
            sum_heights(cells@) <= u32::MAX,
            ({
                let s = pack(cells@.subrange(0, k as int), max_width as int);
                &&& cursor_x == s.x
                &&& cursor_y == s.y
                &&& shelf_h == s.shelf
                &&& atlas_w == s.width
                &&& placements.len() == k
                &&& forall|i: int|
                    0 <= i < k ==> (#[trigger] placements@[i]).0 == s.placed[i].0 && placements@[i].1 == s.placed[i].1
            }),
        decreases cells.len() - k,
    {
        let ghost pre = cells@.subrange(0, k as int);
        let ghost post = cells@.subrange(0, k + 1);
        proof {
            assert(post.drop_last() =~= pre);
            assert(post.last() == cells@[k as int]);
            lemma_pack_inv(pre, max_width as int);
            lemma_pack_inv(post, max_width as int);
            lemma_sum_prefix_le(cells@, k + 1);
        }
        let (w, h) = cells[k];
        if cursor_x + w > max_width && cursor_x > 0 {
            cursor_y = cursor_y + shelf_h;
            cursor_x = 0;
            shelf_h = 0;
        }
        placements.push((cursor_x, cursor_y));
        cursor_x = cursor_x + w;
        if h > shelf_h {
            shelf_h = h;
        }
        if cursor_x > atlas_w {
            atlas_w = cursor_x;
        }
        k = k + 1;
    }
    proof {
        assert(cells@.subrange(0, cells.len() as int) =~= cells@);
        lemma_pack_inv(cells@, max_width as int);
    }
    ShelfPacking { placements, width: atlas_w, height: cursor_y + shelf_h }
}

proof fn lemma_sum_prefix_le(cells: Seq<(u32, u32)>, k: int)
    requires
        0 <= k <= cells.len(),
    ensures
        sum_widths(cells.subrange(0, k)) <= sum_widths(cells),
        sum_heights(cells.subrange(0, k)) <= sum_heights(cells),
    decreases cells.len(),
{
    if k < cells.len() {
        lemma_sum_prefix_le(cells.drop_last(), k);
        assert(cells.drop_last().subrange(0, k) =~= cells.subrange(0, k));
    } else {
        assert(cells.subrange(0, k) =~= cells);
    }
}

} // verus!
