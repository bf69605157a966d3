//! How many neighbours of an agent share its group.

use vstd::prelude::*;
use crate::schelling::patch::Group;
use crate::schelling::sparse::Bags;

verus! {

/// The cell `(x, y)` lies on a grid of `dim`, has a bag in the read buffer,
/// and the first agent of that bag belongs to group `g`.
pub open spec fn similar_at(read: Bags, dim: (i32, i32), g: Group, x: int, y: int) -> bool {
    &&& 0 <= x < dim.0
    &&& 0 <= y < dim.1
    &&& read.dom().contains((x as i32, y as i32))
    &&& read[(x as i32, y as i32)].len() > 0
    &&& read[(x as i32, y as i32)][0].group == g
}

/// In row `loc.1 + dy`, the number of offsets `dx` from `-r` up to below
/// `hi`, other than the agent's own cell, whose cell holds group `g`.
pub open spec fn row_similar(read: Bags, dim: (i32, i32), g: Group, loc: (i32, i32), r: int, dy: int, hi: int) -> nat
    decreases hi + r,
{
    if hi <= -r {
        0
    } else {
        let dx = hi - 1;
        row_similar(read, dim, g, loc, r, dy, hi - 1) + if (dx != 0 || dy != 0) && similar_at(
            read,
            dim,
            g,
            loc.0 + dx,
            loc.1 + dy,
        ) {
            1nat
        } else {
            0nat
        }
    }
}

/// The same count over the rows `dy` from `-r` up to below `hi`, each row
/// taken whole (`dx` from `-r` to `r`).
pub open spec fn area_similar(read: Bags, dim: (i32, i32), g: Group, loc: (i32, i32), r: int, hi: int) -> nat
    decreases hi + r,
{
    if hi <= -r {
        0
    } else {
        area_similar(read, dim, g, loc, r, hi - 1) + row_similar(read, dim, g, loc, r, hi - 1, r + 1)
    }
}

/// The number of cells within `r` of `loc` in both directions, `loc` itself
/// left out, whose read-buffer bag starts with an agent of group `g`.
pub open spec fn similar_count(read: Bags, dim: (i32, i32), g: Group, loc: (i32, i32), r: int) -> nat {
    area_similar(read, dim, g, loc, r, r + 1)
}

/// A row's count only grows as the row is taken further.
pub proof fn lemma_row_monotone(read: Bags, dim: (i32, i32), g: Group, loc: (i32, i32), r: int, dy: int, lo: int, hi: int)
    requires
        lo <= hi,
    ensures
        row_similar(read, dim, g, loc, r, dy, lo) <= row_similar(read, dim, g, loc, r, dy, hi),
    decreases hi - lo,
{
    if lo < hi {
        lemma_row_monotone(read, dim, g, loc, r, dy, lo, hi - 1);
    }
}

/// The count only grows as more rows are taken.
pub proof fn lemma_area_monotone(read: Bags, dim: (i32, i32), g: Group, loc: (i32, i32), r: int, lo: int, hi: int)
    requires
        lo <= hi,
    ensures
        area_similar(read, dim, g, loc, r, lo) <= area_similar(read, dim, g, loc, r, hi),
    decreases hi - lo,
{
    if lo < hi {
        lemma_area_monotone(read, dim, g, loc, r, lo, hi - 1);
    }
}

/// A row's count is at most the number of offsets taken.
pub proof fn lemma_row_bound(read: Bags, dim: (i32, i32), g: Group, loc: (i32, i32), r: int, dy: int, hi: int)
    requires
        r >= 0,
        -r <= hi,
    ensures
        row_similar(read, dim, g, loc, r, dy, hi) <= hi + r,
    decreases hi + r,
{
    if hi > -r {
        lemma_row_bound(read, dim, g, loc, r, dy, hi - 1);
    }
}

/// The rows' count is at most the number of cells taken.
pub proof fn lemma_area_bound(read: Bags, dim: (i32, i32), g: Group, loc: (i32, i32), r: int, hi: int)
    requires
        r >= 0,
        -r <= hi,
    ensures
        area_similar(read, dim, g, loc, r, hi) <= (hi + r) * (2 * r + 1),
    decreases hi + r,
{
    if hi > -r {
        lemma_area_bound(read, dim, g, loc, r, hi - 1);
        lemma_row_bound(read, dim, g, loc, r, hi - 1, r + 1);
        assert((hi - 1 + r) * (2 * r + 1) + (2 * r + 1) == (hi + r) * (2 * r + 1)) by (nonlinear_arith);
    }
}

/// However the agents stand, no count of like neighbours exceeds the size
/// of the window: `(2r + 1)^2` cells (the agent's own cell included).
pub proof fn lemma_similar_count_bound(read: Bags, dim: (i32, i32), g: Group, loc: (i32, i32), r: int)
    ensures
        r >= 0 ==> similar_count(read, dim, g, loc, r) <= (2 * r + 1) * (2 * r + 1),
        r < 0 ==> similar_count(read, dim, g, loc, r) == 0,
{
    if r >= 0 {
        lemma_area_bound(read, dim, g, loc, r, r + 1);
    }
}

/// Taking more offsets to the left of a row never lowers its count: with the
/// same right end `hi`, a wider reach `r2` counts all that `r1` does.
pub proof fn lemma_row_wider(read: Bags, dim: (i32, i32), g: Group, loc: (i32, i32), r1: int, r2: int, dy: int, hi: int)
    requires
        r1 <= r2,
        -r1 <= hi,
    ensures
        row_similar(read, dim, g, loc, r1, dy, hi) <= row_similar(read, dim, g, loc, r2, dy, hi),
    decreases hi + r1,
{
    if hi > -r1 {
        lemma_row_wider(read, dim, g, loc, r1, r2, dy, hi - 1);
    }
}

/// Taking more rows above never lowers the count: with the same last row
/// `hi - 1`, a wider reach `r2` counts all that `r1` does.
pub proof fn lemma_area_wider(read: Bags, dim: (i32, i32), g: Group, loc: (i32, i32), r1: int, r2: int, hi: int)
    requires
        r1 <= r2,
        -r1 <= hi,
    ensures
        area_similar(read, dim, g, loc, r1, hi) <= area_similar(read, dim, g, loc, r2, hi),
    decreases hi + r1,
{
    if hi > -r1 {
        lemma_area_wider(read, dim, g, loc, r1, r2, hi - 1);
        if r1 >= 0 {
            lemma_row_wider(read, dim, g, loc, r1, r2, hi - 1, r1 + 1);
        }
        lemma_row_monotone(read, dim, g, loc, r2, hi - 1, r1 + 1, r2 + 1);
    }
}

/// The count of like neighbours grows with the radius: on the same grid,
/// every agent counted within `r1` is counted within any `r2 >= r1`.
pub proof fn lemma_similar_count_grows_with_radius(read: Bags, dim: (i32, i32), g: Group, loc: (i32, i32), r1: int, r2: int)
    requires
        r1 <= r2,
    ensures
        similar_count(read, dim, g, loc, r1) <= similar_count(read, dim, g, loc, r2),
{
    if r1 >= 0 {
        lemma_area_wider(read, dim, g, loc, r1, r2, r1 + 1);
        lemma_area_monotone(read, dim, g, loc, r2, r1 + 1, r2 + 1);
    }
}

} // verus!
