//! Where the animals of the predation model move.

use vstd::prelude::*;
use krabmaga::rand::rngs::ThreadRng;
use crate::rng::{thread_i32_below, thread_i32_between, thread_usize_below};

verus! {

/// The cells a sheep at coordinate `x` may move to along an axis of
/// `size` cells: one back unless at 0, one ahead unless at `size - 1`.
pub open spec fn sheep_reach(x: i32, size: i32) -> (int, int) {
    (if x > 0 { x - 1 } else { x as int }, if x < size - 1 { x + 1 } else { x as int })
}

/// A sheep on the grid stays on the grid: along an axis of `size` cells,
/// every cell in its reach from `x` lies in `0 .. size`, at most one away.
pub proof fn lemma_sheep_reach_on_grid(x: i32, size: i32)
    requires
        0 <= x < size,
    ensures
        0 <= sheep_reach(x, size).0 <= x <= sheep_reach(x, size).1 < size,
        x - 1 <= sheep_reach(x, size).0,
        sheep_reach(x, size).1 <= x + 1,
{
}

/// A sheep's next cell: along each axis, a step back, none or a step
/// ahead, drawn uniformly from those that stay on the grid (the `x` offset
/// drawn first).
pub fn sheep_destination(rng: &mut ThreadRng, loc: (i32, i32), dim: (i32, i32)) -> (r: (i32, i32))
    requires
        dim.0 > i32::MIN,
        dim.1 > i32::MIN,
    ensures
        sheep_reach(loc.0, dim.0).0 <= r.0 <= sheep_reach(loc.0, dim.0).1,
        sheep_reach(loc.1, dim.1).0 <= r.1 <= sheep_reach(loc.1, dim.1).1,
{
    let x = loc.0;
    let y = loc.1;
    let xmin: i32 = if x > 0 { -1 } else { 0 };
    let xmax: i32 = if x < dim.0 - 1 { 1 } else { 0 };
    let ymin: i32 = if y > 0 { -1 } else { 0 };
    let ymax: i32 = if y < dim.1 - 1 { 1 } else { 0 };
    let nx = thread_i32_between(rng, xmin, xmax);
    let ny = thread_i32_between(rng, ymin, ymax);
    (x + nx, y + ny)
}

/// The `i`-th of the nine offsets `(dx, dy)`, `dx` outer and `dy` inner,
/// each from -1 to 1.
pub open spec fn offset(i: int) -> (i32, i32) {
    ((i / 3 - 1) as i32, (i % 3 - 1) as i32)
}

/// The offsets among the first `k` of the nine, the null one left out,
/// that keep `loc` on the grid, in order.
pub open spec fn wolf_moves_upto(loc: (i32, i32), dim: (i32, i32), k: nat) -> Seq<(i32, i32)>
    decreases k,
{
    if k == 0 {
        Seq::empty()
    } else {
        let prev = wolf_moves_upto(loc, dim, (k - 1) as nat);
        let d = offset(k - 1);
        let nx = loc.0 + d.0;
        let ny = loc.1 + d.1;
        if (d.0 != 0 || d.1 != 0) && 0 <= nx < dim.0 && 0 <= ny < dim.1 {
            prev.push(d)
        } else {
            prev
        }
    }
}

/// The moves open to a wolf on `loc`: the offsets to the eight surrounding
/// cells that lie on the grid.
pub open spec fn wolf_moves_spec(loc: (i32, i32), dim: (i32, i32)) -> Seq<(i32, i32)> {
    wolf_moves_upto(loc, dim, 9)
}

/// The moves open to a wolf on `loc`, as offsets, `dx` outer and `dy` inner.
pub fn wolf_moves(loc: (i32, i32), dim: (i32, i32)) -> (moves: Vec<(i32, i32)>)
    requires
        i32::MIN < loc.0 < i32::MAX,
        i32::MIN < loc.1 < i32::MAX,
    ensures
        moves@ == wolf_moves_spec(loc, dim),
        forall|dx: i32, dy: i32|
            -1 <= dx <= 1 && -1 <= dy <= 1 && (dx != 0 || dy != 0) && 0 <= loc.0 + dx < dim.0 && 0 <= loc.1 + dy < dim.1
                ==> #[trigger] moves@.contains((dx, dy)),
        forall|i: int|
            0 <= i < moves.len() ==> {
                let d = #[trigger] moves@[i];
                &&& -1 <= d.0 <= 1
                &&& -1 <= d.1 <= 1
                &&& d.0 != 0 || d.1 != 0
                &&& 0 <= loc.0 + d.0 < dim.0
                &&& 0 <= loc.1 + d.1 < dim.1
            },
{
    proof {
        lemma_wolf_moves_complete(loc, dim);
        lemma_wolf_moves_small(loc, dim, 9);
    }
    let x = loc.0;
    let y = loc.1;
    let mut moves: Vec<(i32, i32)> = Vec::new();
    let mut dx: i32 = -1;
    while dx <= 1
        invariant
            -1 <= dx <= 2,
            i32::MIN < x < i32::MAX,
            i32::MIN < y < i32::MAX,
            loc == (x, y),
            moves@ == wolf_moves_upto(loc, dim, (3 * (dx + 1)) as nat),
        decreases 2 - dx,
    {
        let mut dy: i32 = -1;
        while dy <= 1
            invariant
                -1 <= dx <= 1,
                -1 <= dy <= 2,
                i32::MIN < x < i32::MAX,
                i32::MIN < y < i32::MAX,
                loc == (x, y),
                moves@ == wolf_moves_upto(loc, dim, (3 * (dx + 1) + dy + 1) as nat),
            decreases 2 - dy,
        {
            let ghost k: int = 3 * (dx + 1) + dy + 1;
            assert(offset(k) == (dx, dy)) by {
                assert(k / 3 == dx + 1 && k % 3 == dy + 1);
            }
            if !(dx == 0 && dy == 0) {
                let nx = x + dx;
                let ny = y + dy;
                if nx >= 0 && nx < dim.0 && ny >= 0 && ny < dim.1 {
                    moves.push((dx, dy));
                }
            }
            dy = dy + 1;
        }
        dx = dx + 1;
    }
    moves
}

/// A wolf's next cell: one of its open moves, drawn uniformly.
pub fn wolf_destination(rng: &mut ThreadRng, loc: (i32, i32), dim: (i32, i32)) -> (r: (i32, i32))
    requires
        i32::MIN < loc.0 < i32::MAX,
        i32::MIN < loc.1 < i32::MAX,
        wolf_moves_spec(loc, dim).len() > 0,
    ensures
        exists|i: int|
            0 <= i < wolf_moves_spec(loc, dim).len() && r.0 == loc.0 + (#[trigger] wolf_moves_spec(loc, dim)[i]).0 && r.1
                == loc.1 + wolf_moves_spec(loc, dim)[i].1,
{
    let moves = wolf_moves(loc, dim);
    let k = thread_usize_below(rng, moves.len());
    let (nx, ny) = moves[k];
    proof {
        lemma_wolf_moves_small(loc, dim, 9);
        assert(moves@.contains(moves@[k as int]));
    }
    assert(wolf_moves_spec(loc, dim)[k as int] == (nx, ny));
    (loc.0 + nx, loc.1 + ny)
}

/// Among the first `k` of the nine offsets, every one other than the null
/// offset that keeps `loc` on the grid is listed.
pub proof fn lemma_wolf_moves_upto_complete(loc: (i32, i32), dim: (i32, i32), k: nat)
    requires
        k <= 9,
    ensures
        forall|i: int|
            0 <= i < k && (offset(i).0 != 0 || offset(i).1 != 0) && 0 <= loc.0 + offset(i).0 < dim.0 && 0 <= loc.1
                + offset(i).1 < dim.1 ==> #[trigger] wolf_moves_upto(loc, dim, k).contains(offset(i)),
    decreases k,
{
    if k > 0 {
        lemma_wolf_moves_upto_complete(loc, dim, (k - 1) as nat);
        let prev = wolf_moves_upto(loc, dim, (k - 1) as nat);
        let cur = wolf_moves_upto(loc, dim, k);
        assert forall|i: int|
            0 <= i < k && (offset(i).0 != 0 || offset(i).1 != 0) && 0 <= loc.0 + offset(i).0 < dim.0 && 0 <= loc.1
                + offset(i).1 < dim.1 implies #[trigger] cur.contains(offset(i)) by {
            if i < k - 1 {
                assert(prev.contains(offset(i)));
                let j = choose|j: int| 0 <= j < prev.len() && prev[j] == offset(i);
                assert(cur[j] == prev[j]);
            } else {
                assert(cur[cur.len() - 1] == offset(i));
            }
        }
    }
}

/// A wolf may move to every neighbouring cell that lies on the grid: each
/// unit offset `(dx, dy)` other than `(0, 0)` that keeps `loc` on the grid
/// is among its moves.
pub proof fn lemma_wolf_moves_complete(loc: (i32, i32), dim: (i32, i32))
    ensures
        forall|dx: i32, dy: i32|
            -1 <= dx <= 1 && -1 <= dy <= 1 && (dx != 0 || dy != 0) && 0 <= loc.0 + dx < dim.0 && 0 <= loc.1 + dy < dim.1
                ==> #[trigger] wolf_moves_spec(loc, dim).contains((dx, dy)),
{
    lemma_wolf_moves_upto_complete(loc, dim, 9);
    assert forall|dx: i32, dy: i32|
        -1 <= dx <= 1 && -1 <= dy <= 1 && (dx != 0 || dy != 0) && 0 <= loc.0 + dx < dim.0 && 0 <= loc.1 + dy < dim.1
            implies #[trigger] wolf_moves_spec(loc, dim).contains((dx, dy)) by {
        let i: int = 3 * (dx + 1) + dy + 1;
        assert(i / 3 == dx + 1 && i % 3 == dy + 1);
        assert(offset(i) == (dx, dy));
    }
}

/// Every open move is one of the eight unit offsets and keeps the wolf on
/// the grid.
pub proof fn lemma_wolf_moves_small(loc: (i32, i32), dim: (i32, i32), k: nat)
    requires
        k <= 9,
    ensures
        forall|i: int|
            0 <= i < wolf_moves_upto(loc, dim, k).len() ==> {
                let d = #[trigger] wolf_moves_upto(loc, dim, k)[i];
                &&& -1 <= d.0 <= 1
                &&& -1 <= d.1 <= 1
                &&& d.0 != 0 || d.1 != 0
                &&& 0 <= loc.0 + d.0 < dim.0
                &&& 0 <= loc.1 + d.1 < dim.1
            },
    decreases k,
{
    if k > 0 {
        lemma_wolf_moves_small(loc, dim, (k - 1) as nat);
        let kk = k - 1;
        assert(0 <= kk / 3 <= 2 && 0 <= kk % 3 <= 2);
        let d = offset(kk);
        assert(-1 <= d.0 <= 1 && -1 <= d.1 <= 1);
        let prev = wolf_moves_upto(loc, dim, (k - 1) as nat);
        let cur = wolf_moves_upto(loc, dim, k);
        assert forall|i: int| 0 <= i < cur.len() implies {
            let e = #[trigger] cur[i];
            &&& -1 <= e.0 <= 1
            &&& -1 <= e.1 <= 1
            &&& e.0 != 0 || e.1 != 0
            &&& 0 <= loc.0 + e.0 < dim.0
            &&& 0 <= loc.1 + e.1 < dim.1
        } by {
            if i < prev.len() {
                assert(cur[i] == prev[i]);
            }
        }
    }
}

/// A cell of the grid drawn uniformly, `x` first.
pub fn random_location(rng: &mut ThreadRng, dim: (i32, i32)) -> (r: (i32, i32))
    requires
        dim.0 > 0,
        dim.1 > 0,
    ensures
        0 <= r.0 < dim.0,
        0 <= r.1 < dim.1,
{
    let x = thread_i32_below(rng, dim.0);
    let y = thread_i32_below(rng, dim.1);
    (x, y)
}

} // verus!
