//! The state of the segregation model and its rules.

use vstd::prelude::*;
use krabmaga::engine::fields::sparse_object_grid_2d::SparseGrid2D;
use krabmaga::rand::rngs::StdRng;
use crate::rng::{seeded_rng, std_rng_below, std_rng_from_seed, std_rng_shuffle};
use crate::schelling::neighbours::{
    area_similar, lemma_area_monotone, lemma_similar_count_bound, lemma_row_monotone, row_similar, similar_at, similar_count,
};
use crate::schelling::patch::{Group, Patch};
use crate::schelling::sparse::{
    bags_well_placed, displaced, entry_count, holds_id, in_bounds, lemma_displaced_ids,
    lemma_displaced_well_placed, lemma_placed_ids, lemma_placed_well_placed, lists_entries, placed,
    sparse_bounds, sparse_buffers, sparse_get_objects, sparse_lazy_update, sparse_new,
    sparse_remove, sparse_set, sparse_written_entries, Bags, Cell,
};

verus! {

/// `a` comes before `b` when the grid is read row by row.
pub open spec fn row_major_before(a: Cell, b: Cell) -> bool {
    a.1 < b.1 || (a.1 == b.1 && a.0 < b.0)
}

/// `c` is a cell of the grid with no bag in the read buffer.
pub open spec fn free_cell(read: Bags, dim: (i32, i32), c: Cell) -> bool {
    in_bounds(c, dim) && !read.dom().contains(c)
}

/// `cs` lists, row by row, exactly the free cells of the grid.
pub open spec fn lists_free_cells(read: Bags, dim: (i32, i32), cs: Seq<Cell>) -> bool {
    &&& forall|i: int| 0 <= i < cs.len() ==> free_cell(read, dim, #[trigger] cs[i])
    &&& forall|c: Cell| free_cell(read, dim, c) ==> cs.contains(c)
    &&& forall|i: int, j: int| 0 <= i < j < cs.len() ==> row_major_before(cs[i], cs[j])
}

/// Some cell of the buffer holds a bag.
pub open spec fn has_agents(m: Bags) -> bool {
    exists|c: Cell| m.dom().contains(c)
}

/// Some cell of the grid has no bag in the read buffer.
pub open spec fn has_free_cell(read: Bags, dim: (i32, i32)) -> bool {
    exists|c: Cell| free_cell(read, dim, c)
}

/// The last placement in `es` of an agent with this id, as `(agent, cell)`.
pub open spec fn last_with_id(es: Seq<(Cell, Patch)>, id: u32) -> Option<(Patch, Cell)>
    decreases es.len(),
{
    if es.len() == 0 {
        None
    } else if es.last().1.id == id {
        Some((es.last().1, es.last().0))
    } else {
        last_with_id(es.drop_last(), id)
    }
}

/// The last match of an id is a placement of that id; no match means the
/// id is absent.
pub proof fn lemma_last_with_id(es: Seq<(Cell, Patch)>, id: u32)
    ensures
        last_with_id(es, id) matches Some(f) ==> f.0.id == id && es.contains((f.1, f.0)),
        last_with_id(es, id) is None ==> forall|i: int| 0 <= i < es.len() ==> (#[trigger] es[i]).1.id != id,
    decreases es.len(),
{
    if es.len() > 0 {
        lemma_last_with_id(es.drop_last(), id);
        if es.last().1.id != id {
            if let Some(f) = last_with_id(es, id) {
                let k = choose|k: int| 0 <= k < es.drop_last().len() && es.drop_last()[k] == (f.1, f.0);
                assert(es[k] == (f.1, f.0));
            }
            assert forall|i: int| 0 <= i < es.len() && last_with_id(es, id) is None implies (#[trigger] es[i]).1.id != id by {
                if i < es.len() - 1 {
                    assert(es[i] == es.drop_last()[i]);
                }
            }
        } else {
            assert(es[es.len() - 1] == es.last());
        }
    }
}

/// The ids of the agents that `es` lists, in the same order.
pub open spec fn ids_of_entries(es: Seq<(Cell, Patch)>) -> Seq<u32> {
    es.map_values(|e: (Cell, Patch)| e.1.id)
}

/// The last entry of `es` with this id, as `(agent, cell)`.
pub fn last_entry_with_id(es: &Vec<(Cell, Patch)>, id: u32) -> (r: Option<(Patch, Cell)>)
    ensures
        r == last_with_id(es@, id),
{
    let mut found: Option<(Patch, Cell)> = None;
    let mut i: usize = 0;
    while i < es.len()
        invariant
            i <= es.len(),
            found == last_with_id(es@.take(i as int), id),
        decreases es.len() - i,
    {
        let (loc, value) = es[i];
        assert(es@.take(i + 1).drop_last() =~= es@.take(i as int));
        if value.id == id {
            found = Some((value, loc));
        }
        i = i + 1;
    }
    assert(es@.take(es.len() as int) =~= es@);
    found
}

/// `p` with its `happy` flag set to `happy`.
pub open spec fn with_mood(p: Patch, happy: bool) -> Patch {
    Patch { id: p.id, group: p.group, happy }
}

/// What becomes of the write buffer `before` when agent `p`, standing on
/// `c`, takes its turn: content when at least `min` of its neighbours (in
/// the read buffer) share its group, it is placed again on `c`, marked
/// happy; otherwise, marked unhappy, it moves to a free cell of the read
/// buffer when there is one, and else is placed again on `c`.
pub open spec fn turn_outcome(
    read: Bags,
    dim: (i32, i32),
    radius: i32,
    min: u32,
    before: Bags,
    p: Patch,
    c: Cell,
    after: Bags,
) -> bool {
    if similar_count(read, dim, p.group, c, radius as int) >= min {
        after == placed(before, with_mood(p, true), c)
    } else if has_free_cell(read, dim) {
        exists|n: Cell| free_cell(read, dim, n) && after == #[trigger] placed(displaced(before, with_mood(p, false), c), with_mood(p, false), n)
    } else {
        after == placed(before, with_mood(p, false), c)
    }
}

/// What becomes of the write buffer `before` on the turn of the agent with
/// this id: unchanged when no agent has the id; otherwise one of its
/// placements takes its turn.
pub open spec fn id_turn_outcome(
    read: Bags,
    dim: (i32, i32),
    radius: i32,
    min: u32,
    before: Bags,
    id: u32,
    after: Bags,
) -> bool {
    if !holds_id(before, id) {
        after == before
    } else {
        exists|p: Patch, c: Cell|
            #[trigger] entry_count(before, (c, p)) > 0 && p.id == id && turn_outcome(read, dim, radius, min, before, p, c, after)
    }
}

/// `chain` runs from `chain[0]` through one turn for each id of `ids`, in order.
pub open spec fn turns_chain(
    read: Bags,
    dim: (i32, i32),
    radius: i32,
    min: u32,
    ids: Seq<u32>,
    chain: Seq<Bags>,
) -> bool {
    &&& chain.len() == ids.len() + 1
    &&& forall|i: int| 0 <= i < ids.len() ==> id_turn_outcome(read, dim, radius, min, #[trigger] chain[i], ids[i], chain[i + 1])
}

/// A turn neither brings in nor loses any id: the agents of the write buffer
/// are the same, as a set of ids, before and after it.
pub proof fn lemma_turn_keeps_ids(
    read: Bags,
    dim: (i32, i32),
    radius: i32,
    min: u32,
    before: Bags,
    id: u32,
    after: Bags,
)
    requires
        id_turn_outcome(read, dim, radius, min, before, id, after),
    ensures
        forall|x: u32| holds_id(after, x) == holds_id(before, x),
{
    broadcast use vstd::seq_lib::group_to_multiset_ensures;

    if holds_id(before, id) {
        let (p, c) = choose|p: Patch, c: Cell|
            #[trigger] entry_count(before, (c, p)) > 0 && p.id == id && turn_outcome(read, dim, radius, min, before, p, c, after);
        assert(before[c].contains(p));
        let k = choose|k: int| 0 <= k < before[c].len() && before[c][k] == p;
        assert(before.dom().contains(c) && (before[c][k]).id == id);
        let h = with_mood(p, true);
        let u = with_mood(p, false);
        if similar_count(read, dim, p.group, c, radius as int) >= min {
            assert forall|x: u32| holds_id(after, x) == holds_id(before, x) by {
                lemma_placed_ids(before, h, c, x);
            }
        } else if has_free_cell(read, dim) {
            let n = choose|n: Cell| free_cell(read, dim, n) && after == #[trigger] placed(displaced(before, u, c), u, n);
            assert forall|x: u32| holds_id(after, x) == holds_id(before, x) by {
                lemma_placed_ids(displaced(before, u, c), u, n, x);
                lemma_displaced_ids(before, u, c, x);
            }
        } else {
            assert forall|x: u32| holds_id(after, x) == holds_id(before, x) by {
                lemma_placed_ids(before, u, c, x);
            }
        }
    }
}

/// The `i`-th of `n` agents as the model first places it: the first half
/// (by id) belongs to group One, the rest to group Two, none happy yet.
pub open spec fn initial_patch(i: u32, n: u32) -> Patch {
    Patch { id: i, group: if i < n / 2 { Group::One } else { Group::Two }, happy: false }
}

/// The buffer after the first `k` of `n` initial agents are placed, the
/// agent with id `i` on `cells[i]`.
pub open spec fn placed_initial(m: Bags, n: u32, k: nat, cells: Seq<Cell>) -> Bags
    decreases k,
{
    if k == 0 {
        m
    } else {
        placed(placed_initial(m, n, (k - 1) as nat, cells), initial_patch((k - 1) as u32, n), cells[k - 1])
    }
}

/// Placing the first `k` initial agents reads only the first `k` cells.
pub proof fn lemma_placed_initial_prefix(m: Bags, n: u32, k: nat, a: Seq<Cell>, b: Seq<Cell>)
    requires
        k <= a.len(),
        k <= b.len(),
        forall|j: int| 0 <= j < k ==> a[j] == b[j],
    ensures
        placed_initial(m, n, k, a) == placed_initial(m, n, k, b),
    decreases k,
{
    if k > 0 {
        lemma_placed_initial_prefix(m, n, (k - 1) as nat, a, b);
    }
}

/// The state of the segregation model: agents on a sparse grid of `dim`,
/// each content when at least `min_to_be_happy` of the agents within
/// `radius` share its group.
pub struct World {
    pub step: u64,
    pub field: SparseGrid2D<Patch>,
    pub dim: (i32, i32),
    pub num_agents: u32,
    pub min_to_be_happy: u32,
    pub radius: i32,
    pub rng: StdRng,
}

impl World {
    pub open spec fn read(&self) -> Bags {
        sparse_buffers(self.field).0
    }

    pub open spec fn written(&self) -> Bags {
        sparse_buffers(self.field).1
    }

    /// The grid was made with the world's dimensions, and both buffers hold
    /// non-empty bags on cells of the grid only.
    pub open spec fn wf(&self) -> bool {
        &&& sparse_bounds(self.field) == self.dim
        &&& bags_well_placed(self.read(), self.dim)
        &&& bags_well_placed(self.written(), self.dim)
    }

    /// A world with an empty grid of `dim` and a generator seeded with `seed`.
    pub fn new(dim: (i32, i32), num_agents: u32, min_to_be_happy: u32, radius: i32, seed: u64) -> (w: World)
        ensures
            w.wf(),
            w.step == 0,
            w.dim == dim,
            w.num_agents == num_agents,
            w.min_to_be_happy == min_to_be_happy,
            w.radius == radius,
            w.rng == seeded_rng(seed),
            w.read() =~= Map::empty(),
            w.written() =~= Map::empty(),
    {
        World {
            step: 0,
            field: sparse_new(dim.0, dim.1),
            dim,
            num_agents,
            min_to_be_happy,
            radius,
            rng: std_rng_from_seed(seed),
        }
    }

    /// The free cells of the grid, row by row.
    pub fn free_cells(&self) -> (cs: Vec<Cell>)
        requires
            self.wf(),
        ensures
            lists_free_cells(self.read(), self.dim, cs@),
    {
        let mut empties: Vec<Cell> = Vec::new();
        let mut y: i32 = 0;
        while y < self.dim.1
            invariant
                self.wf(),
                0 <= y,
                y <= self.dim.1 || y == 0,
                forall|i: int| 0 <= i < empties.len() ==> free_cell(self.read(), self.dim, #[trigger] empties@[i]),
                forall|i: int| 0 <= i < empties.len() ==> (#[trigger] empties@[i]).1 < y,
                forall|c: Cell| free_cell(self.read(), self.dim, c) && c.1 < y ==> empties@.contains(c),
                forall|i: int, j: int| 0 <= i < j < empties.len() ==> row_major_before(empties@[i], empties@[j]),
            decreases self.dim.1 - y,
        {
            let mut x: i32 = 0;
            while x < self.dim.0
                invariant
                    self.wf(),
                    0 <= y < self.dim.1,
                    0 <= x,
                    x <= self.dim.0 || x == 0,
                    forall|i: int| 0 <= i < empties.len() ==> free_cell(self.read(), self.dim, #[trigger] empties@[i]),
                    forall|i: int| 0 <= i < empties.len() ==> row_major_before(#[trigger] empties@[i], (x, y)),
                    forall|c: Cell| free_cell(self.read(), self.dim, c) && row_major_before(c, (x, y)) ==> empties@.contains(c),
                    forall|i: int, j: int| 0 <= i < j < empties.len() ==> row_major_before(empties@[i], empties@[j]),
                decreases self.dim.0 - x,
            {
                let loc: Cell = (x, y);
                let ghost before = empties@;
                if sparse_get_objects(&self.field, loc).is_none() {
                    empties.push(loc);
                    assert(empties@[empties.len() - 1] == loc);
                    assert forall|c: Cell| before.contains(c) implies empties@.contains(c) by {
                        let k = choose|k: int| 0 <= k < before.len() && before[k] == c;
                        assert(empties@[k] == c);
                    }
                    assert(empties@.contains(loc));
                }
                assert forall|c: Cell|
                    free_cell(self.read(), self.dim, c) && row_major_before(c, ((x + 1) as i32, y)) implies empties@.contains(c) by {
                    if c != loc {
                        assert(row_major_before(c, (x, y)));
                        assert(before.contains(c));
                        if empties@ != before {
                            let k = choose|k: int| 0 <= k < before.len() && before[k] == c;
                            assert(empties@[k] == c);
                        }
                    }
                }
                x = x + 1;
            }
            y = y + 1;
        }
        empties
    }

    /// A free cell of the grid picked with the world's generator, or `None`
    /// when every cell holds a bag in the read buffer. The generator is
    /// drawn from, and so moves on, exactly when a cell is free.
    pub fn random_empty_cell(&mut self) -> (r: Option<Cell>)
        requires
            old(self).wf(),
        ensures
            final(self).wf(),
            final(self).same_but_rng(*old(self)),
            r is None <==> !has_free_cell(old(self).read(), old(self).dim),
            r is None ==> final(self).rng == old(self).rng,
            r is Some ==> final(self).rng != old(self).rng,
            r matches Some(c) ==> free_cell(old(self).read(), old(self).dim, c),
    {
        let empties = self.free_cells();
        if empties.len() == 0 {
            proof {
                assert forall|c: Cell| !free_cell(self.read(), self.dim, c) by {
                    if free_cell(self.read(), self.dim, c) {
                        assert(empties@.contains(c));
                    }
                }
            }
            None
        } else {
            let idx = std_rng_below(&mut self.rng, empties.len());
            let c = empties[idx];
            assert(free_cell(self.read(), self.dim, empties@[idx as int]));
            Some(c)
        }
    }

    /// The ids of the agents in the write buffer, one per placement, in an
    /// order drawn with the world's generator.
    pub fn random_ordered_ids(&mut self) -> (ids: Vec<u32>)
        requires
            old(self).wf(),
        ensures
            final(self).wf(),
            final(self).same_but_rng(*old(self)),
            exists|es: Seq<(Cell, Patch)>|
                lists_entries(old(self).written(), es) && ids@.to_multiset() == (#[trigger] ids_of_entries(es)).to_multiset(),
    {
        let es = sparse_written_entries(&self.field);
        let mut ids: Vec<u32> = Vec::new();
        let mut i: usize = 0;
        while i < es.len()
            invariant
                i <= es.len(),
                ids@ == ids_of_entries(es@.take(i as int)),
            decreases es.len() - i,
        {
            ids.push(es[i].1.id);
            assert(ids_of_entries(es@.take(i + 1)) =~= ids_of_entries(es@.take(i as int)).push(es@[i as int].1.id));
            i = i + 1;
        }
        assert(es@.take(es.len() as int) =~= es@);
        std_rng_shuffle(&mut self.rng, &mut ids);
        assert(lists_entries(self.written(), es@) && ids@.to_multiset() == ids_of_entries(es@).to_multiset());
        ids
    }

    /// Where an agent with this id stands in the write buffer: the last such
    /// placement met while walking the buffer's hash map, or `None` when no
    /// agent there has this id.
    pub fn locate_by_id(&self, id: u32) -> (r: Option<(Patch, Cell)>)
        requires
            self.wf(),
        ensures
            exists|es: Seq<(Cell, Patch)>| lists_entries(self.written(), es) && r == #[trigger] last_with_id(es, id),
            r matches Some(f) ==> f.0.id == id && entry_count(self.written(), (f.1, f.0)) > 0,
            r is None <==> !holds_id(self.written(), id),
    {
        let es = sparse_written_entries(&self.field);
        let r = last_entry_with_id(&es, id);
        proof {
            broadcast use vstd::seq_lib::group_to_multiset_ensures;
            lemma_last_with_id(es@, id);
            if let Some(f) = r {
                assert(es@.to_multiset().count((f.1, f.0)) > 0);
            }
            if holds_id(self.written(), id) {
                let (c, i) = choose|c: Cell, i: int|
                    self.written().dom().contains(c) && 0 <= i < self.written()[c].len() && (#[trigger] self.written()[c][i]).id == id;
                let p = self.written()[c][i];
                assert(self.written()[c].contains(p));
                assert(entry_count(self.written(), (c, p)) > 0);
                assert(es@.to_multiset().count((c, p)) > 0);
                assert(es@.contains((c, p)));
            }
            if let Some(f) = r {
                let k = choose|k: int| 0 <= k < es@.len() && es@[k] == (f.1, f.0);
                assert(self.written()[f.1].contains(f.0));
            }
        }
        r
    }

    /// Every neighbour coordinate `loc ± radius` fits an `i32`, and so
    /// does `-radius`: the model computes them in `i32`, which must not
    /// overflow.
    pub open spec fn reach_fits(&self, loc: Cell) -> bool {
        &&& self.radius > i32::MIN
        &&& self.radius <= 0 || {
            &&& loc.0 - self.radius >= i32::MIN
            &&& loc.0 + self.radius <= i32::MAX
            &&& loc.1 - self.radius >= i32::MIN
            &&& loc.1 + self.radius <= i32::MAX
        }
    }

    /// The number of agents of `patch`'s group around `loc`, as a `u32`
    /// counts it: every cell within `radius` in both directions, other than
    /// `loc`, that lies on the grid and whose read-buffer bag starts with an
    /// agent of that group.
    pub fn count_similar_neighbors(&self, patch: Patch, loc: Cell) -> (n: u32)
        requires
            self.wf(),
            self.reach_fits(loc),
            similar_count(self.read(), self.dim, patch.group, loc, self.radius as int) <= u32::MAX,
        ensures
            n == similar_count(self.read(), self.dim, patch.group, loc, self.radius as int),
    {
        let ghost read = self.read();
        let ghost g = patch.group;
        let ghost rr = self.radius as int;
        let r: i64 = self.radius as i64;
        let mut similar: u32 = 0;
        let mut dy: i64 = -r;
        while dy <= r
            invariant
                self.wf(),
                read == self.read(),
                g == patch.group,
                rr == r,
                self.reach_fits(loc),
                r == self.radius,
                -r <= dy,
                dy <= r + 1 || dy == -r,
                similar == area_similar(read, self.dim, g, loc, rr, dy as int),
                area_similar(read, self.dim, g, loc, rr, rr + 1) <= u32::MAX,
            decreases r + 1 - dy,
        {
            proof {
                lemma_area_monotone(read, self.dim, g, loc, rr, dy as int + 1, rr + 1);
            }
            let mut dx: i64 = -r;
            while dx <= r
                invariant
                    self.wf(),
                    read == self.read(),
                    g == patch.group,
                    rr == r,
                    self.reach_fits(loc),
                    r == self.radius,
                    -r <= dy <= r,
                    -r <= dx <= r + 1,
                    similar == area_similar(read, self.dim, g, loc, rr, dy as int)
                        + row_similar(read, self.dim, g, loc, rr, dy as int, dx as int),
                    area_similar(read, self.dim, g, loc, rr, dy as int)
                        + row_similar(read, self.dim, g, loc, rr, dy as int, rr + 1) <= u32::MAX,
                decreases r + 1 - dx,
            {
                proof {
                    lemma_row_monotone(read, self.dim, g, loc, rr, dy as int, dx as int + 1, rr + 1);
                }
                if !(dx == 0 && dy == 0) {
                    let nx: i64 = loc.0 as i64 + dx;
                    let ny: i64 = loc.1 as i64 + dy;
                    if !(nx < 0 || ny < 0 || nx >= self.dim.0 as i64 || ny >= self.dim.1 as i64) {
                        let nloc: Cell = (nx as i32, ny as i32);
                        if let Some(neighbors) = sparse_get_objects(&self.field, nloc) {
                            let neighbor = neighbors[0];
                            if neighbor.group == patch.group {
                                assert(similar_at(read, self.dim, g, loc.0 + dx, loc.1 + dy));
                                similar += 1;
                            } else {
                                assert(!similar_at(read, self.dim, g, loc.0 + dx, loc.1 + dy));
                            }
                        } else {
                            assert(!similar_at(read, self.dim, g, loc.0 + dx, loc.1 + dy));
                        }
                    } else {
                        assert(!similar_at(read, self.dim, g, loc.0 + dx, loc.1 + dy));
                    }
                }
                dx = dx + 1;
            }
            dy = dy + 1;
        }
        similar
    }

    /// The neighbourhood of every cell of the grid can be walked within `i32`.
    pub open spec fn grid_reach_fits(&self) -> bool {
        &&& self.radius > i32::MIN
        &&& self.radius <= 0 || {
            &&& self.dim.0 as int - 1 + self.radius <= i32::MAX
            &&& self.dim.1 as int - 1 + self.radius <= i32::MAX
        }
    }

    /// Around every cell of the grid, the count of like neighbours fits a `u32`.
    pub open spec fn counts_fit(&self) -> bool {
        forall|g: Group, c: Cell|
            in_bounds(c, self.dim) ==> #[trigger] similar_count(self.read(), self.dim, g, c, self.radius as int) <= u32::MAX
    }

    /// A cheap test under which `update` may run: the neighbourhood walk
    /// stays within `i32` and the window (at most 65535 cells a side) is too
    /// small for a count to overflow a `u32`.
    pub fn neighbourhood_fits(&self) -> (b: bool)
        ensures
            b == (self.radius > i32::MIN && (self.radius <= 0 || (self.radius <= 32767
                && self.dim.0 as int - 1 + self.radius <= i32::MAX && self.dim.1 as int - 1
                + self.radius <= i32::MAX))),
            b ==> self.grid_reach_fits() && self.counts_fit(),
    {
        let r = self.radius as i64;
        let b = self.radius > i32::MIN && (r <= 0 || (r <= 32767 && self.dim.0 as i64 - 1 + r
            <= i32::MAX as i64 && self.dim.1 as i64 - 1 + r <= i32::MAX as i64));
        proof {
            if b {
                assert forall|g: Group, c: Cell| in_bounds(c, self.dim) implies #[trigger] similar_count(
                    self.read(),
                    self.dim,
                    g,
                    c,
                    self.radius as int,
                ) <= u32::MAX by {
                    lemma_similar_count_bound(self.read(), self.dim, g, c, self.radius as int);
                    if self.radius >= 0 {
                        let rr = self.radius as int;
                        assert((2 * rr + 1) * (2 * rr + 1) <= 65535 * 65535) by (nonlinear_arith)
                            requires
                                0 <= rr <= 32767,
                        ;
                    }
                }
            }
        }
        b
    }

    /// Both `grid_reach_fits` and `counts_fit`: every neighbourhood walk the
    /// model may make is free of overflow.
    pub open spec fn turns_fit(&self) -> bool {
        self.grid_reach_fits() && self.counts_fit()
    }

    /// From the cell of every agent of the read buffer, the neighbourhood
    /// walk stays within `i32` and its count of like neighbours fits a `u32`:
    /// what a pass over the read buffer needs to be free of overflow.
    pub open spec fn agents_fit(&self) -> bool {
        forall|c: Cell, p: Patch|
            #[trigger] entry_count(self.read(), (c, p)) > 0 ==> {
                &&& self.reach_fits(c)
                &&& similar_count(self.read(), self.dim, p.group, c, self.radius as int) <= u32::MAX
            }
    }

    /// The grid-wide bounds cover every agent of the read buffer.
    pub proof fn lemma_turns_fit_agents_fit(&self)
        requires
            self.wf(),
            self.turns_fit(),
        ensures
            self.agents_fit(),
    {
        assert forall|c: Cell, p: Patch| #[trigger] entry_count(self.read(), (c, p)) > 0 implies {
            &&& self.reach_fits(c)
            &&& similar_count(self.read(), self.dim, p.group, c, self.radius as int) <= u32::MAX
        } by {
            assert(self.read().dom().contains(c));
            assert(in_bounds(c, self.dim));
            assert(similar_count(self.read(), self.dim, p.group, c, self.radius as int) <= u32::MAX);
        }
    }

    /// On the grid, the grid-wide bound covers the walk from any cell.
    proof fn lemma_reach_in_grid(&self, c: Cell)
        requires
            self.grid_reach_fits(),
            in_bounds(c, self.dim),
        ensures
            self.reach_fits(c),
    {
    }

    /// The turn of the agent with this id: where it stands, it counts its
    /// like neighbours; content, it is placed there again, marked happy;
    /// otherwise, marked unhappy, it moves to a free cell drawn with the
    /// world's generator, or stays when there is none.
    pub fn take_turn(&mut self, id: u32)
        requires
            old(self).wf(),
            holds_id(old(self).written(), id) ==> old(self).turns_fit(),
        ensures
            final(self).wf(),
            final(self).step == old(self).step,
            final(self).dim == old(self).dim,
            final(self).num_agents == old(self).num_agents,
            final(self).min_to_be_happy == old(self).min_to_be_happy,
            final(self).radius == old(self).radius,
            final(self).read() == old(self).read(),
            id_turn_outcome(
                old(self).read(),
                old(self).dim,
                old(self).radius,
                old(self).min_to_be_happy,
                old(self).written(),
                id,
                final(self).written(),
            ),
    {
        let ghost before = self.written();
        let ghost read = self.read();
        let (mut patch, loc) = match self.locate_by_id(id) {
            Some(found) => found,
            None => {
                return;
            },
        };
        let ghost p0 = patch;
        assert(before.dom().contains(loc));
        proof {
            broadcast use vstd::seq_lib::group_to_multiset_ensures;

            assert(before[loc].contains(p0));
            let k = choose|k: int| 0 <= k < before[loc].len() && before[loc][k] == p0;
            assert(holds_id(before, id));
        }
        proof {
            self.lemma_reach_in_grid(loc);
        }
        let similar = self.count_similar_neighbors(patch, loc);
        if similar >= self.min_to_be_happy {
            patch.happy = true;
            proof {
                lemma_placed_well_placed(before, patch, loc, self.dim);
            }
            sparse_set(&mut self.field, patch, loc);
            assert(entry_count(before, (loc, p0)) > 0);
        } else {
            patch.happy = false;
            if let Some(new_loc) = self.random_empty_cell() {
                proof {
                    lemma_displaced_well_placed(before, patch, loc, self.dim);
                    lemma_placed_well_placed(displaced(before, patch, loc), patch, new_loc, self.dim);
                }
                sparse_remove(&mut self.field, patch, loc);
                sparse_set(&mut self.field, patch, new_loc);
                assert(free_cell(read, self.dim, new_loc));
                assert(entry_count(before, (loc, p0)) > 0);
            } else {
                proof {
                    lemma_placed_well_placed(before, patch, loc, self.dim);
                }
                sparse_set(&mut self.field, patch, loc);
                assert(entry_count(before, (loc, p0)) > 0);
            }
        }
    }

    /// One update of the model: every agent of the write buffer, in an order
    /// drawn with the world's generator, takes its turn (see `take_turn`);
    /// then the write buffer becomes the read buffer, a fresh write buffer
    /// starts empty, and the step count grows by one.
    pub fn update(&mut self, _step: u64)
        requires
            old(self).wf(),
            has_agents(old(self).written()) ==> old(self).turns_fit(),
            old(self).step < u64::MAX,
        ensures
            final(self).wf(),
            final(self).step == old(self).step + 1,
            final(self).dim == old(self).dim,
            final(self).num_agents == old(self).num_agents,
            final(self).min_to_be_happy == old(self).min_to_be_happy,
            final(self).radius == old(self).radius,
            final(self).written() =~= Map::empty(),
            exists|es: Seq<(Cell, Patch)>, ids: Seq<u32>, chain: Seq<Bags>|
                #![trigger lists_entries(old(self).written(), es), turns_chain(old(self).read(), old(self).dim, old(self).radius, old(self).min_to_be_happy, ids, chain)]
                lists_entries(old(self).written(), es)
                && ids.to_multiset() == ids_of_entries(es).to_multiset()
                && turns_chain(old(self).read(), old(self).dim, old(self).radius, old(self).min_to_be_happy, ids, chain)
                && chain[0] == old(self).written()
                && chain[ids.len() as int] == final(self).read(),
            forall|x: u32| holds_id(final(self).read(), x) == holds_id(old(self).written(), x),
    {
        let ghost read = self.read();
        let ghost start = self.written();
        let ids = self.random_ordered_ids();
        let ghost es = choose|es: Seq<(Cell, Patch)>|
            lists_entries(start, es) && ids@.to_multiset() == (#[trigger] ids_of_entries(es)).to_multiset();
        let ghost mut chain: Seq<Bags> = seq![start];
        let mut i: usize = 0;
        while i < ids.len()
            invariant
                self.wf(),
                has_agents(start) ==> self.turns_fit(),
                self.read() == read,
                i <= ids.len(),
                self.step == old(self).step,
                self.dim == old(self).dim,
                self.num_agents == old(self).num_agents,
                self.min_to_be_happy == old(self).min_to_be_happy,
                self.radius == old(self).radius,
                chain[0] == start,
                turns_chain(read, self.dim, self.radius, self.min_to_be_happy, ids@.take(i as int), chain),
                chain[i as int] == self.written(),
                forall|x: u32| holds_id(self.written(), x) == holds_id(start, x),
            decreases ids.len() - i,
        {
            let ghost before = self.written();
            proof {
                if holds_id(before, ids@[i as int]) {
                    let (c, k) = choose|c: Cell, k: int|
                        before.dom().contains(c) && 0 <= k < before[c].len() && (#[trigger] before[c][k]).id == ids@[i as int];
                    assert(holds_id(start, ids@[i as int]));
                    let (c2, k2) = choose|c: Cell, k: int|
                        start.dom().contains(c) && 0 <= k < start[c].len() && (#[trigger] start[c][k]).id == ids@[i as int];
                    assert(has_agents(start));
                }
            }
            self.take_turn(ids[i]);
            proof {
                lemma_turn_keeps_ids(read, self.dim, self.radius, self.min_to_be_happy, before, ids@[i as int], self.written());
                let old_chain = chain;
                chain = chain.push(self.written());
                assert forall|j: int| 0 <= j < i + 1 implies id_turn_outcome(
                    read,
                    self.dim,
                    self.radius,
                    self.min_to_be_happy,
                    #[trigger] chain[j],
                    ids@.take(i + 1)[j],
                    chain[j + 1],
                ) by {
                    if j < i {
                        assert(chain[j] == old_chain[j]);
                        assert(chain[j + 1] == old_chain[j + 1]);
                        assert(ids@.take(i + 1)[j] == ids@.take(i as int)[j]);
                    }
                }
            }
            i = i + 1;
        }
        proof {
            assert(ids@.take(ids.len() as int) =~= ids@);
        }
        sparse_lazy_update(&mut self.field);
        self.step = self.step + 1;
        assert(lists_entries(start, es));
        assert(turns_chain(read, self.dim, self.radius, self.min_to_be_happy, ids@, chain));
        assert(chain[ids@.len() as int] == self.read());
    }

    /// Back to step 0 with an empty grid of the world's dimensions.
    pub fn reset(&mut self)
        ensures
            final(self).wf(),
            final(self).step == 0,
            final(self).dim == old(self).dim,
            final(self).num_agents == old(self).num_agents,
            final(self).min_to_be_happy == old(self).min_to_be_happy,
            final(self).radius == old(self).radius,
            final(self).rng == old(self).rng,
            final(self).read() =~= Map::empty(),
            final(self).written() =~= Map::empty(),
    {
        self.step = 0;
        self.field = sparse_new(self.dim.0, self.dim.1);
    }

    /// Step 0 and the agents `0 .. num_agents` placed in the write buffer,
    /// each on a free cell of the read buffer drawn with the world's
    /// generator; when the read buffer leaves no cell free, none is placed.
    pub fn init(&mut self)
        requires
            old(self).wf(),
        ensures
            final(self).wf(),
            final(self).step == 0,
            final(self).dim == old(self).dim,
            final(self).num_agents == old(self).num_agents,
            final(self).min_to_be_happy == old(self).min_to_be_happy,
            final(self).radius == old(self).radius,
            final(self).read() == old(self).read(),
            has_free_cell(old(self).read(), old(self).dim) ==> exists|cells: Seq<Cell>|
                cells.len() == old(self).num_agents
                && (forall|i: int| 0 <= i < cells.len() ==> free_cell(old(self).read(), old(self).dim, #[trigger] cells[i]))
                && final(self).written() == #[trigger] placed_initial(old(self).written(), old(self).num_agents, old(self).num_agents as nat, cells),
            !has_free_cell(old(self).read(), old(self).dim) ==> final(self).written() == old(self).written(),
    {
        self.step = 0;
        let ghost start = self.written();
        let ghost read = self.read();
        let ghost mut cells: Seq<Cell> = Seq::empty();
        let mut i: u32 = 0;
        while i < self.num_agents
            invariant
                self.wf(),
                self.step == 0,
                self.read() == read,
                self.dim == old(self).dim,
                self.num_agents == old(self).num_agents,
                self.min_to_be_happy == old(self).min_to_be_happy,
                self.radius == old(self).radius,
                i <= self.num_agents,
                has_free_cell(read, self.dim) ==> {
                    &&& cells.len() == i
                    &&& forall|j: int| 0 <= j < cells.len() ==> free_cell(read, self.dim, #[trigger] cells[j])
                    &&& self.written() == placed_initial(start, self.num_agents, i as nat, cells)
                },
                !has_free_cell(read, self.dim) ==> self.written() == start,
            decreases self.num_agents - i,
        {
            let group = if i < self.num_agents / 2 {
                Group::One
            } else {
                Group::Two
            };
            if let Some(loc) = self.random_empty_cell() {
                let patch = Patch { id: i, group, happy: false };
                proof {
                    lemma_placed_well_placed(self.written(), patch, loc, self.dim);
                    let old_cells = cells;
                    cells = cells.push(loc);
                    assert forall|k: nat| k <= i implies placed_initial(start, self.num_agents, k, cells)
                        == placed_initial(start, self.num_agents, k, old_cells) by {
                        lemma_placed_initial_prefix(start, self.num_agents, k, cells, old_cells);
                    }
                }
                sparse_set(&mut self.field, patch, loc);
            }
            i = i + 1;
        }
    }

    /// Everything but the generator is as in `other`.
    pub open spec fn same_but_rng(&self, other: World) -> bool {
        &&& self.step == other.step
        &&& self.field == other.field
        &&& self.dim == other.dim
        &&& self.num_agents == other.num_agents
        &&& self.min_to_be_happy == other.min_to_be_happy
        &&& self.radius == other.radius
    }
}

} // verus!
