//! The part of the predation model's state that holds no float: the grass
//! field, the step, the next free animal id and the sheep killed in the
//! current step.

use vstd::prelude::*;
use krabmaga::engine::fields::dense_number_grid_2d::DenseNumberGrid2D;
use crate::rng::{thread_coin, thread_rng, thread_u16_from_to};
use crate::wolf_sheep::grass::{
    cell_index, index_fits, magnitude, number_buffers, number_bounds, number_get, number_lazy_update,
    number_new, number_regrow_all, number_set, regrown, regrown_buffer, Values,
};
use crate::wolf_sheep::killed::{killed_ids, KilledSheep};
use crate::wolf_sheep::life::LifeState;
use crate::wolf_sheep::moves::{lemma_sheep_reach_on_grid, sheep_destination, sheep_reach};
use krabmaga::rand::rngs::ThreadRng;

verus! {

/// Every cell of the buffer holds at most `limit` grass.
pub open spec fn grass_within(vs: Values, limit: u16) -> bool {
    forall|i: int| 0 <= i < vs.len() ==> (#[trigger] vs[i] matches Some(v) ==> v <= limit)
}

/// The first candidate, by position, that is alive and not yet killed.
pub open spec fn is_first_prey(killed: Set<u32>, cs: Seq<(u32, LifeState)>, i: int) -> bool {
    &&& 0 <= i < cs.len()
    &&& !killed.contains(cs[i].0) && cs[i].1 == LifeState::Alive
    &&& forall|j: int| 0 <= j < i ==> killed.contains(#[trigger] cs[j].0) || cs[j].1 != LifeState::Alive
}

/// No candidate is alive and not yet killed.
pub open spec fn no_prey(killed: Set<u32>, cs: Seq<(u32, LifeState)>) -> bool {
    forall|j: int| 0 <= j < cs.len() ==> killed.contains(#[trigger] cs[j].0) || cs[j].1 != LifeState::Alive
}

/// The grass generation walks `x` over `0 .. height` and `y` over
/// `0 .. width`, storing cell `(x, y)` at `x * height + y`; every such
/// index must fall inside the field of `width * height` cells.
pub open spec fn grass_layout_fits(dim: (i32, i32)) -> bool {
    dim.0 <= 0 || dim.1 <= 0 || (dim.1 - 1) * dim.1 + dim.0 - 1 < dim.0 * dim.1
}

/// Newborns never share an id with the animals the model starts with: the
/// wolves hold ids below `initial_animals.1` and the sheep the ids from
/// there to below the sum, while every id handed out by `take_id` is at
/// least that sum.
pub proof fn lemma_new_ids_fresh(p: Pasture, initial_id: int)
    requires
        p.wf(),
        0 <= initial_id < p.initial_count(),
    ensures
        p.next_id != initial_id,
        p.next_id > initial_id,
{
}

/// Index `i` of the field is the index of a cell `(x, y)` that the grass
/// generation visits (`x` below `dim.1`, `y` below `dim.0`).
pub open spec fn sown(i: int, dim: (i32, i32)) -> bool {
    exists|x: i32, y: i32| 0 <= x < dim.1 && 0 <= y < dim.0 && #[trigger] cell_index((x, y), dim.1) == i
}

/// Index `i` is the index of a cell the generation has visited before
/// reaching `(x, y)`: rows below `x` whole, and row `x` below `y`.
pub open spec fn sown_before(i: int, dim: (i32, i32), x: i32, y: i32) -> bool {
    exists|a: i32, b: i32|
        ((0 <= a < x && 0 <= b < dim.0) || (a == x && 0 <= b < y)) && #[trigger] cell_index((a, b), dim.1) == i
}

/// The integer state of the predation model.
pub struct Pasture {
    pub dim: (i32, i32),
    pub grass_field: DenseNumberGrid2D<u16>,
    pub step: u64,
    pub next_id: u32,
    pub killed_sheep: KilledSheep,
    pub initial_animals: (u32, u32),
    pub grass_regrowth_time: u16,
}

impl Pasture {
    pub open spec fn grass_read(&self) -> Values {
        number_buffers(self.grass_field).0
    }

    pub open spec fn grass_written(&self) -> Values {
        number_buffers(self.grass_field).1
    }

    pub open spec fn killed(&self) -> Set<u32> {
        killed_ids(self.killed_sheep)
    }

    /// The number of animals the model starts with.
    pub open spec fn initial_count(&self) -> int {
        self.initial_animals.0 + self.initial_animals.1
    }

    /// The grass field has one cell per cell of the grid in both buffers,
    /// no cell holds more than `grass_regrowth_time`, and the next id is
    /// past every id handed out at the start.
    pub open spec fn wf(&self) -> bool {
        &&& self.dim.0 != i32::MIN
        &&& self.dim.1 != i32::MIN
        &&& 0 <= self.dim.0 * self.dim.1 <= i32::MAX
        &&& number_bounds(self.grass_field) == (magnitude(self.dim.0), magnitude(self.dim.1))
        &&& self.grass_read().len() == self.dim.0 * self.dim.1
        &&& self.grass_written().len() == self.dim.0 * self.dim.1
        &&& grass_within(self.grass_read(), self.grass_regrowth_time)
        &&& grass_within(self.grass_written(), self.grass_regrowth_time)
        &&& self.initial_count() <= u32::MAX
        &&& self.next_id >= self.initial_count()
    }

    /// A pasture of `dim` with no grass yet, at step 0, whose next id
    /// follows the `initial_animals` (sheep, wolves).
    pub fn new(dim: (i32, i32), initial_animals: (u32, u32), grass_regrowth_time: u16) -> (p: Pasture)
        requires
            dim.0 != i32::MIN,
            dim.1 != i32::MIN,
            0 <= dim.0 * dim.1 <= i32::MAX,
            initial_animals.0 + initial_animals.1 <= u32::MAX,
        ensures
            p.wf(),
            p.dim == dim,
            p.step == 0,
            p.next_id == initial_animals.0 + initial_animals.1,
            p.initial_animals == initial_animals,
            p.grass_regrowth_time == grass_regrowth_time,
            p.killed() == Set::<u32>::empty(),
            p.grass_read() =~= Seq::new((dim.0 * dim.1) as nat, |i: int| None::<u16>),
            p.grass_written() =~= Seq::new((dim.0 * dim.1) as nat, |i: int| None::<u16>),
    {
        Pasture {
            dim,
            grass_field: number_new(dim.0, dim.1),
            step: 0,
            next_id: initial_animals.1 + initial_animals.0,
            killed_sheep: KilledSheep::new(),
            initial_animals,
            grass_regrowth_time,
        }
    }

    /// Back to step 0 with an empty grass field, ids counted again from the
    /// initial animals; the killed sheep are kept.
    pub fn reset(&mut self)
        requires
            old(self).wf(),
        ensures
            final(self).wf(),
            final(self).step == 0,
            final(self).next_id == old(self).initial_count(),
            final(self).dim == old(self).dim,
            final(self).initial_animals == old(self).initial_animals,
            final(self).grass_regrowth_time == old(self).grass_regrowth_time,
            final(self).killed() == old(self).killed(),
            final(self).grass_read() =~= Seq::new((old(self).dim.0 * old(self).dim.1) as nat, |i: int| None::<u16>),
            final(self).grass_written() =~= Seq::new((old(self).dim.0 * old(self).dim.1) as nat, |i: int| None::<u16>),
    {
        self.step = 0;
        self.grass_field = number_new(self.dim.0, self.dim.1);
        self.next_id = self.initial_animals.0 + self.initial_animals.1;
    }

    /// One update of the field: from step 1 on, the grass of every cell
    /// regrows by one up to `grass_regrowth_time`; then the write buffer
    /// becomes the read buffer and a fresh one starts empty; the step is
    /// recorded.
    pub fn update(&mut self, step: u64)
        requires
            old(self).wf(),
        ensures
            final(self).wf(),
            final(self).step == step,
            final(self).next_id == old(self).next_id,
            final(self).dim == old(self).dim,
            final(self).initial_animals == old(self).initial_animals,
            final(self).grass_regrowth_time == old(self).grass_regrowth_time,
            final(self).killed() == old(self).killed(),
            final(self).grass_read() == (if step != 0 {
                regrown_buffer(old(self).grass_read(), old(self).grass_written(), old(self).grass_regrowth_time)
            } else {
                old(self).grass_written()
            }),
            final(self).grass_written() =~= Seq::new(old(self).grass_read().len(), |i: int| None::<u16>),
    {
        if step != 0 {
            number_regrow_all(&mut self.grass_field, self.grass_regrowth_time);
            proof {
                let rt = self.grass_regrowth_time;
                assert forall|i: int| 0 <= i < self.grass_written().len() implies (#[trigger] self.grass_written()[i] matches Some(v) ==> v <= rt) by {
                    let r = old(self).grass_read();
                    let w = old(self).grass_written();
                    assert(r[i] matches Some(v) ==> v <= rt);
                    assert(w[i] matches Some(v) ==> v <= rt);
                }
            }
        }
        number_lazy_update(&mut self.grass_field);
        self.step = step;
    }

    /// The field's index of `c` (`c.0 * height + c.1`) is computed within
    /// `i32` and lies inside the field.
    pub open spec fn cell_fits(&self, c: (i32, i32)) -> bool {
        index_fits(c, magnitude(self.dim.1), (self.dim.0 * self.dim.1) as nat)
    }

    /// Every cell of the grid fits the field.
    pub proof fn lemma_cell_index(&self, c: (i32, i32))
        requires
            self.wf(),
            0 <= c.0 < self.dim.0,
            0 <= c.1 < self.dim.1,
        ensures
            self.cell_fits(c),
            index_fits(c, number_bounds(self.grass_field).1, self.grass_read().len()),
            index_fits(c, number_bounds(self.grass_field).1, self.grass_written().len()),
    {
        let w = self.dim.0 as int;
        let h = self.dim.1 as int;
        let x = c.0 as int;
        let y = c.1 as int;
        assert(number_bounds(self.grass_field).1 == h);
        assert(0 <= x * h <= (w - 1) * h) by (nonlinear_arith)
            requires
                0 <= x < w,
                0 < h,
        ;
        assert((w - 1) * h + h == w * h) by (nonlinear_arith);
    }

    /// A sheep on `loc` grazes: when the grass there (as last step left it)
    /// has fully grown, it is eaten down to 0 in the write buffer and the
    /// answer is `true`.
    pub fn graze(&mut self, loc: (i32, i32)) -> (ate: bool)
        requires
            old(self).wf(),
            old(self).cell_fits(loc),
        ensures
            final(self).wf(),
            final(self).step == old(self).step,
            final(self).next_id == old(self).next_id,
            final(self).dim == old(self).dim,
            final(self).initial_animals == old(self).initial_animals,
            final(self).grass_regrowth_time == old(self).grass_regrowth_time,
            final(self).killed() == old(self).killed(),
            final(self).grass_read() == old(self).grass_read(),
            ate == (old(self).grass_read()[cell_index(loc, magnitude(old(self).dim.1))] matches Some(v) && v
                >= old(self).grass_regrowth_time),
            final(self).grass_written() == (if ate {
                old(self).grass_written().update(cell_index(loc, magnitude(old(self).dim.1)), Some(0u16))
            } else {
                old(self).grass_written()
            }),
    {
        match number_get(&self.grass_field, loc) {
            Some(grass_val) => {
                if grass_val >= self.grass_regrowth_time {
                    number_set(&mut self.grass_field, 0, loc);
                    true
                } else {
                    false
                }
            },
            None => false,
        }
    }

    /// Sows the field: `x` runs over `0 .. dim.1` and `y` over `0 .. dim.0`
    /// (as the model walks them), and cell `(x, y)` of the write buffer gets,
    /// on a fair coin, fully grown grass (`grass_regrowth_time`) or else a
    /// level drawn from `1` to `grass_regrowth_time`. Where the coin falls
    /// short and no level can be drawn (a regrowth time of 0, or of
    /// `u16::MAX`, whose successor overflows), it stops there and returns
    /// `false`; it returns `true` once every cell is sown.
    pub fn generate_grass(&mut self) -> (sown_all: bool)
        requires
            old(self).wf(),
            grass_layout_fits(old(self).dim),
        ensures
            old(self).dim.0 <= 0 || old(self).dim.1 <= 0 || 1 <= old(self).grass_regrowth_time < u16::MAX ==> sown_all,
            final(self).wf(),
            final(self).step == old(self).step,
            final(self).next_id == old(self).next_id,
            final(self).dim == old(self).dim,
            final(self).initial_animals == old(self).initial_animals,
            final(self).grass_regrowth_time == old(self).grass_regrowth_time,
            final(self).killed() == old(self).killed(),
            final(self).grass_read() == old(self).grass_read(),
            sown_all ==> forall|x: i32, y: i32|
                0 <= x < old(self).dim.1 && 0 <= y < old(self).dim.0 ==> (#[trigger] final(self).grass_written()[cell_index(
                    (x, y),
                    old(self).dim.1,
                )] matches Some(v) && (v == old(self).grass_regrowth_time || 1 <= v <= old(self).grass_regrowth_time)),
            forall|i: int|
                0 <= i < final(self).grass_written().len() && !sown(i, old(self).dim)
                    ==> #[trigger] final(self).grass_written()[i] == old(self).grass_written()[i],
    {
        let ghost start = self.grass_written();
        let ghost w = self.dim.0 as int;
        let ghost h = self.dim.1 as int;
        let rt = self.grass_regrowth_time;
        let mut x: i32 = 0;
        while x < self.dim.1
            invariant
                self.wf(),
                self.step == old(self).step,
                self.next_id == old(self).next_id,
                self.dim == old(self).dim,
                self.initial_animals == old(self).initial_animals,
                self.grass_regrowth_time == rt,
                rt == old(self).grass_regrowth_time,
                start == old(self).grass_written(),
                self.killed() == old(self).killed(),
                self.grass_read() == old(self).grass_read(),
                grass_layout_fits(self.dim),
                w == self.dim.0,
                h == self.dim.1,
                0 <= x,
                x <= h || x == 0,
                start.len() == self.grass_written().len(),
                forall|a: i32, b: i32|
                    0 <= a < x && 0 <= b < w ==> (#[trigger] self.grass_written()[cell_index((a, b), self.dim.1)] matches Some(v) && (v == rt || 1 <= v <= rt)),
                forall|i: int|
                    0 <= i < self.grass_written().len() && !sown_before(i, self.dim, x, 0) ==> #[trigger] self.grass_written()[i] == start[i],
            decreases h - x,
        {
            let mut y: i32 = 0;
            while y < self.dim.0
                invariant
                    self.wf(),
                    self.step == old(self).step,
                    self.next_id == old(self).next_id,
                    self.dim == old(self).dim,
                    self.initial_animals == old(self).initial_animals,
                    self.grass_regrowth_time == rt,
                    self.killed() == old(self).killed(),
                    self.grass_read() == old(self).grass_read(),
                    grass_layout_fits(self.dim),
                    rt == old(self).grass_regrowth_time,
                    start == old(self).grass_written(),
                    w == self.dim.0,
                    h == self.dim.1,
                    0 <= x < h,
                    0 <= y,
                    y <= w || y == 0,
                    start.len() == self.grass_written().len(),
                    forall|a: i32, b: i32|
                        ((0 <= a < x && 0 <= b < w) || (a == x && 0 <= b < y)) ==> (#[trigger] self.grass_written()[cell_index((a, b), self.dim.1)] matches Some(v) && (v == rt || 1 <= v <= rt)),
                    forall|i: int|
                        0 <= i < self.grass_written().len() && !sown_before(i, self.dim, x, y) ==> #[trigger] self.grass_written()[i] == start[i],
                decreases w - y,
            {
                let ghost before = self.grass_written();
                let loc: (i32, i32) = (x, y);
                proof {
                    let xi = x as int;
                    let yi = y as int;
                    assert(0 <= xi * h <= (h - 1) * h) by (nonlinear_arith)
                        requires
                            0 <= xi < h,
                    ;
                    assert(number_bounds(self.grass_field).1 == h);
                    assert(xi * h + yi <= (h - 1) * h + w - 1);
                    assert(w * h == self.dim.0 * self.dim.1);
                }
                let mut rng = thread_rng();
                let fully_growth = thread_coin(&mut rng);
                let value: u16 = if fully_growth {
                    rt
                } else if 1 <= rt && rt < u16::MAX {
                    thread_u16_from_to(&mut rng, 1, rt + 1)
                } else {
                    proof {
                        assert forall|i: int|
                            0 <= i < self.grass_written().len() && !sown(i, self.dim) implies #[trigger] self.grass_written()[i] == start[i] by {
                            if sown_before(i, self.dim, x, y) {
                                let (a, b) = choose|a: i32, b: i32|
                                    ((0 <= a < x && 0 <= b < self.dim.0) || (a == x && 0 <= b < y)) && #[trigger] cell_index((a, b), self.dim.1) == i;
                                assert(0 <= a < self.dim.1 && 0 <= b < self.dim.0 && cell_index((a, b), self.dim.1) == i);
                            }
                        }
                    }
                    return false;
                };
                number_set(&mut self.grass_field, value, loc);
                proof {
                    let idx = cell_index(loc, self.dim.1);
                    assert forall|a: i32, b: i32|
                        ((0 <= a < x && 0 <= b < w) || (a == x && 0 <= b < y + 1)) implies (#[trigger] self.grass_written()[cell_index((a, b), self.dim.1)] matches Some(v) && (v == rt || 1 <= v <= rt)) by {
                        let j = cell_index((a, b), self.dim.1);
                        let ai = a as int;
                        assert(0 <= ai * h <= (h - 1) * h) by (nonlinear_arith)
                            requires
                                0 <= ai < h,
                        ;
                        assert(0 <= j < self.grass_written().len());
                        if j != idx {
                            assert(self.grass_written()[j] == before[j]);
                        }
                    }
                    let ny = (y + 1) as i32;
                    assert forall|i: int|
                        0 <= i < self.grass_written().len() && !sown_before(i, self.dim, x, ny) implies #[trigger] self.grass_written()[i] == start[i] by {
                        if sown_before(i, self.dim, x, y) {
                            let (a, b) = choose|a: i32, b: i32|
                                ((0 <= a < x && 0 <= b < self.dim.0) || (a == x && 0 <= b < y)) && #[trigger] cell_index((a, b), self.dim.1) == i;
                            assert(((0 <= a < x && 0 <= b < self.dim.0) || (a == x && 0 <= b < ny)) && cell_index((a, b), self.dim.1) == i);
                        }
                        if i == idx {
                            assert(((0 <= x < x && 0 <= y < self.dim.0) || (x == x && 0 <= y < ny)) && cell_index((x, y), self.dim.1) == i);
                        }
                    }
                }
                y = y + 1;
            }
            proof {
                let nx = (x + 1) as i32;
                assert forall|i: int|
                    0 <= i < self.grass_written().len() && !sown_before(i, self.dim, nx, 0) implies #[trigger] self.grass_written()[i] == start[i] by {
                    if sown_before(i, self.dim, x, y) {
                        let (a, b) = choose|a: i32, b: i32|
                            ((0 <= a < x && 0 <= b < self.dim.0) || (a == x && 0 <= b < y)) && #[trigger] cell_index((a, b), self.dim.1) == i;
                        assert(((0 <= a < nx && 0 <= b < self.dim.0) || (a == nx && 0 <= b < 0)) && cell_index((a, b), self.dim.1) == i);
                    }
                }
            }
            x = x + 1;
        }
        proof {
            assert forall|i: int|
                0 <= i < self.grass_written().len() && !sown(i, self.dim) implies #[trigger] self.grass_written()[i] == start[i] by {
                if sown_before(i, self.dim, x, 0) {
                    let (a, b) = choose|a: i32, b: i32|
                        ((0 <= a < x && 0 <= b < self.dim.0) || (a == x && 0 <= b < 0)) && #[trigger] cell_index((a, b), self.dim.1) == i;
                    assert(0 <= a < self.dim.1 && 0 <= b < self.dim.0 && cell_index((a, b), self.dim.1) == i);
                }
            }
        }
        true
    }

    /// A sheep on the grid can take its turn, and every cell it may reach
    /// lies on the grid.
    pub proof fn lemma_sheep_on_grid(&self, loc: (i32, i32))
        requires
            self.wf(),
            0 <= loc.0 < self.dim.0,
            0 <= loc.1 < self.dim.1,
        ensures
            forall|x: i32, y: i32|
                sheep_reach(loc.0, self.dim.0).0 <= x <= sheep_reach(loc.0, self.dim.0).1
                    && sheep_reach(loc.1, self.dim.1).0 <= y <= sheep_reach(loc.1, self.dim.1).1
                    ==> 0 <= x < self.dim.0 && 0 <= y < self.dim.1 && #[trigger] self.cell_fits((x, y)),
    {
        lemma_sheep_reach_on_grid(loc.0, self.dim.0);
        lemma_sheep_reach_on_grid(loc.1, self.dim.1);
        assert forall|x: i32, y: i32|
            sheep_reach(loc.0, self.dim.0).0 <= x <= sheep_reach(loc.0, self.dim.0).1
                && sheep_reach(loc.1, self.dim.1).0 <= y <= sheep_reach(loc.1, self.dim.1).1
                implies 0 <= x < self.dim.0 && 0 <= y < self.dim.1 && #[trigger] self.cell_fits((x, y)) by {
            self.lemma_cell_index((x, y));
        }
    }

    /// The integer part of a sheep's step from `loc`: it moves to a cell
    /// drawn by `sheep_destination` and grazes there (see `graze`); the new
    /// cell and whether it ate come back.
    pub fn sheep_turn(&mut self, rng: &mut ThreadRng, loc: (i32, i32)) -> (r: ((i32, i32), bool))
        requires
            old(self).wf(),
            forall|x: i32, y: i32|
                sheep_reach(loc.0, old(self).dim.0).0 <= x <= sheep_reach(loc.0, old(self).dim.0).1
                    && sheep_reach(loc.1, old(self).dim.1).0 <= y <= sheep_reach(loc.1, old(self).dim.1).1
                    ==> #[trigger] old(self).cell_fits((x, y)),
        ensures
            final(self).wf(),
            sheep_reach(loc.0, old(self).dim.0).0 <= r.0.0 <= sheep_reach(loc.0, old(self).dim.0).1,
            sheep_reach(loc.1, old(self).dim.1).0 <= r.0.1 <= sheep_reach(loc.1, old(self).dim.1).1,
            final(self).step == old(self).step,
            final(self).next_id == old(self).next_id,
            final(self).dim == old(self).dim,
            final(self).initial_animals == old(self).initial_animals,
            final(self).grass_regrowth_time == old(self).grass_regrowth_time,
            final(self).killed() == old(self).killed(),
            final(self).grass_read() == old(self).grass_read(),
            r.1 == (old(self).grass_read()[cell_index(r.0, magnitude(old(self).dim.1))] matches Some(v) && v
                >= old(self).grass_regrowth_time),
            final(self).grass_written() == (if r.1 {
                old(self).grass_written().update(cell_index(r.0, magnitude(old(self).dim.1)), Some(0u16))
            } else {
                old(self).grass_written()
            }),
    {
        let to = sheep_destination(rng, loc, self.dim);
        assert(self.cell_fits(to));
        let ate = self.graze(to);
        (to, ate)
    }

    /// A fresh id for a newborn animal.
    pub fn take_id(&mut self) -> (id: u32)
        requires
            old(self).wf(),
            old(self).next_id < u32::MAX,
        ensures
            final(self).wf(),
            id == old(self).next_id,
            final(self).next_id == old(self).next_id + 1,
            final(self).step == old(self).step,
            final(self).dim == old(self).dim,
            final(self).initial_animals == old(self).initial_animals,
            final(self).grass_regrowth_time == old(self).grass_regrowth_time,
            final(self).grass_field == old(self).grass_field,
            final(self).killed() == old(self).killed(),
    {
        let id = self.next_id;
        self.next_id = self.next_id + 1;
        id
    }

    /// The id of the `k`-th wolf the model starts with: the wolves take the
    /// first ids.
    pub fn initial_wolf_id(&self, k: u32) -> (id: u32)
        requires
            k < self.initial_animals.1,
        ensures
            id == k,
            id < self.initial_count(),
    {
        k
    }

    /// The id of the `k`-th sheep the model starts with: the sheep follow
    /// the wolves.
    pub fn initial_sheep_id(&self, k: u32) -> (id: u32)
        requires
            self.wf(),
            k < self.initial_animals.0,
        ensures
            id == self.initial_animals.1 + k,
            self.initial_animals.1 <= id < self.initial_count(),
    {
        k + self.initial_animals.1
    }

    /// A wolf among the sheep `candidates` (id, life state) of its cell
    /// kills the first one that is alive and not yet killed this step, if
    /// any: that sheep's id joins the killed set and its position comes back.
    pub fn hunt(&mut self, candidates: &Vec<(u32, LifeState)>) -> (r: Option<usize>)
        requires
            old(self).wf(),
        ensures
            final(self).wf(),
            final(self).step == old(self).step,
            final(self).next_id == old(self).next_id,
            final(self).dim == old(self).dim,
            final(self).initial_animals == old(self).initial_animals,
            final(self).grass_regrowth_time == old(self).grass_regrowth_time,
            final(self).grass_field == old(self).grass_field,
            match r {
                Some(i) => is_first_prey(old(self).killed(), candidates@, i as int) && final(self).killed()
                    == old(self).killed().insert(candidates@[i as int].0),
                None => no_prey(old(self).killed(), candidates@) && final(self).killed() == old(self).killed(),
            },
    {
        let mut i: usize = 0;
        while i < candidates.len()
            invariant
                self.wf(),
                *self == *old(self),
                i <= candidates.len(),
                forall|j: int| 0 <= j < i ==> self.killed().contains(#[trigger] candidates@[j].0) || candidates@[j].1
                    != LifeState::Alive,
            decreases candidates.len() - i,
        {
            let (id, state) = candidates[i];
            if self.killed_sheep.get(id).is_none() && state == LifeState::Alive {
                self.killed_sheep.insert(id);
                return Some(i);
            }
            i = i + 1;
        }
        None
    }

    /// The ids of the sheep killed this step, each once.
    pub fn killed_list(&self) -> (ids: Vec<u32>)
        ensures
            ids@.to_set() == self.killed(),
            ids@.no_duplicates(),
    {
        self.killed_sheep.ids()
    }

    /// Forgets the sheep killed this step.
    pub fn clear_killed(&mut self)
        requires
            old(self).wf(),
        ensures
            final(self).wf(),
            final(self).killed() == Set::<u32>::empty(),
            final(self).step == old(self).step,
            final(self).next_id == old(self).next_id,
            final(self).dim == old(self).dim,
            final(self).initial_animals == old(self).initial_animals,
            final(self).grass_regrowth_time == old(self).grass_regrowth_time,
            final(self).grass_field == old(self).grass_field,
    {
        self.killed_sheep.clear();
    }
}

} // verus!
