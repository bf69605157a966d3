//! The grass field: krABMaga's dense, double-buffered grid of `u16`
//! values, one per cell, stored row after row of `height` cells.

use vstd::prelude::*;
use krabmaga::engine::fields::dense_number_grid_2d::DenseNumberGrid2D;
use krabmaga::engine::fields::field::Field;
use krabmaga::engine::fields::grid_option::GridOption;
use krabmaga::engine::location::Int2D;

verus! {

#[verifier::external_type_specification]
#[verifier::external_body]
#[verifier::reject_recursive_types(T)]
pub struct ExDenseNumberGrid2D<T: Copy + Clone + PartialEq>(DenseNumberGrid2D<T>);

/// A buffer of the field: one optional value per cell, the cell `(x, y)`
/// at index `x * height + y`.
pub type Values = Seq<Option<u16>>;

/// What a dense number grid holds: its read buffer and its write buffer.
pub uninterp spec fn number_buffers(g: DenseNumberGrid2D<u16>) -> (Values, Values);

/// The width and height of a dense number grid (made non-negative).
pub uninterp spec fn number_bounds(g: DenseNumberGrid2D<u16>) -> (i32, i32);

/// The grass on a cell after one step of regrowth: one more, up to
/// `regrowth_time`.
pub open spec fn regrown(growth: u16, regrowth_time: u16) -> u16 {
    if growth < regrowth_time {
        (growth + 1) as u16
    } else {
        growth
    }
}

/// The grass on a cell after `k` steps of regrowth from `growth`.
pub open spec fn regrown_times(growth: u16, regrowth_time: u16, k: nat) -> u16
    decreases k,
{
    if k == 0 {
        growth
    } else {
        regrown(regrown_times(growth, regrowth_time, (k - 1) as nat), regrowth_time)
    }
}

/// Grass within the regrowth time stays within it and grows by one a step
/// until full: after `k` steps, grass that started at `growth` stands at
/// `min(growth + k, regrowth_time)`.
pub proof fn lemma_regrowth_saturates(growth: u16, regrowth_time: u16, k: nat)
    requires
        growth <= regrowth_time,
    ensures
        regrown_times(growth, regrowth_time, k) == if growth + k <= regrowth_time {
            growth + k
        } else {
            regrowth_time as int
        },
        regrown_times(growth, regrowth_time, k) <= regrowth_time,
    decreases k,
{
    if k > 0 {
        lemma_regrowth_saturates(growth, regrowth_time, (k - 1) as nat);
    }
}

/// One step of regrowth of the grass on a cell.
pub fn regrow(growth: u16, regrowth_time: u16) -> (r: u16)
    ensures
        r == regrown(growth, regrowth_time),
{
    if growth < regrowth_time {
        growth + 1
    } else {
        growth
    }
}

/// The write buffer after regrowth is applied across the field: each cell
/// with a value in the write buffer regrows from it, any other cell with a
/// value in the read buffer regrows from that, the rest stay empty.
pub open spec fn regrown_buffer(read: Values, write: Values, regrowth_time: u16) -> Values {
    Seq::new(
        write.len(),
        |i: int|
            if i < read.len() {
                match write[i] {
                    Some(v) => Some(regrown(v, regrowth_time)),
                    None => match read[i] {
                        Some(v) => Some(regrown(v, regrowth_time)),
                        None => None,
                    },
                }
            } else {
                write[i]
            },
    )
}

/// `x.abs()`, for `x` other than `i32::MIN`.
pub open spec fn magnitude(x: i32) -> i32 {
    if x < 0 {
        (-x) as i32
    } else {
        x
    }
}

/// The index of cell `c` in a buffer of a grid `height` cells high.
pub open spec fn cell_index(c: (i32, i32), height: i32) -> int {
    c.0 * height + c.1
}

/// The index computation of the grid stays within `i32` and lands in the buffer.
pub open spec fn index_fits(c: (i32, i32), height: i32, len: nat) -> bool {
    &&& i32::MIN <= c.0 * height <= i32::MAX
    &&& 0 <= cell_index(c, height) < len
}

/// `DenseNumberGrid2D::new`: both buffers hold `width * height` empty cells.
#[verifier::external_body]
pub(crate) fn number_new(width: i32, height: i32) -> (g: DenseNumberGrid2D<u16>)
    requires
        0 <= width * height <= i32::MAX,
        width != i32::MIN,
        height != i32::MIN,
    ensures
        number_buffers(g).0 =~= Seq::new((width * height) as nat, |i: int| None::<u16>),
        number_buffers(g).1 =~= Seq::new((width * height) as nat, |i: int| None::<u16>),
        number_bounds(g) == (magnitude(width), magnitude(height)),
{
    DenseNumberGrid2D::new(width, height)
}

/// `DenseNumberGrid2D::get_value`: the read buffer's value on `c`.
#[verifier::external_body]
pub(crate) fn number_get(g: &DenseNumberGrid2D<u16>, c: (i32, i32)) -> (r: Option<u16>)
    requires
        index_fits(c, number_bounds(*g).1, number_buffers(*g).0.len()),
    ensures
        r == number_buffers(*g).0[cell_index(c, number_bounds(*g).1)],
{
    g.get_value(&Int2D { x: c.0, y: c.1 })
}

/// `DenseNumberGrid2D::set_value_location`: `v` on `c` in the write buffer.
#[verifier::external_body]
pub(crate) fn number_set(g: &mut DenseNumberGrid2D<u16>, v: u16, c: (i32, i32))
    requires
        index_fits(c, number_bounds(*old(g)).1, number_buffers(*old(g)).1.len()),
    ensures
        number_buffers(*final(g)).0 == number_buffers(*old(g)).0,
        number_buffers(*final(g)).1 == number_buffers(*old(g)).1.update(cell_index(c, number_bounds(*old(g)).1), Some(v)),
        number_bounds(*final(g)) == number_bounds(*old(g)),
{
    g.set_value_location(v, &Int2D { x: c.0, y: c.1 })
}

/// `DenseNumberGrid2D::apply_to_all_values` with `GridOption::READWRITE`
/// and `regrow` as the closure.
#[verifier::external_body]
pub(crate) fn number_regrow_all(g: &mut DenseNumberGrid2D<u16>, regrowth_time: u16)
    requires
        number_buffers(*old(g)).0.len() <= number_buffers(*old(g)).1.len(),
    ensures
        number_buffers(*final(g)).0 == number_buffers(*old(g)).0,
        number_buffers(*final(g)).1 == regrown_buffer(number_buffers(*old(g)).0, number_buffers(*old(g)).1, regrowth_time),
        number_bounds(*final(g)) == number_bounds(*old(g)),
{
    g.apply_to_all_values(|grass| regrow(*grass, regrowth_time), GridOption::READWRITE)
}

/// `Field::lazy_update` of a dense number grid: the write buffer becomes
/// the read buffer and the old read buffer is emptied to be written next.
#[verifier::external_body]
pub(crate) fn number_lazy_update(g: &mut DenseNumberGrid2D<u16>)
    ensures
        number_buffers(*final(g)).0 == number_buffers(*old(g)).1,
        number_buffers(*final(g)).1 =~= Seq::new(number_buffers(*old(g)).0.len(), |i: int| None::<u16>),
        number_bounds(*final(g)) == number_bounds(*old(g)),
{
    g.lazy_update()
}

} // verus!
