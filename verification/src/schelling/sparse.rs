//! The sparse, double-buffered agent grid of krABMaga, as the segregation
//! model uses it: a read buffer that holds the previous step and a write
//! buffer that collects the current one, each a map from cells to bags.

use vstd::prelude::*;
use krabmaga::engine::fields::field::Field;
use krabmaga::engine::fields::sparse_object_grid_2d::SparseGrid2D;
use krabmaga::engine::location::Int2D;
use std::cell::RefCell;
use crate::schelling::patch::Patch;

verus! {

#[verifier::external_type_specification]
#[verifier::external_body]
#[verifier::reject_recursive_types(O)]
pub struct ExSparseGrid2D<O: Eq + core::hash::Hash + Clone + Copy>(SparseGrid2D<O>);

/// A cell of a grid, as `(x, y)`.
pub type Cell = (i32, i32);

/// The bags of a grid buffer: the agents placed on each occupied cell, in
/// the order in which they were placed.
pub type Bags = Map<Cell, Seq<Patch>>;

/// What a sparse grid holds: its read buffer and its write buffer.
pub uninterp spec fn sparse_buffers(g: SparseGrid2D<Patch>) -> (Bags, Bags);

/// The width and height that a sparse grid was made with.
pub uninterp spec fn sparse_bounds(g: SparseGrid2D<Patch>) -> (i32, i32);

/// The buffer after `p` is placed on `c`: it joins the end of the bag there.
pub open spec fn placed(m: Bags, p: Patch, c: Cell) -> Bags {
    if m.dom().contains(c) {
        m.insert(c, m[c].push(p))
    } else {
        m.insert(c, seq![p])
    }
}

/// Agents that are not `p` (whose id differs).
pub open spec fn other_than(p: Patch) -> spec_fn(Patch) -> bool {
    |q: Patch| q.id != p.id
}

/// The buffer after every agent with the id of `p` is taken off `c`; a bag
/// left empty is dropped.
pub open spec fn displaced(m: Bags, p: Patch, c: Cell) -> Bags {
    if m.dom().contains(c) {
        let bag = m[c].filter(other_than(p));
        if bag.len() == 0 {
            m.remove(c)
        } else {
            m.insert(c, bag)
        }
    } else {
        m
    }
}

/// How many times `p` stands on `c` in the buffer.
pub open spec fn entry_count(m: Bags, e: (Cell, Patch)) -> nat {
    if m.dom().contains(e.0) {
        m[e.0].to_multiset().count(e.1)
    } else {
        0
    }
}

/// `es` lists every placement of the buffer, as often as it occurs, in some order.
pub open spec fn lists_entries(m: Bags, es: Seq<(Cell, Patch)>) -> bool {
    forall|e: (Cell, Patch)| #[trigger] es.to_multiset().count(e) == entry_count(m, e)
}

/// `c` lies on the grid.
pub open spec fn in_bounds(c: Cell, bounds: (i32, i32)) -> bool {
    0 <= c.0 < bounds.0 && 0 <= c.1 < bounds.1
}

/// Some agent with this id stands in the buffer.
pub open spec fn holds_id(m: Bags, id: u32) -> bool {
    exists|c: Cell, i: int| m.dom().contains(c) && 0 <= i < m[c].len() && (#[trigger] m[c][i]).id == id
}

/// Every bag of the buffer lies on the grid and holds at least one agent.
pub open spec fn bags_well_placed(m: Bags, dim: (i32, i32)) -> bool {
    forall|c: Cell| #[trigger] m.dom().contains(c) ==> in_bounds(c, dim) && m[c].len() > 0
}

/// Placing an agent adds its id and no other.
pub proof fn lemma_placed_ids(m: Bags, p: Patch, c: Cell, id: u32)
    ensures
        holds_id(placed(m, p, c), id) <==> (holds_id(m, id) || p.id == id),
{
    let n = placed(m, p, c);
    if holds_id(m, id) {
        let (d, i) = choose|d: Cell, i: int| m.dom().contains(d) && 0 <= i < m[d].len() && (#[trigger] m[d][i]).id == id;
        if d == c {
            assert(n[d][i] == m[d][i]);
        } else {
            assert(n[d][i] == m[d][i]);
        }
    }
    if p.id == id {
        assert(n[c][n[c].len() - 1] == p);
    }
    if holds_id(n, id) && p.id != id {
        let (d, i) = choose|d: Cell, i: int| n.dom().contains(d) && 0 <= i < n[d].len() && (#[trigger] n[d][i]).id == id;
        if d == c {
            assert(m.dom().contains(c) && i < m[c].len());
            assert(m[d][i] == n[d][i]);
        } else {
            assert(m[d][i] == n[d][i]);
        }
    }
}

/// Taking agents off a cell adds no id and removes none but theirs.
pub proof fn lemma_displaced_ids(m: Bags, p: Patch, c: Cell, id: u32)
    ensures
        holds_id(displaced(m, p, c), id) ==> holds_id(m, id),
        holds_id(m, id) && id != p.id ==> holds_id(displaced(m, p, c), id),
{
    let n = displaced(m, p, c);
    if holds_id(n, id) {
        let (d, i) = choose|d: Cell, i: int| n.dom().contains(d) && 0 <= i < n[d].len() && (#[trigger] n[d][i]).id == id;
        if d == c {
            let bag = m[c].filter(other_than(p));
            assert(n[c] == bag);
            assert(bag.contains(n[d][i]));
            m[c].lemma_filter_contains_rev(other_than(p), n[d][i]);
            let j = choose|j: int| 0 <= j < m[c].len() && m[c][j] == n[d][i];
            assert(m[c][j].id == id);
        } else {
            assert(m[d][i] == n[d][i]);
        }
    }
    if holds_id(m, id) && id != p.id {
        let (d, i) = choose|d: Cell, i: int| m.dom().contains(d) && 0 <= i < m[d].len() && (#[trigger] m[d][i]).id == id;
        if d == c {
            let bag = m[c].filter(other_than(p));
            m[c].lemma_filter_contains(other_than(p), i);
            assert(bag.contains(m[c][i]));
            m[c].lemma_filter_len(other_than(p));
            let j = choose|j: int| 0 <= j < bag.len() && bag[j] == m[c][i];
            assert(n[c][j].id == id);
        } else {
            assert(m[d][i] == n[d][i]);
        }
    }
}

/// Taking an agent off a cell undoes placing it there, when no agent with
/// its id stood there before (and the cell's bag, if any, is not empty).
pub proof fn lemma_displace_undoes_place(m: Bags, p: Patch, c: Cell)
    requires
        m.dom().contains(c) ==> m[c].len() > 0,
        !m.dom().contains(c) || forall|i: int| 0 <= i < m[c].len() ==> (#[trigger] m[c][i]).id != p.id,
    ensures
        displaced(placed(m, p, c), p, c) == m,
{
    let n = placed(m, p, c);
    if m.dom().contains(c) {
        let bag = n[c].filter(other_than(p));
        assert(n[c] == m[c].push(p));
        assert(m[c].filter(other_than(p)) =~= m[c]) by {
            lemma_filter_keeps_all(m[c], other_than(p));
        }
        assert(m[c].push(p).filter(other_than(p)) =~= m[c].filter(other_than(p))) by {
            reveal_with_fuel(Seq::<_>::filter, 1);
            assert(m[c].push(p).drop_last() =~= m[c]);
        }
        assert(bag == m[c]);
        assert(displaced(n, p, c) == n.insert(c, m[c]));
        assert(displaced(n, p, c) =~= m);
    } else {
        assert(n[c] == seq![p]);
        assert(seq![p].filter(other_than(p)) =~= Seq::<Patch>::empty()) by {
            reveal_with_fuel(Seq::<_>::filter, 2);
            assert(seq![p].drop_last() =~= Seq::<Patch>::empty());
        }
        assert(displaced(n, p, c) =~= m);
    }
}

proof fn lemma_filter_keeps_all(s: Seq<Patch>, f: spec_fn(Patch) -> bool)
    requires
        forall|i: int| 0 <= i < s.len() ==> f(#[trigger] s[i]),
    ensures
        s.filter(f) == s,
    decreases s.len(),
{
    reveal_with_fuel(Seq::<_>::filter, 1);
    if s.len() > 0 {
        lemma_filter_keeps_all(s.drop_last(), f);
        assert(s.drop_last().push(s.last()) =~= s);
    } else {
        assert(s.filter(f) =~= s);
    }
}

/// Placing an agent on a cell of the grid keeps the bags well placed.
pub proof fn lemma_placed_well_placed(m: Bags, p: Patch, c: Cell, dim: (i32, i32))
    requires
        bags_well_placed(m, dim),
        in_bounds(c, dim),
    ensures
        bags_well_placed(placed(m, p, c), dim),
{
}

/// Taking agents off a cell keeps the bags well placed.
pub proof fn lemma_displaced_well_placed(m: Bags, p: Patch, c: Cell, dim: (i32, i32))
    requires
        bags_well_placed(m, dim),
    ensures
        bags_well_placed(displaced(m, p, c), dim),
{
}

/// `SparseGrid2D::new`: both buffers start empty, with the given bounds.
#[verifier::external_body]
pub(crate) fn sparse_new(width: i32, height: i32) -> (g: SparseGrid2D<Patch>)
    ensures
        sparse_buffers(g).0 =~= Map::empty(),
        sparse_buffers(g).1 =~= Map::empty(),
        sparse_bounds(g) == (width, height),
{
    SparseGrid2D::new(width, height)
}

/// `SparseGrid2D::get_objects`: a copy of the read buffer's bag on `c`, if any.
#[verifier::external_body]
pub(crate) fn sparse_get_objects(g: &SparseGrid2D<Patch>, c: Cell) -> (r: Option<Vec<Patch>>)
    ensures
        match r {
            Some(v) => sparse_buffers(*g).0.dom().contains(c) && v@ == sparse_buffers(*g).0[c],
            None => !sparse_buffers(*g).0.dom().contains(c),
        },
{
    g.get_objects(&Int2D { x: c.0, y: c.1 })
}

/// `SparseGrid2D::iter_objects_unbuffered`, collecting what it visits: every
/// placement of the write buffer, in the order of the underlying hash map.
#[verifier::external_body]
pub(crate) fn sparse_written_entries(g: &SparseGrid2D<Patch>) -> (es: Vec<(Cell, Patch)>)
    ensures
        lists_entries(sparse_buffers(*g).1, es@),
{
    let out = RefCell::new(Vec::new());
    g.iter_objects_unbuffered(|loc, value| out.borrow_mut().push(((loc.x, loc.y), *value)));
    out.into_inner()
}

/// `SparseGrid2D::iter_objects`, collecting what it visits: every placement
/// of the read buffer, in the order of the underlying hash map.
#[verifier::external_body]
pub(crate) fn sparse_read_entries(g: &SparseGrid2D<Patch>) -> (es: Vec<(Cell, Patch)>)
    ensures
        lists_entries(sparse_buffers(*g).0, es@),
{
    let out = RefCell::new(Vec::new());
    g.iter_objects(|loc, value| out.borrow_mut().push(((loc.x, loc.y), *value)));
    out.into_inner()
}

/// `SparseGrid2D::set_object_location`: `p` joins the write buffer's bag on `c`.
#[verifier::external_body]
pub(crate) fn sparse_set(g: &mut SparseGrid2D<Patch>, p: Patch, c: Cell)
    ensures
        sparse_buffers(*final(g)).0 == sparse_buffers(*old(g)).0,
        sparse_buffers(*final(g)).1 == placed(sparse_buffers(*old(g)).1, p, c),
        sparse_bounds(*final(g)) == sparse_bounds(*old(g)),
{
    g.set_object_location(p, &Int2D { x: c.0, y: c.1 })
}

/// `SparseGrid2D::remove_object_location`: every agent equal to `p` (same id)
/// leaves the write buffer's bag on `c`.
#[verifier::external_body]
pub(crate) fn sparse_remove(g: &mut SparseGrid2D<Patch>, p: Patch, c: Cell)
    ensures
        sparse_buffers(*final(g)).0 == sparse_buffers(*old(g)).0,
        sparse_buffers(*final(g)).1 == displaced(sparse_buffers(*old(g)).1, p, c),
        sparse_bounds(*final(g)) == sparse_bounds(*old(g)),
{
    g.remove_object_location(p, &Int2D { x: c.0, y: c.1 })
}

/// `Field::lazy_update` of a sparse grid: the write buffer becomes the read
/// buffer and a fresh write buffer starts empty.
#[verifier::external_body]
pub(crate) fn sparse_lazy_update(g: &mut SparseGrid2D<Patch>)
    ensures
        sparse_buffers(*final(g)).0 == sparse_buffers(*old(g)).1,
        sparse_buffers(*final(g)).1 =~= Map::empty(),
        sparse_bounds(*final(g)) == sparse_bounds(*old(g)),
{
    g.lazy_update()
}

/// `SparseGrid2D::get_random_empty_bag`: draws cells until one has no bag in
/// the read buffer, so it returns only when such a cell exists. Which of the
/// empty cells comes back rests on the thread's random generator.
#[verifier::external_body]
pub(crate) fn sparse_random_empty_bag(g: &SparseGrid2D<Patch>) -> (r: Option<Cell>)
    requires
        sparse_bounds(*g).0 > 0,
        sparse_bounds(*g).1 > 0,
        exists|c: Cell| in_bounds(c, sparse_bounds(*g)) && !sparse_buffers(*g).0.dom().contains(c),
    ensures
        r is Some,
        in_bounds(r->0, sparse_bounds(*g)),
        !sparse_buffers(*g).0.dom().contains(r->0),
{
    g.get_random_empty_bag().map(|loc| (loc.x, loc.y))
}

} // verus!
