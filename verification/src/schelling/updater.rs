//! An agent that, in one step, moves every discontented agent of the
//! segregation model at once.

use vstd::prelude::*;
use crate::text::{decimal, decimal_string};
use crate::schelling::neighbours::similar_count;
use crate::schelling::patch::Patch;
use crate::schelling::sparse::{
    entry_count, holds_id, in_bounds, lemma_placed_ids, lemma_placed_well_placed, placed, sparse_random_empty_bag, sparse_read_entries,
    sparse_set, Bags, Cell, lists_entries,
};
use crate::schelling::world::{free_cell, has_free_cell, World};

verus! {

/// `ups` answers `es` entry by entry: the same agent, left on its cell when
/// at least `min` of its neighbours share its group, and otherwise sent to a
/// free cell of the read buffer.
pub open spec fn planned_moves(
    read: Bags,
    dim: (i32, i32),
    radius: i32,
    min: u32,
    es: Seq<(Cell, Patch)>,
    ups: Seq<(Patch, Cell)>,
) -> bool {
    &&& ups.len() == es.len()
    &&& forall|i: int|
        0 <= i < es.len() ==> {
            &&& (#[trigger] ups[i]).0 == es[i].1
            &&& if similar_count(read, dim, es[i].1.group, es[i].0, radius as int) < min {
                free_cell(read, dim, ups[i].1)
            } else {
                ups[i].1 == es[i].0
            }
        }
}

/// The buffer after the agents of `ups` are placed in turn, each on its cell.
pub open spec fn placed_each(m: Bags, ups: Seq<(Patch, Cell)>) -> Bags
    decreases ups.len(),
{
    if ups.len() == 0 {
        m
    } else {
        placed(placed_each(m, ups.drop_last()), ups.last().0, ups.last().1)
    }
}

/// Placing a list of agents adds exactly their ids.
pub proof fn lemma_placed_each_ids(m: Bags, ups: Seq<(Patch, Cell)>, x: u32)
    ensures
        holds_id(placed_each(m, ups), x) <==> (holds_id(m, x) || exists|i: int| 0 <= i < ups.len() && (#[trigger] ups[i]).0.id == x),
    decreases ups.len(),
{
    if ups.len() > 0 {
        let pre = ups.drop_last();
        lemma_placed_each_ids(m, pre, x);
        lemma_placed_ids(placed_each(m, pre), ups.last().0, ups.last().1, x);
        if exists|i: int| 0 <= i < pre.len() && (#[trigger] pre[i]).0.id == x {
            let i = choose|i: int| 0 <= i < pre.len() && (#[trigger] pre[i]).0.id == x;
            assert(ups[i] == pre[i]);
        }
        if exists|i: int| 0 <= i < ups.len() && (#[trigger] ups[i]).0.id == x {
            let i = choose|i: int| 0 <= i < ups.len() && (#[trigger] ups[i]).0.id == x;
            if i < ups.len() - 1 {
                assert(pre[i] == ups[i]);
            }
        }
        assert(ups[ups.len() - 1] == ups.last());
    }
}

/// The agents of a listing of the buffer are the agents of the buffer.
pub proof fn lemma_listed_ids(m: Bags, es: Seq<(Cell, Patch)>, x: u32)
    requires
        lists_entries(m, es),
    ensures
        holds_id(m, x) <==> exists|i: int| 0 <= i < es.len() && (#[trigger] es[i]).1.id == x,
{
    broadcast use vstd::seq_lib::group_to_multiset_ensures;

    if holds_id(m, x) {
        let (c, k) = choose|c: Cell, k: int| m.dom().contains(c) && 0 <= k < m[c].len() && (#[trigger] m[c][k]).id == x;
        let p = m[c][k];
        assert(m[c].contains(p));
        assert(entry_count(m, (c, p)) > 0);
        assert(es.to_multiset().count((c, p)) > 0);
        assert(es.contains((c, p)));
        let i = choose|i: int| 0 <= i < es.len() && es[i] == (c, p);
        assert(es[i].1.id == x);
    }
    if exists|i: int| 0 <= i < es.len() && (#[trigger] es[i]).1.id == x {
        let i = choose|i: int| 0 <= i < es.len() && (#[trigger] es[i]).1.id == x;
        let e = es[i];
        assert(es.contains(e));
        assert(es.to_multiset().count(e) > 0);
        assert(entry_count(m, e) > 0);
        assert(m[e.0].contains(e.1));
        let k = choose|k: int| 0 <= k < m[e.0].len() && m[e.0][k] == e.1;
        assert(m.dom().contains(e.0) && (m[e.0][k]).id == x);
    }
}

/// Placing the planned moves of the read buffer into the write buffer
/// yields the agents of both.
pub proof fn lemma_planned_ids(
    write: Bags,
    read: Bags,
    dim: (i32, i32),
    radius: i32,
    min: u32,
    es: Seq<(Cell, Patch)>,
    ups: Seq<(Patch, Cell)>,
)
    requires
        lists_entries(read, es),
        planned_moves(read, dim, radius, min, es, ups),
    ensures
        forall|x: u32| holds_id(placed_each(write, ups), x) <==> (holds_id(write, x) || holds_id(read, x)),
{
    assert forall|x: u32| holds_id(placed_each(write, ups), x) <==> (holds_id(write, x) || holds_id(read, x)) by {
        lemma_placed_each_ids(write, ups, x);
        lemma_listed_ids(read, es, x);
        if exists|i: int| 0 <= i < es.len() && (#[trigger] es[i]).1.id == x {
            let i = choose|i: int| 0 <= i < es.len() && (#[trigger] es[i]).1.id == x;
            assert(ups[i].0 == es[i].1);
        }
        if exists|i: int| 0 <= i < ups.len() && (#[trigger] ups[i]).0.id == x {
            let i = choose|i: int| 0 <= i < ups.len() && (#[trigger] ups[i]).0.id == x;
            assert(ups[i].0 == es[i].1);
        }
    }
}

/// Every discontented agent of the read buffer can find a free cell: there
/// is one, or no agent is discontented.
pub open spec fn moves_can_settle(w: World) -> bool {
    has_free_cell(w.read(), w.dim) || forall|c: Cell, p: Patch|
        #[trigger] entry_count(w.read(), (c, p)) > 0 ==> similar_count(w.read(), w.dim, p.group, c, w.radius as int)
            >= w.min_to_be_happy
}

/// An agent that drives the segregation model by whole steps.
#[derive(Clone, Copy, Debug, Hash)]
pub struct Updater {
    pub id: u32,
}

impl PartialEq for Updater {
    fn eq(&self, other: &Updater) -> (r: bool) {
        self.id == other.id
    }
}

impl vstd::std_specs::cmp::PartialEqSpecImpl for Updater {
    open spec fn obeys_eq_spec() -> bool {
        true
    }

    open spec fn eq_spec(&self, other: &Updater) -> bool {
        self.id == other.id
    }
}

impl Eq for Updater {}

/// Whether every discontented agent of the read buffer can find a free
/// cell (see `moves_can_settle`), which `Updater::step` needs to return.
pub fn updater_can_settle(world: &World) -> (b: bool)
    requires
        world.wf(),
        world.agents_fit(),
    ensures
        b == moves_can_settle(*world),
{
    let free = world.free_cells();
    if free.len() > 0 {
        assert(free_cell(world.read(), world.dim, free@[0]));
        return true;
    }
    proof {
        assert forall|c: Cell| !free_cell(world.read(), world.dim, c) by {
            if free_cell(world.read(), world.dim, c) {
                assert(free@.contains(c));
            }
        }
    }
    let es = sparse_read_entries(&world.field);
    let mut i: usize = 0;
    while i < es.len()
        invariant
            world.wf(),
            world.agents_fit(),
            !has_free_cell(world.read(), world.dim),
            lists_entries(world.read(), es@),
            i <= es.len(),
            forall|j: int| 0 <= j < i ==> similar_count(world.read(), world.dim, (#[trigger] es@[j]).1.group, es@[j].0, world.radius as int) >= world.min_to_be_happy,
        decreases es.len() - i,
    {
        let (loc, value) = es[i];
        proof {
            broadcast use vstd::seq_lib::group_to_multiset_ensures;

            assert(es@[i as int] == (loc, value));
            assert(es@.contains((loc, value)));
            assert(es@.to_multiset().count((loc, value)) > 0);
        }
        assert(entry_count(world.read(), (loc, value)) > 0);
        assert(world.read().dom().contains(loc));
        let similar = world.count_similar_neighbors(value, loc);
        if similar < world.min_to_be_happy {
            return false;
        }
        i = i + 1;
    }
    proof {
        broadcast use vstd::seq_lib::group_to_multiset_ensures;

        assert forall|c: Cell, p: Patch| #[trigger] entry_count(world.read(), (c, p)) > 0 implies similar_count(
            world.read(),
            world.dim,
            p.group,
            c,
            world.radius as int,
        ) >= world.min_to_be_happy by {
            assert(es@.to_multiset().count((c, p)) > 0);
            assert(es@.contains((c, p)));
            let k = choose|k: int| 0 <= k < es@.len() && es@[k] == (c, p);
        }
    }
    true
}

impl Updater {
    /// The updater as text: its id.
    pub fn text(&self) -> (s: String)
        ensures
            s@ == decimal(self.id as nat),
    {
        decimal_string(self.id)
    }

    /// Where each agent of the read buffer goes: for every placement, in the
    /// order of the buffer's hash map, the agent and its cell when content,
    /// or a free cell drawn by the grid when not.
    pub fn plan(&self, world: &World) -> (ups: Vec<(Patch, Cell)>)
        requires
            world.wf(),
            world.agents_fit(),
            moves_can_settle(*world),
        ensures
            exists|es: Seq<(Cell, Patch)>|
                lists_entries(world.read(), es) && #[trigger] planned_moves(
                    world.read(),
                    world.dim,
                    world.radius,
                    world.min_to_be_happy,
                    es,
                    ups@,
                ),
            forall|j: int| 0 <= j < ups.len() ==> in_bounds((#[trigger] ups@[j]).1, world.dim),
    {
        broadcast use vstd::seq_lib::group_to_multiset_ensures;

        let es = sparse_read_entries(&world.field);
        let mut updates: Vec<(Patch, Cell)> = Vec::new();
        let mut i: usize = 0;
        while i < es.len()
            invariant
                world.wf(),
                world.agents_fit(),
                moves_can_settle(*world),
                lists_entries(world.read(), es@),
                i <= es.len(),
                planned_moves(world.read(), world.dim, world.radius, world.min_to_be_happy, es@.take(i as int), updates@),
                forall|j: int| 0 <= j < updates.len() ==> in_bounds((#[trigger] updates@[j]).1, world.dim),
            decreases es.len() - i,
        {
            let (loc, value) = es[i];
            proof {
                broadcast use vstd::seq_lib::group_to_multiset_ensures;

                assert(es@[i as int] == (loc, value));
                assert(es@.contains((loc, value)));
                assert(es@.to_multiset().count((loc, value)) > 0);
            }
            assert(entry_count(world.read(), (loc, value)) > 0);
            assert(world.read().dom().contains(loc));
            let similar = world.count_similar_neighbors(value, loc);
            if similar < world.min_to_be_happy {
                let rloc = match sparse_random_empty_bag(&world.field) {
                    Some(r) => r,
                    None => loc,
                };
                updates.push((value, rloc));
            } else {
                updates.push((value, loc));
            }
            assert forall|j: int| 0 <= j < i + 1 implies #[trigger] es@.take(i + 1)[j] == es@[j] by {}
            i = i + 1;
        }
        assert(es@.take(es.len() as int) =~= es@);
        updates
    }

    /// One step of the updater: `plan`, then every planned agent placed in
    /// the write buffer on its planned cell, in the planned order.
    pub fn step(&mut self, world: &mut World)
        requires
            old(world).wf(),
            old(world).agents_fit(),
            moves_can_settle(*old(world)),
        ensures
            final(world).wf(),
            final(world).step == old(world).step,
            final(world).dim == old(world).dim,
            final(world).num_agents == old(world).num_agents,
            final(world).min_to_be_happy == old(world).min_to_be_happy,
            final(world).radius == old(world).radius,
            final(world).read() == old(world).read(),
            exists|es: Seq<(Cell, Patch)>, ups: Seq<(Patch, Cell)>|
                lists_entries(old(world).read(), es) && #[trigger] planned_moves(
                    old(world).read(),
                    old(world).dim,
                    old(world).radius,
                    old(world).min_to_be_happy,
                    es,
                    ups,
                ) && final(world).written() == placed_each(old(world).written(), ups),
            forall|x: u32| holds_id(final(world).written(), x) <==> (holds_id(old(world).written(), x) || holds_id(old(world).read(), x)),
    {
        let updates = self.plan(world);
        let ghost start = world.written();
        let mut i: usize = 0;
        while i < updates.len()
            invariant
                world.wf(),
                world.step == old(world).step,
                world.dim == old(world).dim,
                world.num_agents == old(world).num_agents,
                world.min_to_be_happy == old(world).min_to_be_happy,
                world.radius == old(world).radius,
                world.read() == old(world).read(),
                start == old(world).written(),
                i <= updates.len(),
                world.written() == placed_each(start, updates@.take(i as int)),
                forall|j: int| 0 <= j < updates.len() ==> in_bounds((#[trigger] updates@[j]).1, world.dim),
            decreases updates.len() - i,
        {
            let (obj, loc) = updates[i];
            proof {
                lemma_placed_well_placed(world.written(), obj, loc, world.dim);
                assert(updates@.take(i + 1).drop_last() =~= updates@.take(i as int));
            }
            sparse_set(&mut world.field, obj, loc);
            i = i + 1;
        }
        assert(updates@.take(updates.len() as int) =~= updates@);
        proof {
            let es = choose|es: Seq<(Cell, Patch)>|
                lists_entries(old(world).read(), es) && #[trigger] planned_moves(
                    old(world).read(),
                    old(world).dim,
                    old(world).radius,
                    old(world).min_to_be_happy,
                    es,
                    updates@,
                );
            lemma_planned_ids(start, old(world).read(), old(world).dim, old(world).radius, old(world).min_to_be_happy, es, updates@);
        }
    }
}

} // verus!
