use agent_models::schelling::patch::{Group, Patch};
use agent_models::schelling::updater::{updater_can_settle, Updater};
use agent_models::schelling::world::{last_entry_with_id, World};
use krabmaga::engine::fields::field::Field;
use krabmaga::engine::location::Int2D;

fn patch(id: u32, group: Group) -> Patch {
    Patch { id, group, happy: false }
}

/// Puts agents into the read buffer of a fresh world.
fn world_with(dim: (i32, i32), min: u32, radius: i32, agents: &[(Patch, (i32, i32))]) -> World {
    let mut w = World::new(dim, agents.len() as u32, min, radius, 7);
    for (p, (x, y)) in agents {
        w.field.set_object_location(*p, &Int2D { x: *x, y: *y });
    }
    w.field.lazy_update();
    w
}

fn written(w: &World) -> Vec<((i32, i32), Patch)> {
    let mut out = Vec::new();
    for y in 0..w.dim.1 {
        for x in 0..w.dim.0 {
            if let Some(bag) = w.field.get_objects_unbuffered(&Int2D { x, y }) {
                for p in bag {
                    out.push(((x, y), p));
                }
            }
        }
    }
    out
}

fn read(w: &World) -> Vec<((i32, i32), Patch)> {
    let mut out = Vec::new();
    for y in 0..w.dim.1 {
        for x in 0..w.dim.0 {
            if let Some(bag) = w.field.get_objects(&Int2D { x, y }) {
                for p in bag {
                    out.push(((x, y), p));
                }
            }
        }
    }
    out
}

#[test]
fn group_labels() {
    assert_eq!(Group::One.label(), "One");
    assert_eq!(Group::Two.label(), "Two");
}

#[test]
fn patches_compare_by_id() {
    let a = Patch { id: 3, group: Group::One, happy: true };
    let b = Patch { id: 3, group: Group::Two, happy: false };
    let c = Patch { id: 4, group: Group::One, happy: true };
    assert!(a == b);
    assert!(a != c);
}

#[test]
fn patch_and_updater_text() {
    let p = Patch { id: 305, group: Group::Two, happy: true };
    assert_eq!(p.text(), "305 group Two happy true");
    let q = Patch { id: 0, group: Group::One, happy: false };
    assert_eq!(q.text(), "0 group One happy false");
    assert_eq!(Updater { id: 42 }.text(), "42");
    assert!(Updater { id: 1 } == Updater { id: 1 });
}

#[test]
fn new_world_is_empty() {
    let w = World::new((4, 3), 5, 2, 1, 11);
    assert_eq!(w.step, 0);
    assert_eq!(w.dim, (4, 3));
    assert_eq!(w.num_agents, 5);
    assert_eq!(w.free_cells().len(), 12);
    assert!(read(&w).is_empty());
    assert!(written(&w).is_empty());
}

#[test]
fn free_cells_are_listed_row_by_row() {
    let w = world_with((3, 2), 0, 1, &[(patch(0, Group::One), (1, 0)), (patch(1, Group::Two), (0, 1))]);
    assert_eq!(w.free_cells(), vec![(0, 0), (2, 0), (1, 1), (2, 1)]);
}

#[test]
fn random_empty_cell_picks_a_free_cell() {
    let mut w = world_with((2, 2), 0, 1, &[
        (patch(0, Group::One), (0, 0)),
        (patch(1, Group::One), (1, 0)),
        (patch(2, Group::One), (0, 1)),
    ]);
    for _ in 0..10 {
        assert_eq!(w.random_empty_cell(), Some((1, 1)));
    }
    let mut full = world_with((1, 1), 0, 1, &[(patch(0, Group::One), (0, 0))]);
    assert_eq!(full.random_empty_cell(), None);
}

#[test]
fn count_similar_neighbors_reads_first_agent_of_each_bag() {
    // 3x3 grid, agent of group One in the centre.
    let centre = patch(0, Group::One);
    let w = world_with((3, 3), 0, 1, &[
        (centre, (1, 1)),
        (patch(1, Group::One), (0, 0)),
        (patch(2, Group::One), (2, 2)),
        (patch(3, Group::Two), (0, 2)),
        (patch(4, Group::Two), (1, 0)),
        (patch(5, Group::One), (1, 0)), // second in its bag: not looked at
        (patch(6, Group::One), (2, 1)),
    ]);
    assert_eq!(w.count_similar_neighbors(centre, (1, 1)), 3);
    // From a corner only the cells on the grid count.
    assert_eq!(w.count_similar_neighbors(patch(9, Group::Two), (0, 0)), 1);
}

#[test]
fn count_similar_neighbors_radius_zero_and_wide() {
    let a = patch(0, Group::One);
    let w0 = world_with((3, 3), 0, 0, &[(a, (1, 1)), (patch(1, Group::One), (0, 0))]);
    assert_eq!(w0.count_similar_neighbors(a, (1, 1)), 0);
    let w2 = world_with((5, 5), 0, 2, &[
        (a, (0, 0)),
        (patch(1, Group::One), (2, 2)),
        (patch(2, Group::One), (3, 3)),
    ]);
    assert_eq!(w2.count_similar_neighbors(a, (0, 0)), 1);
}

#[test]
fn locate_by_id_finds_written_agents() {
    let mut w = World::new((3, 3), 0, 0, 1, 5);
    let p = patch(8, Group::Two);
    w.field.set_object_location(p, &Int2D { x: 2, y: 1 });
    let found = w.locate_by_id(8);
    assert!(found.is_some());
    let (q, c) = found.unwrap();
    assert_eq!(q.id, 8);
    assert_eq!(q.group, Group::Two);
    assert_eq!(c, (2, 1));
    assert!(w.locate_by_id(9).is_none());
}

#[test]
fn last_entry_with_id_takes_the_last_match() {
    let es = vec![
        ((0, 0), Patch { id: 1, group: Group::One, happy: false }),
        ((1, 0), Patch { id: 2, group: Group::One, happy: false }),
        ((2, 0), Patch { id: 1, group: Group::Two, happy: true }),
    ];
    let r = last_entry_with_id(&es, 1).unwrap();
    assert_eq!(r.1, (2, 0));
    assert_eq!(r.0.group, Group::Two);
    assert!(last_entry_with_id(&es, 3).is_none());
}

#[test]
fn random_ordered_ids_is_a_permutation() {
    let mut w = World::new((4, 4), 0, 0, 1, 3);
    for i in 0..6u32 {
        w.field.set_object_location(patch(i, Group::One), &Int2D { x: (i % 4) as i32, y: (i / 4) as i32 });
    }
    let mut ids = w.random_ordered_ids();
    ids.sort();
    assert_eq!(ids, vec![0, 1, 2, 3, 4, 5]);
}

#[test]
fn init_places_every_agent_with_its_group() {
    let mut w = World::new((5, 5), 6, 1, 1, 9);
    w.init();
    assert_eq!(w.step, 0);
    let mut ws = written(&w);
    ws.sort_by_key(|e| e.1.id);
    assert_eq!(ws.len(), 6);
    for (i, (c, p)) in ws.iter().enumerate() {
        assert_eq!(p.id, i as u32);
        assert!(!p.happy);
        assert_eq!(p.group, if i < 3 { Group::One } else { Group::Two });
        assert!(0 <= c.0 && c.0 < 5 && 0 <= c.1 && c.1 < 5);
    }
}

#[test]
fn init_on_a_full_read_buffer_places_nobody() {
    let mut w = world_with((1, 1), 0, 1, &[(patch(0, Group::One), (0, 0))]);
    w.num_agents = 3;
    w.init();
    assert!(written(&w).is_empty());
}

#[test]
fn a_content_agent_is_placed_again_marked_happy() {
    let a = patch(0, Group::One);
    let mut w = world_with((3, 1), 1, 1, &[(a, (0, 0)), (patch(1, Group::One), (1, 0))]);
    w.field.set_object_location(a, &Int2D { x: 0, y: 0 });
    w.take_turn(0);
    let bag = w.field.get_objects_unbuffered(&Int2D { x: 0, y: 0 }).unwrap();
    assert_eq!(bag.len(), 2);
    assert!(!bag[0].happy);
    assert!(bag[1].happy);
}

#[test]
fn a_discontent_agent_moves_to_a_free_cell() {
    let a = patch(0, Group::One);
    let mut w = world_with((3, 1), 1, 1, &[(a, (0, 0)), (patch(1, Group::Two), (1, 0))]);
    w.field.set_object_location(a, &Int2D { x: 0, y: 0 });
    w.take_turn(0);
    assert!(w.field.get_objects_unbuffered(&Int2D { x: 0, y: 0 }).is_none());
    let bag = w.field.get_objects_unbuffered(&Int2D { x: 2, y: 0 }).unwrap();
    assert_eq!(bag.len(), 1);
    assert_eq!(bag[0].id, 0);
    assert!(!bag[0].happy);
}

#[test]
fn a_discontent_agent_stays_when_no_cell_is_free() {
    let a = patch(0, Group::One);
    let mut w = world_with((2, 1), 1, 1, &[(a, (0, 0)), (patch(1, Group::Two), (1, 0))]);
    w.field.set_object_location(a, &Int2D { x: 0, y: 0 });
    w.take_turn(0);
    let bag = w.field.get_objects_unbuffered(&Int2D { x: 0, y: 0 }).unwrap();
    assert_eq!(bag.len(), 2);
    assert!(!bag[1].happy);
}

#[test]
fn take_turn_of_an_absent_id_changes_nothing() {
    let mut w = world_with((2, 1), 1, 1, &[(patch(0, Group::One), (0, 0))]);
    w.take_turn(5);
    assert!(written(&w).is_empty());
}

#[test]
fn update_keeps_every_agent_and_swaps_buffers() {
    let mut w = World::new((6, 6), 10, 2, 1, 21);
    assert!(w.neighbourhood_fits());
    w.init();
    w.update(0);
    assert_eq!(w.step, 1);
    assert!(written(&w).is_empty());
    let mut ids: Vec<u32> = read(&w).iter().map(|e| e.1.id).collect();
    ids.sort();
    ids.dedup();
    assert_eq!(ids, (0..10).collect::<Vec<u32>>());
    // The write buffer was emptied, so the next update has nobody to move.
    w.update(1);
    assert_eq!(w.step, 2);
    assert!(read(&w).is_empty());
}

#[test]
fn reset_empties_the_grid() {
    let mut w = World::new((3, 3), 4, 1, 1, 2);
    w.init();
    w.update(0);
    w.reset();
    assert_eq!(w.step, 0);
    assert!(read(&w).is_empty());
    assert!(written(&w).is_empty());
}

#[test]
fn neighbourhood_fits_limits() {
    let w = World::new((10, 10), 0, 0, 32767, 0);
    assert!(w.neighbourhood_fits());
    let big = World::new((10, 10), 0, 0, 32768, 0);
    assert!(!big.neighbourhood_fits());
    let neg = World::new((10, 10), 0, 0, -4, 0);
    assert!(neg.neighbourhood_fits());
    let edge = World::new((i32::MAX, 1), 0, 0, 2, 0);
    assert!(World::new((i32::MAX, 1), 0, 0, 1, 0).neighbourhood_fits());
    assert!(!edge.neighbourhood_fits());
}

#[test]
fn updater_moves_discontent_agents_and_keeps_content_ones() {
    let a = patch(0, Group::One);
    let b = patch(1, Group::Two);
    let c = patch(2, Group::Two);
    let mut w = world_with((4, 1), 1, 1, &[(a, (0, 0)), (b, (1, 0)), (c, (2, 0))]);
    assert!(updater_can_settle(&w));
    let mut u = Updater { id: 0 };
    u.step(&mut w);
    let ws = written(&w);
    assert_eq!(ws.len(), 3);
    for (cell, p) in ws {
        match p.id {
            0 => assert_eq!(cell, (3, 0)),
            1 => assert_eq!(cell, (1, 0)),
            2 => assert_eq!(cell, (2, 0)),
            _ => panic!("unexpected agent"),
        }
    }
}

#[test]
fn updater_plan_lists_every_agent() {
    let a = patch(0, Group::One);
    let b = patch(1, Group::One);
    let w = world_with((3, 1), 1, 1, &[(a, (0, 0)), (b, (1, 0))]);
    let u = Updater { id: 0 };
    let mut plan = u.plan(&w);
    plan.sort_by_key(|e| e.0.id);
    assert_eq!(plan.len(), 2);
    assert_eq!(plan[0].1, (0, 0));
    assert_eq!(plan[1].1, (1, 0));
}

#[test]
fn updater_cannot_settle_on_a_full_grid_with_a_discontent_agent() {
    let w = world_with((2, 1), 1, 1, &[(patch(0, Group::One), (0, 0)), (patch(1, Group::Two), (1, 0))]);
    assert!(!updater_can_settle(&w));
    let ok = world_with((2, 1), 1, 1, &[(patch(0, Group::One), (0, 0)), (patch(1, Group::One), (1, 0))]);
    assert!(updater_can_settle(&ok));
}

#[test]
fn the_same_seed_places_agents_alike() {
    let mut a = World::new((8, 8), 12, 2, 1, 1234);
    let mut b = World::new((8, 8), 12, 2, 1, 1234);
    a.init();
    b.init();
    let mut wa = written(&a);
    let mut wb = written(&b);
    wa.sort_by_key(|e| e.1.id);
    wb.sort_by_key(|e| e.1.id);
    let ca: Vec<(i32, i32)> = wa.iter().map(|e| e.0).collect();
    let cb: Vec<(i32, i32)> = wb.iter().map(|e| e.0).collect();
    assert_eq!(ca, cb);
}

#[test]
fn removing_an_agent_undoes_placing_it() {
    let w = World::new((3, 3), 0, 0, 1, 0);
    let a = patch(1, Group::One);
    let b = patch(2, Group::Two);
    w.field.set_object_location(a, &Int2D { x: 1, y: 1 });
    w.field.set_object_location(b, &Int2D { x: 1, y: 1 });
    w.field.remove_object_location(b, &Int2D { x: 1, y: 1 });
    let bag = w.field.get_objects_unbuffered(&Int2D { x: 1, y: 1 }).unwrap();
    assert_eq!(bag.len(), 1);
    assert_eq!(bag[0].id, 1);
    w.field.remove_object_location(a, &Int2D { x: 1, y: 1 });
    assert!(w.field.get_objects_unbuffered(&Int2D { x: 1, y: 1 }).is_none());
}

#[test]
fn random_empty_cell_on_an_empty_grid_leaves_the_generator() {
    let mut w = World::new((0, 4), 5, 0, 1, 0);
    let before = w.rng.clone();
    assert_eq!(w.random_empty_cell(), None);
    assert!(w.rng == before);
}

#[test]
fn a_wider_radius_counts_at_least_as_many_neighbours() {
    let a = patch(0, Group::One);
    let agents = [
        (a, (2, 2)),
        (patch(1, Group::One), (1, 1)),
        (patch(2, Group::One), (4, 4)),
        (patch(3, Group::Two), (0, 2)),
        (patch(4, Group::One), (0, 0)),
    ];
    let counts: Vec<u32> = (0..4)
        .map(|r| world_with((5, 5), 0, r, &agents).count_similar_neighbors(a, (2, 2)))
        .collect();
    assert_eq!(counts, vec![0, 1, 3, 3]);
}
