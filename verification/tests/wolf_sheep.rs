use agent_models::wolf_sheep::grass::regrow;
use agent_models::wolf_sheep::life::LifeState;
use agent_models::wolf_sheep::moves::{random_location, sheep_destination, wolf_destination, wolf_moves};
use agent_models::wolf_sheep::pasture::Pasture;
use krabmaga::engine::location::Int2D;

fn grass_written(p: &Pasture, x: i32, y: i32) -> Option<u16> {
    p.grass_field.get_value_unbuffered(&Int2D { x, y })
}

fn grass_read(p: &Pasture, x: i32, y: i32) -> Option<u16> {
    p.grass_field.get_value(&Int2D { x, y })
}

#[test]
fn regrow_counts_up_to_the_regrowth_time() {
    assert_eq!(regrow(0, 5), 1);
    assert_eq!(regrow(4, 5), 5);
    assert_eq!(regrow(5, 5), 5);
    assert_eq!(regrow(9, 5), 9);
    assert_eq!(regrow(0, 0), 0);
}

#[test]
fn life_states_compare() {
    assert!(LifeState::Alive == LifeState::Alive);
    assert!(LifeState::Alive != LifeState::Dead);
}

#[test]
fn new_pasture_has_no_grass_and_counts_ids_past_the_animals() {
    let p = Pasture::new((4, 3), (7, 2), 20);
    assert_eq!(p.next_id, 9);
    assert_eq!(p.step, 0);
    assert_eq!(p.killed_list(), Vec::<u32>::new());
    for x in 0..4 {
        for y in 0..3 {
            assert_eq!(grass_read(&p, x, y), None);
            assert_eq!(grass_written(&p, x, y), None);
        }
    }
}

#[test]
fn generate_grass_sows_every_cell_within_range() {
    let mut p = Pasture::new((5, 5), (0, 0), 4);
    assert!(p.generate_grass());
    for x in 0..5 {
        for y in 0..5 {
            let v = grass_written(&p, x, y).unwrap();
            assert!(1 <= v && v <= 4);
        }
    }
}

#[test]
fn update_swaps_then_regrows_from_step_one() {
    let mut p = Pasture::new((2, 2), (0, 0), 3);
    p.grass_field.set_value_location(1, &Int2D { x: 0, y: 0 });
    p.grass_field.set_value_location(3, &Int2D { x: 1, y: 1 });
    p.update(0);
    assert_eq!(p.step, 0);
    assert_eq!(grass_read(&p, 0, 0), Some(1));
    assert_eq!(grass_read(&p, 1, 1), Some(3));
    assert_eq!(grass_read(&p, 0, 1), None);
    assert_eq!(grass_written(&p, 0, 0), None);
    p.update(1);
    assert_eq!(p.step, 1);
    assert_eq!(grass_read(&p, 0, 0), Some(2));
    assert_eq!(grass_read(&p, 1, 1), Some(3));
    assert_eq!(grass_read(&p, 0, 1), None);
    // A value written this step regrows from the written value.
    p.grass_field.set_value_location(0, &Int2D { x: 0, y: 0 });
    p.update(2);
    assert_eq!(grass_read(&p, 0, 0), Some(1));
    assert_eq!(grass_read(&p, 1, 1), Some(3));
}

#[test]
fn graze_eats_only_fully_grown_grass() {
    let mut p = Pasture::new((3, 3), (0, 0), 2);
    p.grass_field.set_value_location(2, &Int2D { x: 1, y: 2 });
    p.grass_field.set_value_location(1, &Int2D { x: 0, y: 0 });
    p.update(0);
    assert!(p.graze((1, 2)));
    assert_eq!(grass_written(&p, 1, 2), Some(0));
    assert!(!p.graze((0, 0)));
    assert_eq!(grass_written(&p, 0, 0), None);
    assert!(!p.graze((2, 2)));
}

#[test]
fn sheep_turn_moves_nearby_and_grazes() {
    let mut p = Pasture::new((1, 1), (1, 0), 1);
    p.grass_field.set_value_location(1, &Int2D { x: 0, y: 0 });
    p.update(0);
    let mut rng = krabmaga::rand::rng();
    let (to, ate) = p.sheep_turn(&mut rng, (0, 0));
    assert_eq!(to, (0, 0));
    assert!(ate);
    assert_eq!(grass_written(&p, 0, 0), Some(0));
}

#[test]
fn take_id_hands_out_fresh_ids() {
    let mut p = Pasture::new((2, 2), (3, 4), 1);
    assert_eq!(p.take_id(), 7);
    assert_eq!(p.take_id(), 8);
    assert_eq!(p.next_id, 9);
    p.reset();
    assert_eq!(p.next_id, 7);
    assert_eq!(p.step, 0);
}

#[test]
fn hunt_kills_the_first_live_sheep_not_yet_killed() {
    let mut p = Pasture::new((2, 2), (3, 1), 1);
    let cands = vec![(1, LifeState::Dead), (2, LifeState::Alive), (3, LifeState::Alive)];
    assert_eq!(p.hunt(&cands), Some(1));
    assert_eq!(p.hunt(&cands), Some(2));
    assert_eq!(p.hunt(&cands), None);
    let mut killed = p.killed_list();
    killed.sort();
    assert_eq!(killed, vec![2, 3]);
    p.clear_killed();
    assert!(p.killed_list().is_empty());
    assert_eq!(p.hunt(&vec![]), None);
}

#[test]
fn wolf_moves_in_a_corner_and_in_the_middle() {
    assert_eq!(wolf_moves((0, 0), (5, 5)), vec![(0, 1), (1, 0), (1, 1)]);
    assert_eq!(
        wolf_moves((2, 2), (5, 5)),
        vec![(-1, -1), (-1, 0), (-1, 1), (0, -1), (0, 1), (1, -1), (1, 0), (1, 1)]
    );
    assert_eq!(wolf_moves((0, 0), (1, 1)), Vec::<(i32, i32)>::new());
    assert_eq!(wolf_moves((4, 0), (5, 1)), vec![(-1, 0)]);
}

#[test]
fn wolf_destination_is_an_open_move() {
    let mut rng = krabmaga::rand::rng();
    for _ in 0..20 {
        let (x, y) = wolf_destination(&mut rng, (0, 0), (3, 3));
        assert!((x, y) == (0, 1) || (x, y) == (1, 0) || (x, y) == (1, 1));
    }
    assert_eq!(wolf_destination(&mut rng, (4, 0), (5, 1)), (3, 0));
}

#[test]
fn sheep_destination_stays_within_one_step_and_the_grid() {
    let mut rng = krabmaga::rand::rng();
    for _ in 0..20 {
        let (x, y) = sheep_destination(&mut rng, (0, 4), (3, 5));
        assert!(0 <= x && x <= 1);
        assert!(3 <= y && y <= 4);
    }
    assert_eq!(sheep_destination(&mut rng, (0, 0), (1, 1)), (0, 0));
}

#[test]
fn random_location_lies_on_the_grid() {
    let mut rng = krabmaga::rand::rng();
    for _ in 0..20 {
        let (x, y) = random_location(&mut rng, (3, 2));
        assert!(0 <= x && x < 3 && 0 <= y && y < 2);
    }
    assert_eq!(random_location(&mut rng, (1, 1)), (0, 0));
}

#[test]
fn grass_saturates_at_the_regrowth_time() {
    let mut g: u16 = 0;
    let mut seen = Vec::new();
    for _ in 0..6 {
        g = regrow(g, 4);
        seen.push(g);
    }
    assert_eq!(seen, vec![1, 2, 3, 4, 4, 4]);
}

#[test]
fn grass_never_exceeds_the_regrowth_time_over_steps() {
    let mut p = Pasture::new((3, 3), (0, 0), 3);
    assert!(p.generate_grass());
    for step in 0..6u64 {
        p.update(step);
        for x in 0..3 {
            for y in 0..3 {
                let v = grass_read(&p, x, y).unwrap();
                assert!(v <= 3);
            }
        }
    }
    // After enough steps every cell is fully grown.
    for x in 0..3 {
        for y in 0..3 {
            assert_eq!(grass_read(&p, x, y), Some(3));
        }
    }
}

#[test]
fn newborn_ids_never_collide_with_initial_ones() {
    let mut p = Pasture::new((2, 2), (5, 3), 1);
    let mut ids = Vec::new();
    for _ in 0..4 {
        ids.push(p.take_id());
    }
    assert_eq!(ids, vec![8, 9, 10, 11]);
    assert!(ids.iter().all(|&i| i >= 8));
}

#[test]
fn generate_grass_with_no_regrowth_time_fails_on_a_short_coin() {
    let mut p = Pasture::new((3, 2), (0, 0), 0);
    let sown_all = p.generate_grass();
    if sown_all {
        for x in 0..2 {
            for y in 0..3 {
                assert_eq!(grass_written(&p, x, y), Some(0));
            }
        }
    }
    let mut empty = Pasture::new((0, 4), (0, 0), 0);
    assert!(empty.generate_grass());
}

#[test]
fn initial_ids_put_the_wolves_first() {
    let p = Pasture::new((4, 4), (3, 2), 5);
    assert_eq!(p.initial_wolf_id(0), 0);
    assert_eq!(p.initial_wolf_id(1), 1);
    assert_eq!(p.initial_sheep_id(0), 2);
    assert_eq!(p.initial_sheep_id(2), 4);
    assert_eq!(p.next_id, 5);
}
