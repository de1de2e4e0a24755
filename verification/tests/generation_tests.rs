use grid_world::cell_type::CellType;
use grid_world::placement::PlacementError;
use grid_world::position::Position;
use grid_world::rng::RandomSource;
use grid_world::world::World;

fn tag_at(w: &World, x: usize, y: usize) -> CellType {
    w.get(Position::new(x, y)).expect("in range").cell_type
}

#[test]
fn scripted_source_replays_its_values() {
    let mut rng = RandomSource::scripted(vec![5, 7]);
    assert_eq!(rng.next_below(3), 2);
    assert_eq!(rng.next_below(3), 1);
    assert_eq!(rng.next_below(3), 0);
    assert_eq!(rng.next_below(10), 0);
}

#[test]
fn seeded_sources_with_equal_seeds_draw_alike() {
    let mut a = RandomSource::from_seed(1234);
    let mut b = RandomSource::from_seed(1234);
    for _ in 0..32 {
        assert_eq!(a.next_below(17), b.next_below(17));
    }
}

#[test]
fn seeded_draws_stay_below_the_bound() {
    let mut rng = RandomSource::from_entropy();
    for n in 1..40 {
        assert!(rng.next_below(n) < n);
    }
}

#[test]
fn trees_fill_an_empty_grid_completely() {
    let mut w = World::new(3);
    w.spawn_trees();
    for y in 0..3 {
        for x in 0..3 {
            assert_eq!(tag_at(&w, x, y), CellType::Tree);
        }
    }
}

#[test]
fn a_center_base_keeps_the_whole_small_grid_treeless() {
    let mut w = World::new(3);
    w.set_cell_type(Position::new(1, 1), CellType::Base);
    w.spawn_trees();
    for y in 0..3 {
        for x in 0..3 {
            if x == 1 && y == 1 {
                assert_eq!(tag_at(&w, x, y), CellType::Base);
            } else {
                assert_eq!(tag_at(&w, x, y), CellType::Empty);
            }
        }
    }
}

#[test]
fn trees_keep_their_distance_from_a_base() {
    let mut w = World::new(5);
    w.set_cell_type(Position::new(2, 2), CellType::Base);
    w.spawn_trees();
    for y in 0..5usize {
        for x in 0..5usize {
            let expected = if x.abs_diff(2) <= 1 && y.abs_diff(2) <= 1 {
                if x == 2 && y == 2 {
                    CellType::Base
                } else {
                    CellType::Empty
                }
            } else {
                CellType::Tree
            };
            assert_eq!(tag_at(&w, x, y), expected);
        }
    }
}

#[test]
fn scripted_workers_take_the_first_two_neighbors() {
    let mut w = World::new(5);
    w.set_cell_type(Position::new(2, 2), CellType::Base);
    let mut rng = RandomSource::scripted(vec![0, 0]);
    w.spawn_workers(&mut rng);
    assert_eq!(tag_at(&w, 1, 1), CellType::Worker);
    assert_eq!(tag_at(&w, 2, 1), CellType::Worker);
    assert_eq!(tag_at(&w, 2, 2), CellType::Base);
    let workers = w.get_cells_of_type(CellType::Worker);
    assert_eq!(workers.len(), 2);
}

#[test]
fn workers_overwrite_a_tree() {
    let mut w = World::new(3);
    w.set_cell_type(Position::new(1, 1), CellType::Base);
    w.set_cell_type(Position::new(0, 0), CellType::Tree);
    let mut rng = RandomSource::scripted(vec![0]);
    w.spawn_workers(&mut rng);
    assert_eq!(tag_at(&w, 0, 0), CellType::Worker);
}

#[test]
fn a_base_without_neighbors_gets_no_workers() {
    let mut w = World::new(1);
    w.set_cell_type(Position::new(0, 0), CellType::Base);
    let mut rng = RandomSource::scripted(vec![0, 0]);
    w.spawn_workers(&mut rng);
    let workers = w.get_cells_of_type(CellType::Worker);
    assert_eq!(workers.len(), 0);
    assert_eq!(tag_at(&w, 0, 0), CellType::Base);
}

#[test]
fn spawned_bases_are_counted_and_mutually_apart() {
    let mut w = World::new(8);
    let mut rng = RandomSource::from_seed(99);
    w.spawn_bases(3, &mut rng).expect("capacity suffices");
    let bases = w.get_cells_of_type(CellType::Base);
    assert_eq!(bases.len(), 3);
    for a in bases.iter() {
        for b in bases.iter() {
            if a.position != b.position {
                let dx = a.position.x.abs_diff(b.position.x);
                let dy = a.position.y.abs_diff(b.position.y);
                assert!(dx.max(dy) >= 2);
            }
        }
    }
}

#[test]
fn too_many_bases_report_capacity_exhaustion() {
    let mut w = World::new(1);
    let mut rng = RandomSource::from_seed(5);
    assert_eq!(w.spawn_bases(1, &mut rng), Ok(()));
    assert_eq!(
        w.spawn_bases(1, &mut rng),
        Err(PlacementError::CapacityExhausted)
    );
}

#[test]
fn an_empty_sized_grid_takes_no_base() {
    let mut w = World::new(0);
    let mut rng = RandomSource::from_seed(5);
    assert_eq!(w.spawn_bases(0, &mut rng), Ok(()));
    assert_eq!(
        w.spawn_bases(1, &mut rng),
        Err(PlacementError::CapacityExhausted)
    );
}

#[test]
fn initialize_reports_capacity_exhaustion() {
    let mut w = World::new(2);
    let mut rng = RandomSource::from_seed(3);
    assert_eq!(
        w.initialize(2, &mut rng),
        Err(PlacementError::CapacityExhausted)
    );
}

#[test]
fn initialize_runs_the_three_phases_in_order() {
    let mut w = World::new(8);
    let mut rng = RandomSource::from_seed(7);
    w.initialize(2, &mut rng).expect("capacity suffices");
    let bases = w.get_cells_of_type(CellType::Base);
    assert_eq!(bases.len(), 2);
    let workers = w.get_cells_of_type(CellType::Worker);
    assert!(workers.len() <= 2 * bases.len());
    for wk in workers.iter() {
        let near_base = bases.iter().any(|b| {
            b.position.x.abs_diff(wk.position.x) <= 1 && b.position.y.abs_diff(wk.position.y) <= 1
        });
        assert!(near_base);
    }
}

#[test]
fn trees_after_the_tree_phase_touch_no_base() {
    let mut w = World::new(8);
    let mut rng = RandomSource::from_seed(21);
    w.spawn_bases(2, &mut rng).expect("capacity suffices");
    w.spawn_trees();
    let trees = w.get_cells_of_type(CellType::Tree);
    assert!(!trees.is_empty());
    let tree_positions: Vec<Position> = trees.iter().map(|c| c.position).collect();
    for p in tree_positions {
        for c in w.get_adjacent_cells(p, true) {
            assert!(c.cell_type == CellType::Empty || c.cell_type == CellType::Tree);
        }
    }
}

#[test]
fn equal_seeds_generate_equal_worlds() {
    let mut w1 = World::new(10);
    let mut w2 = World::new(10);
    let mut r1 = RandomSource::from_seed(4242);
    let mut r2 = RandomSource::from_seed(4242);
    assert_eq!(w1.initialize(3, &mut r1), w2.initialize(3, &mut r2));
    assert_eq!(w1.render(), w2.render());
}

#[test]
fn initialize_with_no_bases_only_grows_trees() {
    let mut w = World::new(4);
    let mut rng = RandomSource::from_seed(1);
    w.initialize(0, &mut rng).expect("nothing to place");
    for y in 0..4 {
        for x in 0..4 {
            assert_eq!(tag_at(&w, x, y), CellType::Tree);
        }
    }
}
