use grid_world::cell::Cell;
use grid_world::cell_type::CellType;
use grid_world::drawable_component::DrawableComponent;
use grid_world::game_object::Base;
use grid_world::game_object::GameObject;
use grid_world::game_object::Tree;
use grid_world::game_object::Worker;
use grid_world::position::abs_substract_positions;
use grid_world::position::get_distance;
use grid_world::position::get_length;
use grid_world::position::Position;
use grid_world::position::PositionComponent;
use grid_world::world::World;

#[test]
fn new_grid_is_all_empty() {
    let w = World::new(4);
    for y in 0..4 {
        for x in 0..4 {
            let c = w.get(Position::new(x, y)).expect("in range");
            assert_eq!(c.cell_type, CellType::Empty);
            assert_eq!(c.position, Position::new(x, y));
        }
    }
}

#[test]
fn get_out_of_range_is_absent() {
    for size in 1..6 {
        let w = World::new(size);
        assert!(w.get(Position::new(size, 0)).is_none());
        assert!(w.get(Position::new(0, size)).is_none());
        assert!(w.get(Position::new(size, size)).is_none());
        assert!(w.get(Position::new(size + 7, 2)).is_none());
        assert!(w.get(Position::new(usize::MAX, 0)).is_none());
    }
}

#[test]
fn get_on_empty_sized_grid_is_absent() {
    let w = World::new(0);
    assert!(w.get(Position::new(0, 0)).is_none());
}

#[test]
fn set_cell_type_overwrites_unconditionally() {
    let mut w = World::new(3);
    let p = Position::new(1, 2);
    w.set_cell_type(p, CellType::Base);
    assert_eq!(w.get(p).unwrap().cell_type, CellType::Base);
    w.set_cell_type(p, CellType::Worker);
    assert_eq!(w.get(p).unwrap().cell_type, CellType::Worker);
}

#[test]
fn set_cell_type_out_of_range_is_a_no_op() {
    let mut w = World::new(2);
    w.set_cell_type(Position::new(2, 0), CellType::Tree);
    w.set_cell_type(Position::new(0, 5), CellType::Tree);
    for y in 0..2 {
        for x in 0..2 {
            assert_eq!(w.get(Position::new(x, y)).unwrap().cell_type, CellType::Empty);
        }
    }
}

#[test]
fn get_mut_edits_one_cell_in_place() {
    let mut w = World::new(3);
    if let Some(c) = w.get_mut(Position::new(2, 1)) {
        c.cell_type = CellType::Tree;
    } else {
        panic!("in range");
    }
    assert_eq!(w.get(Position::new(2, 1)).unwrap().cell_type, CellType::Tree);
    assert_eq!(w.get(Position::new(1, 2)).unwrap().cell_type, CellType::Empty);
    assert!(w.get_mut(Position::new(3, 0)).is_none());
}

#[test]
fn cells_of_type_come_in_row_major_order() {
    let mut w = World::new(3);
    w.set_cell_type(Position::new(2, 0), CellType::Tree);
    w.set_cell_type(Position::new(0, 1), CellType::Tree);
    w.set_cell_type(Position::new(1, 2), CellType::Tree);
    w.set_cell_type(Position::new(1, 1), CellType::Base);
    let trees = w.get_cells_of_type(CellType::Tree);
    let positions: Vec<Position> = trees.iter().map(|c| c.position).collect();
    assert_eq!(
        positions,
        vec![Position::new(2, 0), Position::new(0, 1), Position::new(1, 2)]
    );
    let bases = w.get_cells_of_type(CellType::Base);
    assert_eq!(bases.len(), 1);
    assert_eq!(bases[0].position, Position::new(1, 1));
}

#[test]
fn get_base_returns_the_single_base() {
    let mut w = World::new(4);
    w.set_cell_type(Position::new(3, 1), CellType::Base);
    let b = w.get_base();
    assert_eq!(b.position, Position::new(3, 1));
    assert_eq!(b.cell_type, CellType::Base);
}

#[test]
fn adjacent_positions_of_center_follow_the_fixed_order() {
    let w = World::new(3);
    let ns = w.get_adjacent_cells_positions(Position::new(1, 1), false);
    assert_eq!(
        ns,
        vec![
            Position::new(0, 0),
            Position::new(1, 0),
            Position::new(2, 0),
            Position::new(0, 1),
            Position::new(2, 1),
            Position::new(0, 2),
            Position::new(1, 2),
            Position::new(2, 2),
        ]
    );
}

#[test]
fn adjacent_positions_include_middle_in_the_middle() {
    let w = World::new(3);
    let ns = w.get_adjacent_cells_positions(Position::new(1, 1), true);
    assert_eq!(ns.len(), 9);
    assert_eq!(ns[4], Position::new(1, 1));
}

#[test]
fn adjacent_positions_are_clipped_at_the_corner() {
    let w = World::new(3);
    let ns = w.get_adjacent_cells_positions(Position::new(0, 0), false);
    assert_eq!(
        ns,
        vec![Position::new(1, 0), Position::new(0, 1), Position::new(1, 1)]
    );
}

#[test]
fn adjacent_cells_read_the_grid() {
    let mut w = World::new(3);
    w.set_cell_type(Position::new(1, 0), CellType::Tree);
    let cells = w.get_adjacent_cells(Position::new(0, 0), false);
    assert_eq!(cells.len(), 3);
    assert_eq!(cells[0].position, Position::new(1, 0));
    assert_eq!(cells[0].cell_type, CellType::Tree);
    assert_eq!(cells[1].cell_type, CellType::Empty);
}

#[test]
fn render_empty_two_by_two() {
    let w = World::new(2);
    assert_eq!(w.render(), "| | |\n| | |\n");
}

#[test]
fn render_shows_every_occupant() {
    let mut w = World::new(3);
    w.set_cell_type(Position::new(1, 0), CellType::Base);
    w.set_cell_type(Position::new(0, 1), CellType::Tree);
    w.set_cell_type(Position::new(2, 2), CellType::Worker);
    assert_eq!(w.render(), "| |B| |\n|T| | |\n| | |W|\n");
}

#[test]
fn render_of_empty_sized_grid_is_empty() {
    let w = World::new(0);
    assert_eq!(w.render(), "");
}

#[test]
fn cell_type_characters() {
    assert_eq!(CellType::Empty.to_char(), ' ');
    assert_eq!(CellType::Base.to_char(), 'B');
    assert_eq!(CellType::Tree.to_char(), 'T');
    assert_eq!(CellType::Worker.to_char(), 'W');
}

#[test]
fn position_length_is_the_rounded_euclidean_norm() {
    assert_eq!(get_length(Position::new(0, 0)), 0);
    assert_eq!(get_length(Position::new(3, 4)), 5);
    assert_eq!(get_length(Position::new(1, 1)), 1);
    assert_eq!(get_length(Position::new(2, 0)), 2);
    assert_eq!(get_length(Position::new(5, 5)), 7);
}

#[test]
fn position_differences_are_absolute() {
    let d = abs_substract_positions(Position::new(2, 7), Position::new(5, 3));
    assert_eq!(d, Position::new(3, 4));
    let d2 = abs_substract_positions(Position::new(5, 3), Position::new(2, 7));
    assert_eq!(d2, Position::new(3, 4));
}

#[test]
fn distance_between_positions() {
    assert_eq!(get_distance(Position::new(2, 7), Position::new(5, 3)), 5);
    assert_eq!(get_distance(Position::new(1, 1), Position::new(1, 1)), 0);
    assert_eq!(get_distance(Position::new(0, 0), Position::new(1, 0)), 1);
}

#[test]
fn value_type_constructors() {
    let p = Position::new(4, 9);
    assert_eq!(p.x, 4);
    assert_eq!(p.y, 9);
    let pc = PositionComponent::new(p);
    assert_eq!(pc.position, p);
    let dc = DrawableComponent::new('T');
    assert_eq!(dc.symbol, 'T');
    let c = Cell::new(p, CellType::Tree);
    assert_eq!(c.position, p);
    assert_eq!(c.cell_type, CellType::Tree);
}

#[test]
fn game_objects_report_their_kind() {
    let p = Position::new(1, 2);
    let b = Base::new(p);
    assert_eq!(b.get_position(), p);
    assert_eq!(b.get_char_representation(), 'B');
    assert!(b.is_base());
    assert!(!b.is_tree());
    let t = Tree::new(p);
    assert_eq!(t.get_char_representation(), 'T');
    assert!(t.is_tree());
    assert!(!t.is_base());
    let wk = Worker::new(p);
    assert_eq!(wk.get_char_representation(), 'W');
    assert!(!wk.is_base());
    assert!(!wk.is_tree());
    let c = Cell::new(p, CellType::Base);
    assert_eq!(c.get_char_representation(), 'B');
    assert!(c.is_base());
}
