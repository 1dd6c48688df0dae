use rogue_core::field::{Field, FieldCell};
use rogue_core::pos::Pos;

#[test]
fn new_field_is_all_empty() {
    let f = Field::new(4, 3);
    assert_eq!(f.width(), 4);
    assert_eq!(f.height(), 3);
    for y in 0..3 {
        for x in 0..4 {
            assert!(!f.is_wall(x, y));
        }
    }
}

#[test]
fn out_of_bounds_is_wall() {
    let f = Field::new(4, 3);
    assert!(f.is_wall(-1, 0));
    assert!(f.is_wall(0, -1));
    assert!(f.is_wall(4, 0));
    assert!(f.is_wall(0, 3));
    assert!(f.is_wall(1000, 1000));
}

#[test]
fn set_cell_changes_only_that_cell() {
    let mut f = Field::new(3, 3);
    f.set_cell(1, 1, FieldCell::Wall);
    assert!(f.is_wall(1, 1));
    for y in 0..3 {
        for x in 0..3 {
            if !(x == 1 && y == 1) {
                assert!(!f.is_wall(x, y));
            }
        }
    }
}

#[test]
fn neighbour_wall_count_includes_centre_and_borders() {
    let mut f = Field::new(3, 3);
    // the centre of a 3x3 field touches no off-field cell
    assert_eq!(f.count_neighbour_walls(1, 1), 0);
    f.set_cell(0, 0, FieldCell::Wall);
    f.set_cell(1, 1, FieldCell::Wall);
    assert_eq!(f.count_neighbour_walls(1, 1), 2);
}

#[test]
fn smooth_applies_majority_rule_to_interior() {
    // 5x5, all empty; pack five walls into the block around (2,2)
    let mut f = Field::new(5, 5);
    f.set_cell(1, 1, FieldCell::Wall);
    f.set_cell(2, 1, FieldCell::Wall);
    f.set_cell(3, 1, FieldCell::Wall);
    f.set_cell(1, 2, FieldCell::Wall);
    f.set_cell(2, 2, FieldCell::Wall);
    f.smooth();
    // (2,2) had 5 walls in its 3x3 block: stays a wall
    assert!(f.is_wall(2, 2));
    // (2,3) had 2 walls in its block: becomes empty
    assert!(!f.is_wall(2, 3));
    // (1,1) had 4 walls in its block (three neighbours plus itself): empty
    assert!(!f.is_wall(1, 1));
}

#[test]
fn smooth_keeps_the_edge_ring() {
    let mut f = Field::new(4, 4);
    f.set_cell(0, 0, FieldCell::Wall);
    f.set_cell(3, 2, FieldCell::Wall);
    f.smooth();
    assert!(f.is_wall(0, 0));
    assert!(f.is_wall(3, 2));
}

#[test]
fn fill_rand_at_certainty_is_deterministic() {
    let mut f = Field::new(6, 4);
    f.fill_rand(0);
    for y in 0..4 {
        for x in 0..6 {
            assert!(f.is_wall(x, y));
        }
    }
    f.fill_rand(1000);
    for y in 0..4 {
        for x in 0..6 {
            assert!(!f.is_wall(x, y));
        }
    }
}

#[test]
fn cave_has_walled_border() {
    let f = Field::cave(30, 20, 600, 1);
    for x in 0..30 {
        assert!(f.is_wall(x, 0));
        assert!(f.is_wall(x, 19));
    }
    for y in 0..20 {
        assert!(f.is_wall(0, y));
        assert!(f.is_wall(29, y));
    }
}

#[test]
fn empty_cells_lists_exactly_the_empty_cells_in_order() {
    let mut f = Field::new(3, 2);
    f.set_cell(1, 0, FieldCell::Wall);
    f.set_cell(0, 1, FieldCell::Wall);
    let cells = f.empty_cells();
    assert_eq!(
        cells,
        vec![
            Pos { x: 0, y: 0 },
            Pos { x: 2, y: 0 },
            Pos { x: 1, y: 1 },
            Pos { x: 2, y: 1 },
        ]
    );
}
