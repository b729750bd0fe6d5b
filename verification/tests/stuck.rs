use wasm_rust_dla::colorized_point::Color;
use wasm_rust_dla::colorized_point::ColorizedPoint;
use wasm_rust_dla::build_field_from_js_state;
use wasm_rust_dla::DLAField;

fn free_agent(x: usize, y: usize) -> ColorizedPoint {
    ColorizedPoint::new(x, y, Color::new(10, 20, 30, 40), None)
}

fn field_of(width: usize, height: usize, at: &[(usize, usize)]) -> DLAField {
    let agents = at.iter().map(|c| free_agent(c.0, c.1)).collect();
    build_field_from_js_state("c".to_string(), width, height, agents).unwrap()
}

#[test]
fn empty_cell_is_not_stuck() {
    let field = field_of(3, 3, &[(1, 1)]);
    assert_eq!(field.is_stuck(0, 0, false), (false, None));
    assert_eq!(field.is_stuck(0, 0, true), (false, None));
    assert_eq!(field.is_stuck(2, 2, false), (false, None));
}

#[test]
fn free_agent_on_the_last_row_is_stuck_without_a_neighbor() {
    let field = field_of(3, 3, &[(0, 2), (1, 2), (2, 2)]);
    for x in 0..3 {
        assert_eq!(field.is_stuck(x, 2, false), (true, None));
        assert_eq!(field.is_stuck(x, 2, true), (true, None));
    }
}

#[test]
fn lone_agent_above_the_last_row_is_not_stuck() {
    let field = field_of(3, 3, &[(1, 1)]);
    assert_eq!(field.is_stuck(1, 1, false), (false, None));
    assert_eq!(field.is_stuck(1, 1, true), (false, None));
}

#[test]
fn free_neighbors_above_the_last_row_do_not_hold() {
    let field = field_of(
        4,
        4,
        &[(1, 1), (0, 0), (1, 0), (2, 0), (0, 1), (2, 1), (0, 2), (1, 2), (2, 2)],
    );
    assert_eq!(field.is_stuck(1, 1, false), (false, None));
}

#[test]
fn agent_sticks_to_the_first_settled_cell_of_the_scan() {
    // columns in rising order, rows in rising order within a column
    let field = field_of(3, 3, &[(1, 1), (2, 2), (1, 2)]);
    assert_eq!(field.is_stuck(1, 1, false), (true, Some((1, 2))));
    let field = field_of(3, 3, &[(1, 1), (2, 2), (0, 2)]);
    assert_eq!(field.is_stuck(1, 1, false), (true, Some((0, 2))));
    let field = field_of(3, 3, &[(1, 1), (2, 2)]);
    assert_eq!(field.is_stuck(1, 1, false), (true, Some((2, 2))));
}

#[test]
fn one_level_of_the_check_does_not_look_at_neighbors() {
    let field = field_of(3, 3, &[(1, 1), (1, 2)]);
    assert_eq!(field.is_stuck(1, 1, false), (true, Some((1, 2))));
    assert_eq!(field.is_stuck(1, 1, true), (false, None));
}

#[test]
fn scan_at_the_left_and_top_edge_starts_at_the_cell() {
    let field = field_of(3, 3, &[(0, 1), (1, 2)]);
    assert_eq!(field.is_stuck(0, 1, false), (true, Some((1, 2))));
    let field = field_of(3, 3, &[(0, 1), (0, 2), (1, 2)]);
    assert_eq!(field.is_stuck(0, 1, false), (true, Some((0, 2))));
    let field = field_of(2, 2, &[(0, 0), (1, 1)]);
    assert_eq!(field.is_stuck(0, 0, false), (true, Some((1, 1))));
    let field = field_of(2, 2, &[(1, 0), (0, 1)]);
    assert_eq!(field.is_stuck(1, 0, false), (true, Some((0, 1))));
}

#[test]
fn scan_stops_at_the_right_edge() {
    let field = field_of(3, 3, &[(2, 1), (1, 2)]);
    assert_eq!(field.is_stuck(2, 1, false), (true, Some((1, 2))));
    let field = field_of(3, 3, &[(2, 1), (0, 2)]);
    assert_eq!(field.is_stuck(2, 1, false), (false, None));
}

#[test]
fn frozen_agent_answers_with_its_neighbor() {
    let mut field = field_of(3, 3, &[(1, 1), (1, 2)]);
    assert_eq!(field.next_state(&Vec::new()), Some(true));
    assert_eq!(field.is_stuck(1, 2, false), (true, None));
    assert_eq!(field.is_stuck(1, 1, false), (true, Some((1, 2))));
    assert_eq!(field.is_stuck(1, 1, true), (true, Some((1, 2))));
}

#[test]
fn single_cell_field_freezes_its_agent() {
    let mut field = field_of(1, 1, &[(0, 0)]);
    assert_eq!(field.is_stuck(0, 0, false), (true, None));
    assert_eq!(field.next_state(&Vec::new()), Some(true));
    assert_eq!(field.getStuckCount(), 1);
    assert_eq!(field.next_state(&Vec::new()), Some(false));
}
