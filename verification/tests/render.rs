use wasm_rust_dla::build_field_from_js_state;
use wasm_rust_dla::colorized_point::Color;
use wasm_rust_dla::colorized_point::ColorizedPoint;
use wasm_rust_dla::render::DLAFieldRenders;
use wasm_rust_dla::DLAField;

fn free_agent(x: usize, y: usize) -> ColorizedPoint {
    ColorizedPoint::new(x, y, Color::new(10, 20, 30, 40), None)
}

fn field_of(width: usize, height: usize, at: &[(usize, usize)]) -> DLAField {
    let agents = at.iter().map(|c| free_agent(c.0, c.1)).collect();
    build_field_from_js_state("c".to_string(), width, height, agents).unwrap()
}

#[test]
fn marks_are_the_coordinates_of_the_agents() {
    let field = field_of(3, 3, &[(1, 2), (0, 0), (2, 1)]);
    let marks = DLAFieldRenders::marks(field.get_position_hash(), 3, 3);
    assert_eq!(marks, vec![(0, 0), (1, 2), (2, 1)]);
}

#[test]
fn marks_show_frozen_agents_too() {
    let mut field = field_of(3, 3, &[(1, 2), (1, 1)]);
    assert_eq!(field.next_state(&Vec::new()), Some(true));
    assert_eq!(field.getStuckCount(), 2);
    let marks = DLAFieldRenders::marks(field.get_position_hash(), 3, 3);
    assert_eq!(marks, vec![(1, 1), (1, 2)]);
}

#[test]
fn marks_go_by_the_size_of_the_canvas() {
    let field = field_of(3, 3, &[(1, 2), (0, 0)]);
    let marks = DLAFieldRenders::marks(field.get_position_hash(), 2, 4);
    assert_eq!(marks, vec![(0, 0), (1, 1)]);
}

#[test]
fn empty_grid_has_no_marks() {
    let field = field_of(3, 3, &[]);
    assert_eq!(DLAFieldRenders::marks(field.get_position_hash(), 3, 3), Vec::new());
    let none = field_of(0, 0, &[]);
    assert_eq!(DLAFieldRenders::marks(none.get_position_hash(), 1, 1), Vec::new());
}
