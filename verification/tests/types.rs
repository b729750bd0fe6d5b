use wasm_rust_dla::colorized_point::AgentState;
use wasm_rust_dla::colorized_point::Color;
use wasm_rust_dla::colorized_point::ColorizedPoint;
use wasm_rust_dla::colorized_point::StickyNeighbor;
use wasm_rust_dla::field_position::FieldPosition;
use wasm_rust_dla::field_position::FieldState;

#[test]
fn sticky_neighbor_keeps_its_coordinate() {
    let neighbor = StickyNeighbor::new(3, 7);
    assert_eq!(neighbor.x, 3);
    assert_eq!(neighbor.y, 7);
    assert_eq!(neighbor, StickyNeighbor { x: 3, y: 7 });
}

#[test]
fn color_keeps_its_channels() {
    let color = Color::new(1, 2, 3, 4);
    assert_eq!(color.get_r(), 1);
    assert_eq!(color.get_g(), 2);
    assert_eq!(color.get_b(), 3);
    assert_eq!(color.get_a(), 4);
}

#[test]
fn new_agent_is_free() {
    let color = Color::new(255, 0, 0, 100);
    let agent = ColorizedPoint::new(4, 9, color, None);
    assert_eq!(agent.get_x(), 4);
    assert_eq!(agent.get_y(), 9);
    assert_eq!(agent.get_agent_state(), AgentState::FREE);
    assert_eq!(agent.get_sticky_neighbor(), None);
    assert_eq!(agent.get_color(), color);
}

#[test]
fn new_agent_is_free_even_with_a_neighbor() {
    let neighbor = StickyNeighbor::new(1, 2);
    let agent = ColorizedPoint::new(1, 1, Color::new(0, 0, 0, 0), Some(neighbor));
    assert_eq!(agent.get_agent_state(), AgentState::FREE);
    assert_eq!(agent.get_sticky_neighbor(), Some(neighbor));
}

#[test]
fn setters_change_one_axis_only() {
    let mut agent = ColorizedPoint::new(4, 9, Color::new(9, 8, 7, 6), None);
    agent.set_x(5);
    assert_eq!((agent.get_x(), agent.get_y()), (5, 9));
    agent.set_y(2);
    assert_eq!((agent.get_x(), agent.get_y()), (5, 2));
    assert_eq!(agent.get_color(), Color::new(9, 8, 7, 6));
    assert_eq!(agent.get_agent_state(), AgentState::FREE);
}

#[test]
fn field_position_holds_what_it_is_given() {
    let empty = FieldPosition::new(FieldState::EMPTY, None);
    assert_eq!(empty.state, FieldState::EMPTY);
    assert_eq!(empty.agent, None);
    assert_eq!(empty.color, [255, 0, 0, 25]);
    let agent = ColorizedPoint::new(0, 0, Color::new(255, 0, 0, 100), None);
    let taken = FieldPosition::new(FieldState::OCCUPIED, Some(agent));
    assert_eq!(taken.state, FieldState::OCCUPIED);
    assert_eq!(taken.agent, Some(agent));
    assert_eq!(taken.color, [255, 0, 0, 25]);
}
