use std::collections::HashSet;
use wasm_rust_dla::colorized_point::AgentState;
use wasm_rust_dla::colorized_point::Color;
use wasm_rust_dla::colorized_point::ColorizedPoint;
use wasm_rust_dla::colorized_point::StickyNeighbor;
use wasm_rust_dla::field_position::FieldState;
use wasm_rust_dla::build_field_from_js_state;
use wasm_rust_dla::DLAField;

/// Coordinates on a grid, from a fixed sequence.
fn coordinates(count: usize, width: usize, height: usize, seed: u64) -> Vec<(usize, usize)> {
    let mut state = seed;
    let mut draws = Vec::new();
    for _ in 0..count {
        state = state.wrapping_mul(6364136223846793005).wrapping_add(1442695040888963407);
        let x = ((state >> 33) as usize) % width;
        state = state.wrapping_mul(6364136223846793005).wrapping_add(1442695040888963407);
        let y = ((state >> 33) as usize) % height;
        draws.push((x, y));
    }
    draws
}

fn free_agent(x: usize, y: usize) -> ColorizedPoint {
    ColorizedPoint::new(x, y, Color::new(10, 20, 30, 40), None)
}

#[test]
#[allow(non_snake_case)]
fn get_ndx_shouldReturnTheCorrectIndex() {
    let ndx = DLAField::get_ndx(4, 4, 600);
    let ndx2 = DLAField::get_ndx(251, 89, 600);
    assert_eq!(ndx, 2404);
    assert_eq!(ndx2, 150689);
}

#[test]
fn get_ndx_of_the_origin_is_zero() {
    assert_eq!(DLAField::get_ndx(0, 0, 600), 0);
    assert_eq!(DLAField::get_ndx(0, 7, 10), 7);
    assert_eq!(DLAField::get_ndx(7, 0, 10), 70);
}

#[test]
#[allow(non_snake_case)]
fn new_shouldReturnANewFiled() {
    assert!(DLAField::can_address(600, 600));
    let draws = coordinates(80000, 600, 600, 1);
    let field = DLAField::new("canvas".to_string(), 60000, 600, 600, &draws).unwrap();
    assert_eq!(field.get_num_agents(), 60000);
    assert_eq!(field.get_width(), 600);
    assert_eq!(field.get_height(), 600);
    let mut seen = HashSet::new();
    for ndx in 0..field.get_num_agents() {
        let agent = field.get_agent_at(ndx);
        assert!(agent.get_x() < 600 && agent.get_y() < 600);
        assert_eq!(agent.get_agent_state(), AgentState::FREE);
        assert_eq!(agent.get_sticky_neighbor(), None);
        assert_eq!(agent.get_color(), Color::new(255, 0, 0, 100));
        assert!(seen.insert((agent.get_x(), agent.get_y())));
    }
    assert_eq!(field.getOccpupiedCount(), 60000);
    assert_eq!(field.getStuckCount(), 0);
}

#[test]
fn new_places_agents_in_the_order_of_the_draws() {
    let draws = vec![(1, 1), (0, 2), (1, 1), (2, 0), (2, 2)];
    let field = DLAField::new("c".to_string(), 3, 3, 3, &draws).unwrap();
    assert_eq!(field.get_num_agents(), 3);
    let seed = Color::new(255, 0, 0, 100);
    assert_eq!(field.get_agent_at(0), ColorizedPoint::new(1, 1, seed, None));
    assert_eq!(field.get_agent_at(1), ColorizedPoint::new(0, 2, seed, None));
    assert_eq!(field.get_agent_at(2), ColorizedPoint::new(2, 0, seed, None));
    assert_eq!(field.get_agent_at_coordinate(2, 2), None);
    assert_eq!(field.get_agent_at_coordinate(0, 2), Some(field.get_agent_at(1)));
}

#[test]
fn new_fails_when_the_draws_run_out() {
    // two different coordinates only
    let draws = vec![(1, 1), (0, 2), (1, 1), (0, 2)];
    assert_eq!(DLAField::new("c".to_string(), 3, 3, 3, &draws), None);
    assert!(DLAField::new("c".to_string(), 2, 3, 3, &draws).is_some());
    assert_eq!(DLAField::new("c".to_string(), 1, 3, 3, &Vec::new()), None);
}

#[test]
fn new_with_no_agents_needs_no_draws() {
    let field = DLAField::new("c".to_string(), 0, 4, 4, &Vec::new()).unwrap();
    assert_eq!(field.get_num_agents(), 0);
    assert_eq!(field.getOccpupiedCount(), 0);
    assert_eq!(field.get_position_hash().len(), 16);
}

#[test]
fn new_comes_out_the_same_with_more_draws() {
    let draws = vec![(1, 1), (0, 2), (2, 0)];
    let longer = vec![(1, 1), (0, 2), (2, 0), (2, 2), (0, 0)];
    let one = DLAField::new("c".to_string(), 3, 3, 3, &draws).unwrap();
    let two = DLAField::new("c".to_string(), 3, 3, 3, &longer).unwrap();
    assert_eq!(one, two);
}

#[test]
fn can_address_square_and_thin_grids_only() {
    assert!(DLAField::can_address(600, 600));
    assert!(DLAField::can_address(10, 10));
    assert!(DLAField::can_address(1, 5));
    assert!(DLAField::can_address(0, 7));
    assert!(DLAField::can_address(5, 0));
    assert!(DLAField::can_address(0, 0));
    assert!(!DLAField::can_address(3, 2));
    assert!(!DLAField::can_address(2, 3));
    assert!(!DLAField::can_address(5, 1));
    assert!(!DLAField::can_address(usize::MAX, usize::MAX));
}

#[test]
fn empty_position_hash_has_a_cell_for_each_coordinate() {
    let grid = DLAField::generateEmptyPositionHash(4, 4);
    assert_eq!(grid.len(), 16);
    for cell in grid.iter() {
        assert_eq!(cell.state, FieldState::EMPTY);
        assert_eq!(cell.agent, None);
    }
    assert_eq!(DLAField::generateEmptyPositionHash(0, 9).len(), 0);
}

#[test]
fn position_is_occupied_where_an_agent_sits() {
    let field = build_field_from_js_state(
        "c".to_string(),
        3,
        3,
        vec![free_agent(1, 2), free_agent(0, 0)],
    )
    .unwrap();
    let grid = field.get_position_hash();
    assert!(DLAField::isPositionOccupied(grid, 1, 2, 3));
    assert!(DLAField::isPositionOccupied(grid, 0, 0, 3));
    assert!(!DLAField::isPositionOccupied(grid, 2, 1, 3));
    assert!(!field.isEmpty(1, 2));
    assert!(field.isEmpty(2, 1));
    assert!(field.isEmpty(2, 2));
}

#[test]
fn build_field_keeps_the_agents_it_is_given() {
    let agents = vec![free_agent(1, 2), free_agent(0, 0), free_agent(2, 1)];
    let field = build_field_from_js_state("c".to_string(), 3, 3, agents.clone()).unwrap();
    assert_eq!(field.get_num_agents(), 3);
    for (ndx, agent) in agents.iter().enumerate() {
        assert_eq!(field.get_agent_at(ndx), *agent);
        assert_eq!(field.get_agent_at_coordinate(agent.get_x(), agent.get_y()), Some(*agent));
        let cell = field.get_position_hash()[DLAField::get_ndx(agent.get_x(), agent.get_y(), 3)];
        assert_eq!(cell.state, FieldState::OCCUPIED);
        assert_eq!(cell.agent, Some(*agent));
    }
    assert_eq!(field.getOccpupiedCount(), 3);
    assert_eq!(field.getStuckCount(), 0);
}

#[test]
fn build_field_turns_down_two_agents_on_one_coordinate() {
    let agents = vec![free_agent(1, 2), free_agent(0, 0), free_agent(1, 2)];
    assert_eq!(build_field_from_js_state("c".to_string(), 3, 3, agents), None);
}

#[test]
fn build_field_turns_down_an_agent_off_the_grid() {
    assert_eq!(build_field_from_js_state("c".to_string(), 3, 3, vec![free_agent(3, 0)]), None);
    assert_eq!(build_field_from_js_state("c".to_string(), 3, 3, vec![free_agent(0, 3)]), None);
}

#[test]
fn build_field_turns_down_a_frozen_agent() {
    let mut agent = free_agent(1, 1);
    agent.state = AgentState::STUCK;
    assert_eq!(build_field_from_js_state("c".to_string(), 3, 3, vec![agent]), None);
}

#[test]
fn build_field_turns_down_a_free_agent_with_a_neighbor() {
    let agent =
        ColorizedPoint::new(1, 1, Color::new(0, 0, 0, 0), Some(StickyNeighbor::new(1, 2)));
    assert_eq!(build_field_from_js_state("c".to_string(), 3, 3, vec![agent]), None);
}

#[test]
fn build_field_takes_an_empty_list() {
    let field = build_field_from_js_state("c".to_string(), 3, 3, Vec::new()).unwrap();
    assert_eq!(field.get_num_agents(), 0);
    assert_eq!(field.get_position_hash().len(), 9);
}

#[test]
fn grid_matches_the_agent_table() {
    let draws = coordinates(400, 12, 12, 7);
    let field = DLAField::new("c".to_string(), 40, 12, 12, &draws).unwrap();
    let mut sitting = HashSet::new();
    for ndx in 0..field.get_num_agents() {
        let agent = field.get_agent_at(ndx);
        assert!(sitting.insert((agent.get_x(), agent.get_y())));
    }
    let grid = field.get_position_hash();
    for x in 0..12 {
        for y in 0..12 {
            let cell = grid[DLAField::get_ndx(x, y, 12)];
            assert_eq!(cell.state != FieldState::EMPTY, sitting.contains(&(x, y)));
            assert_eq!(cell.agent, field.get_agent_at_coordinate(x, y));
            assert_eq!(field.isEmpty(x as u32, y as u32), !sitting.contains(&(x, y)));
        }
    }
    assert_eq!(field.getOccpupiedCount(), 40);
}
