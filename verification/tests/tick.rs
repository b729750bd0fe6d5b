use std::collections::HashSet;
use wasm_rust_dla::colorized_point::AgentState;
use wasm_rust_dla::colorized_point::Color;
use wasm_rust_dla::colorized_point::ColorizedPoint;
use wasm_rust_dla::colorized_point::StickyNeighbor;
use wasm_rust_dla::field_position::FieldState;
use wasm_rust_dla::build_field_from_js_state;
use wasm_rust_dla::DLAField;

fn free_agent(x: usize, y: usize) -> ColorizedPoint {
    ColorizedPoint::new(x, y, Color::new(10, 20, 30, 40), None)
}

fn frozen(agent: ColorizedPoint, neighbor: Option<(usize, usize)>) -> ColorizedPoint {
    let mut agent = agent;
    agent.state = AgentState::STUCK;
    agent.sticky_neighbor = neighbor.map(|c| StickyNeighbor::new(c.0, c.1));
    agent
}

fn field_of(width: usize, height: usize, at: &[(usize, usize)]) -> DLAField {
    let agents = at.iter().map(|c| free_agent(c.0, c.1)).collect();
    build_field_from_js_state("c".to_string(), width, height, agents).unwrap()
}

fn coordinates(count: usize, width: usize, height: usize, seed: u64) -> Vec<(usize, usize)> {
    let mut state = seed;
    let mut draws = Vec::new();
    for _ in 0..count {
        state = state.wrapping_mul(6364136223846793005).wrapping_add(1442695040888963407);
        let x = ((state >> 33) as usize) % width;
        state = state.wrapping_mul(6364136223846793005).wrapping_add(1442695040888963407);
        let y = ((state >> 33) as usize) % height;
        draws.push((x, y));
    }
    draws
}

fn coins(count: usize, seed: u64) -> Vec<(bool, bool)> {
    let mut state = seed;
    let mut draws = Vec::new();
    for _ in 0..count {
        state = state.wrapping_mul(6364136223846793005).wrapping_add(1442695040888963407);
        let x = (state >> 40) % 2 == 0;
        state = state.wrapping_mul(6364136223846793005).wrapping_add(1442695040888963407);
        let y = (state >> 40) % 4 != 0;
        draws.push((x, y));
    }
    draws
}

/// One tick, with as many coins as it takes.
fn tick(field: &mut DLAField, seed: u64) -> bool {
    let mut count = 64;
    loop {
        match field.next_state(&coins(count, seed)) {
            Some(more) => return more,
            None => count *= 2,
        }
    }
}

fn agents_of(field: &DLAField) -> Vec<ColorizedPoint> {
    (0..field.get_num_agents()).map(|ndx| field.get_agent_at(ndx)).collect()
}

/// What must hold of a field at any time.
fn check(field: &DLAField) {
    let width = field.get_width();
    let height = field.get_height();
    let agents = agents_of(field);
    let mut sitting = HashSet::new();
    for agent in agents.iter() {
        assert!(agent.get_x() < width && agent.get_y() < height);
        assert!(sitting.insert((agent.get_x(), agent.get_y())));
        assert_eq!(field.get_agent_at_coordinate(agent.get_x(), agent.get_y()), Some(*agent));
        match agent.get_sticky_neighbor() {
            Some(n) => {
                assert_eq!(agent.get_agent_state(), AgentState::STUCK);
                let neighbor = field.get_agent_at_coordinate(n.x, n.y).unwrap();
                assert_eq!(neighbor.get_agent_state(), AgentState::STUCK);
                assert_eq!(
                    field.get_distance_from_root(*agent),
                    field.get_distance_from_root(neighbor) + 1
                );
            }
            None => assert_eq!(field.get_distance_from_root(*agent), 0),
        }
    }
    let grid = field.get_position_hash();
    assert_eq!(grid.len(), width * height);
    let mut stuck = 0;
    for x in 0..width {
        for y in 0..height {
            let cell = grid[DLAField::get_ndx(x, y, width)];
            let agent = field.get_agent_at_coordinate(x, y);
            assert_eq!(cell.agent, agent);
            match agent {
                None => assert_eq!(cell.state, FieldState::EMPTY),
                Some(a) => match a.get_agent_state() {
                    AgentState::FREE => assert_eq!(cell.state, FieldState::OCCUPIED),
                    AgentState::STUCK => {
                        stuck += 1;
                        assert_eq!(cell.state, FieldState::STUCK)
                    }
                },
            }
        }
    }
    assert_eq!(field.getOccpupiedCount() as usize, agents.len());
    assert_eq!(field.getStuckCount(), stuck);
}

#[test]
#[allow(non_snake_case)]
fn nextState_shouldNotError() {
    let draws = coordinates(80000, 600, 600, 1);
    let mut field = DLAField::new("canvas".to_string(), 60000, 600, 600, &draws).unwrap();
    tick(&mut field, 5);
    assert_eq!(field.get_num_agents(), 60000);
    assert_eq!(field.getOccpupiedCount(), 60000);
}

#[test]
fn tick_freezes_moves_and_leaves_alone() {
    let mut field = field_of(3, 3, &[(1, 0), (1, 1), (1, 2)]);
    let before = agents_of(&field);
    assert_eq!(field.next_state(&vec![(true, true)]), Some(true));
    // column 1 from its last row upwards
    assert_eq!(
        agents_of(&field),
        vec![
            frozen(before[2], None),
            frozen(before[1], Some((1, 2))),
            free_agent(2, 1),
        ]
    );
    assert_eq!(field.getStuckCount(), 2);
    check(&field);
    // the walker froze against the first frozen cell of its scan
    assert_eq!(field.next_state(&Vec::new()), Some(true));
    assert_eq!(
        agents_of(&field),
        vec![
            frozen(before[2], None),
            frozen(before[1], Some((1, 2))),
            frozen(free_agent(2, 1), Some((1, 1))),
        ]
    );
    assert_eq!(field.getStuckCount(), 3);
    check(&field);
    // nobody is free any more
    assert_eq!(field.next_state(&Vec::new()), Some(false));
    assert_eq!(field.next_state(&coins(9, 1)), Some(false));
    assert_eq!(field.getStuckCount(), 3);
    assert_eq!(field.getOccpupiedCount(), 3);
}

#[test]
fn distance_from_root_counts_hops() {
    let mut field = field_of(3, 3, &[(1, 0), (1, 1), (1, 2)]);
    assert_eq!(field.next_state(&vec![(true, true)]), Some(true));
    assert_eq!(field.next_state(&Vec::new()), Some(true));
    let root = field.get_agent_at_coordinate(1, 2).unwrap();
    let middle = field.get_agent_at_coordinate(1, 1).unwrap();
    let leaf = field.get_agent_at_coordinate(2, 1).unwrap();
    assert_eq!(field.get_distance_from_root(root), 0);
    assert_eq!(field.get_distance_from_root(middle), 1);
    assert_eq!(field.get_distance_from_root(leaf), 2);
    assert_eq!(field._get_distance_from_root(leaf, 10), 12);
    // an agent of no field that names a frozen neighbour
    let guest = ColorizedPoint::new(0, 0, Color::new(0, 0, 0, 0), Some(StickyNeighbor::new(2, 1)));
    assert_eq!(field.get_distance_from_root(guest), 3);
}

#[test]
fn tick_without_draws_enough_leaves_the_field_alone() {
    let mut field = field_of(3, 3, &[(1, 0), (1, 1), (1, 2)]);
    let before = field.clone();
    assert_eq!(field.next_state(&Vec::new()), None);
    assert_eq!(field, before);
    // a draw that leaves the grid decides nothing
    assert_eq!(field.next_state(&vec![(false, false)]), None);
    assert_eq!(field, before);
    assert_eq!(field.next_state(&vec![(false, false), (false, true)]), Some(true));
    assert_eq!(field.get_agent_at_coordinate(0, 1), Some(free_agent(0, 1)));
    assert_eq!(field.get_agent_at_coordinate(1, 0), None);
}

#[test]
fn tick_comes_out_the_same_with_more_draws() {
    let start = field_of(3, 3, &[(1, 0), (1, 1), (1, 2)]);
    let mut one = start.clone();
    let mut two = start.clone();
    assert_eq!(one.next_state(&vec![(false, false), (false, true)]), Some(true));
    assert_eq!(
        two.next_state(&vec![(false, false), (false, true), (true, true), (true, false)]),
        Some(true)
    );
    assert_eq!(one, two);
}

#[test]
fn tick_uses_draws_in_scan_order() {
    // two walkers: the one in the lower column goes first
    let mut field = field_of(4, 4, &[(2, 0), (0, 0)]);
    let before = field.clone();
    // the second walker finds (1, 1) taken by the first, and needs one more draw
    assert_eq!(field.next_state(&vec![(true, true), (false, true)]), None);
    assert_eq!(field, before);
    assert_eq!(field.next_state(&vec![(true, true), (false, true), (true, true)]), Some(true));
    assert_eq!(agents_of(&field), vec![free_agent(1, 1), free_agent(3, 1)]);
    check(&field);
}

#[test]
fn walker_stays_when_every_candidate_is_taken() {
    // (1, 1) sees no settled cell: its neighbours are free and above the last row
    let mut field = field_of(4, 4, &[(1, 1), (0, 0), (2, 0), (0, 2), (2, 2)]);
    let before = agents_of(&field);
    let draws = vec![
        // (0, 2): to (1, 3)
        (true, true),
        // (0, 0): (1, 1) is taken, five times
        (true, true),
        (true, true),
        (true, true),
        (true, true),
        (true, true),
        // (1, 1): to (0, 2), which has been left
        (false, true),
        // (2, 2): to (3, 3)
        (true, true),
        // (2, 0): to (3, 1)
        (true, true),
    ];
    assert_eq!(field.next_state(&draws), Some(true));
    assert_eq!(
        agents_of(&field),
        vec![
            free_agent(1, 3),
            before[1],
            free_agent(0, 2),
            free_agent(3, 3),
            free_agent(3, 1),
        ]
    );
    check(&field);
}

#[test]
fn boundary_freezes_a_free_agent() {
    let mut field = field_of(5, 5, &[(0, 4), (3, 4), (2, 0)]);
    assert_eq!(field.next_state(&vec![(true, true)]), Some(true));
    assert_eq!(field.get_agent_at_coordinate(0, 4), Some(frozen(free_agent(0, 4), None)));
    assert_eq!(field.get_agent_at_coordinate(3, 4), Some(frozen(free_agent(3, 4), None)));
    assert_eq!(field.get_agent_at_coordinate(3, 1), Some(free_agent(3, 1)));
    assert_eq!(field.getStuckCount(), 2);
}

#[test]
fn frozen_agents_stay_frozen() {
    let draws = coordinates(400, 12, 12, 7);
    let mut field = DLAField::new("c".to_string(), 40, 12, 12, &draws).unwrap();
    check(&field);
    let mut ticks = 0;
    let mut more = true;
    while more {
        let before = agents_of(&field);
        more = tick(&mut field, 100 + ticks);
        ticks += 1;
        assert!(ticks < 100000);
        check(&field);
        assert_eq!(field.get_num_agents(), before.len());
        assert_eq!(more, before.iter().any(|a| a.get_agent_state() == AgentState::FREE));
        for agent in before.iter() {
            if agent.get_agent_state() == AgentState::STUCK {
                assert_eq!(
                    field.get_agent_at_coordinate(agent.get_x(), agent.get_y()),
                    Some(*agent)
                );
            }
            if agent.get_agent_state() == AgentState::FREE && agent.get_y() == 11 {
                assert_eq!(
                    field.get_agent_at_coordinate(agent.get_x(), agent.get_y()),
                    Some(frozen(*agent, None))
                );
            }
        }
    }
    assert_eq!(field.getStuckCount(), 40);
}

#[test]
fn ticks_end_with_every_agent_frozen() {
    let draws = coordinates(100, 10, 10, 42);
    let mut field = DLAField::new("c".to_string(), 5, 10, 10, &draws).unwrap();
    let mut ticks = 0;
    while tick(&mut field, 1000 + ticks) {
        ticks += 1;
        assert!(ticks < 100000);
    }
    assert_eq!(field.getStuckCount(), 5);
    assert!(field.getOccpupiedCount() >= field.getStuckCount());
    assert_eq!(field.next_state(&Vec::new()), Some(false));
}
