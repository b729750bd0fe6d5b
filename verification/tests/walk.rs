use wasm_rust_dla::colorized_point::AgentState;
use wasm_rust_dla::colorized_point::Color;
use wasm_rust_dla::colorized_point::ColorizedPoint;
use wasm_rust_dla::field_position::FieldState;
use wasm_rust_dla::build_field_from_js_state;
use wasm_rust_dla::DLAField;

fn free_agent(x: usize, y: usize) -> ColorizedPoint {
    ColorizedPoint::new(x, y, Color::new(10, 20, 30, 40), None)
}

fn field_of(width: usize, height: usize, at: &[(usize, usize)]) -> DLAField {
    let agents = at.iter().map(|c| free_agent(c.0, c.1)).collect();
    build_field_from_js_state("c".to_string(), width, height, agents).unwrap()
}

/// Coins from a fixed sequence: forward along x every other time, forward
/// along y three times in four.
fn coins(count: usize, seed: u64) -> Vec<(bool, bool)> {
    let mut state = seed;
    let mut draws = Vec::new();
    for _ in 0..count {
        state = state.wrapping_mul(6364136223846793005).wrapping_add(1442695040888963407);
        let x = (state >> 40) % 2 == 0;
        state = state.wrapping_mul(6364136223846793005).wrapping_add(1442695040888963407);
        let y = (state >> 40) % 4 != 0;
        draws.push((x, y));
    }
    draws
}

#[test]
fn walk_takes_the_first_free_candidate() {
    let field = field_of(3, 3, &[(1, 1)]);
    let grid = field.get_position_hash();
    let step = |draw| DLAField::findNextPosition(grid, 3, 3, 1, 1, &vec![draw], 0);
    assert_eq!(step((true, true)), Some(((2, 2), 1)));
    assert_eq!(step((true, false)), Some(((2, 0), 1)));
    assert_eq!(step((false, true)), Some(((0, 2), 1)));
    assert_eq!(step((false, false)), Some(((0, 0), 1)));
}

#[test]
fn walk_passes_over_draws_that_leave_the_grid() {
    let field = field_of(3, 3, &[(0, 0)]);
    let grid = field.get_position_hash();
    let draws = vec![(false, false), (true, false), (false, true), (true, true), (true, true)];
    assert_eq!(DLAField::findNextPosition(grid, 3, 3, 0, 0, &draws, 0), Some(((1, 1), 4)));
    assert_eq!(DLAField::findNextPosition(grid, 3, 3, 0, 0, &draws, 3), Some(((1, 1), 4)));
    assert_eq!(DLAField::findNextPosition(grid, 3, 3, 0, 0, &draws, 4), Some(((1, 1), 5)));
}

#[test]
fn walk_needs_more_draws_when_none_decides() {
    let field = field_of(3, 3, &[(0, 0)]);
    let grid = field.get_position_hash();
    let draws = vec![(false, false), (true, false), (false, true)];
    assert_eq!(DLAField::findNextPosition(grid, 3, 3, 0, 0, &draws, 0), None);
    assert_eq!(DLAField::findNextPosition(grid, 3, 3, 0, 0, &Vec::new(), 0), None);
    assert_eq!(DLAField::findNextPosition(grid, 3, 3, 0, 0, &draws, 3), None);
}

#[test]
fn walk_draws_again_after_an_occupied_candidate() {
    let field = field_of(3, 3, &[(1, 1), (2, 2)]);
    let grid = field.get_position_hash();
    let draws = vec![(true, true), (true, true), (false, true)];
    assert_eq!(DLAField::findNextPosition(grid, 3, 3, 1, 1, &draws, 0), Some(((0, 2), 3)));
}

#[test]
fn walk_falls_back_after_five_occupied_candidates() {
    let field = field_of(3, 3, &[(1, 1), (0, 0), (2, 0), (0, 2), (2, 2)]);
    let grid = field.get_position_hash();
    let five = vec![(true, true), (false, false), (true, false), (false, true), (true, true)];
    assert_eq!(DLAField::findNextPosition(grid, 3, 3, 1, 1, &five, 0), Some(((1, 1), 5)));
    let six = vec![
        (true, true),
        (false, false),
        (true, false),
        (false, true),
        (true, true),
        (true, true),
    ];
    assert_eq!(DLAField::findNextPosition(grid, 3, 3, 1, 1, &six, 0), Some(((1, 1), 5)));
    let four = vec![(true, true), (false, false), (true, false), (false, true)];
    assert_eq!(DLAField::findNextPosition(grid, 3, 3, 1, 1, &four, 0), None);
}

#[test]
fn walk_takes_a_candidate_that_the_fourth_retry_finds_free() {
    let field = field_of(3, 3, &[(1, 1), (0, 0), (2, 0), (0, 2)]);
    let grid = field.get_position_hash();
    let draws = vec![(false, false), (false, false), (true, false), (false, true), (true, true)];
    assert_eq!(DLAField::findNextPosition(grid, 3, 3, 1, 1, &draws, 0), Some(((2, 2), 5)));
}

#[test]
fn walk_does_not_count_draws_that_leave_the_grid() {
    let field = field_of(3, 3, &[(0, 0), (1, 1)]);
    let grid = field.get_position_hash();
    let draws = vec![
        (false, false),
        (true, true),
        (false, true),
        (true, true),
        (true, false),
        (true, true),
        (true, true),
        (true, true),
    ];
    assert_eq!(DLAField::findNextPosition(grid, 3, 3, 0, 0, &draws, 0), Some(((0, 0), 8)));
    assert_eq!(DLAField::findNextPosition(grid, 3, 3, 0, 0, &draws[..7].to_vec(), 0), None);
}

#[test]
fn walk_stays_on_the_grid() {
    let field = field_of(4, 4, &[(1, 1), (2, 2), (0, 3), (3, 0)]);
    let grid = field.get_position_hash();
    let draws = coins(64, 11);
    for x in 0..4 {
        for y in 0..4 {
            for start in 0..32 {
                match DLAField::findNextPosition(grid, 4, 4, x, y, &draws, start) {
                    Some((c, next)) => {
                        assert!(c.0 < 4 && c.1 < 4);
                        assert!(start <= next && next <= draws.len());
                        if c != (x, y) {
                            assert!(!DLAField::isPositionOccupied(grid, c.0, c.1, 4));
                            assert!(c.0 + 1 == x || x + 1 == c.0);
                            assert!(c.1 + 1 == y || y + 1 == c.1);
                        }
                    }
                    None => {}
                }
            }
        }
    }
}

#[test]
fn walk_on_a_single_column_never_decides() {
    let field = field_of(1, 4, &[(0, 1)]);
    let grid = field.get_position_hash();
    let draws = coins(200, 3);
    assert_eq!(DLAField::findNextPosition(grid, 1, 4, 0, 1, &draws, 0), None);
}

#[test]
fn offer_on_one_axis_is_no_move() {
    let field = field_of(3, 3, &[(1, 1)]);
    for target in [(1, 2), (1, 0), (0, 1), (2, 1), (1, 1)] {
        let mut grid = field.get_position_hash().clone();
        let mut agent = field.get_agent_at(0);
        assert!(!DLAField::offer_position(&mut grid, 3, &mut agent, target));
        assert_eq!(agent, field.get_agent_at(0));
        assert_eq!(&grid, field.get_position_hash());
    }
}

#[test]
fn offer_on_both_axes_moves() {
    let field = field_of(3, 3, &[(1, 1)]);
    for target in [(0, 0), (0, 2), (2, 0), (2, 2)] {
        let mut grid = field.get_position_hash().clone();
        let mut agent = field.get_agent_at(0);
        assert!(DLAField::offer_position(&mut grid, 3, &mut agent, target));
        assert_eq!((agent.get_x(), agent.get_y()), target);
        assert_eq!(agent.get_agent_state(), AgentState::FREE);
        assert_eq!(agent.get_color(), field.get_agent_at(0).get_color());
        assert_eq!(grid[DLAField::get_ndx(1, 1, 3)].state, FieldState::EMPTY);
        assert_eq!(grid[DLAField::get_ndx(1, 1, 3)].agent, None);
        let cell = grid[DLAField::get_ndx(target.0, target.1, 3)];
        assert_eq!(cell.state, FieldState::OCCUPIED);
        assert_eq!(cell.agent, Some(agent));
    }
}

#[test]
fn move_position_moves_whatever_the_target() {
    let field = field_of(3, 3, &[(1, 1)]);
    let mut grid = field.get_position_hash().clone();
    let mut agent = field.get_agent_at(0);
    DLAField::move_position(&mut grid, 3, &mut agent, 1, 2);
    assert_eq!((agent.get_x(), agent.get_y()), (1, 2));
    assert_eq!(grid[DLAField::get_ndx(1, 1, 3)].state, FieldState::EMPTY);
    assert_eq!(grid[DLAField::get_ndx(1, 2, 3)].state, FieldState::OCCUPIED);
    assert_eq!(grid[DLAField::get_ndx(1, 2, 3)].agent, Some(agent));
    assert_eq!(grid.len(), 9);
}
