//! The random-walk step of a free agent.

use vstd::prelude::*;

verus! {

use crate::DLAField;
use crate::field_position::FieldPosition;
use crate::field_position::FieldState;
use crate::grid::grid_addressable;
use crate::grid::in_grid;
use crate::grid::spec_ndx;

/// How often a walk draws again after it has drawn an occupied cell.
pub const MAX_RETRIES: usize = 4;

/// The cell that a draw proposes to an agent on `(x, y)`: one step along
/// each axis, forward where the draw's coin for that axis came up.
pub open spec fn candidate(x: int, y: int, draw: (bool, bool)) -> (int, int) {
    (
        if draw.0 {
            x + 1
        } else {
            x - 1
        },
        if draw.1 {
            y + 1
        } else {
            y - 1
        },
    )
}

/// The coordinates whose cell in `grid` is not empty.
pub open spec fn occupancy(grid: Seq<FieldPosition>, width: int, height: int) -> Set<(int, int)> {
    Set::new(
        |c: (int, int)|
            in_grid(c.0, c.1, width, height) && grid[spec_ndx(c.0, c.1, width)].state
                != FieldState::EMPTY,
    )
}

/// The random-walk step of an agent on `(x, y)`, read off the draws of
/// `tape` from position `at` on, after `tries` occupied candidates: the cell
/// to go to and the position of the first draw that was not used. A draw
/// that leaves the grid is passed over. The first candidate on the grid that
/// is not occupied is taken; after more occupied candidates than
/// [`MAX_RETRIES`] the agent's own cell is. `None` where the tape ends first.
pub open spec fn walk(
    width: int,
    height: int,
    occupied: Set<(int, int)>,
    x: int,
    y: int,
    tape: Seq<(bool, bool)>,
    at: int,
    tries: int,
) -> Option<((int, int), int)>
    decreases tape.len() - at,
{
    if tries > MAX_RETRIES {
        Some(((x, y), at))
    } else if at < 0 || at >= tape.len() {
        None
    } else {
        let c = candidate(x, y, tape[at]);
        if !in_grid(c.0, c.1, width, height) {
            walk(width, height, occupied, x, y, tape, at + 1, tries)
        } else if !occupied.contains(c) {
            Some((c, at + 1))
        } else {
            walk(width, height, occupied, x, y, tape, at + 1, tries + 1)
        }
    }
}

/// Whether `c` is a cell that a walk from `(x, y)` may end on: the cell
/// `(x, y)` itself, or a free cell of the grid one step away along both axes.
pub open spec fn walk_target(
    width: int,
    height: int,
    occupied: Set<(int, int)>,
    x: int,
    y: int,
    c: (int, int),
) -> bool {
    ||| c == (x, y)
    ||| {
        &&& in_grid(c.0, c.1, width, height)
        &&& !occupied.contains(c)
        &&& (c.0 == x + 1 || c.0 == x - 1)
        &&& (c.1 == y + 1 || c.1 == y - 1)
    }
}

/// A walk ends on its own cell or on a free diagonal neighbour, and uses the
/// tape from where it started.
pub proof fn lemma_walk_target(
    width: int,
    height: int,
    occupied: Set<(int, int)>,
    x: int,
    y: int,
    tape: Seq<(bool, bool)>,
    at: int,
    tries: int,
)
    requires
        0 <= at <= tape.len(),
    ensures
        match walk(width, height, occupied, x, y, tape, at, tries) {
            Some((c, next)) => at <= next <= tape.len() && walk_target(
                width,
                height,
                occupied,
                x,
                y,
                c,
            ),
            None => true,
        },
    decreases tape.len() - at,
{
    if tries <= MAX_RETRIES && at < tape.len() {
        lemma_walk_target(
            width,
            height,
            occupied,
            x,
            y,
            tape,
            at + 1,
            if in_grid(
                candidate(x, y, tape[at]).0,
                candidate(x, y, tape[at]).1,
                width,
                height,
            ) {
                tries + 1
            } else {
                tries
            },
        );
    }
}

/// A walk that a tape decides is decided the same way by every longer tape.
pub proof fn lemma_walk_extends(
    width: int,
    height: int,
    occupied: Set<(int, int)>,
    x: int,
    y: int,
    tape: Seq<(bool, bool)>,
    more: Seq<(bool, bool)>,
    at: int,
    tries: int,
)
    requires
        0 <= at,
        walk(width, height, occupied, x, y, tape, at, tries) is Some,
    ensures
        walk(width, height, occupied, x, y, tape + more, at, tries) == walk(
            width,
            height,
            occupied,
            x,
            y,
            tape,
            at,
            tries,
        ),
    decreases tape.len() - at,
{
    if tries <= MAX_RETRIES {
        let c = candidate(x, y, tape[at]);
        if !in_grid(c.0, c.1, width, height) {
            lemma_walk_extends(width, height, occupied, x, y, tape, more, at + 1, tries);
        } else if occupied.contains(c) {
            lemma_walk_extends(width, height, occupied, x, y, tape, more, at + 1, tries + 1);
        }
    }
}

impl DLAField {
    /// The random-walk step of the agent on `(x, y)` over the grid
    /// `positionHash`, with the coins of `draws` from position `start` on:
    /// the coordinate to go to, which may be `(x, y)` itself, and the
    /// position of the first draw left over; `None` where the draws run out
    /// before the step is decided.
    #[allow(non_snake_case)]
    pub fn findNextPosition(
        positionHash: &Vec<FieldPosition>,
        width: usize,
        height: usize,
        x: usize,
        y: usize,
        draws: &Vec<(bool, bool)>,
        start: usize,
    ) -> (step: Option<((usize, usize), usize)>)
        requires
            grid_addressable(width as int, height as int),
            positionHash.len() == width * height,
            in_grid(x as int, y as int, width as int, height as int),
            start <= draws.len(),
        ensures
            match step {
                Some((c, next)) => walk(
                    width as int,
                    height as int,
                    occupancy(positionHash@, width as int, height as int),
                    x as int,
                    y as int,
                    draws@,
                    start as int,
                    0,
                ) == Some(((c.0 as int, c.1 as int), next as int)) && in_grid(
                    c.0 as int,
                    c.1 as int,
                    width as int,
                    height as int,
                ) && start <= next <= draws.len(),
                None => walk(
                    width as int,
                    height as int,
                    occupancy(positionHash@, width as int, height as int),
                    x as int,
                    y as int,
                    draws@,
                    start as int,
                    0,
                ) is None,
            },
    {
        let ghost occupied = occupancy(positionHash@, width as int, height as int);
        let mut at: usize = start;
        let mut attempt_count: usize = 0;
        while attempt_count <= MAX_RETRIES && at < draws.len()
            invariant
                grid_addressable(width as int, height as int),
                positionHash.len() == width * height,
                in_grid(x as int, y as int, width as int, height as int),
                occupied == occupancy(positionHash@, width as int, height as int),
                start <= at <= draws.len(),
                attempt_count <= MAX_RETRIES + 1,
                walk(
                    width as int,
                    height as int,
                    occupied,
                    x as int,
                    y as int,
                    draws@,
                    start as int,
                    0,
                ) == walk(
                    width as int,
                    height as int,
                    occupied,
                    x as int,
                    y as int,
                    draws@,
                    at as int,
                    attempt_count as int,
                ),
            decreases draws.len() - at,
        {
            let draw = draws[at];
            at += 1;
            let new_x: Option<usize> = if draw.0 {
                if x + 1 < width {
                    Some(x + 1)
                } else {
                    None
                }
            } else {
                if x > 0 {
                    Some(x - 1)
                } else {
                    None
                }
            };
            let new_y: Option<usize> = if draw.1 {
                if y + 1 < height {
                    Some(y + 1)
                } else {
                    None
                }
            } else {
                if y > 0 {
                    Some(y - 1)
                } else {
                    None
                }
            };
            match (new_x, new_y) {
                (Some(new_x), Some(new_y)) => {
                    if !DLAField::isPositionOccupied(positionHash, new_x, new_y, width) {
                        return Some(((new_x, new_y), at));
                    }
                    attempt_count += 1;
                },
                _ => {
                    assert(!in_grid(
                        candidate(x as int, y as int, draw).0,
                        candidate(x as int, y as int, draw).1,
                        width as int,
                        height as int,
                    ));
                },
            }
        }
        if attempt_count > MAX_RETRIES {
            Some(((x, y), at))
        } else {
            None
        }
    }
}

} // verus!
