//! Stuck detection: which agents freeze, and against which neighbour.

use vstd::prelude::*;

verus! {

use crate::DLAField;
use crate::colorized_point::AgentState;
use crate::colorized_point::StickyNeighbor;
use crate::grid::in_grid;
use crate::model::FieldView;

/// Where the neighbour scan starts along one axis: at the coordinate itself
/// when it is 0, one below it otherwise.
pub open spec fn scan_start(v: int) -> int {
    if v == 0 {
        0
    } else {
        v - 1
    }
}

/// Whether `(nx, ny)` is among the coordinates that the neighbour scan of
/// `(x, y)` visits, grid bounds aside.
pub open spec fn in_scan_window(x: int, y: int, nx: int, ny: int) -> bool {
    scan_start(x) <= nx <= x + 1 && scan_start(y) <= ny <= y + 1
}

/// Whether the neighbour scan visits `(ax, ay)` before `(bx, by)`: columns
/// in rising order, and rows in rising order within a column.
pub open spec fn scanned_before(ax: int, ay: int, bx: int, by: int) -> bool {
    ax < bx || (ax == bx && ay < by)
}

impl FieldView {
    /// One level of the stuck check: an agent sits on `(x, y)` and is frozen
    /// already, or is free on the last row.
    pub open spec fn settled_at(self, x: int, y: int) -> bool {
        match self.agent_at(x, y) {
            Some(a) => a.state == AgentState::STUCK || y + 1 >= self.height,
            None => false,
        }
    }

    /// What one level of the stuck check answers for `(x, y)`: whether the
    /// cell is settled, and the neighbour that a frozen agent has recorded.
    pub open spec fn probe(self, x: int, y: int) -> (bool, Option<(usize, usize)>) {
        match self.agent_at(x, y) {
            Some(a) => if a.state == AgentState::STUCK {
                (
                    true,
                    match a.sticky_neighbor {
                        Some(n) => Some((n.x, n.y)),
                        None => None,
                    },
                )
            } else {
                (y + 1 >= self.height, None)
            },
            None => (false, None),
        }
    }

    /// Whether the neighbour scan of `(x, y)` finds a settled cell at
    /// `(nx, ny)`.
    pub open spec fn sticks_to(self, x: int, y: int, nx: int, ny: int) -> bool {
        &&& in_scan_window(x, y, nx, ny)
        &&& nx < self.width
        &&& ny < self.height
        &&& self.settled_at(nx, ny)
    }

    /// Whether `(nx, ny)` is the first settled cell that the neighbour scan
    /// of `(x, y)` meets.
    pub open spec fn first_sticky(self, x: int, y: int, nx: int, ny: int) -> bool {
        &&& self.sticks_to(x, y, nx, ny)
        &&& forall|px: int, py: int| #[trigger]
            self.sticks_to(x, y, px, py) ==> !scanned_before(px, py, nx, ny)
    }

    /// Whether the neighbour scan of `(x, y)` finds any settled cell.
    pub open spec fn has_sticky(self, x: int, y: int) -> bool {
        exists|nx: int, ny: int| #[trigger] self.sticks_to(x, y, nx, ny)
    }

    /// The verdict of stuck detection on `(x, y)`: a settled cell answers for
    /// itself; an unsettled agent freezes against the first settled cell of
    /// its neighbour scan; anything else is not stuck.
    pub open spec fn stuck_verdict(self, x: int, y: int) -> (bool, Option<(usize, usize)>) {
        if self.probe(x, y).0 || self.agent_at(x, y) is None {
            self.probe(x, y)
        } else if self.has_sticky(x, y) {
            (
                true,
                Some(
                    choose|n: (usize, usize)|
                        self.first_sticky(x, y, n.0 as int, n.1 as int),
                ),
            )
        } else {
            (false, None)
        }
    }
}

/// The sticky neighbour that a verdict's coordinate stands for.
pub open spec fn as_neighbor(at: Option<(usize, usize)>) -> Option<StickyNeighbor> {
    match at {
        Some(c) => Some(StickyNeighbor { x: c.0, y: c.1 }),
        None => None,
    }
}

/// The `k`-th cell of the neighbourhood of `(x, y)`, in scan order.
pub open spec fn scan_cell(x: int, y: int, k: int) -> (int, int) {
    (x - 1 + k / 3, y - 1 + k % 3)
}

/// A neighbour scan that finds a settled cell finds a first one: if none of
/// the first `k` cells of the neighbourhood is one, a later cell is.
proof fn lemma_first_sticky_from(v: FieldView, x: int, y: int, k: int)
    requires
        v.valid(),
        in_grid(x, y, v.width as int, v.height as int),
        0 <= k <= 9,
        v.has_sticky(x, y),
        forall|e: int|
            0 <= e < k ==> !v.sticks_to(
                x,
                y,
                (#[trigger] scan_cell(x, y, e)).0,
                scan_cell(x, y, e).1,
            ),
    ensures
        exists|n: (usize, usize)| v.first_sticky(x, y, n.0 as int, n.1 as int),
    decreases 9 - k,
{
    if k == 9 {
        let (nx, ny) = choose|nx: int, ny: int| #[trigger] v.sticks_to(x, y, nx, ny);
        let e = (nx - (x - 1)) * 3 + (ny - (y - 1));
        assert(scan_cell(x, y, e) == (nx, ny));
    } else {
        let c = scan_cell(x, y, k);
        if v.sticks_to(x, y, c.0, c.1) {
            assert forall|px: int, py: int| #[trigger]
                v.sticks_to(x, y, px, py) implies !scanned_before(px, py, c.0, c.1) by {
                let e = (px - (x - 1)) * 3 + (py - (y - 1));
                assert(scan_cell(x, y, e) == (px, py));
            }
            let n = (c.0 as usize, c.1 as usize);
            assert(v.first_sticky(x, y, n.0 as int, n.1 as int));
        } else {
            lemma_first_sticky_from(v, x, y, k + 1);
        }
    }
}

/// What stuck detection says of a free agent that has not reached the last
/// row: it is stuck exactly if its neighbour scan meets a settled cell, and
/// then it names the first such cell, which lies on the grid.
pub proof fn lemma_verdict_of_walker(v: FieldView, i: int)
    requires
        v.valid(),
        0 <= i < v.agents.len(),
        v.agents[i].state == AgentState::FREE,
    ensures
        ({
            let a = v.agents[i];
            let verdict = v.stuck_verdict(a.x as int, a.y as int);
            &&& a.y + 1 >= v.height ==> verdict == (true, None::<(usize, usize)>)
            &&& verdict.0 <==> (a.y + 1 >= v.height || v.has_sticky(a.x as int, a.y as int))
            &&& !verdict.0 ==> verdict.1 is None
            &&& match verdict.1 {
                Some(n) => v.first_sticky(a.x as int, a.y as int, n.0 as int, n.1 as int)
                    && in_grid(n.0 as int, n.1 as int, v.width as int, v.height as int)
                    && v.settled_at(n.0 as int, n.1 as int),
                None => true,
            }
        }),
{
    let a = v.agents[i];
    let (x, y) = (a.x as int, a.y as int);
    if !v.probe(x, y).0 && v.has_sticky(x, y) {
        lemma_first_sticky_from(v, x, y, 0);
    }
}

/// Where the neighbour scan of `(x, y)` first meets a settled cell, the
/// verdict is to freeze against that cell.
pub proof fn lemma_verdict_names_first(v: FieldView, x: int, y: int, nx: usize, ny: usize)
    requires
        v.agent_at(x, y) is Some,
        !v.probe(x, y).0,
        v.first_sticky(x, y, nx as int, ny as int),
    ensures
        v.stuck_verdict(x, y) == (true, Some((nx, ny))),
{
    assert(v.first_sticky(x, y, (nx, ny).0 as int, (nx, ny).1 as int));
}

impl DLAField {
    /// Stuck detection for the cell `(x, y)`. With `recursion` set, the
    /// answer is that of one level only: the cell's own standing, with no
    /// look at its neighbours.
    pub fn is_stuck(&self, x: usize, y: usize, recursion: bool) -> (verdict: (
        bool,
        Option<(usize, usize)>,
    ))
        requires
            self.wf(),
            in_grid(x as int, y as int, self@.width as int, self@.height as int),
        ensures
            recursion ==> verdict == self@.probe(x as int, y as int),
            !recursion ==> verdict == self@.stuck_verdict(x as int, y as int),
        decreases
                (if recursion {
                    0int
                } else {
                    1int
                }),
    {
        let width = self.get_width();
        let height = self.get_height();
        let agent = self.get_agent_at_coordinate(x, y);
        match agent {
            None => {
                return (false, None);
            },
            Some(agent) => {
                match agent.get_agent_state() {
                    AgentState::STUCK => {
                        return match agent.sticky_neighbor {
                            None => (true, None),  // already stuck, no neighbor
                            Some(position) => (true, Some((position.x, position.y))),
                        };
                    },
                    AgentState::FREE => {
                        if y + 1 >= height {
                            return (true, None);  // stuck on the last row: a root
                        }
                    },
                }
            },
        }
        if recursion {
            return (false, None);
        }
        let ghost v = self@;
        let first_x: usize = if x == 0 {
            0
        } else {
            x - 1
        };
        let first_y: usize = if y == 0 {
            0
        } else {
            y - 1
        };
        // the scan stops at the grid's edge
        let last_x: usize = if x + 1 < width {
            x + 1
        } else {
            x
        };
        let last_y: usize = y + 1;
        let mut neighbor_x: usize = first_x;
        while neighbor_x <= last_x
            invariant
                self.wf(),
                !recursion,
                v == self@,
                width == v.width,
                height == v.height,
                in_grid(x as int, y as int, v.width as int, v.height as int),
                last_y == y + 1,
                last_y < height,
                last_x < width,
                x <= last_x <= x + 1,
                last_x == x ==> x + 1 == width,
                first_x == scan_start(x as int),
                first_y == scan_start(y as int),
                first_x <= neighbor_x <= last_x + 1,
                v.agent_at(x as int, y as int) is Some,
                !v.probe(x as int, y as int).0,
                forall|px: int, py: int|
                    px < neighbor_x ==> !#[trigger] v.sticks_to(x as int, y as int, px, py),
            decreases last_x + 1 - neighbor_x,
        {
            let mut neighbor_y: usize = first_y;
            while neighbor_y <= last_y
                invariant
                    self.wf(),
                    !recursion,
                    v == self@,
                    width == v.width,
                    height == v.height,
                    in_grid(x as int, y as int, v.width as int, v.height as int),
                    last_y == y + 1,
                    last_y < height,
                    first_x == scan_start(x as int),
                    first_y == scan_start(y as int),
                    first_x <= neighbor_x <= last_x,
                    last_x < width,
                    x <= last_x <= x + 1,
                    first_y <= neighbor_y <= last_y + 1,
                    v.agent_at(x as int, y as int) is Some,
                    !v.probe(x as int, y as int).0,
                    forall|px: int, py: int|
                        scanned_before(px, py, neighbor_x as int, neighbor_y as int)
                            ==> !#[trigger] v.sticks_to(x as int, y as int, px, py),
                decreases last_y + 1 - neighbor_y,
            {
                if self.is_stuck(neighbor_x, neighbor_y, true).0 {
                    // stuck with a neighbor
                    proof {
                        lemma_verdict_names_first(v, x as int, y as int, neighbor_x, neighbor_y);
                    }
                    return (true, Some((neighbor_x, neighbor_y)));
                }
                neighbor_y += 1;
            }
            neighbor_x += 1;
        }
        (false, None)
    }
}

} // verus!
