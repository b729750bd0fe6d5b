//! Diffusion-limited aggregation on a grid.
//!
//! Agents walk at random over the cells of a grid, drifting towards its last
//! row, until they reach that row or come to stand beside an agent that has
//! frozen already; then they freeze for good, and the frozen agents grow into
//! a branching aggregate. Each frozen agent records the neighbour it froze
//! against, so that the aggregate can be read as a forest whose roots are the
//! agents that froze on the last row.
//!
//! The library decides everything and draws nothing: whoever calls it hands
//! in the random draws, as plain values, and gets back `None` where they run
//! out, with nothing changed. What a tick or a seeding makes of given draws
//! is a function of the field and the draws alone.
//!
//! A field ([`DLAField`]) holds its state three times over: as a grid of
//! cells, as a table of agents, and as an index from coordinate to table
//! slot. Its view ([`model::FieldView`]) is the table with the dimensions;
//! its invariant ([`DLAField::wf`]) says that the state is valid and that
//! grid and index agree with the table.

use vstd::prelude::*;

pub mod colorized_point;
pub mod counts;
pub mod field_position;
pub mod grid;
pub mod index;
pub mod laws;
pub mod model;
pub mod moving;
pub mod next;
pub mod render;
pub mod root;
pub mod seed;
pub mod stuck;
pub mod tick;
mod tick_inv;
pub mod walk;

pub use crate::seed::build_field_from_js_state;

verus! {

use crate::colorized_point::ColorizedPoint;
use crate::field_position::FieldPosition;
use crate::field_position::FieldState;
use crate::grid::grid_addressable;
use crate::grid::in_grid;
use crate::grid::lemma_addressable_iff;
use crate::grid::spec_ndx;
use crate::grid::square_or_thin;
use crate::index::indexes;
use crate::index::paints;
use crate::model::FieldView;

/// A diffusion-limited aggregation field: a grid of cells, the agents that
/// walk on it, and an index from coordinate to agent slot.
#[derive(Clone, Debug, PartialEq, Eq)]
pub struct DLAField {
    width: usize,
    height: usize,
    canvas_id: String,
    agents: Vec<ColorizedPoint>,
    agent_position_lookup: Vec<Vec<Option<usize>>>,
    position_hash: Vec<FieldPosition>,
}

impl View for DLAField {
    type V = FieldView;

    closed spec fn view(&self) -> FieldView {
        FieldView {
            width: self.width as nat,
            height: self.height as nat,
            canvas_id: self.canvas_id@,
            agents: self.agents@,
        }
    }
}

// === Static Methods ===
impl DLAField {
    /// Whether grid, agent table and position index agree with each other.
    pub closed spec fn consistent(&self) -> bool {
        &&& indexes(
            self.agent_position_lookup@,
            self.agents@,
            self.width as int,
            self.height as int,
        )
        &&& paints(self.position_hash@, self@)
    }

    /// The invariant of a field: its state is valid, and its three
    /// representations of that state agree.
    pub open spec fn wf(&self) -> bool {
        self@.valid() && self.consistent()
    }

    /// The agents of a field can be counted in a `usize`.
    pub proof fn lemma_agents_fit(&self)
        ensures
            self@.agents.len() <= usize::MAX,
    {
        assert(self.agents@.len() == self.agents.len());
    }

    /// Whether a grid of these dimensions gives every coordinate a cell of
    /// its own: whether it is square, or has at most one column, or has no
    /// row, and its cells can be counted.
    pub fn can_address(width: usize, height: usize) -> (ok: bool)
        ensures
            ok == square_or_thin(width as int, height as int),
            ok == grid_addressable(width as int, height as int),
    {
        proof {
            lemma_addressable_iff(width as int, height as int);
        }
        match width.checked_mul(height) {
            Some(_) => width == height || width <= 1 || height == 0,
            None => false,
        }
    }

    /// A grid of the given dimensions on which nobody sits.
    #[allow(non_snake_case)]
    pub fn generateEmptyPositionHash(width: usize, height: usize) -> (grid: Vec<FieldPosition>)
        requires
            width * height <= usize::MAX,
        ensures
            grid.len() == width * height,
            forall|k: int| 0 <= k < grid.len() ==> (#[trigger] grid[k]).is_vacant(),
    {
        let cells: usize = width * height;
        let mut grid: Vec<FieldPosition> = Vec::new();
        let mut ndx: usize = 0;
        while ndx < cells
            invariant
                ndx <= cells,
                grid.len() == ndx,
                forall|k: int| 0 <= k < grid.len() ==> (#[trigger] grid[k]).is_vacant(),
            decreases cells - ndx,
        {
            grid.push(FieldPosition::new(FieldState::EMPTY, None));
            ndx += 1;
        }
        grid
    }

    /// Whether an agent, free or frozen, sits on the cell of `(x, y)` in the
    /// grid `positionHash`.
    #[allow(non_snake_case)]
    pub fn isPositionOccupied(
        positionHash: &Vec<FieldPosition>,
        x: usize,
        y: usize,
        width: usize,
    ) -> (occupied: bool)
        requires
            spec_ndx(x as int, y as int, width as int) < positionHash.len(),
        ensures
            occupied == (positionHash[spec_ndx(x as int, y as int, width as int)].state
                != FieldState::EMPTY),
    {
        let ndx = DLAField::get_ndx(x, y, width);
        let val = &positionHash[ndx];
        match val.state {
            FieldState::OCCUPIED => true,
            FieldState::STUCK => true,
            FieldState::EMPTY => false,
        }
    }

    /// The index of the cell of `(x, y)` in a grid of the given width:
    /// `x * width + y`.
    pub fn get_ndx(x: usize, y: usize, width: usize) -> (ndx: usize)
        requires
            spec_ndx(x as int, y as int, width as int) <= usize::MAX,
        ensures
            ndx == spec_ndx(x as int, y as int, width as int),
    {
        x * width + y
    }
}

// === Instance Methods ===
impl DLAField {
    /// The number of columns.
    pub fn get_width(&self) -> (width: usize)
        ensures
            width == self@.width,
    {
        self.width
    }

    /// The number of rows.
    pub fn get_height(&self) -> (height: usize)
        ensures
            height == self@.height,
    {
        self.height
    }

    /// The number of agents.
    pub fn get_num_agents(&self) -> (count: usize)
        ensures
            count == self@.agents.len(),
    {
        self.agents.len()
    }

    /// The agent in slot `ndx` of the table.
    pub fn get_agent_at(&self, ndx: usize) -> (agent: ColorizedPoint)
        requires
            ndx < self@.agents.len(),
        ensures
            agent == self@.agents[ndx as int],
    {
        self.agents[ndx]
    }

    /// The agent that sits on `(x, y)`, if any.
    pub fn get_agent_at_coordinate(&self, x: usize, y: usize) -> (agent: Option<ColorizedPoint>)
        requires
            self.wf(),
            in_grid(x as int, y as int, self@.width as int, self@.height as int),
        ensures
            agent == self@.agent_at(x as int, y as int),
    {
        match self.agent_position_lookup[x][y] {
            None => None,
            Some(ndx) => Some(self.get_agent_at(ndx)),
        }
    }

    /// Whether nobody sits on `(x, y)`.
    #[allow(non_snake_case)]
    pub fn isEmpty(&self, x: u32, y: u32) -> (empty: bool)
        requires
            self.wf(),
            in_grid(x as int, y as int, self@.width as int, self@.height as int),
        ensures
            empty == !self@.has_agent_at(x as int, y as int),
    {
        let ndx = DLAField::get_ndx(x as usize, y as usize, self.get_width());
        match self.position_hash[ndx].state {
            FieldState::EMPTY => true,
            _ => false,
        }
    }

    /// The grid, one cell for each coordinate, for those who draw it.
    pub fn get_position_hash(&self) -> (grid: &Vec<FieldPosition>)
        requires
            self.wf(),
        ensures
            paints(grid@, self@),
    {
        &self.position_hash
    }
}

} // verus!
