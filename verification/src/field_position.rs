//! The cells of the grid.

use vstd::prelude::*;

verus! {

use crate::colorized_point::AgentState;
use crate::colorized_point::ColorizedPoint;

/// Occupancy of one grid cell.
#[allow(non_camel_case_types)]
#[derive(Clone, Copy, Debug, PartialEq, Eq, Structural)]
pub enum FieldState {
    EMPTY,
    OCCUPIED,
    STUCK,
}

/// One grid cell: its occupancy and, when occupied, the agent that sits on it.
#[derive(Clone, Copy, Debug, PartialEq, Eq)]
pub struct FieldPosition {
    pub state: FieldState,
    pub agent: Option<ColorizedPoint>,
    pub color: [u8; 4],
}

impl FieldPosition {
    /// The colour every cell is painted with.
    pub open spec fn paint() -> Seq<u8> {
        seq![255u8, 0u8, 0u8, 25u8]
    }

    /// The cell with the given occupancy and resident.
    pub open spec fn holds(self, state: FieldState, agent: Option<ColorizedPoint>) -> bool {
        &&& self.state == state
        &&& self.agent == agent
        &&& self.color@ == Self::paint()
    }

    /// A cell on which nobody sits.
    pub open spec fn is_vacant(self) -> bool {
        self.holds(FieldState::EMPTY, None)
    }

    /// The cell on which `agent` sits: marked STUCK for a frozen agent,
    /// OCCUPIED for a free one.
    pub open spec fn is_home_of(self, agent: ColorizedPoint) -> bool {
        self.holds(
            if agent.state == AgentState::STUCK {
                FieldState::STUCK
            } else {
                FieldState::OCCUPIED
            },
            Some(agent),
        )
    }

    /// A cell with the given occupancy and resident, in the colour of all cells.
    pub fn new(state: FieldState, agent: Option<ColorizedPoint>) -> (cell: FieldPosition)
        ensures
            cell.holds(state, agent),
    {
        FieldPosition { state, agent, color: [255, 0, 0, 25] }
    }
}

} // verus!
