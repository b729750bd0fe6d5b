//! Moving an agent on the grid.

use vstd::prelude::*;

verus! {

use crate::DLAField;
use crate::colorized_point::ColorizedPoint;
use crate::field_position::FieldPosition;
use crate::field_position::FieldState;
use crate::grid::spec_ndx;
use crate::tick::moves;
use crate::tick::offered;

/// Whether `after` is the grid `before` once `agent` has left its cell for
/// the cell of `moved`: that cell holds `moved`, marked OCCUPIED, the cell
/// left behind is vacant, and every other cell is as it was.
pub open spec fn grid_after_move(
    before: Seq<FieldPosition>,
    after: Seq<FieldPosition>,
    width: int,
    agent: ColorizedPoint,
    moved: ColorizedPoint,
) -> bool {
    let from = spec_ndx(agent.x as int, agent.y as int, width);
    let to = spec_ndx(moved.x as int, moved.y as int, width);
    &&& after.len() == before.len()
    &&& after[to].holds(FieldState::OCCUPIED, Some(moved))
    &&& from != to ==> after[from].is_vacant()
    &&& forall|k: int| 0 <= k < before.len() && k != from && k != to ==> after[k] == before[k]
}

impl DLAField {
    /// Moves `agent` to `(new_x, new_y)` on the grid `positionHash`,
    /// whatever stands in either cell.
    #[allow(non_snake_case)]
    pub fn move_position(
        positionHash: &mut Vec<FieldPosition>,
        width: usize,
        agent: &mut ColorizedPoint,
        new_x: usize,
        new_y: usize,
    )
        requires
            spec_ndx(old(agent).x as int, old(agent).y as int, width as int) < old(
                positionHash,
            ).len(),
            spec_ndx(new_x as int, new_y as int, width as int) < old(positionHash).len(),
        ensures
            *final(agent) == old(agent).moved_to(new_x, new_y),
            grid_after_move(
                old(positionHash)@,
                final(positionHash)@,
                width as int,
                *old(agent),
                *final(agent),
            ),
    {
        let x = agent.get_x();
        let y = agent.get_y();
        let old_field_ndx = DLAField::get_ndx(x, y, width);
        let new_field_ndx = DLAField::get_ndx(new_x, new_y, width);
        // update the agent
        agent.set_x(new_x);
        agent.set_y(new_y);
        // update the grid
        positionHash[old_field_ndx] = FieldPosition::new(FieldState::EMPTY, None);
        positionHash[new_field_ndx] = FieldPosition::new(FieldState::OCCUPIED, Some(*agent));
    }

    /// Offers `agent` the cell `new_position`: the agent moves there only if
    /// the cell differs from its own along both axes. Says whether it moved.
    #[allow(non_snake_case)]
    pub fn offer_position(
        positionHash: &mut Vec<FieldPosition>,
        width: usize,
        agent: &mut ColorizedPoint,
        new_position: (usize, usize),
    ) -> (moved: bool)
        requires
            spec_ndx(old(agent).x as int, old(agent).y as int, width as int) < old(
                positionHash,
            ).len(),
            spec_ndx(new_position.0 as int, new_position.1 as int, width as int) < old(
                positionHash,
            ).len(),
        ensures
            moved == moves(*old(agent), (new_position.0 as int, new_position.1 as int)),
            *final(agent) == offered(*old(agent), (new_position.0 as int, new_position.1 as int)),
            !moved ==> final(positionHash)@ == old(positionHash)@,
            moved ==> grid_after_move(
                old(positionHash)@,
                final(positionHash)@,
                width as int,
                *old(agent),
                *final(agent),
            ),
    {
        // a cell on the agent's own column or row is passed over
        if agent.x != new_position.0 && agent.y != new_position.1 {
            DLAField::move_position(positionHash, width, agent, new_position.0, new_position.1);
            true
        } else {
            false
        }
    }
}

} // verus!
