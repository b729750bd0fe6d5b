//! Counting the occupied and the frozen cells of the grid.

use vstd::prelude::*;

verus! {

use crate::DLAField;
use crate::field_position::FieldPosition;
use crate::field_position::FieldState;
use crate::grid::lemma_cell_has_coordinate;
use crate::grid::spec_ndx;
use crate::index::paints;
use crate::model::FieldView;

use vstd::set_lib::lemma_int_range;
use vstd::set_lib::lemma_len_subset;
use vstd::set_lib::lemma_map_size;
use vstd::set_lib::set_int_range;

/// The cells among the first `upto` of `grid` that are not empty.
pub open spec fn filled_cells(grid: Seq<FieldPosition>, upto: int) -> Set<int> {
    Set::new(|k: int| 0 <= k < upto && grid[k].state != FieldState::EMPTY)
}

/// The cells among the first `upto` of `grid` that are marked STUCK.
pub open spec fn stuck_cells(grid: Seq<FieldPosition>, upto: int) -> Set<int> {
    Set::new(|k: int| 0 <= k < upto && grid[k].state == FieldState::STUCK)
}

/// A field has no more frozen agents than agents.
pub proof fn lemma_stuck_count_bound(v: FieldView)
    ensures
        v.stuck_slots().finite(),
        v.stuck_count() <= v.agents.len(),
{
    let slots = set_int_range(0, v.agents.len() as int);
    lemma_int_range(0, v.agents.len() as int);
    lemma_len_subset(v.stuck_slots(), slots);
}

/// The cell of an agent's coordinate, by the agent's slot.
pub open spec fn cell_of_slot(v: FieldView) -> spec_fn(int) -> int {
    |i: int| spec_ndx(v.agents[i].x as int, v.agents[i].y as int, v.width as int)
}

/// The grid of a valid field has as many cells that are not empty as the
/// field has agents, and as many cells marked STUCK as it has frozen agents.
pub proof fn lemma_cells_count_agents(grid: Seq<FieldPosition>, v: FieldView)
    requires
        v.valid(),
        paints(grid, v),
    ensures
        filled_cells(grid, grid.len() as int).finite(),
        filled_cells(grid, grid.len() as int).len() == v.agents.len(),
        stuck_cells(grid, grid.len() as int).finite(),
        stuck_cells(grid, grid.len() as int).len() == v.stuck_count(),
        v.stuck_slots().finite(),
        v.stuck_count() <= v.agents.len(),
{
    let (w, h) = (v.width as int, v.height as int);
    let n = v.agents.len() as int;
    let f = cell_of_slot(v);
    let slots = set_int_range(0, n);
    let filled = filled_cells(grid, grid.len() as int);
    let stuck = stuck_cells(grid, grid.len() as int);
    lemma_int_range(0, n);
    lemma_stuck_count_bound(v);
    assert forall|k: int| filled.contains(k) implies exists|i: int|
        slots.contains(i) && k == f(i) && (grid[k].state == FieldState::STUCK
            ==> v.stuck_slots().contains(i)) by {
        let c = lemma_cell_has_coordinate(k, w, h);
        let i = v.slot_at(c.0, c.1);
        assert(slots.contains(i) && k == f(i));
    }
    assert(slots.map(f) =~= filled);
    lemma_map_size(slots, filled, f);
    assert forall|k: int| v.stuck_slots().map(f).contains(k) == stuck.contains(k) by {
        if stuck.contains(k) {
            assert(filled.contains(k));
        }
    }
    assert(v.stuck_slots().map(f) =~= stuck);
    lemma_map_size(v.stuck_slots(), stuck, f);
}

impl DLAField {
    /// The number of cells on which an agent sits, frozen or not: the
    /// number of agents.
    #[allow(non_snake_case)]
    pub fn getOccpupiedCount(&self) -> (cnt: u32)
        requires
            self.wf(),
            self@.agents.len() <= u32::MAX,
        ensures
            cnt == self@.agents.len(),
    {
        let grid = self.get_position_hash();
        proof {
            lemma_cells_count_agents(grid@, self@);
            assert(filled_cells(grid@, 0) =~= Set::empty());
        }
        let mut cnt: u32 = 0;
        let mut ndx: usize = 0;
        while ndx < grid.len()
            invariant
                ndx <= grid.len(),
                filled_cells(grid@, grid.len() as int).finite(),
                filled_cells(grid@, grid.len() as int).len() <= u32::MAX,
                filled_cells(grid@, ndx as int).finite(),
                cnt == filled_cells(grid@, ndx as int).len(),
            decreases grid.len() - ndx,
        {
            proof {
                lemma_len_subset(
                    filled_cells(grid@, ndx + 1),
                    filled_cells(grid@, grid.len() as int),
                );
            }
            match grid[ndx].state {
                FieldState::EMPTY => {
                    assert(filled_cells(grid@, ndx + 1) =~= filled_cells(grid@, ndx as int));
                },
                FieldState::OCCUPIED => {
                    assert(filled_cells(grid@, ndx + 1) =~= filled_cells(grid@, ndx as int).insert(
                        ndx as int,
                    ));
                    cnt += 1;
                },
                FieldState::STUCK => {
                    assert(filled_cells(grid@, ndx + 1) =~= filled_cells(grid@, ndx as int).insert(
                        ndx as int,
                    ));
                    cnt += 1;
                },
            }
            ndx += 1;
        }
        cnt
    }

    /// The number of cells on which a frozen agent sits: the number of
    /// frozen agents.
    #[allow(non_snake_case)]
    pub fn getStuckCount(&self) -> (cnt: u32)
        requires
            self.wf(),
            self@.stuck_count() <= u32::MAX,
        ensures
            cnt == self@.stuck_count(),
    {
        let grid = self.get_position_hash();
        proof {
            lemma_cells_count_agents(grid@, self@);
            assert(stuck_cells(grid@, 0) =~= Set::empty());
        }
        let mut cnt: u32 = 0;
        let mut ndx: usize = 0;
        while ndx < grid.len()
            invariant
                ndx <= grid.len(),
                stuck_cells(grid@, grid.len() as int).finite(),
                stuck_cells(grid@, grid.len() as int).len() <= u32::MAX,
                stuck_cells(grid@, ndx as int).finite(),
                cnt == stuck_cells(grid@, ndx as int).len(),
            decreases grid.len() - ndx,
        {
            proof {
                lemma_len_subset(
                    stuck_cells(grid@, ndx + 1),
                    stuck_cells(grid@, grid.len() as int),
                );
            }
            match grid[ndx].state {
                FieldState::EMPTY => {
                    assert(stuck_cells(grid@, ndx + 1) =~= stuck_cells(grid@, ndx as int));
                },
                FieldState::OCCUPIED => {
                    assert(stuck_cells(grid@, ndx + 1) =~= stuck_cells(grid@, ndx as int));
                },
                FieldState::STUCK => {
                    assert(stuck_cells(grid@, ndx + 1) =~= stuck_cells(grid@, ndx as int).insert(
                        ndx as int,
                    ));
                    cnt += 1;
                },
            }
            ndx += 1;
        }
        cnt
    }
}

} // verus!
