//! What to paint of a grid.

use vstd::prelude::*;

verus! {

use crate::field_position::FieldPosition;
use crate::field_position::FieldState;
use crate::grid::lemma_cell_has_coordinate;
use crate::grid::spec_ndx;
use crate::index::paints;
use crate::model::FieldView;

use vstd::arithmetic::div_mod::lemma_fundamental_div_mod;
use vstd::arithmetic::div_mod::lemma_multiply_divide_lt;

/// Where the cell `k` of a grid is painted on a canvas of the given size:
/// as many steps to the right as the canvas's height goes into `k`, and as
/// many steps down as is left of `k` after the canvas's width.
pub open spec fn mark_of(k: int, width: int, height: int) -> (u32, u32) {
    ((k / height) as u32, (k % width) as u32)
}

/// The marks for the first `upto` cells of `grid`, in the order of the
/// cells: one for each cell that is not empty.
pub open spec fn marks_of(grid: Seq<FieldPosition>, width: int, height: int, upto: int) -> Seq<
    (u32, u32),
>
    decreases upto,
{
    if upto <= 0 {
        Seq::empty()
    } else {
        let before = marks_of(grid, width, height, upto - 1);
        if grid[upto - 1].state != FieldState::EMPTY {
            before.push(mark_of(upto - 1, width, height))
        } else {
            before
        }
    }
}

/// The painter of a field.
pub struct DLAFieldRenders {}

impl DLAFieldRenders {
    /// The marks to paint for the grid `position_hash` on a canvas of the
    /// given size: one for each cell on which an agent sits, frozen or not,
    /// in the order of the cells.
    pub fn marks(position_hash: &Vec<FieldPosition>, width: u32, height: u32) -> (marks: Vec<
        (u32, u32),
    >)
        requires
            width > 0,
            height > 0,
            position_hash.len() <= u32::MAX,
        ensures
            marks@ == marks_of(position_hash@, width as int, height as int, position_hash.len() as int),
    {
        let mut marks: Vec<(u32, u32)> = Vec::new();
        let cells: u32 = position_hash.len() as u32;
        let mut ndx: u32 = 0;
        while ndx < cells
            invariant
                width > 0,
                height > 0,
                cells == position_hash.len(),
                ndx <= cells,
                marks@ == marks_of(position_hash@, width as int, height as int, ndx as int),
            decreases cells - ndx,
        {
            let y = ndx % width;
            let x = ndx / height;
            let position: FieldPosition = position_hash[ndx as usize];
            match position.state {
                FieldState::EMPTY => {},
                FieldState::STUCK => {
                    marks.push((x, y));
                },
                FieldState::OCCUPIED => {
                    marks.push((x, y));
                },
            }
            ndx += 1;
        }
        marks
    }
}

/// On a canvas of the size of a square field the marks are the coordinates
/// of the agents: every mark is the coordinate of an agent, and every agent
/// has its mark.
pub proof fn law_marks_are_agents(grid: Seq<FieldPosition>, v: FieldView, upto: int)
    requires
        v.valid(),
        paints(grid, v),
        v.width == v.height,
        v.width <= u32::MAX,
        0 <= upto <= grid.len(),
    ensures
        forall|m: (u32, u32)| #[trigger]
            marks_of(grid, v.width as int, v.height as int, upto).contains(m) ==> v.has_agent_at(
                m.0 as int,
                m.1 as int,
            ),
        forall|i: int|
            0 <= i < v.agents.len() && spec_ndx(
                v.agents[i].x as int,
                v.agents[i].y as int,
                v.width as int,
            ) < upto ==> marks_of(grid, v.width as int, v.height as int, upto).contains(
                ((#[trigger] v.agents[i]).x as u32, v.agents[i].y as u32),
            ),
    decreases upto,
{
    let w = v.width as int;
    if upto > 0 {
        law_marks_are_agents(grid, v, upto - 1);
        let k = upto - 1;
        let before = marks_of(grid, w, w, k);
        let after = marks_of(grid, w, w, upto);
        let c = lemma_cell_has_coordinate(k, w, w);
        lemma_fundamental_div_mod(k, w);
        lemma_multiply_divide_lt(k, w, w);
        assert(c == (k / w, k % w)) by {
            assert(spec_ndx(k / w, k % w, w) == k) by (nonlinear_arith)
                requires
                    k == w * (k / w) + k % w,
            ;
        }
        assert forall|m: (u32, u32)| #[trigger] after.contains(m) implies v.has_agent_at(
            m.0 as int,
            m.1 as int,
        ) by {
            if !before.contains(m) {
                // then `m` is the mark of the cell `k`
                let e = choose|e: int| 0 <= e < after.len() && after[e] == m;
                assert(e == before.len());
            }
        }
        assert forall|i: int|
            0 <= i < v.agents.len() && spec_ndx(v.agents[i].x as int, v.agents[i].y as int, w)
                < upto implies after.contains(
            ((#[trigger] v.agents[i]).x as u32, v.agents[i].y as u32),
        ) by {
            let a = v.agents[i];
            let m = (a.x as u32, a.y as u32);
            if spec_ndx(a.x as int, a.y as int, w) == k {
                assert(after[before.len() as int] == m);
            } else {
                let e = choose|e: int| 0 <= e < before.len() && before[e] == m;
                assert(after[e] == m);
            }
        }
    }
}

} // verus!
