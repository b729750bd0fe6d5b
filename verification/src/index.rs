//! How the position index and the grid relate to the agent table.

use vstd::prelude::*;

verus! {

use crate::colorized_point::ColorizedPoint;
use crate::field_position::FieldPosition;
use crate::grid::in_grid;
use crate::grid::spec_ndx;
use crate::model::FieldView;

/// Whether `lookup` is a table of `width` columns of `height` entries each.
pub open spec fn table_shaped(lookup: Seq<Vec<Option<usize>>>, width: int, height: int) -> bool {
    &&& lookup.len() == width
    &&& forall|x: int| 0 <= x < width ==> (#[trigger] lookup[x]).len() == height
}

/// Whether an entry of the position index names slot `i`.
pub open spec fn names(entry: Option<usize>, i: int) -> bool {
    match entry {
        Some(k) => k == i,
        None => false,
    }
}

/// Whether `lookup` is the position index of `agents`: each entry names a
/// slot whose agent sits on the entry's coordinate, and each agent is named
/// by the entry of its coordinate.
pub open spec fn indexes(
    lookup: Seq<Vec<Option<usize>>>,
    agents: Seq<ColorizedPoint>,
    width: int,
    height: int,
) -> bool {
    &&& table_shaped(lookup, width, height)
    &&& forall|x: int, y: int|
        in_grid(x, y, width, height) ==> match #[trigger] lookup[x][y] {
            Some(i) => i < agents.len() && agents[i as int].pos() == (x, y),
            None => true,
        }
    &&& forall|i: int|
        0 <= i < agents.len() ==> in_grid(
            (#[trigger] agents[i]).x as int,
            agents[i].y as int,
            width,
            height,
        ) && names(lookup[agents[i].x as int][agents[i].y as int], i)
}

/// Whether `grid` is the grid of a field in state `v`: one cell for each
/// coordinate, the home of the agent that sits there, vacant where none does.
pub open spec fn paints(grid: Seq<FieldPosition>, v: FieldView) -> bool {
    &&& grid.len() == v.width * v.height
    &&& forall|x: int, y: int|
        in_grid(x, y, v.width as int, v.height as int) ==> match v.agent_at(x, y) {
            Some(a) => (#[trigger] grid[spec_ndx(x, y, v.width as int)]).is_home_of(a),
            None => grid[spec_ndx(x, y, v.width as int)].is_vacant(),
        }
}

/// Whether `grid` shows what `lookup` indexes: one cell for each
/// coordinate, the home of the agent that the index names for it, vacant
/// where the index names none.
pub open spec fn mirrors(
    grid: Seq<FieldPosition>,
    lookup: Seq<Vec<Option<usize>>>,
    agents: Seq<ColorizedPoint>,
    width: int,
    height: int,
) -> bool {
    &&& grid.len() == width * height
    &&& forall|x: int, y: int|
        in_grid(x, y, width, height) ==> match #[trigger] lookup[x][y] {
            Some(i) => grid[spec_ndx(x, y, width)].is_home_of(agents[i as int]),
            None => grid[spec_ndx(x, y, width)].is_vacant(),
        }
}

/// A grid that shows what the position index of a field names is the grid
/// of that field.
pub proof fn lemma_mirror_paints(
    grid: Seq<FieldPosition>,
    lookup: Seq<Vec<Option<usize>>>,
    v: FieldView,
)
    requires
        indexes(lookup, v.agents, v.width as int, v.height as int),
        mirrors(grid, lookup, v.agents, v.width as int, v.height as int),
    ensures
        paints(grid, v),
{
    assert forall|x: int, y: int|
        in_grid(x, y, v.width as int, v.height as int) implies match v.agent_at(x, y) {
        Some(a) => (#[trigger] grid[spec_ndx(x, y, v.width as int)]).is_home_of(a),
        None => grid[spec_ndx(x, y, v.width as int)].is_vacant(),
    } by {
        assert(match lookup[x][y] {
            Some(i) => grid[spec_ndx(x, y, v.width as int)].is_home_of(v.agents[i as int]),
            None => grid[spec_ndx(x, y, v.width as int)].is_vacant(),
        });
    }
}

} // verus!
