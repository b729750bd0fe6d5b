//! What holds of every field, every tick and every walk.

use vstd::prelude::*;

verus! {

use crate::colorized_point::AgentState;
use crate::colorized_point::ColorizedPoint;
use crate::counts::lemma_stuck_count_bound;
use crate::field_position::FieldPosition;
use crate::field_position::FieldState;
use crate::grid::grid_addressable;
use crate::grid::in_grid;
use crate::grid::spec_ndx;
use crate::index::paints;
use crate::model::FieldView;
use crate::model::lemma_agent_on_grid;
use crate::root::lemma_distance_is_hops;
use crate::root::lemma_reaches_root_under;
use crate::seed::can_start_from;
use crate::seed::lemma_start_is_valid;
use crate::tick::TickState;
use crate::tick::moves;
use crate::tick::offered;
use crate::tick_inv::lemma_tick_settles;
use crate::tick_inv::lemma_tick_steps_once;
use crate::walk::lemma_walk_extends;
use crate::walk::lemma_walk_target;
use crate::walk::walk;

use vstd::relations::injective_on;
use vstd::set_lib::lemma_len_subset;
use vstd::set_lib::lemma_map_size;

/// Occupancy is unique: on a valid field no two agents share a coordinate,
/// and the grid agrees with the agent table cell by cell. A cell is empty
/// exactly if no agent sits on its coordinate, and a cell that is not empty
/// holds the one agent that does, marked STUCK exactly if that agent is
/// frozen.
pub proof fn law_occupancy_unique(v: FieldView, grid: Seq<FieldPosition>)
    requires
        v.valid(),
        paints(grid, v),
    ensures
        forall|i: int, j: int|
            0 <= i < j < v.agents.len() ==> (#[trigger] v.agents[i]).pos() != (
            #[trigger] v.agents[j]).pos(),
        forall|i: int|
            0 <= i < v.agents.len() ==> (#[trigger] grid[spec_ndx(
                v.agents[i].x as int,
                v.agents[i].y as int,
                v.width as int,
            )]).agent == Some(v.agents[i]),
        forall|x: int, y: int|
            in_grid(x, y, v.width as int, v.height as int) ==> {
                let cell = #[trigger] grid[spec_ndx(x, y, v.width as int)];
                &&& cell.state == FieldState::EMPTY <==> !v.has_agent_at(x, y)
                &&& cell.state == FieldState::STUCK <==> v.stuck_at(x, y)
                &&& cell.agent == v.agent_at(x, y)
            },
{
}

/// Occupancy stays unique from tick to tick: a tick of a valid field leaves
/// a valid field, of the same dimensions and label.
pub proof fn law_tick_keeps_valid(v: FieldView, tape: Seq<(bool, bool)>)
    requires
        v.valid(),
        v.tick(tape) is Some,
    ensures
        v.after(v.tick(tape).unwrap()).valid(),
        v.after(v.tick(tape).unwrap()).width == v.width,
        v.after(v.tick(tape).unwrap()).height == v.height,
        v.after(v.tick(tape).unwrap()).canvas_id == v.canvas_id,
{
    lemma_tick_settles(v, tape);
}

/// Freezing is for good: an agent that is frozen before a tick is in the
/// field after it, on the same coordinate and unchanged.
pub proof fn law_frozen_stays_frozen(v: FieldView, tape: Seq<(bool, bool)>, i: int)
    requires
        v.valid(),
        v.tick(tape) is Some,
        0 <= i < v.agents.len(),
        v.agents[i].state == AgentState::STUCK,
    ensures
        v.after(v.tick(tape).unwrap()).agents.contains(v.agents[i]),
        v.after(v.tick(tape).unwrap()).agent_at(v.agents[i].x as int, v.agents[i].y as int)
            == Some(v.agents[i]),
{
    lemma_tick_settles(v, tape);
}

/// The sticky-neighbour references are well founded: from any agent of a
/// valid field they lead, in finitely many hops and so without a cycle, to
/// an agent that names no neighbour. The distance from the root is that
/// number of hops.
pub proof fn law_references_reach_root(v: FieldView, i: int)
    requires
        v.valid(),
        0 <= i < v.agents.len(),
    ensures
        v.anchored(v.agents[i]),
        v.hops(v.agents[i], v.distance_from_root(v.agents[i])) == Some(
            v.distance_from_root(v.agents[i]),
        ),
{
    let rank = choose|rank: spec_fn(int, int) -> nat| v.ranked(rank);
    let a = v.agents[i];
    lemma_reaches_root_under(v, rank, a);
    let fuel = v.height_under(rank, a);
    lemma_hops_tight(v, a, fuel);
}

/// A number of hops that is found is found with that much fuel.
proof fn lemma_hops_tight(v: FieldView, agent: ColorizedPoint, fuel: nat)
    requires
        v.hops(agent, fuel) is Some,
    ensures
        v.hops(agent, v.hops(agent, fuel).unwrap()) == v.hops(agent, fuel),
    decreases fuel,
{
    match agent.sticky_neighbor {
        Some(n) => {
            let b = v.agent_at(n.x as int, n.y as int).unwrap();
            lemma_hops_tight(v, b, (fuel - 1) as nat);
        },
        None => {},
    }
}

/// The far boundary freezes: a free agent on the last row is, after the
/// next tick, frozen on the same coordinate, with no sticky neighbour.
pub proof fn law_boundary_freezes(v: FieldView, tape: Seq<(bool, bool)>, i: int)
    requires
        v.valid(),
        v.tick(tape) is Some,
        0 <= i < v.agents.len(),
        v.agents[i].state == AgentState::FREE,
        v.agents[i].y + 1 == v.height,
    ensures
        v.after(v.tick(tape).unwrap()).agents.contains(v.agents[i].frozen(None)),
        v.after(v.tick(tape).unwrap()).agent_at(v.agents[i].x as int, v.agents[i].y as int)
            == Some(v.agents[i].frozen(None)),
{
    lemma_tick_settles(v, tape);
}

/// The signal of a tick: a tick says that an agent was free exactly if the
/// field had a free agent when the tick began.
pub proof fn law_signal_tells_free(v: FieldView, tape: Seq<(bool, bool)>)
    requires
        v.valid(),
        v.tick(tape) is Some,
    ensures
        v.tick(tape).unwrap().any_free == v.has_free(),
{
    lemma_tick_settles(v, tape);
}

/// Every coordinate that a walk from a cell of the grid returns lies on the
/// grid.
pub proof fn law_walk_stays_on_grid(
    width: int,
    height: int,
    occupied: Set<(int, int)>,
    x: int,
    y: int,
    tape: Seq<(bool, bool)>,
    at: int,
    tries: int,
)
    requires
        in_grid(x, y, width, height),
        0 <= at <= tape.len(),
    ensures
        match walk(width, height, occupied, x, y, tape, at, tries) {
            Some((c, next)) => in_grid(c.0, c.1, width, height),
            None => true,
        },
{
    lemma_walk_target(width, height, occupied, x, y, tape, at, tries);
}

/// A cell that differs from an agent's own along one axis only, or along
/// none, is no move: the agent that is offered it stays as it is.
pub proof fn law_one_axis_is_no_move(agent: ColorizedPoint, target: (int, int))
    requires
        target.0 == agent.x || target.1 == agent.y,
    ensures
        !moves(agent, target),
        offered(agent, target) == agent,
{
}

/// A field that starts from a list of free agents on different coordinates
/// of the grid is valid.
pub proof fn law_start_is_valid(v: FieldView)
    requires
        grid_addressable(v.width as int, v.height as int),
        can_start_from(v.agents, v.width as int, v.height as int),
    ensures
        v.valid(),
{
    lemma_start_is_valid(v);
}

/// A cell that the draws carry through comes out the same with more draws.
proof fn lemma_cell_needs_no_more(
    v: FieldView,
    tape: Seq<(bool, bool)>,
    more: Seq<(bool, bool)>,
    st: TickState,
    x: int,
    y: int,
)
    requires
        v.tick_cell(tape, st, x, y) is Some,
    ensures
        v.tick_cell(tape + more, st, x, y) == v.tick_cell(tape, st, x, y),
{
    match v.agent_at(x, y) {
        Some(a) => {
            if !v.freezes(a) {
                lemma_walk_extends(
                    v.width as int,
                    v.height as int,
                    st.occupied,
                    x,
                    y,
                    tape,
                    more,
                    st.used,
                    0,
                );
            }
        },
        None => {},
    }
}

/// So does a column.
proof fn lemma_column_needs_no_more(
    v: FieldView,
    tape: Seq<(bool, bool)>,
    more: Seq<(bool, bool)>,
    st: TickState,
    x: int,
    rows: int,
)
    requires
        v.tick_column(tape, st, x, rows) is Some,
    ensures
        v.tick_column(tape + more, st, x, rows) == v.tick_column(tape, st, x, rows),
    decreases rows,
{
    if rows > 0 {
        lemma_column_needs_no_more(v, tape, more, st, x, rows - 1);
        lemma_cell_needs_no_more(
            v,
            tape,
            more,
            v.tick_column(tape, st, x, rows - 1).unwrap(),
            x,
            v.height - rows,
        );
    }
}

/// So do the columns of a tick.
proof fn lemma_columns_need_no_more(
    v: FieldView,
    tape: Seq<(bool, bool)>,
    more: Seq<(bool, bool)>,
    columns: int,
)
    requires
        v.tick_columns(tape, columns) is Some,
    ensures
        v.tick_columns(tape + more, columns) == v.tick_columns(tape, columns),
    decreases columns,
{
    if columns > 0 {
        lemma_columns_need_no_more(v, tape, more, columns - 1);
        lemma_column_needs_no_more(
            v,
            tape,
            more,
            v.tick_columns(tape, columns - 1).unwrap(),
            columns - 1,
            v.height as int,
        );
    }
}

/// A tick that the draws of `tape` carry through comes out the same with
/// any draws added behind them: whoever ran out of draws may hand the same
/// draws again with more behind them.
pub proof fn law_more_draws_same_tick(
    v: FieldView,
    tape: Seq<(bool, bool)>,
    more: Seq<(bool, bool)>,
)
    requires
        v.tick(tape) is Some,
    ensures
        v.tick(tape + more) == v.tick(tape),
{
    lemma_columns_need_no_more(v, tape, more, v.width as int);
}

/// A column of a field without a free agent needs no draw.
proof fn lemma_settled_column(
    v: FieldView,
    tape: Seq<(bool, bool)>,
    st: TickState,
    x: int,
    rows: int,
)
    requires
        v.valid(),
        !v.has_free(),
    ensures
        v.tick_column(tape, st, x, rows) is Some,
    decreases rows,
{
    if rows > 0 {
        lemma_settled_column(v, tape, st, x, rows - 1);
    }
}

/// Nor do the columns of a tick of such a field.
proof fn lemma_settled_columns(v: FieldView, tape: Seq<(bool, bool)>, columns: int)
    requires
        v.valid(),
        !v.has_free(),
    ensures
        v.tick_columns(tape, columns) is Some,
    decreases columns,
{
    if columns > 0 {
        lemma_settled_columns(v, tape, columns - 1);
        lemma_settled_column(
            v,
            tape,
            v.tick_columns(tape, columns - 1).unwrap(),
            columns - 1,
            v.height as int,
        );
    }
}

/// Once every agent is frozen a tick needs no draw: it goes through with
/// any draws, with none as well, and says that no agent was free.
pub proof fn law_settled_field_ticks(v: FieldView, tape: Seq<(bool, bool)>)
    requires
        v.valid(),
        !v.has_free(),
    ensures
        v.tick(tape) is Some,
        !v.tick(tape).unwrap().any_free,
{
    lemma_settled_columns(v, tape, v.width as int);
    lemma_tick_settles(v, tape);
}

/// A tick neither makes nor loses an agent.
pub proof fn law_tick_keeps_agents(v: FieldView, tape: Seq<(bool, bool)>)
    requires
        v.valid(),
        v.tick(tape) is Some,
    ensures
        v.tick(tape).unwrap().agents.len() == v.agents.len(),
{
    lemma_tick_settles(v, tape);
}

/// A tick moves a walker by one cell at most: a free agent that the tick
/// does not freeze is, after the tick, where it stood or one step away
/// along both axes, still free and otherwise unchanged.
pub proof fn law_walker_steps_once(v: FieldView, tape: Seq<(bool, bool)>, i: int)
    requires
        v.valid(),
        v.tick(tape) is Some,
        0 <= i < v.agents.len(),
        !v.freezes(v.agents[i]),
    ensures
        v.agents[i].state == AgentState::FREE,
        v.tick(tape).unwrap().agents.contains(v.agents[i]) || exists|x: usize, y: usize|
            (x == v.agents[i].x + 1 || x + 1 == v.agents[i].x) && (y == v.agents[i].y + 1 || y + 1
                == v.agents[i].y) && v.tick(tape).unwrap().agents.contains(
                #[trigger] v.agents[i].moved_to(x, y),
            ),
{
    lemma_tick_steps_once(v, tape, i);
}

/// The distance from the root unfolds along the sticky-neighbour
/// references: it is 0 for an agent that names no neighbour, and one more
/// than the distance of the neighbour for an agent that names one.
pub proof fn law_distance_unfolds(v: FieldView, agent: ColorizedPoint)
    requires
        v.valid(),
        v.anchored(agent),
    ensures
        match agent.sticky_neighbor {
            Some(n) => v.agent_at(n.x as int, n.y as int) is Some && v.distance_from_root(agent)
                == v.distance_from_root(v.agent_at(n.x as int, n.y as int).unwrap()) + 1,
            None => v.distance_from_root(agent) == 0,
        },
{
    let rank = choose|rank: spec_fn(int, int) -> nat| v.ranked(rank);
    lemma_reaches_root_under(v, rank, agent);
    let fuel = v.height_under(rank, agent);
    lemma_hops_tight(v, agent, fuel);
    let d = v.hops(agent, fuel).unwrap();
    lemma_distance_is_hops(v, agent, d);
    match agent.sticky_neighbor {
        Some(n) => {
            let b = v.agent_at(n.x as int, n.y as int).unwrap();
            lemma_distance_is_hops(v, b, (d - 1) as nat);
        },
        None => {},
    }
}

/// The slot that the agent of slot `i` of the field `v` has in the field
/// `n`, by its coordinate.
pub open spec fn slot_after(v: FieldView, n: FieldView) -> spec_fn(int) -> int {
    |i: int| n.slot_at(v.agents[i].x as int, v.agents[i].y as int)
}

/// The aggregate only grows: a tick leaves no fewer frozen agents than it
/// found.
pub proof fn law_aggregate_grows(v: FieldView, tape: Seq<(bool, bool)>)
    requires
        v.valid(),
        v.tick(tape) is Some,
    ensures
        v.after(v.tick(tape).unwrap()).stuck_count() >= v.stuck_count(),
{
    let n = v.after(v.tick(tape).unwrap());
    let f = slot_after(v, n);
    let kept = v.stuck_slots().map(f);
    lemma_tick_settles(v, tape);
    lemma_stuck_count_bound(v);
    lemma_stuck_count_bound(n);
    assert forall|i: int| v.stuck_slots().contains(i) implies 0 <= #[trigger] f(i) < n.agents.len()
        && n.agents[f(i)] == v.agents[i] by {
        law_frozen_stays_frozen(v, tape, i);
        lemma_agent_on_grid(n, v.agents[i].x as int, v.agents[i].y as int);
    }
    assert(injective_on(f, v.stuck_slots())) by {
        assert forall|i: int, j: int|
            v.stuck_slots().contains(i) && v.stuck_slots().contains(j) && #[trigger] f(i)
                == #[trigger] f(j) implies i == j by {
            assert(v.agents[i].pos() == v.agents[j].pos());
        }
    }
    lemma_map_size(v.stuck_slots(), kept, f);
    assert(kept.subset_of(n.stuck_slots())) by {
        assert forall|k: int| kept.contains(k) implies n.stuck_slots().contains(k) by {
            let i = choose|i: int| v.stuck_slots().contains(i) && k == f(i);
            assert(n.agents[f(i)] == v.agents[i]);
        }
    }
    lemma_len_subset(kept, n.stuck_slots());
}

} // verus!
