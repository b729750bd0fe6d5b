//! The invariant of a tick under way, and what it yields when the tick ends.

use vstd::prelude::*;

verus! {

use crate::colorized_point::AgentState;
use crate::colorized_point::ColorizedPoint;
use crate::grid::in_grid;
use crate::grid::lemma_coordinates_fit;
use crate::model::FieldView;
use crate::model::lemma_agent_at_slot;
use crate::model::lemma_agent_on_grid;
use crate::model::lemma_contains_after_push;
use crate::model::lemma_has_after_push;
use crate::stuck::lemma_verdict_of_walker;
use crate::tick::TickState;
use crate::tick::moves;
use crate::tick::offered;
use crate::tick::tick_settles;
use crate::walk::lemma_walk_target;
use crate::walk::walk;

use vstd::set_lib::lemma_int_range;
use vstd::set_lib::set_int_range;

/// Whether a tick that has finished the columns below `x`, and `j` cells of
/// column `x`, has been through the cell `(cx, cy)`.
pub open spec fn done(v: FieldView, x: int, j: int, cx: int, cy: int) -> bool {
    in_grid(cx, cy, v.width as int, v.height as int) && (cx < x || (cx == x && cy >= v.height
        - j))
}

/// A rank for the field after a tick, made from a rank for the field before
/// it: an agent that was frozen keeps its rank, an agent that freezes
/// against a neighbour ranks one above it, and every other cell ranks 0.
pub open spec fn next_rank(v: FieldView, rank: spec_fn(int, int) -> nat) -> spec_fn(
    int,
    int,
) -> nat {
    |cx: int, cy: int|
        if v.stuck_at(cx, cy) {
            rank(cx, cy)
        } else {
            match v.stuck_verdict(cx, cy).1 {
                Some(n) => if v.stuck_at(n.0 as int, n.1 as int) {
                    rank(n.0 as int, n.1 as int) + 1
                } else {
                    1
                },
                None => 0,
            }
        }
}

/// The cell `(cx, cy)` counts as occupied exactly if an agent of the next
/// table sits on it, or an agent of the old table that the tick has not
/// reached yet.
pub open spec fn occ_ok(v: FieldView, st: TickState, x: int, j: int, cx: int, cy: int) -> bool {
    st.occupied.contains((cx, cy)) <==> (v.after(st).has_agent_at(cx, cy) || (!done(
        v,
        x,
        j,
        cx,
        cy,
    ) && v.has_agent_at(cx, cy)))
}

/// No agent of the next table sits on the cell of an agent that the tick has
/// not reached yet.
pub open spec fn apart_ok(v: FieldView, st: TickState, x: int, j: int, cx: int, cy: int) -> bool {
    v.after(st).has_agent_at(cx, cy) && v.has_agent_at(cx, cy) ==> done(v, x, j, cx, cy)
}

/// An agent of the next table names a sticky neighbour only if it is frozen,
/// and then a settled cell of the old field that ranks below its own.
pub open spec fn link_ok(v: FieldView, rank: spec_fn(int, int) -> nat, a: ColorizedPoint) -> bool {
    &&& a.state == AgentState::FREE ==> a.sticky_neighbor is None
    &&& match a.sticky_neighbor {
        Some(s) => {
            &&& in_grid(s.x as int, s.y as int, v.width as int, v.height as int)
            &&& v.settled_at(s.x as int, s.y as int)
            &&& next_rank(v, rank)(s.x as int, s.y as int) < next_rank(v, rank)(
                a.x as int,
                a.y as int,
            )
        },
        None => true,
    }
}

/// An agent that the tick has reached and freezes is in the next table, in
/// its frozen form.
pub open spec fn kept_ok(v: FieldView, st: TickState, x: int, j: int, a: ColorizedPoint) -> bool {
    done(v, x, j, a.x as int, a.y as int) && v.freezes(a) ==> st.agents.contains(
        v.frozen_form(a),
    )
}

/// Whether `a` is a free agent that the tick has reached.
pub open spec fn met_free(v: FieldView, x: int, j: int, a: ColorizedPoint) -> bool {
    a.state == AgentState::FREE && done(v, x, j, a.x as int, a.y as int)
}

/// What holds of a tick of the field `v` after the columns below `x` and
/// `j` cells of column `x`.
pub open spec fn tick_inv(
    v: FieldView,
    rank: spec_fn(int, int) -> nat,
    tape: Seq<(bool, bool)>,
    st: TickState,
    x: int,
    j: int,
) -> bool {
    &&& 0 <= st.used <= tape.len()
    &&& forall|k: int|
        0 <= k < st.agents.len() ==> in_grid(
            (#[trigger] st.agents[k]).x as int,
            st.agents[k].y as int,
            v.width as int,
            v.height as int,
        )
    &&& forall|k: int, l: int|
        0 <= k < st.agents.len() && 0 <= l < st.agents.len() && k != l ==> (
        #[trigger] st.agents[k]).pos() != (#[trigger] st.agents[l]).pos()
    &&& forall|cx: int, cy: int| #[trigger] occ_ok(v, st, x, j, cx, cy)
    &&& forall|cx: int, cy: int| #[trigger] apart_ok(v, st, x, j, cx, cy)
    &&& forall|k: int| 0 <= k < st.agents.len() ==> link_ok(v, rank, #[trigger] st.agents[k])
    &&& forall|i: int| 0 <= i < v.agents.len() ==> kept_ok(v, st, x, j, #[trigger] v.agents[i])
    &&& st.any_free <==> exists|i: int|
        0 <= i < v.agents.len() && met_free(v, x, j, #[trigger] v.agents[i])
}

/// The invariant holds when a tick starts.
pub proof fn lemma_tick_starts(
    v: FieldView,
    rank: spec_fn(int, int) -> nat,
    tape: Seq<(bool, bool)>,
)
    requires
        v.valid(),
    ensures
        tick_inv(v, rank, tape, v.tick_start(), 0, 0),
{
}

/// The invariant after a whole column is the invariant before the next one.
pub proof fn lemma_tick_next_column(
    v: FieldView,
    rank: spec_fn(int, int) -> nat,
    tape: Seq<(bool, bool)>,
    st: TickState,
    x: int,
)
    requires
        tick_inv(v, rank, tape, st, x, v.height as int),
    ensures
        tick_inv(v, rank, tape, st, x + 1, 0),
{
    let h = v.height as int;
    assert forall|cx: int, cy: int| #[trigger] occ_ok(v, st, x + 1, 0, cx, cy) by {
        assert(occ_ok(v, st, x, h, cx, cy));
    }
    assert forall|cx: int, cy: int| #[trigger] apart_ok(v, st, x + 1, 0, cx, cy) by {
        assert(apart_ok(v, st, x, h, cx, cy));
    }
}

/// A cell that holds no agent leaves the invariant as it is.
proof fn lemma_tick_cell_empty(
    v: FieldView,
    rank: spec_fn(int, int) -> nat,
    tape: Seq<(bool, bool)>,
    st: TickState,
    x: int,
    j: int,
)
    requires
        v.valid(),
        0 <= x < v.width,
        0 <= j < v.height,
        tick_inv(v, rank, tape, st, x, j),
        !v.has_agent_at(x, v.height - 1 - j),
    ensures
        tick_inv(v, rank, tape, st, x, j + 1),
{
    assert forall|cx: int, cy: int| #[trigger] occ_ok(v, st, x, j + 1, cx, cy) by {
        assert(occ_ok(v, st, x, j, cx, cy));
    }
    assert forall|cx: int, cy: int| #[trigger] apart_ok(v, st, x, j + 1, cx, cy) by {
        assert(apart_ok(v, st, x, j, cx, cy));
    }
}

/// What is needed of the agent `b` that a tick puts in the next table for
/// the agent of slot `s`, and of the occupied cells after that, for the
/// invariant to go on.
pub open spec fn cell_outcome(
    v: FieldView,
    rank: spec_fn(int, int) -> nat,
    st: TickState,
    st2: TickState,
    s: int,
    b: ColorizedPoint,
) -> bool {
    let a = v.agents[s];
    &&& st2.agents == st.agents.push(b)
    &&& in_grid(b.x as int, b.y as int, v.width as int, v.height as int)
    &&& link_ok(v, rank, b)
    &&& v.freezes(a) ==> b == v.frozen_form(a)
    &&& st2.any_free == (st.any_free || a.state == AgentState::FREE)
    &&& if b.pos() == a.pos() {
        st2.occupied == st.occupied
    } else {
        &&& !st.occupied.contains(b.pos())
        &&& st2.occupied == st.occupied.remove(a.pos()).insert(b.pos())
    }
}

/// A cell whose agent goes to the next table as `b` keeps the invariant.
proof fn lemma_tick_cell_agent(
    v: FieldView,
    rank: spec_fn(int, int) -> nat,
    tape: Seq<(bool, bool)>,
    st: TickState,
    st2: TickState,
    x: int,
    j: int,
    s: int,
    b: ColorizedPoint,
)
    requires
        v.valid(),
        0 <= x < v.width,
        0 <= j < v.height,
        tick_inv(v, rank, tape, st, x, j),
        0 <= s < v.agents.len(),
        v.agents[s].pos() == (x, v.height - 1 - j),
        cell_outcome(v, rank, st, st2, s, b),
        st.used <= st2.used <= tape.len(),
    ensures
        tick_inv(v, rank, tape, st2, x, j + 1),
{
    let y = v.height - 1 - j;
    let a = v.agents[s];
    let p = b.pos();
    lemma_agent_at_slot(v, s);
    assert(!done(v, x, j, x, y));
    assert(done(v, x, j + 1, x, y));
    assert(apart_ok(v, st, x, j, x, y));
    assert(occ_ok(v, st, x, j, p.0, p.1));
    assert(occ_ok(v, st, x, j, x, y));
    assert(apart_ok(v, st, x, j, p.0, p.1));
    // no agent of the next table sits where `b` goes
    assert(!v.after(st).has_agent_at(p.0, p.1));
    assert forall|k: int| 0 <= k < st.agents.len() implies (#[trigger] st.agents[k]).pos() != p by {
        assert(v.after(st).agents[k] == st.agents[k]);
    }
    assert forall|k: int, l: int|
        0 <= k < st2.agents.len() && 0 <= l < st2.agents.len() && k != l implies (
        #[trigger] st2.agents[k]).pos() != (#[trigger] st2.agents[l]).pos() by {
        if k < st.agents.len() {
            assert(st2.agents[k] == st.agents[k]);
        }
        if l < st.agents.len() {
            assert(st2.agents[l] == st.agents[l]);
        }
    }
    assert forall|k: int| 0 <= k < st2.agents.len() implies in_grid(
        (#[trigger] st2.agents[k]).x as int,
        st2.agents[k].y as int,
        v.width as int,
        v.height as int,
    ) && link_ok(v, rank, st2.agents[k]) by {
        if k < st.agents.len() {
            assert(st2.agents[k] == st.agents[k]);
        }
    }
    assert forall|cx: int, cy: int| #[trigger] occ_ok(v, st2, x, j + 1, cx, cy) by {
        assert(occ_ok(v, st, x, j, cx, cy));
        lemma_has_after_push(v, st.agents, b, cx, cy);
        if v.has_agent_at(cx, cy) {
            lemma_agent_on_grid(v, cx, cy);
        }
    }
    assert forall|cx: int, cy: int| #[trigger] apart_ok(v, st2, x, j + 1, cx, cy) by {
        assert(apart_ok(v, st, x, j, cx, cy));
        lemma_has_after_push(v, st.agents, b, cx, cy);
    }
    assert forall|i: int| 0 <= i < v.agents.len() implies kept_ok(
        v,
        st2,
        x,
        j + 1,
        #[trigger] v.agents[i],
    ) by {
        assert(kept_ok(v, st, x, j, v.agents[i]));
        lemma_contains_after_push(st.agents, b, v.frozen_form(v.agents[i]));
        if i != s {
            assert(v.agents[i].pos() != v.agents[s].pos());
        }
    }
    if st.any_free {
        let i = choose|i: int| 0 <= i < v.agents.len() && met_free(v, x, j, #[trigger] v.agents[i]);
        assert(met_free(v, x, j + 1, v.agents[i]));
    }
    if a.state == AgentState::FREE {
        assert(met_free(v, x, j + 1, v.agents[s]));
    }
    if exists|i: int| 0 <= i < v.agents.len() && met_free(v, x, j + 1, #[trigger] v.agents[i]) {
        let i = choose|i: int|
            0 <= i < v.agents.len() && met_free(v, x, j + 1, #[trigger] v.agents[i]);
        if i != s {
            assert(v.agents[i].pos() != v.agents[s].pos());
            assert(met_free(v, x, j, v.agents[i]));
        }
    }
}

/// A frozen agent of a valid field satisfies what the invariant asks of the
/// agents of the next table.
proof fn lemma_link_of_stuck(v: FieldView, rank: spec_fn(int, int) -> nat, s: int)
    requires
        v.valid(),
        v.ranked(rank),
        0 <= s < v.agents.len(),
        v.agents[s].state == AgentState::STUCK,
    ensures
        link_ok(v, rank, v.agents[s]),
{
}

/// A free agent that the tick freezes satisfies, in its frozen form, what
/// the invariant asks of the agents of the next table.
proof fn lemma_link_of_frozen(v: FieldView, rank: spec_fn(int, int) -> nat, s: int)
    requires
        v.valid(),
        0 <= s < v.agents.len(),
        v.agents[s].state == AgentState::FREE,
    ensures
        link_ok(v, rank, v.frozen_form(v.agents[s])),
{
    let a = v.agents[s];
    let (x, y) = (a.x as int, a.y as int);
    lemma_verdict_of_walker(v, s);
}

/// One cell of a tick keeps the invariant.
pub proof fn lemma_tick_cell(
    v: FieldView,
    rank: spec_fn(int, int) -> nat,
    tape: Seq<(bool, bool)>,
    st: TickState,
    x: int,
    j: int,
)
    requires
        v.valid(),
        v.ranked(rank),
        0 <= x < v.width,
        0 <= j < v.height,
        tick_inv(v, rank, tape, st, x, j),
        v.tick_cell(tape, st, x, v.height - 1 - j) is Some,
    ensures
        tick_inv(v, rank, tape, v.tick_cell(tape, st, x, v.height - 1 - j).unwrap(), x, j + 1),
{
    let y = v.height - 1 - j;
    let st2 = v.tick_cell(tape, st, x, y).unwrap();
    if !v.has_agent_at(x, y) {
        lemma_tick_cell_empty(v, rank, tape, st, x, j);
    } else {
        let s = v.slot_at(x, y);
        let a = v.agents[s];
        if v.freezes(a) {
            let b = v.frozen_form(a);
            if a.state == AgentState::STUCK {
                lemma_link_of_stuck(v, rank, s);
            } else {
                lemma_link_of_frozen(v, rank, s);
            }
            lemma_tick_cell_agent(v, rank, tape, st, st2, x, j, s, b);
        } else {
            let w = walk(v.width as int, v.height as int, st.occupied, x, y, tape, st.used, 0);
            let (c, next) = w.unwrap();
            lemma_walk_target(v.width as int, v.height as int, st.occupied, x, y, tape, st.used, 0);
            let b = offered(a, c);
            if moves(a, c) {
                lemma_coordinates_fit(c.0, c.1, v.width as int, v.height as int);
            } else {
                assert(st2.occupied == st.occupied);
            }
            lemma_tick_cell_agent(v, rank, tape, st, st2, x, j, s, b);
        }
    }
}

/// The cells of one column keep the invariant.
pub proof fn lemma_tick_column(
    v: FieldView,
    rank: spec_fn(int, int) -> nat,
    tape: Seq<(bool, bool)>,
    st: TickState,
    x: int,
    rows: int,
)
    requires
        v.valid(),
        v.ranked(rank),
        0 <= x < v.width,
        0 <= rows <= v.height,
        tick_inv(v, rank, tape, st, x, 0),
        v.tick_column(tape, st, x, rows) is Some,
    ensures
        tick_inv(v, rank, tape, v.tick_column(tape, st, x, rows).unwrap(), x, rows),
    decreases rows,
{
    if rows > 0 {
        lemma_tick_column(v, rank, tape, st, x, rows - 1);
        let s = v.tick_column(tape, st, x, rows - 1).unwrap();
        lemma_tick_cell(v, rank, tape, s, x, rows - 1);
    }
}

/// The columns of a tick keep the invariant.
pub proof fn lemma_tick_columns(
    v: FieldView,
    rank: spec_fn(int, int) -> nat,
    tape: Seq<(bool, bool)>,
    columns: int,
)
    requires
        v.valid(),
        v.ranked(rank),
        0 <= columns <= v.width,
        v.tick_columns(tape, columns) is Some,
    ensures
        tick_inv(v, rank, tape, v.tick_columns(tape, columns).unwrap(), columns, 0),
    decreases columns,
{
    if columns > 0 {
        lemma_tick_columns(v, rank, tape, columns - 1);
        let s = v.tick_columns(tape, columns - 1).unwrap();
        lemma_tick_column(v, rank, tape, s, columns - 1, v.height as int);
        lemma_tick_next_column(
            v,
            rank,
            tape,
            v.tick_column(tape, s, columns - 1, v.height as int).unwrap(),
            columns - 1,
        );
    } else {
        lemma_tick_starts(v, rank, tape);
    }
}

/// At the end of a tick every sticky neighbour of the next table is the
/// coordinate of a frozen agent of that table, and ranks below the agent
/// that names it.
proof fn lemma_end_ranked(
    v: FieldView,
    rank: spec_fn(int, int) -> nat,
    tape: Seq<(bool, bool)>,
    st: TickState,
    k: int,
)
    requires
        v.valid(),
        tick_inv(v, rank, tape, st, v.width as int, 0),
        0 <= k < st.agents.len(),
    ensures
        match st.agents[k].sticky_neighbor {
            Some(s) => v.after(st).stuck_at(s.x as int, s.y as int) && next_rank(v, rank)(
                s.x as int,
                s.y as int,
            ) < next_rank(v, rank)(st.agents[k].x as int, st.agents[k].y as int),
            None => true,
        },
{
}

/// At the end of a tick the occupied cells are those of the next table.
proof fn lemma_end_occupied(
    v: FieldView,
    rank: spec_fn(int, int) -> nat,
    tape: Seq<(bool, bool)>,
    st: TickState,
)
    requires
        v.valid(),
        tick_inv(v, rank, tape, st, v.width as int, 0),
    ensures
        st.occupied == v.after(st).occupied(),
{
    let n = v.after(st);
    let w = v.width as int;
    assert forall|c: (int, int)| st.occupied.contains(c) == n.occupied().contains(c) by {
        assert(occ_ok(v, st, w, 0, c.0, c.1));
    }
}

/// The invariant at the end of a tick makes the field that the tick leaves
/// valid.
pub proof fn lemma_tick_inv_settles(
    v: FieldView,
    rank: spec_fn(int, int) -> nat,
    tape: Seq<(bool, bool)>,
    st: TickState,
)
    requires
        v.valid(),
        tick_inv(v, rank, tape, st, v.width as int, 0),
        v.tick(tape) == Some(st),
    ensures
        tick_settles(v, tape, st),
        v.after(st).ranked(next_rank(v, rank)),
{
    let n = v.after(st);
    lemma_tick_keeps_count(v, tape);
    assert(n.ranked(next_rank(v, rank))) by {
        assert forall|k: int| 0 <= k < n.agents.len() implies match (
        #[trigger] n.agents[k]).sticky_neighbor {
            Some(s) => n.stuck_at(s.x as int, s.y as int) && next_rank(v, rank)(
                s.x as int,
                s.y as int,
            ) < next_rank(v, rank)(n.agents[k].x as int, n.agents[k].y as int),
            None => true,
        } by {
            lemma_end_ranked(v, rank, tape, st, k);
        }
    }
    lemma_end_occupied(v, rank, tape, st);
}

/// A tick of a valid field leaves a valid field.
pub proof fn lemma_tick_settles(v: FieldView, tape: Seq<(bool, bool)>)
    requires
        v.valid(),
        v.tick(tape) is Some,
    ensures
        tick_settles(v, tape, v.tick(tape).unwrap()),
{
    let rank = choose|rank: spec_fn(int, int) -> nat| v.ranked(rank);
    lemma_tick_columns(v, rank, tape, v.width as int);
    lemma_tick_inv_settles(v, rank, tape, v.tick(tape).unwrap());
}

/// The slots of the agents that a tick has been through, after the columns
/// below `x` and `j` cells of column `x`.
pub open spec fn reached_slots(v: FieldView, x: int, j: int) -> Set<int> {
    Set::new(
        |i: int|
            0 <= i < v.agents.len() && done(v, x, j, v.agents[i].x as int, v.agents[i].y as int),
    )
}

/// The next table holds one agent for each agent that the tick has been
/// through.
pub open spec fn counted(v: FieldView, st: TickState, x: int, j: int) -> bool {
    reached_slots(v, x, j).finite() && st.agents.len() == reached_slots(v, x, j).len()
}

/// One cell of a tick keeps the count.
proof fn lemma_count_cell(v: FieldView, tape: Seq<(bool, bool)>, st: TickState, x: int, j: int)
    requires
        v.valid(),
        0 <= x < v.width,
        0 <= j < v.height,
        counted(v, st, x, j),
        v.tick_cell(tape, st, x, v.height - 1 - j) is Some,
    ensures
        counted(v, v.tick_cell(tape, st, x, v.height - 1 - j).unwrap(), x, j + 1),
{
    let y = v.height - 1 - j;
    if v.has_agent_at(x, y) {
        let s = v.slot_at(x, y);
        assert(reached_slots(v, x, j + 1) =~= reached_slots(v, x, j).insert(s));
    } else {
        assert(reached_slots(v, x, j + 1) =~= reached_slots(v, x, j));
    }
}

/// So do the cells of one column.
proof fn lemma_count_column(
    v: FieldView,
    tape: Seq<(bool, bool)>,
    st: TickState,
    x: int,
    rows: int,
)
    requires
        v.valid(),
        0 <= x < v.width,
        0 <= rows <= v.height,
        counted(v, st, x, 0),
        v.tick_column(tape, st, x, rows) is Some,
    ensures
        counted(v, v.tick_column(tape, st, x, rows).unwrap(), x, rows),
    decreases rows,
{
    if rows > 0 {
        lemma_count_column(v, tape, st, x, rows - 1);
        lemma_count_cell(v, tape, v.tick_column(tape, st, x, rows - 1).unwrap(), x, rows - 1);
    }
}

/// So do the columns of a tick.
proof fn lemma_count_columns(v: FieldView, tape: Seq<(bool, bool)>, columns: int)
    requires
        v.valid(),
        0 <= columns <= v.width,
        v.tick_columns(tape, columns) is Some,
    ensures
        counted(v, v.tick_columns(tape, columns).unwrap(), columns, 0),
    decreases columns,
{
    if columns > 0 {
        lemma_count_columns(v, tape, columns - 1);
        let s = v.tick_columns(tape, columns - 1).unwrap();
        lemma_count_column(v, tape, s, columns - 1, v.height as int);
        assert(reached_slots(v, columns, 0) =~= reached_slots(v, columns - 1, v.height as int));
    } else {
        assert(reached_slots(v, 0, 0) =~= Set::empty());
    }
}

/// A tick neither makes nor loses an agent.
pub proof fn lemma_tick_keeps_count(v: FieldView, tape: Seq<(bool, bool)>)
    requires
        v.valid(),
        v.tick(tape) is Some,
    ensures
        v.tick(tape).unwrap().agents.len() == v.agents.len(),
{
    lemma_count_columns(v, tape, v.width as int);
    lemma_int_range(0, v.agents.len() as int);
    assert(reached_slots(v, v.width as int, 0) =~= set_int_range(0, v.agents.len() as int));
}

/// Whether the table `agents` holds `a` where it stood, or one step away
/// along both axes, and otherwise as it was.
pub open spec fn holds_step_of(agents: Seq<ColorizedPoint>, a: ColorizedPoint) -> bool {
    ||| agents.contains(a)
    ||| exists|x: usize, y: usize|
        (x == a.x + 1 || x + 1 == a.x) && (y == a.y + 1 || y + 1 == a.y) && agents.contains(
            #[trigger] a.moved_to(x, y),
        )
}

/// An agent that the tick has reached and does not freeze is in the next
/// table, where it stood or one step away along both axes.
pub open spec fn stepped_ok(
    v: FieldView,
    st: TickState,
    x: int,
    j: int,
    a: ColorizedPoint,
) -> bool {
    done(v, x, j, a.x as int, a.y as int) && !v.freezes(a) ==> holds_step_of(st.agents, a)
}

/// Every agent that the tick has reached and does not freeze is in the next
/// table, where it stood or one step away along both axes.
pub open spec fn stepped(v: FieldView, st: TickState, x: int, j: int) -> bool {
    forall|i: int| 0 <= i < v.agents.len() ==> stepped_ok(v, st, x, j, #[trigger] v.agents[i])
}

/// A table with one more agent still holds the steps that it held.
proof fn lemma_step_kept(agents: Seq<ColorizedPoint>, b: ColorizedPoint, a: ColorizedPoint)
    requires
        holds_step_of(agents, a),
    ensures
        holds_step_of(agents.push(b), a),
{
    if agents.contains(a) {
        lemma_contains_after_push(agents, b, a);
    } else {
        let (x, y) = choose|x: usize, y: usize|
            (x == a.x + 1 || x + 1 == a.x) && (y == a.y + 1 || y + 1 == a.y) && agents.contains(
                #[trigger] a.moved_to(x, y),
            );
        lemma_contains_after_push(agents, b, a.moved_to(x, y));
    }
}

/// One cell of a tick keeps the steps.
proof fn lemma_stepped_cell(v: FieldView, tape: Seq<(bool, bool)>, st: TickState, x: int, j: int)
    requires
        v.valid(),
        0 <= x < v.width,
        0 <= j < v.height,
        stepped(v, st, x, j),
        v.tick_cell(tape, st, x, v.height - 1 - j) is Some,
    ensures
        stepped(v, v.tick_cell(tape, st, x, v.height - 1 - j).unwrap(), x, j + 1),
{
    let y = v.height - 1 - j;
    let st2 = v.tick_cell(tape, st, x, y).unwrap();
    if v.has_agent_at(x, y) {
        let s = v.slot_at(x, y);
        let a = v.agents[s];
        let b = st2.agents[st.agents.len() as int];
        if !v.freezes(a) {
            let w = walk(v.width as int, v.height as int, st.occupied, x, y, tape, st.used, 0);
            let (c, next) = w.unwrap();
            lemma_walk_target(v.width as int, v.height as int, st.occupied, x, y, tape, st.used, 0);
            if moves(a, c) {
                lemma_coordinates_fit(c.0, c.1, v.width as int, v.height as int);
            }
        }
        assert forall|i: int| 0 <= i < v.agents.len() implies stepped_ok(
            v,
            st2,
            x,
            j + 1,
            #[trigger] v.agents[i],
        ) by {
            if i != s {
                if holds_step_of(st.agents, v.agents[i]) {
                    lemma_step_kept(st.agents, b, v.agents[i]);
                }
            }
        }
    } else {
        assert forall|i: int| 0 <= i < v.agents.len() implies stepped_ok(
            v,
            st2,
            x,
            j + 1,
            #[trigger] v.agents[i],
        ) by {
            assert(v.agents[i].pos() != (x, y));
        }
    }
}

/// So do the cells of one column.
proof fn lemma_stepped_column(
    v: FieldView,
    tape: Seq<(bool, bool)>,
    st: TickState,
    x: int,
    rows: int,
)
    requires
        v.valid(),
        0 <= x < v.width,
        0 <= rows <= v.height,
        stepped(v, st, x, 0),
        v.tick_column(tape, st, x, rows) is Some,
    ensures
        stepped(v, v.tick_column(tape, st, x, rows).unwrap(), x, rows),
    decreases rows,
{
    if rows > 0 {
        lemma_stepped_column(v, tape, st, x, rows - 1);
        lemma_stepped_cell(v, tape, v.tick_column(tape, st, x, rows - 1).unwrap(), x, rows - 1);
    }
}

/// So do the columns of a tick.
proof fn lemma_stepped_columns(v: FieldView, tape: Seq<(bool, bool)>, columns: int)
    requires
        v.valid(),
        0 <= columns <= v.width,
        v.tick_columns(tape, columns) is Some,
    ensures
        stepped(v, v.tick_columns(tape, columns).unwrap(), columns, 0),
    decreases columns,
{
    if columns > 0 {
        lemma_stepped_columns(v, tape, columns - 1);
        let s = v.tick_columns(tape, columns - 1).unwrap();
        lemma_stepped_column(v, tape, s, columns - 1, v.height as int);
    }
}

/// A tick takes every agent that it does not freeze at most one step, along
/// both axes at once.
pub proof fn lemma_tick_steps_once(v: FieldView, tape: Seq<(bool, bool)>, i: int)
    requires
        v.valid(),
        v.tick(tape) is Some,
        0 <= i < v.agents.len(),
        !v.freezes(v.agents[i]),
    ensures
        holds_step_of(v.tick(tape).unwrap().agents, v.agents[i]),
{
    lemma_stepped_columns(v, tape, v.width as int);
}

} // verus!
