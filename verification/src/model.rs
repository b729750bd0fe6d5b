//! The mathematical state of a field, and what makes it valid.

use vstd::prelude::*;

verus! {

use crate::colorized_point::AgentState;
use crate::colorized_point::ColorizedPoint;
use crate::grid::grid_addressable;
use crate::grid::in_grid;

/// The mathematical state of a field: its dimensions, its label, and its
/// agents in table order. Grid and position index are functions of these.
pub struct FieldView {
    pub width: nat,
    pub height: nat,
    pub canvas_id: Seq<char>,
    pub agents: Seq<ColorizedPoint>,
}

impl FieldView {
    /// Whether some agent sits on `(x, y)`.
    pub open spec fn has_agent_at(self, x: int, y: int) -> bool {
        exists|i: int| 0 <= i < self.agents.len() && (#[trigger] self.agents[i]).pos() == (x, y)
    }

    /// The table slot of an agent that sits on `(x, y)`.
    pub open spec fn slot_at(self, x: int, y: int) -> int {
        choose|i: int| 0 <= i < self.agents.len() && (#[trigger] self.agents[i]).pos() == (x, y)
    }

    /// The agent that sits on `(x, y)`, if any.
    pub open spec fn agent_at(self, x: int, y: int) -> Option<ColorizedPoint> {
        if self.has_agent_at(x, y) {
            Some(self.agents[self.slot_at(x, y)])
        } else {
            None
        }
    }

    /// Whether a frozen agent sits on `(x, y)`.
    pub open spec fn stuck_at(self, x: int, y: int) -> bool {
        exists|i: int|
            0 <= i < self.agents.len() && (#[trigger] self.agents[i]).pos() == (x, y)
                && self.agents[i].state == AgentState::STUCK
    }

    /// The coordinates on which an agent sits.
    pub open spec fn occupied(self) -> Set<(int, int)> {
        Set::new(|c: (int, int)| self.has_agent_at(c.0, c.1))
    }

    /// The table slots that hold a frozen agent.
    pub open spec fn stuck_slots(self) -> Set<int> {
        Set::new(
            |i: int| 0 <= i < self.agents.len() && self.agents[i].state == AgentState::STUCK,
        )
    }

    /// How many agents are frozen.
    pub open spec fn stuck_count(self) -> nat {
        self.stuck_slots().len()
    }

    /// Whether `rank` falls along every sticky-neighbour reference, and every
    /// such reference names the coordinate of a frozen agent.
    pub open spec fn ranked(self, rank: spec_fn(int, int) -> nat) -> bool {
        forall|i: int|
            0 <= i < self.agents.len() ==> match (#[trigger] self.agents[i]).sticky_neighbor {
                Some(n) => self.stuck_at(n.x as int, n.y as int) && rank(n.x as int, n.y as int)
                    < rank(self.agents[i].x as int, self.agents[i].y as int),
                None => true,
            }
    }

    /// The invariant of a field: the grid is addressable, every agent is on
    /// the grid, no two agents share a coordinate, only frozen agents name a
    /// sticky neighbour, and the sticky-neighbour references are well founded.
    pub open spec fn valid(self) -> bool {
        &&& grid_addressable(self.width as int, self.height as int)
        &&& forall|i: int|
            0 <= i < self.agents.len() ==> in_grid(
                (#[trigger] self.agents[i]).x as int,
                self.agents[i].y as int,
                self.width as int,
                self.height as int,
            )
        &&& forall|i: int, j: int|
            0 <= i < self.agents.len() && 0 <= j < self.agents.len() && i != j ==> (
            #[trigger] self.agents[i]).pos() != (#[trigger] self.agents[j]).pos()
        &&& forall|i: int|
            0 <= i < self.agents.len() && (#[trigger] self.agents[i]).state == AgentState::FREE
                ==> self.agents[i].sticky_neighbor is None
        &&& exists|rank: spec_fn(int, int) -> nat| self.ranked(rank)
    }

    /// The same field with another agent table.
    pub open spec fn with_agents(self, agents: Seq<ColorizedPoint>) -> FieldView {
        FieldView { agents, ..self }
    }
}

/// On a valid field the agent at a coordinate is the one whose slot holds
/// that coordinate.
pub proof fn lemma_agent_at_slot(v: FieldView, i: int)
    requires
        v.valid(),
        0 <= i < v.agents.len(),
    ensures
        v.has_agent_at(v.agents[i].x as int, v.agents[i].y as int),
        v.slot_at(v.agents[i].x as int, v.agents[i].y as int) == i,
        v.agent_at(v.agents[i].x as int, v.agents[i].y as int) == Some(v.agents[i]),
{
}

/// An agent sits on a coordinate of a valid field only if the coordinate is
/// on the grid.
pub proof fn lemma_agent_on_grid(v: FieldView, x: int, y: int)
    requires
        v.valid(),
        v.has_agent_at(x, y),
    ensures
        in_grid(x, y, v.width as int, v.height as int),
        0 <= v.slot_at(x, y) < v.agents.len(),
        v.agents[v.slot_at(x, y)].pos() == (x, y),
        v.agent_at(x, y) == Some(v.agents[v.slot_at(x, y)]),
{
}

/// An agent sits on a coordinate of the table with one more agent exactly if
/// it sat there before or the new agent does.
pub proof fn lemma_has_after_push(
    v: FieldView,
    agents: Seq<ColorizedPoint>,
    b: ColorizedPoint,
    cx: int,
    cy: int,
)
    ensures
        v.with_agents(agents.push(b)).has_agent_at(cx, cy) <==> (v.with_agents(
            agents,
        ).has_agent_at(cx, cy) || b.pos() == (cx, cy)),
{
    let before = v.with_agents(agents);
    let after = v.with_agents(agents.push(b));
    if before.has_agent_at(cx, cy) {
        let k = before.slot_at(cx, cy);
        assert(after.agents[k] == before.agents[k]);
    }
    if b.pos() == (cx, cy) {
        assert(after.agents[agents.len() as int] == b);
    }
    if after.has_agent_at(cx, cy) {
        let k = after.slot_at(cx, cy);
        if k < agents.len() {
            assert(before.agents[k] == after.agents[k]);
        }
    }
}

/// A table with one more agent holds what it held before, and the new agent.
pub proof fn lemma_contains_after_push(
    agents: Seq<ColorizedPoint>,
    b: ColorizedPoint,
    a: ColorizedPoint,
)
    ensures
        agents.contains(a) || a == b ==> agents.push(b).contains(a),
{
    if agents.contains(a) {
        let k = choose|k: int| 0 <= k < agents.len() && agents[k] == a;
        assert(agents.push(b)[k] == a);
    }
    if a == b {
        assert(agents.push(b)[agents.len() as int] == a);
    }
}

} // verus!
