//! What one tick makes of a field, as a function of the field and the draws.

use vstd::prelude::*;

verus! {

use crate::colorized_point::AgentState;
use crate::colorized_point::ColorizedPoint;
use crate::model::FieldView;
use crate::stuck::as_neighbor;
use crate::walk::walk;

/// What a tick has built so far: the next agent table, the coordinates that
/// are occupied by now, how many draws were used, and whether a free agent
/// was met.
pub struct TickState {
    pub agents: Seq<ColorizedPoint>,
    pub occupied: Set<(int, int)>,
    pub used: int,
    pub any_free: bool,
}

/// Whether an agent that is offered the cell `target` moves there: only
/// where the cell differs from the agent's own along both axes.
pub open spec fn moves(agent: ColorizedPoint, target: (int, int)) -> bool {
    agent.x != target.0 && agent.y != target.1
}

/// The agent after it was offered the cell `target`.
pub open spec fn offered(agent: ColorizedPoint, target: (int, int)) -> ColorizedPoint {
    if moves(agent, target) {
        agent.moved_to(target.0 as usize, target.1 as usize)
    } else {
        agent
    }
}

impl TickState {
    /// The state after `agent` joined the next table.
    pub open spec fn with_agent(self, agent: ColorizedPoint) -> TickState {
        TickState { agents: self.agents.push(agent), ..self }
    }
}

impl FieldView {
    /// The state in which a tick starts: an empty next table, every agent
    /// where it stood.
    pub open spec fn tick_start(self) -> TickState {
        TickState { agents: Seq::empty(), occupied: self.occupied(), used: 0, any_free: false }
    }

    /// Whether the tick freezes `agent`, or finds it frozen.
    pub open spec fn freezes(self, agent: ColorizedPoint) -> bool {
        agent.state == AgentState::STUCK || self.stuck_verdict(agent.x as int, agent.y as int).0
    }

    /// What a tick makes of an agent that it [`freezes`](Self::freezes): a
    /// frozen agent stays as it is, a free one is frozen against the
    /// neighbour that stuck detection names.
    pub open spec fn frozen_form(self, agent: ColorizedPoint) -> ColorizedPoint {
        if agent.state == AgentState::STUCK {
            agent
        } else {
            agent.frozen(as_neighbor(self.stuck_verdict(agent.x as int, agent.y as int).1))
        }
    }

    /// One cell of a tick. An empty cell changes nothing. A frozen agent is
    /// carried over. A free agent that stuck detection freezes is carried
    /// over frozen, in place. Any other free agent takes a random-walk step
    /// over the cells occupied by now, with the draws not yet used, and is
    /// offered the cell that the step returns. `None` where the draws run
    /// out.
    pub open spec fn tick_cell(
        self,
        tape: Seq<(bool, bool)>,
        st: TickState,
        x: int,
        y: int,
    ) -> Option<TickState> {
        match self.agent_at(x, y) {
            None => Some(st),
            Some(a) => if self.freezes(a) {
                Some(
                    TickState {
                        any_free: st.any_free || a.state == AgentState::FREE,
                        ..st.with_agent(self.frozen_form(a))
                    },
                )
            } else {
                match walk(
                    self.width as int,
                    self.height as int,
                    st.occupied,
                    x,
                    y,
                    tape,
                    st.used,
                    0,
                ) {
                    None => None,
                    Some((c, next)) => Some(
                        TickState {
                            agents: st.agents.push(offered(a, c)),
                            occupied: if moves(a, c) {
                                st.occupied.remove((x, y)).insert(c)
                            } else {
                                st.occupied
                            },
                            used: next,
                            any_free: true,
                        },
                    ),
                }
            },
        }
    }

    /// The first `rows` cells of column `x`, from the last row upwards.
    pub open spec fn tick_column(
        self,
        tape: Seq<(bool, bool)>,
        st: TickState,
        x: int,
        rows: int,
    ) -> Option<TickState>
        decreases rows,
    {
        if rows <= 0 {
            Some(st)
        } else {
            match self.tick_column(tape, st, x, rows - 1) {
                Some(s) => self.tick_cell(tape, s, x, self.height - rows),
                None => None,
            }
        }
    }

    /// The first `columns` columns of a tick, in rising order.
    pub open spec fn tick_columns(self, tape: Seq<(bool, bool)>, columns: int) -> Option<
        TickState,
    >
        decreases columns,
    {
        if columns <= 0 {
            Some(self.tick_start())
        } else {
            match self.tick_columns(tape, columns - 1) {
                Some(s) => self.tick_column(tape, s, columns - 1, self.height as int),
                None => None,
            }
        }
    }

    /// One tick with the draws of `tape`: every column in rising order, each
    /// from its last row upwards. `None` where the draws run out.
    pub open spec fn tick(self, tape: Seq<(bool, bool)>) -> Option<TickState> {
        self.tick_columns(tape, self.width as int)
    }

    /// The field after a tick that ended in `st`.
    pub open spec fn after(self, st: TickState) -> FieldView {
        self.with_agents(st.agents)
    }

    /// Whether some agent is free.
    pub open spec fn has_free(self) -> bool {
        exists|i: int|
            0 <= i < self.agents.len() && (#[trigger] self.agents[i]).state == AgentState::FREE
    }
}

/// Whether `st` is the end of a tick of the valid field `v` that leaves a
/// valid field: the occupied cells are those of the next table, a free agent
/// was met exactly if the field had one, the next table has as many agents
/// as the field had, and every agent that the tick freezes, or found
/// frozen, is in the next table in its frozen form.
pub open spec fn tick_settles(v: FieldView, tape: Seq<(bool, bool)>, st: TickState) -> bool {
    &&& v.after(st).valid()
    &&& st.occupied == v.after(st).occupied()
    &&& st.any_free == v.has_free()
    &&& st.agents.len() == v.agents.len()
    &&& 0 <= st.used <= tape.len()
    &&& forall|i: int|
        0 <= i < v.agents.len() && v.freezes(#[trigger] v.agents[i]) ==> st.agents.contains(
            v.frozen_form(v.agents[i]),
        )
}

} // verus!
