//! One tick of the simulation.

use vstd::prelude::*;

verus! {

use crate::DLAField;
use crate::colorized_point::AgentState;
use crate::colorized_point::ColorizedPoint;
use crate::colorized_point::StickyNeighbor;
use crate::field_position::FieldPosition;
use crate::field_position::FieldState;
use crate::grid::in_grid;
use crate::grid::spec_ndx;
use crate::index::indexes;
use crate::index::paints;
use crate::index::table_shaped;
use crate::laws::law_settled_field_ticks;
use crate::model::FieldView;
use crate::tick::TickState;
use crate::tick::tick_settles;
use crate::tick_inv::apart_ok;
use crate::tick_inv::done;
use crate::tick_inv::lemma_tick_cell;
use crate::tick_inv::lemma_tick_inv_settles;
use crate::tick_inv::lemma_tick_next_column;
use crate::tick_inv::tick_inv;
use crate::walk::lemma_walk_target;
use crate::walk::occupancy;

/// The next generation of a field while a tick builds it: the next agent
/// table with its position index, the grid as the tick has changed it, the
/// number of draws used, and whether a free agent was met.
struct Generation {
    agents: Vec<ColorizedPoint>,
    lookup: Vec<Vec<Option<usize>>>,
    grid: Vec<FieldPosition>,
    used: usize,
    any_free: bool,
}

impl Generation {
    /// The state of the tick that this generation stands for.
    spec fn state(&self, width: int, height: int) -> TickState {
        TickState {
            agents: self.agents@,
            occupied: occupancy(self.grid@, width, height),
            used: self.used as int,
            any_free: self.any_free,
        }
    }
}

/// The grid of a field holds an agent's home on every occupied cell, and on
/// no other.
proof fn lemma_painted_occupancy(grid: Seq<FieldPosition>, v: FieldView)
    requires
        v.valid(),
        paints(grid, v),
    ensures
        occupancy(grid, v.width as int, v.height as int) == v.occupied(),
{
}

impl DLAField {
    /// What the cell `(cx, cy)` of the grid holds while a tick is under way:
    /// the home of the agent of the next table that sits there; else, where
    /// the tick has not been yet, what it held before the tick; else nothing.
    spec fn cell_ok(&self, gen: &Generation, x: int, j: int, cx: int, cy: int) -> bool {
        let cell = gen.grid@[spec_ndx(cx, cy, self.width as int)];
        match gen.lookup@[cx]@[cy] {
            Some(k) => cell.is_home_of(gen.agents@[k as int]),
            None => if done(self@, x, j, cx, cy) {
                cell.is_vacant()
            } else {
                match self.agent_position_lookup@[cx]@[cy] {
                    Some(i) => cell.is_home_of(self.agents@[i as int]),
                    None => cell.is_vacant(),
                }
            },
        }
    }

    /// What holds of the generation `gen` that a tick of this field is
    /// building, after the columns below `x` and `j` cells of column `x`.
    spec fn building(
        &self,
        gen: &Generation,
        tape: Seq<(bool, bool)>,
        rank: spec_fn(int, int) -> nat,
        x: int,
        j: int,
    ) -> bool {
        let (w, h) = (self.width as int, self.height as int);
        &&& self.wf()
        &&& self@.ranked(rank)
        &&& gen.grid@.len() == w * h
        &&& indexes(gen.lookup@, gen.agents@, w, h)
        &&& forall|cx: int, cy: int|
            in_grid(cx, cy, w, h) ==> #[trigger] self.cell_ok(gen, x, j, cx, cy)
        &&& tick_inv(self@, rank, tape, gen.state(w, h), x, j)
    }

    /// One cell of a tick: what stands on `(x, y)` goes to the generation
    /// `gen`. Says `false` where the draws ran out.
    fn advance(
        &self,
        gen: &mut Generation,
        draws: &Vec<(bool, bool)>,
        x: usize,
        y: usize,
        Ghost(rank): Ghost<spec_fn(int, int) -> nat>,
        Ghost(j): Ghost<int>,
    ) -> (ok: bool)
        requires
            self.building(old(gen), draws@, rank, x as int, j),
            x < self@.width,
            0 <= j < self@.height,
            y == self@.height - 1 - j,
        ensures
            match self@.tick_cell(
                draws@,
                old(gen).state(self@.width as int, self@.height as int),
                x as int,
                y as int,
            ) {
                Some(s) => ok && final(gen).state(self@.width as int, self@.height as int) == s
                    && self.building(final(gen), draws@, rank, x as int, j + 1),
                None => !ok,
            },
    {
        let ghost v = self@;
        let ghost (w, h) = (self.width as int, self.height as int);
        let ghost g0 = *gen;
        let ghost st = gen.state(w, h);
        let ghost tape = draws@;
        let width = self.get_width();
        let height = self.get_height();
        let agent_at_position = self.get_agent_at_coordinate(x, y);
        match agent_at_position {
            None => {
                proof {
                    lemma_tick_cell(v, rank, tape, st, x as int, j);
                    assert forall|cx: int, cy: int|
                        in_grid(cx, cy, w, h) implies #[trigger] self.cell_ok(
                        gen,
                        x as int,
                        j + 1,
                        cx,
                        cy,
                    ) by {
                        assert(self.cell_ok(&g0, x as int, j, cx, cy));
                    }
                }
                true
            },
            Some(mut agent) => {
                let ghost a = agent;
                proof {
                    assert(g0.lookup@[x as int]@[y as int] is None) by {
                        if let Some(k) = g0.lookup@[x as int]@[y as int] {
                            assert(v.after(st).agents[k as int].pos() == (x as int, y as int));
                            assert(apart_ok(v, st, x as int, j, x as int, y as int));
                        }
                    }
                    assert(self.cell_ok(&g0, x as int, j, x as int, y as int));
                }
                let field_ndx = DLAField::get_ndx(x, y, width);
                match agent.state {
                    AgentState::FREE => {
                        gen.any_free = true;
                        let stuck = self.is_stuck(x, y, false);
                        if stuck.0 {
                            // stuck, with the position of the neighbor that caused it, if any
                            agent.state = AgentState::STUCK;
                            agent.sticky_neighbor = match stuck.1 {
                                None => None,
                                Some(neighbor_position) => Some(
                                    StickyNeighbor {
                                        x: neighbor_position.0,
                                        y: neighbor_position.1,
                                    },
                                ),
                            };
                            gen.grid[field_ndx] = FieldPosition::new(
                                FieldState::STUCK,
                                Some(agent),
                            );
                        } else {
                            // find the next available position
                            match DLAField::findNextPosition(
                                &gen.grid,
                                width,
                                height,
                                x,
                                y,
                                draws,
                                gen.used,
                            ) {
                                None => {
                                    return false;
                                },
                                Some((new_position, next)) => {
                                    proof {
                                        lemma_walk_target(
                                            w,
                                            h,
                                            st.occupied,
                                            x as int,
                                            y as int,
                                            tape,
                                            st.used,
                                            0,
                                        );
                                    }
                                    gen.used = next;
                                    DLAField::offer_position(
                                        &mut gen.grid,
                                        width,
                                        &mut agent,
                                        new_position,
                                    );
                                },
                            }
                        }
                    },
                    AgentState::STUCK => {},
                }
                let ghost g1 = *gen;
                let ghost st2 = v.tick_cell(tape, st, x as int, y as int).unwrap();
                proof {
                    lemma_tick_cell(v, rank, tape, st, x as int, j);
                    self.lemma_grid_follows(&g0, &g1, a, agent, st2, x as int, j);
                }
                // update the next table and its index
                gen.lookup[agent.x][agent.y] = Some(gen.agents.len());
                gen.agents.push(agent);
                proof {
                    self.lemma_index_follows(&g1, gen, agent, tape, rank, st2, x as int, j);
                }
                true
            },
        }
    }

    /// After a cell's agent `a` has been dealt with, as `b`, on the grid,
    /// the grid's occupied cells are those of the tick's next state, and the
    /// grid holds `b`'s home where `b` sits.
    proof fn lemma_grid_follows(
        &self,
        g0: &Generation,
        g1: &Generation,
        a: ColorizedPoint,
        b: ColorizedPoint,
        st2: TickState,
        x: int,
        j: int,
    )
        requires
            self.wf(),
            0 <= x < self.width,
            0 <= j < self.height,
            g0.grid@.len() == self.width * self.height,
            forall|cx: int, cy: int|
                in_grid(cx, cy, self.width as int, self.height as int) ==> #[trigger] self.cell_ok(
                    g0,
                    x,
                    j,
                    cx,
                    cy,
                ),
            self@.agent_at(x, self.height - 1 - j) == Some(a),
            g0.lookup@[x]@[self.height - 1 - j] is None,
            g1.lookup == g0.lookup,
            g1.agents == g0.agents,
            in_grid(b.x as int, b.y as int, self.width as int, self.height as int),
            b.pos() != a.pos() ==> !occupancy(
                g0.grid@,
                self.width as int,
                self.height as int,
            ).contains(b.pos()),
            st2.occupied == if b.pos() == a.pos() {
                occupancy(g0.grid@, self.width as int, self.height as int)
            } else {
                occupancy(g0.grid@, self.width as int, self.height as int).remove(a.pos()).insert(
                    b.pos(),
                )
            },
            g1.grid@.len() == g0.grid@.len(),
            g1.grid@[spec_ndx(b.x as int, b.y as int, self.width as int)].is_home_of(b),
            b.pos() != a.pos() ==> g1.grid@[spec_ndx(
                a.x as int,
                a.y as int,
                self.width as int,
            )].is_vacant(),
            forall|k: int|
                0 <= k < g0.grid@.len() && k != spec_ndx(a.x as int, a.y as int, self.width as int)
                    && k != spec_ndx(b.x as int, b.y as int, self.width as int)
                    ==> g1.grid@[k] == g0.grid@[k],
        ensures
            occupancy(g1.grid@, self.width as int, self.height as int) == st2.occupied,
            forall|cx: int, cy: int|
                in_grid(cx, cy, self.width as int, self.height as int) && (cx, cy) != b.pos()
                    ==> #[trigger] self.cell_ok(g1, x, j + 1, cx, cy),
    {
        let (w, h) = (self.width as int, self.height as int);
        let y = h - 1 - j;
        assert(self.cell_ok(g0, x, j, x, y));
        assert forall|cx: int, cy: int|
            in_grid(cx, cy, w, h) && (cx, cy) != b.pos() implies #[trigger] self.cell_ok(
            g1,
            x,
            j + 1,
            cx,
            cy,
        ) by {
            assert(self.cell_ok(g0, x, j, cx, cy));
        }
    }

    /// Once the agent `b` has joined the next table and its index, the
    /// generation is that of the tick's next state.
    proof fn lemma_index_follows(
        &self,
        g1: &Generation,
        g2: &Generation,
        b: ColorizedPoint,
        tape: Seq<(bool, bool)>,
        rank: spec_fn(int, int) -> nat,
        st2: TickState,
        x: int,
        j: int,
    )
        requires
            self.wf(),
            self@.ranked(rank),
            0 <= x < self.width,
            0 <= j < self.height,
            g1.grid@.len() == self.width * self.height,
            indexes(g1.lookup@, g1.agents@, self.width as int, self.height as int),
            in_grid(b.x as int, b.y as int, self.width as int, self.height as int),
            g1.state(self.width as int, self.height as int).occupied == st2.occupied,
            st2.agents == g1.agents@.push(b),
            st2.used == g1.used,
            st2.any_free == g1.any_free,
            tick_inv(self@, rank, tape, st2, x, j + 1),
            forall|cx: int, cy: int|
                in_grid(cx, cy, self.width as int, self.height as int) && (cx, cy) != b.pos()
                    ==> #[trigger] self.cell_ok(g1, x, j + 1, cx, cy),
            g1.grid@[spec_ndx(b.x as int, b.y as int, self.width as int)].is_home_of(b),
            g2.grid == g1.grid,
            g2.used == g1.used,
            g2.any_free == g1.any_free,
            g2.agents@ == g1.agents@.push(b),
            g1.agents@.len() <= usize::MAX,
            g2.lookup@.len() == g1.lookup@.len(),
            g2.lookup@[b.x as int]@ == g1.lookup@[b.x as int]@.update(
                b.y as int,
                Some(g1.agents@.len() as usize),
            ),
            forall|i: int|
                0 <= i < g1.lookup@.len() && i != b.x ==> g2.lookup@[i] == g1.lookup@[i],
        ensures
            g2.state(self.width as int, self.height as int) == st2,
            self.building(g2, tape, rank, x, j + 1),
    {
        let (w, h) = (self.width as int, self.height as int);
        let n = g1.agents@.len() as int;
        // nobody in the table sits where `b` sits
        assert forall|k: int| 0 <= k < n implies (#[trigger] g1.agents@[k]).pos() != b.pos() by {
            assert(st2.agents[k] == g1.agents@[k]);
            assert(st2.agents[n] == b);
        }
        assert forall|cx: int, cy: int| in_grid(cx, cy, w, h) implies #[trigger] self.cell_ok(
            g2,
            x,
            j + 1,
            cx,
            cy,
        ) by {
            if (cx, cy) != b.pos() {
                assert(self.cell_ok(g1, x, j + 1, cx, cy));
            }
        }
    }
}

/// A column that has run out of draws stays out of draws.
proof fn lemma_column_stays_short(
    v: FieldView,
    tape: Seq<(bool, bool)>,
    st: TickState,
    x: int,
    rows: int,
    more: int,
)
    requires
        0 <= rows <= more,
        v.tick_column(tape, st, x, rows) is None,
    ensures
        v.tick_column(tape, st, x, more) is None,
    decreases more - rows,
{
    if rows < more {
        lemma_column_stays_short(v, tape, st, x, rows, more - 1);
    }
}

/// A tick that has run out of draws stays out of draws.
proof fn lemma_columns_stay_short(v: FieldView, tape: Seq<(bool, bool)>, columns: int, more: int)
    requires
        0 <= columns <= more,
        v.tick_columns(tape, columns) is None,
    ensures
        v.tick_columns(tape, more) is None,
    decreases more - columns,
{
    if columns < more {
        lemma_columns_stay_short(v, tape, columns, more - 1);
    }
}

impl DLAField {
    /// A position index that names nobody.
    pub(crate) fn empty_lookup(width: usize, height: usize) -> (lookup: Vec<Vec<Option<usize>>>)
        ensures
            table_shaped(lookup@, width as int, height as int),
            forall|x: int, y: int|
                in_grid(x, y, width as int, height as int) ==> (#[trigger] lookup@[x]@[y]) is None,
    {
        let mut lookup: Vec<Vec<Option<usize>>> = Vec::new();
        let mut x: usize = 0;
        while x < width
            invariant
                x <= width,
                lookup.len() == x,
                forall|i: int| 0 <= i < x ==> (#[trigger] lookup@[i]).len() == height,
                forall|i: int, y: int|
                    0 <= i < x && 0 <= y < height ==> (#[trigger] lookup@[i]@[y]) is None,
            decreases width - x,
        {
            let column: Vec<Option<usize>> = vec![None; height];
            lookup.push(column);
            x += 1;
        }
        lookup
    }

    /// The generation that one tick with the coins of `draws` makes of this
    /// field; `None` where the draws run out.
    fn next_generation(&self, draws: &Vec<(bool, bool)>) -> (next: Option<Generation>)
        requires
            self.wf(),
        ensures
            match next {
                Some(gen) => {
                    &&& self@.tick(draws@) == Some(
                        gen.state(self@.width as int, self@.height as int),
                    )
                    &&& tick_settles(
                        self@,
                        draws@,
                        gen.state(self@.width as int, self@.height as int),
                    )
                    &&& indexes(
                        gen.lookup@,
                        gen.agents@,
                        self@.width as int,
                        self@.height as int,
                    )
                    &&& paints(gen.grid@, self@.with_agents(gen.agents@))
                },
                None => self@.tick(draws@) is None,
            },
    {
        let ghost v = self@;
        let ghost (w, h) = (self.width as int, self.height as int);
        let ghost tape = draws@;
        let ghost rank = choose|rank: spec_fn(int, int) -> nat| v.ranked(rank);
        let width = self.get_width();
        let height = self.get_height();
        let mut gen = Generation {
            agents: Vec::new(),
            lookup: DLAField::empty_lookup(width, height),
            grid: self.position_hash.clone(),
            used: 0,
            any_free: false,
        };
        proof {
            lemma_painted_occupancy(self.position_hash@, v);
        }
        let mut x: usize = 0;
        while x < width
            invariant
                x <= width,
                width == self.width,
                height == self.height,
                v == self@,
                w == self.width,
                h == self.height,
                tape == draws@,
                self.building(&gen, tape, rank, x as int, 0),
                v.tick_columns(tape, x as int) == Some(gen.state(w, h)),
            decreases width - x,
        {
            let ghost s0 = gen.state(w, h);
            let mut j: usize = 0;
            while j < height
                invariant
                    x < width,
                    j <= height,
                    width == self.width,
                    height == self.height,
                    v == self@,
                    w == self.width,
                    h == self.height,
                    tape == draws@,
                    self.building(&gen, tape, rank, x as int, j as int),
                    v.tick_columns(tape, x as int) == Some(s0),
                    v.tick_column(tape, s0, x as int, j as int) == Some(gen.state(w, h)),
                decreases height - j,
            {
                let y = height - 1 - j;
                if !self.advance(&mut gen, draws, x, y, Ghost(rank), Ghost(j as int)) {
                    proof {
                        lemma_column_stays_short(v, tape, s0, x as int, j + 1, h);
                        lemma_columns_stay_short(v, tape, x + 1, w);
                    }
                    return None;
                }
                j += 1;
            }
            proof {
                lemma_tick_next_column(v, rank, tape, gen.state(w, h), x as int);
                assert forall|cx: int, cy: int|
                    in_grid(cx, cy, w, h) implies #[trigger] self.cell_ok(
                    &gen,
                    x + 1,
                    0,
                    cx,
                    cy,
                ) by {
                    assert(self.cell_ok(&gen, x as int, h, cx, cy));
                }
            }
            x += 1;
        }
        proof {
            let st = gen.state(w, h);
            let n = v.with_agents(gen.agents@);
            lemma_tick_inv_settles(v, rank, tape, st);
            assert forall|cx: int, cy: int| in_grid(cx, cy, w, h) implies match n.agent_at(cx, cy) {
                Some(a) => (#[trigger] gen.grid@[spec_ndx(cx, cy, w)]).is_home_of(a),
                None => gen.grid@[spec_ndx(cx, cy, w)].is_vacant(),
            } by {
                assert(self.cell_ok(&gen, w, 0, cx, cy));
            }
        }
        Some(gen)
    }

    /// One tick of the simulation, with the coins of `draws` for the random
    /// walks. Every agent is looked at once, column by column and each
    /// column from its last row upwards: a frozen agent stays; a free agent
    /// that stuck detection finds stuck freezes in place; any other free
    /// agent takes a random-walk step. Says whether any agent was still free
    /// when the tick began. Where the draws run out before the tick is
    /// through, the field is left as it was and the answer is `None`.
    pub fn next_state(&mut self, draws: &Vec<(bool, bool)>) -> (more: Option<bool>)
        requires
            old(self).wf(),
        ensures
            final(self).wf(),
            match more {
                Some(any_free) => {
                    &&& old(self)@.tick(draws@) matches Some(st)
                    &&& final(self)@ == old(self)@.after(st)
                    &&& any_free == st.any_free
                    &&& tick_settles(old(self)@, draws@, st)
                },
                None => old(self)@.tick(draws@) is None && *final(self) == *old(self),
            },
            !old(self)@.has_free() ==> more == Some(false),
    {
        proof {
            if !self@.has_free() {
                law_settled_field_ticks(self@, draws@);
            }
        }
        match self.next_generation(draws) {
            Some(gen) => {
                self.agents = gen.agents;
                self.agent_position_lookup = gen.lookup;
                self.position_hash = gen.grid;
                Some(gen.any_free)
            },
            None => None,
        }
    }
}

} // verus!
