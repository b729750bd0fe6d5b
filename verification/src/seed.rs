//! How a field comes into being: by seeding, or from a list of agents.

use vstd::prelude::*;

verus! {

use crate::DLAField;
use crate::colorized_point::AgentState;
use crate::colorized_point::Color;
use crate::colorized_point::ColorizedPoint;
use crate::field_position::FieldPosition;
use crate::field_position::FieldState;
use crate::grid::grid_addressable;
use crate::grid::in_grid;
use crate::grid::lemma_addressable_iff;
use crate::grid::square_or_thin;
use crate::index::indexes;
use crate::index::lemma_mirror_paints;
use crate::index::mirrors;
use crate::model::FieldView;
use crate::model::lemma_has_after_push;

/// The colour of a seeded agent.
pub open spec fn seed_color() -> Color {
    Color { r: 255, g: 0, b: 0, a: 100 }
}

/// The agent that seeding places on the coordinate `c`: free, with no sticky
/// neighbour, in the seed colour.
pub open spec fn seed_agent(c: (usize, usize)) -> ColorizedPoint {
    ColorizedPoint {
        x: c.0,
        y: c.1,
        state: AgentState::FREE,
        sticky_neighbor: None,
        color: seed_color(),
    }
}

/// Whether a field can start from `agents`: each is free, names no sticky
/// neighbour and sits on the grid, and no two share a coordinate.
pub open spec fn can_start_from(agents: Seq<ColorizedPoint>, width: int, height: int) -> bool {
    &&& forall|i: int|
        0 <= i < agents.len() ==> {
            &&& in_grid((#[trigger] agents[i]).x as int, agents[i].y as int, width, height)
            &&& agents[i].state == AgentState::FREE
            &&& agents[i].sticky_neighbor is None
        }
    &&& forall|i: int, j: int|
        0 <= i < agents.len() && 0 <= j < agents.len() && i != j ==> (#[trigger] agents[i]).pos()
            != (#[trigger] agents[j]).pos()
}

impl FieldView {
    /// The field with the given label and dimensions, and no agent.
    pub open spec fn empty(canvas_id: Seq<char>, width: nat, height: nat) -> FieldView {
        FieldView { width, height, canvas_id, agents: Seq::empty() }
    }

    /// The field after seeding has read the first `upto` of `draws`, with
    /// `count` agents wanted: a draw puts a seed agent on its coordinate,
    /// unless agents enough are placed or an agent sits there already.
    pub open spec fn sown(self, draws: Seq<(usize, usize)>, count: nat, upto: int) -> FieldView
        decreases upto,
    {
        if upto <= 0 {
            self
        } else {
            let before = self.sown(draws, count, upto - 1);
            let c = draws[upto - 1];
            if before.agents.len() >= count || before.has_agent_at(c.0 as int, c.1 as int) {
                before
            } else {
                before.with_agents(before.agents.push(seed_agent(c)))
            }
        }
    }
}

/// A field whose agents can start a field is valid.
pub proof fn lemma_start_is_valid(v: FieldView)
    requires
        grid_addressable(v.width as int, v.height as int),
        can_start_from(v.agents, v.width as int, v.height as int),
    ensures
        v.valid(),
{
    let rank = |x: int, y: int| 0nat;
    assert(v.ranked(rank));
}

/// Seeding that has placed agents enough places no more.
pub proof fn lemma_sown_full(
    v: FieldView,
    draws: Seq<(usize, usize)>,
    count: nat,
    upto: int,
    more: int,
)
    requires
        0 <= upto <= more,
        v.sown(draws, count, upto).agents.len() >= count,
    ensures
        v.sown(draws, count, more) == v.sown(draws, count, upto),
    decreases more - upto,
{
    if upto < more {
        lemma_sown_full(v, draws, count, upto, more - 1);
    }
}

impl DLAField {
    /// Puts `agent` on the grid, in the agent table and in the position
    /// index.
    fn place(
        grid: &mut Vec<FieldPosition>,
        lookup: &mut Vec<Vec<Option<usize>>>,
        agents: &mut Vec<ColorizedPoint>,
        agent: ColorizedPoint,
        width: usize,
        height: usize,
    )
        requires
            grid_addressable(width as int, height as int),
            indexes(old(lookup)@, old(agents)@, width as int, height as int),
            mirrors(old(grid)@, old(lookup)@, old(agents)@, width as int, height as int),
            in_grid(agent.x as int, agent.y as int, width as int, height as int),
            old(lookup)@[agent.x as int]@[agent.y as int] is None,
            agent.state == AgentState::FREE,
        ensures
            final(agents)@ == old(agents)@.push(agent),
            indexes(final(lookup)@, final(agents)@, width as int, height as int),
            mirrors(final(grid)@, final(lookup)@, final(agents)@, width as int, height as int),
    {
        let ndx = DLAField::get_ndx(agent.x, agent.y, width);
        // occupy the position
        grid[ndx] = FieldPosition::new(FieldState::OCCUPIED, Some(agent));
        // store the agent
        lookup[agent.x][agent.y] = Some(agents.len());
        agents.push(agent);
    }

    /// A field of the given dimensions with `num_agents` seed agents, placed
    /// where `draws` says: each draw in turn is the coordinate of the next
    /// agent, unless an agent sits there already. `None` where the draws
    /// run out before every agent has its place.
    pub fn new(
        canvas_id: String,
        num_agents: usize,
        width: usize,
        height: usize,
        draws: &Vec<(usize, usize)>,
    ) -> (field: Option<DLAField>)
        requires
            square_or_thin(width as int, height as int),
            forall|i: int|
                0 <= i < draws.len() ==> in_grid(
                    (#[trigger] draws[i]).0 as int,
                    draws[i].1 as int,
                    width as int,
                    height as int,
                ),
        ensures
            match field {
                Some(f) => {
                    &&& f.wf()
                    &&& f@ == FieldView::empty(canvas_id@, width as nat, height as nat).sown(
                        draws@,
                        num_agents as nat,
                        draws.len() as int,
                    )
                    &&& f@.agents.len() == num_agents
                },
                None => FieldView::empty(canvas_id@, width as nat, height as nat).sown(
                    draws@,
                    num_agents as nat,
                    draws.len() as int,
                ).agents.len() < num_agents,
            },
            field is Some <==> drawn(draws@, draws.len() as int).len() >= num_agents,
    {
        let ghost (w, h) = (width as int, height as int);
        let ghost start = FieldView::empty(canvas_id@, width as nat, height as nat);
        proof {
            lemma_addressable_iff(w, h);
        }
        let mut position_hash = DLAField::generateEmptyPositionHash(width, height);
        let mut agent_position_lookup = DLAField::empty_lookup(width, height);
        let mut agents: Vec<ColorizedPoint> = Vec::new();
        let mut at: usize = 0;
        while agents.len() < num_agents && at < draws.len()
            invariant
                grid_addressable(w, h),
                w == width,
                h == height,
                start == FieldView::empty(canvas_id@, width as nat, height as nat),
                forall|i: int|
                    0 <= i < draws.len() ==> in_grid(
                        (#[trigger] draws[i]).0 as int,
                        draws[i].1 as int,
                        w,
                        h,
                    ),
                at <= draws.len(),
                agents@.len() <= num_agents,
                start.sown(draws@, num_agents as nat, at as int) == start.with_agents(agents@),
                indexes(agent_position_lookup@, agents@, w, h),
                mirrors(position_hash@, agent_position_lookup@, agents@, w, h),
                can_start_from(agents@, w, h),
            decreases draws.len() - at,
        {
            let (x, y) = draws[at];
            at += 1;
            if !DLAField::isPositionOccupied(&position_hash, x, y, width) {
                let agent = ColorizedPoint::new(x, y, Color::new(255, 0, 0, 100), None);
                assert(agent == seed_agent((x, y)));
                DLAField::place(
                    &mut position_hash,
                    &mut agent_position_lookup,
                    &mut agents,
                    agent,
                    width,
                    height,
                );
            }
        }
        proof {
            lemma_sown_full_or_done(start, draws@, num_agents as nat, at as int);
            law_sown_count(start, draws@, num_agents as nat);
            let v = start.with_agents(agents@);
            lemma_start_is_valid(v);
            lemma_mirror_paints(position_hash@, agent_position_lookup@, v);
        }
        if agents.len() < num_agents {
            return None;
        }
        Some(DLAField { width, height, agents, position_hash, canvas_id, agent_position_lookup })
    }
}

/// Seeding that has placed agents enough, or has read every draw, is at its
/// end.
proof fn lemma_sown_full_or_done(
    v: FieldView,
    draws: Seq<(usize, usize)>,
    count: nat,
    upto: int,
)
    requires
        0 <= upto <= draws.len(),
        v.sown(draws, count, upto).agents.len() >= count || upto == draws.len(),
    ensures
        v.sown(draws, count, draws.len() as int) == v.sown(draws, count, upto),
{
    if upto < draws.len() {
        lemma_sown_full(v, draws, count, upto, draws.len() as int);
    }
}

/// A field of the given dimensions that starts from the agents handed in,
/// in their order. The list is turned down with `None` unless every agent
/// in it is free, names no sticky neighbour and sits on the grid, and no two
/// of them share a coordinate.
pub fn build_field_from_js_state(
    canvas_id: String,
    width: usize,
    height: usize,
    agents: Vec<ColorizedPoint>,
) -> (field: Option<DLAField>)
    requires
        square_or_thin(width as int, height as int),
    ensures
        match field {
            Some(f) => {
                &&& f.wf()
                &&& f@ == (FieldView {
                    width: width as nat,
                    height: height as nat,
                    canvas_id: canvas_id@,
                    agents: agents@,
                })
                &&& can_start_from(agents@, width as int, height as int)
            },
            None => !can_start_from(agents@, width as int, height as int),
        },
{
    let ghost (w, h) = (width as int, height as int);
    proof {
        lemma_addressable_iff(w, h);
    }
    let mut position_hash = DLAField::generateEmptyPositionHash(width, height);
    // build the location based lookup table
    let mut agent_position_lookup = DLAField::empty_lookup(width, height);
    let mut table: Vec<ColorizedPoint> = Vec::new();
    let mut i: usize = 0;
    while i < agents.len()
        invariant
            grid_addressable(w, h),
            w == width,
            h == height,
            i <= agents.len(),
            table@ == agents@.take(i as int),
            indexes(agent_position_lookup@, table@, w, h),
            mirrors(position_hash@, agent_position_lookup@, table@, w, h),
            can_start_from(table@, w, h),
        decreases agents.len() - i,
    {
        let agent = agents[i];
        let x = agent.get_x();
        let y = agent.get_y();
        if x >= width || y >= height {
            return None;
        }
        match agent.get_agent_state() {
            AgentState::STUCK => {
                return None;
            },
            AgentState::FREE => {},
        }
        if agent.get_sticky_neighbor().is_some() {
            return None;
        }
        match agent_position_lookup[x][y] {
            Some(k) => {
                // two agents on one coordinate
                return None;
            },
            None => {},
        }
        DLAField::place(
            &mut position_hash,
            &mut agent_position_lookup,
            &mut table,
            agent,
            width,
            height,
        );
        i += 1;
    }
    proof {
        assert(agents@.take(agents@.len() as int) =~= agents@);
        let v = FieldView {
            width: width as nat,
            height: height as nat,
            canvas_id: canvas_id@,
            agents: table@,
        };
        lemma_start_is_valid(v);
        lemma_mirror_paints(position_hash@, agent_position_lookup@, v);
    }
    Some(
        DLAField { width, height, agents: table, position_hash, canvas_id, agent_position_lookup },
    )
}

/// The coordinates among the first `upto` of `draws`.
pub open spec fn drawn(draws: Seq<(usize, usize)>, upto: int) -> Set<(int, int)> {
    Set::new(
        |c: (int, int)|
            exists|i: int|
                0 <= i < upto && i < draws.len() && (#[trigger] draws[i]).0 == c.0 && draws[i].1
                    == c.1,
    )
}

/// What holds of the field `s` that seeding has made of the first `upto`
/// of `draws`.
pub open spec fn sown_well(
    s: FieldView,
    draws: Seq<(usize, usize)>,
    count: nat,
    upto: int,
) -> bool {
    &&& can_start_from(s.agents, s.width as int, s.height as int)
    &&& forall|k: int|
        0 <= k < s.agents.len() ==> #[trigger] s.agents[k] == seed_agent(
            (s.agents[k].x, s.agents[k].y),
        )
    &&& drawn(draws, upto).finite()
    &&& s.occupied().finite()
    &&& s.occupied().len() == s.agents.len()
    &&& s.occupied().subset_of(drawn(draws, upto))
    &&& s.agents.len() <= count
    &&& s.agents.len() < count ==> s.occupied() == drawn(draws, upto)
}

/// Seeding places seed agents on different coordinates among those drawn,
/// and on every one of them as long as agents are wanted.
pub proof fn lemma_sown_well(
    start: FieldView,
    draws: Seq<(usize, usize)>,
    count: nat,
    upto: int,
)
    requires
        start.agents.len() == 0,
        0 <= upto <= draws.len(),
        forall|i: int|
            0 <= i < draws.len() ==> in_grid(
                (#[trigger] draws[i]).0 as int,
                draws[i].1 as int,
                start.width as int,
                start.height as int,
            ),
    ensures
        sown_well(start.sown(draws, count, upto), draws, count, upto),
        start.sown(draws, count, upto).width == start.width,
        start.sown(draws, count, upto).height == start.height,
        start.sown(draws, count, upto).canvas_id == start.canvas_id,
    decreases upto,
{
    let s = start.sown(draws, count, upto);
    if upto <= 0 {
        assert(drawn(draws, upto) =~= Set::empty());
        assert(s.occupied() =~= Set::empty());
    } else {
        lemma_sown_well(start, draws, count, upto - 1);
        let before = start.sown(draws, count, upto - 1);
        let c = draws[upto - 1];
        let at = (c.0 as int, c.1 as int);
        assert(drawn(draws, upto) =~= drawn(draws, upto - 1).insert(at));
        if before.agents.len() >= count || before.has_agent_at(at.0, at.1) {
            assert(before.occupied().contains(at) == before.has_agent_at(at.0, at.1));
        } else {
            let b = seed_agent(c);
            assert forall|p: (int, int)| s.occupied().contains(p) == before.occupied().insert(
                at,
            ).contains(p) by {
                lemma_has_after_push(before, before.agents, b, p.0, p.1);
            }
        }
        if s.agents.len() < count {
            assert(s.occupied() =~= drawn(draws, upto));
        }
    }
}

/// How many agents seeding places: as many as are wanted, or as many as
/// there are different coordinates among the draws, if these are fewer.
pub proof fn law_sown_count(start: FieldView, draws: Seq<(usize, usize)>, count: nat)
    requires
        start.agents.len() == 0,
        forall|i: int|
            0 <= i < draws.len() ==> in_grid(
                (#[trigger] draws[i]).0 as int,
                draws[i].1 as int,
                start.width as int,
                start.height as int,
            ),
    ensures
        drawn(draws, draws.len() as int).finite(),
        start.sown(draws, count, draws.len() as int).agents.len() == if count <= drawn(
            draws,
            draws.len() as int,
        ).len() {
            count
        } else {
            drawn(draws, draws.len() as int).len()
        },
{
    let s = start.sown(draws, count, draws.len() as int);
    lemma_sown_well(start, draws, count, draws.len() as int);
    vstd::set_lib::lemma_len_subset(s.occupied(), drawn(draws, draws.len() as int));
}

/// Seeding on an addressable grid leaves a valid field of seed agents.
pub proof fn law_sown_is_valid(start: FieldView, draws: Seq<(usize, usize)>, count: nat)
    requires
        start.agents.len() == 0,
        grid_addressable(start.width as int, start.height as int),
        forall|i: int|
            0 <= i < draws.len() ==> in_grid(
                (#[trigger] draws[i]).0 as int,
                draws[i].1 as int,
                start.width as int,
                start.height as int,
            ),
    ensures
        start.sown(draws, count, draws.len() as int).valid(),
        forall|k: int|
            0 <= k < start.sown(draws, count, draws.len() as int).agents.len() ==> {
                let a = #[trigger] start.sown(draws, count, draws.len() as int).agents[k];
                a == seed_agent((a.x, a.y))
            },
{
    lemma_sown_well(start, draws, count, draws.len() as int);
    lemma_start_is_valid(start.sown(draws, count, draws.len() as int));
}

/// Seeding reads the draws in order: what it makes of the first `upto` of
/// them does not depend on those that follow.
proof fn lemma_sown_reads_prefix(
    start: FieldView,
    draws: Seq<(usize, usize)>,
    more: Seq<(usize, usize)>,
    count: nat,
    upto: int,
)
    requires
        0 <= upto <= draws.len(),
    ensures
        start.sown(draws + more, count, upto) == start.sown(draws, count, upto),
    decreases upto,
{
    if upto > 0 {
        lemma_sown_reads_prefix(start, draws, more, count, upto - 1);
    }
}

/// Seeding that the draws carry through comes out the same with any draws
/// added behind them.
pub proof fn law_more_draws_same_seed(
    start: FieldView,
    draws: Seq<(usize, usize)>,
    more: Seq<(usize, usize)>,
    count: nat,
)
    requires
        start.sown(draws, count, draws.len() as int).agents.len() >= count,
    ensures
        start.sown(draws + more, count, (draws + more).len() as int) == start.sown(
            draws,
            count,
            draws.len() as int,
        ),
{
    lemma_sown_reads_prefix(start, draws, more, count, draws.len() as int);
    lemma_sown_full(start, draws + more, count, draws.len() as int, (draws + more).len() as int);
}

} // verus!
