//! The distance of an agent from the root of its aggregate.

use vstd::prelude::*;

verus! {

use crate::DLAField;
use crate::colorized_point::ColorizedPoint;
use crate::model::FieldView;

use vstd::set_lib::lemma_int_range;
use vstd::set_lib::lemma_len_subset;
use vstd::set_lib::set_int_range;

impl FieldView {
    /// Whether the sticky neighbour that `agent` names, if it names one, is
    /// the coordinate of a frozen agent of this field.
    pub open spec fn anchored(self, agent: ColorizedPoint) -> bool {
        match agent.sticky_neighbor {
            Some(n) => self.stuck_at(n.x as int, n.y as int),
            None => true,
        }
    }

    /// The number of sticky-neighbour references from `agent` to an agent
    /// that names none, where no more than `fuel` of them lead there.
    pub open spec fn hops(self, agent: ColorizedPoint, fuel: nat) -> Option<nat>
        decreases fuel,
    {
        match agent.sticky_neighbor {
            None => Some(0),
            Some(n) => if fuel == 0 {
                None
            } else {
                match self.agent_at(n.x as int, n.y as int) {
                    Some(b) => match self.hops(b, (fuel - 1) as nat) {
                        Some(d) => Some(d + 1),
                        None => None,
                    },
                    None => None,
                }
            },
        }
    }

    /// The distance of `agent` from the root of its aggregate.
    pub open spec fn distance_from_root(self, agent: ColorizedPoint) -> nat {
        choose|d: nat| self.hops(agent, d) == Some(d)
    }

    /// What bounds the number of hops from `agent` to its root under `rank`.
    pub open spec fn height_under(
        self,
        rank: spec_fn(int, int) -> nat,
        agent: ColorizedPoint,
    ) -> nat {
        match agent.sticky_neighbor {
            Some(n) => rank(n.x as int, n.y as int) + 1,
            None => 0,
        }
    }
}

/// More fuel does not change a number of hops once found, and the number
/// found is within the fuel.
pub proof fn lemma_hops_stable(v: FieldView, agent: ColorizedPoint, fuel: nat, more: nat)
    requires
        v.hops(agent, fuel) is Some,
        fuel <= more,
    ensures
        v.hops(agent, more) == v.hops(agent, fuel),
        v.hops(agent, fuel).unwrap() <= fuel,
    decreases fuel,
{
    match agent.sticky_neighbor {
        Some(n) => {
            let b = v.agent_at(n.x as int, n.y as int).unwrap();
            lemma_hops_stable(v, b, (fuel - 1) as nat, (more - 1) as nat);
        },
        None => {},
    }
}

/// The distance from the root is the one number of hops that is found with
/// that much fuel.
pub proof fn lemma_distance_is_hops(v: FieldView, agent: ColorizedPoint, d: nat)
    requires
        v.hops(agent, d) == Some(d),
    ensures
        v.distance_from_root(agent) == d,
{
    let e = v.distance_from_root(agent);
    if e <= d {
        lemma_hops_stable(v, agent, e, d);
    } else {
        lemma_hops_stable(v, agent, d, e);
    }
}

/// Following the sticky-neighbour references from an anchored agent of a
/// valid field ends, after no more hops than the rank allows, at an agent
/// that names no neighbour.
pub proof fn lemma_reaches_root_under(
    v: FieldView,
    rank: spec_fn(int, int) -> nat,
    agent: ColorizedPoint,
)
    requires
        v.valid(),
        v.ranked(rank),
        v.anchored(agent),
    ensures
        v.hops(agent, v.height_under(rank, agent)) is Some,
    decreases v.height_under(rank, agent),
{
    match agent.sticky_neighbor {
        Some(n) => {
            let (nx, ny) = (n.x as int, n.y as int);
            let t = v.slot_at(nx, ny);
            let b = v.agents[t];
            lemma_reaches_root_under(v, rank, b);
            lemma_hops_stable(v, b, v.height_under(rank, b), rank(nx, ny));
        },
        None => {},
    }
}

impl DLAField {
    /// The number of hops from `agent` to the root of its aggregate, counted
    /// on from `size`.
    pub fn _get_distance_from_root(&self, agent: ColorizedPoint, size: usize) -> (total: usize)
        requires
            self.wf(),
            self@.anchored(agent),
            size + self@.agents.len() <= usize::MAX,
        ensures
            size <= total <= size + self@.agents.len(),
            self@.hops(agent, (total - size) as nat) == Some((total - size) as nat),
    {
        let ghost v = self@;
        let ghost rank = choose|rank: spec_fn(int, int) -> nat| v.ranked(rank);
        let ghost mut seen: Set<int> = Set::empty();
        let mut current = agent;
        let mut count = size;
        loop
            invariant
                self.wf(),
                v == self@,
                v.ranked(rank),
                v.anchored(current),
                size + v.agents.len() <= usize::MAX,
                seen.finite(),
                seen.len() == count - size,
                size <= count,
                forall|s: int| seen.contains(s) ==> 0 <= s < v.agents.len(),
                forall|s: int| #[trigger]
                    seen.contains(s) ==> v.height_under(rank, current) <= rank(
                        v.agents[s].x as int,
                        v.agents[s].y as int,
                    ),
                forall|d: nat|
                    v.hops(current, d) == Some(d) ==> #[trigger] v.hops(
                        agent,
                        (d + (count - size)) as nat,
                    ) == Some((d + (count - size)) as nat),
            decreases v.height_under(rank, current),
        {
            match current.get_sticky_neighbor() {
                None => {
                    proof {
                        assert(v.hops(agent, (0 + (count - size)) as nat) == Some(
                            (0 + (count - size)) as nat,
                        ));
                        lemma_int_range(0, v.agents.len() as int);
                        lemma_len_subset(seen, set_int_range(0, v.agents.len() as int));
                    }
                    return count;
                },
                Some(neighbor_position) => {
                    let neighbor_x = neighbor_position.x;
                    let neighbor_y = neighbor_position.y;
                    let neighbor = self.get_agent_at_coordinate(neighbor_x, neighbor_y);
                    // the neighbor is there: it froze before the agent did
                    let next = neighbor.unwrap();
                    proof {
                        let t = v.slot_at(neighbor_x as int, neighbor_y as int);
                        lemma_int_range(0, v.agents.len() as int);
                        lemma_len_subset(seen.insert(t), set_int_range(0, v.agents.len() as int));
                        assert forall|d: nat| v.hops(next, d) == Some(d) implies #[trigger] v.hops(
                            agent,
                            (d + (count + 1 - size)) as nat,
                        ) == Some((d + (count + 1 - size)) as nat) by {
                            assert(v.hops(agent, ((d + 1) + (count - size)) as nat) == Some(
                                ((d + 1) + (count - size)) as nat,
                            ));
                        }
                        seen = seen.insert(t);
                    }
                    current = next;
                    count += 1;
                },
            }
        }
    }

    /// The number of hops along sticky-neighbour references from `agent` to
    /// an agent that names no neighbour: the root of its aggregate.
    pub fn get_distance_from_root(&self, agent: ColorizedPoint) -> (distance: usize)
        requires
            self.wf(),
            self@.anchored(agent),
        ensures
            self@.hops(agent, distance as nat) == Some(distance as nat),
            distance == self@.distance_from_root(agent),
            distance <= self@.agents.len(),
    {
        proof {
            self.lemma_agents_fit();
        }
        let distance = self._get_distance_from_root(agent, 0);
        proof {
            lemma_distance_is_hops(self@, agent, distance as nat);
        }
        distance
    }
}

} // verus!
