//! The agents of a field, and what they are made of.

use vstd::prelude::*;

verus! {

/// Coordinate of the stuck agent next to which another agent froze.
#[derive(Clone, Copy, Debug, PartialEq, Eq, Structural)]
pub struct StickyNeighbor {
    pub x: usize,
    pub y: usize,
}

impl StickyNeighbor {
    pub fn new(x: usize, y: usize) -> (neighbor: StickyNeighbor)
        ensures
            neighbor == (StickyNeighbor { x, y }),
    {
        StickyNeighbor { x, y }
    }
}

/// Whether an agent still walks or has frozen for good.
#[allow(non_camel_case_types)]
#[derive(Clone, Copy, Debug, PartialEq, Eq, Structural)]
pub enum AgentState {
    FREE,
    STUCK,
}

/// Display colour of an agent; the simulation never reads it.
#[derive(Clone, Copy, Debug, PartialEq, Eq, Structural)]
pub struct Color {
    pub r: u8,
    pub g: u8,
    pub b: u8,
    pub a: u8,
}

impl Color {
    pub fn new(r: u8, g: u8, b: u8, a: u8) -> (color: Color)
        ensures
            color == (Color { r, g, b, a }),
    {
        Color { r, g, b, a }
    }

    pub fn get_r(&self) -> (r: u8)
        ensures
            r == self.r,
    {
        self.r
    }

    pub fn get_g(&self) -> (g: u8)
        ensures
            g == self.g,
    {
        self.g
    }

    pub fn get_b(&self) -> (b: u8)
        ensures
            b == self.b,
    {
        self.b
    }

    pub fn get_a(&self) -> (a: u8)
        ensures
            a == self.a,
    {
        self.a
    }
}

/// One diffusing particle: where it is, whether it has frozen, and, once
/// frozen, which neighbour it froze against.
#[derive(Clone, Copy, Debug, PartialEq, Eq)]
pub struct ColorizedPoint {
    pub x: usize,
    pub y: usize,
    pub state: AgentState,
    pub sticky_neighbor: Option<StickyNeighbor>,
    pub color: Color,
}

impl ColorizedPoint {
    /// The coordinate of the agent as a pair of mathematical integers.
    pub open spec fn pos(self) -> (int, int) {
        (self.x as int, self.y as int)
    }

    /// The agent once it has frozen against `neighbor` (or at the boundary,
    /// when there is none).
    pub open spec fn frozen(self, neighbor: Option<StickyNeighbor>) -> ColorizedPoint {
        ColorizedPoint { state: AgentState::STUCK, sticky_neighbor: neighbor, ..self }
    }

    /// The agent after a move to `(x, y)`.
    pub open spec fn moved_to(self, x: usize, y: usize) -> ColorizedPoint {
        ColorizedPoint { x, y, ..self }
    }

    /// A new agent is free, whatever neighbour it is handed.
    pub fn new(x: usize, y: usize, color: Color, sticky_neighbor: Option<StickyNeighbor>) -> (agent:
        ColorizedPoint)
        ensures
            agent == (ColorizedPoint { x, y, state: AgentState::FREE, sticky_neighbor, color }),
    {
        ColorizedPoint { x, y, color, state: AgentState::FREE, sticky_neighbor }
    }

    pub fn get_agent_state(&self) -> (state: AgentState)
        ensures
            state == self.state,
    {
        self.state
    }

    pub fn get_x(&self) -> (x: usize)
        ensures
            x == self.x,
    {
        self.x
    }

    pub fn get_y(&self) -> (y: usize)
        ensures
            y == self.y,
    {
        self.y
    }

    pub fn get_color(&self) -> (color: Color)
        ensures
            color == self.color,
    {
        self.color
    }

    pub fn get_sticky_neighbor(&self) -> (neighbor: Option<StickyNeighbor>)
        ensures
            neighbor == self.sticky_neighbor,
    {
        self.sticky_neighbor
    }

    /// Puts the agent on column `x`.
    pub fn set_x(&mut self, x: usize)
        ensures
            *final(self) == (ColorizedPoint { x, ..*old(self) }),
    {
        self.x = x;
    }

    /// Puts the agent on row `y`.
    pub fn set_y(&mut self, y: usize)
        ensures
            *final(self) == (ColorizedPoint { y, ..*old(self) }),
    {
        self.y = y;
    }
}

} // verus!
