//! Observations, actions, and the agent interface.

use vstd::prelude::*;

use crate::env::Sense;
use crate::grid::Pos;

verus! {

/// A compass direction on the grid.
#[derive(Clone, Copy, PartialEq, Eq, Structural, Hash, Debug)]
pub enum Direction {
    North,
    South,
    East,
    West,
}

impl Direction {
    /// The opposite direction, used to retrace a step.
    pub fn reverse(&self) -> (r: Direction)
        ensures
            r == self.reverse_spec(),
    {
        match self {
            Direction::North => Direction::South,
            Direction::South => Direction::North,
            Direction::East => Direction::West,
            Direction::West => Direction::East,
        }
    }

    pub open spec fn reverse_spec(self) -> Direction {
        match self {
            Direction::North => Direction::South,
            Direction::South => Direction::North,
            Direction::East => Direction::West,
            Direction::West => Direction::East,
        }
    }
}

/// What the agent can do on its turn.
#[derive(Clone, Copy, PartialEq, Eq, Structural, Debug)]
pub enum Action {
    Move(Direction),
    Shoot(Direction),
    Grab,
    Climb,
}

/// What the agent perceives at the start of a turn: where it stands, what it
/// senses there, and which directions stay on the grid.
pub struct Observation {
    position: Pos,
    directions: Vec<Direction>,
    senses: Vec<Sense>,
}

impl Observation {
    pub closed spec fn position_spec(self) -> Pos {
        self.position
    }

    pub closed spec fn directions_seq(self) -> Seq<Direction> {
        self.directions@
    }

    pub closed spec fn senses_seq(self) -> Seq<Sense> {
        self.senses@
    }

    pub fn new(position: Pos) -> (r: Self)
        ensures
            r.position_spec() == position,
            r.directions_seq() == Seq::<Direction>::empty(),
            r.senses_seq() == Seq::<Sense>::empty(),
    {
        Self { position, directions: Vec::new(), senses: Vec::new() }
    }

    pub fn position(&self) -> (r: &Pos)
        ensures
            *r == self.position_spec(),
    {
        &self.position
    }

    pub fn set_position(&mut self, pos: Pos)
        ensures
            final(self).position_spec() == pos,
            final(self).directions_seq() == old(self).directions_seq(),
            final(self).senses_seq() == old(self).senses_seq(),
    {
        self.position = pos
    }

    pub fn directions(&self) -> (r: &Vec<Direction>)
        ensures
            r@ == self.directions_seq(),
    {
        &self.directions
    }

    pub fn mut_directions(&mut self) -> (r: &mut Vec<Direction>)
        ensures
            r@ == old(self).directions_seq(),
            final(self).directions_seq() == final(r)@,
            final(self).position_spec() == old(self).position_spec(),
            final(self).senses_seq() == old(self).senses_seq(),
    {
        &mut self.directions
    }

    pub fn senses(&self) -> (r: &Vec<Sense>)
        ensures
            r@ == self.senses_seq(),
    {
        &self.senses
    }

    pub fn mut_senses(&mut self) -> (r: &mut Vec<Sense>)
        ensures
            r@ == old(self).senses_seq(),
            final(self).senses_seq() == final(r)@,
            final(self).position_spec() == old(self).position_spec(),
            final(self).directions_seq() == old(self).directions_seq(),
    {
        &mut self.senses
    }
}

/// An agent: given the current observation, decide the next action. The
/// invariant is whatever state the implementation must keep between turns.
pub trait Agent {
    spec fn inv(&self) -> bool;

    /// Whether an observation is one this agent can act on.
    spec fn obs_ok(&self, obs: &Observation) -> bool;

    fn act(&mut self, obs: &Observation) -> (a: Action)
        requires
            old(self).inv(),
            old(self).obs_ok(obs),
        ensures
            final(self).inv(),
    ;
}

} // verus!
