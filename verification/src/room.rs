//! A single room of the grid: its content, the senses it radiates, and
//! whether the agent has seen it.

use vstd::prelude::*;

verus! {

/// What a room holds.
#[derive(Clone, Copy, PartialEq, Eq, Structural, Debug)]
pub enum RoomKind {
    Void,
    Pit,
    Wumpus,
    Gold,
}

pub const MOVE_PENALTY: isize = 1;

pub const PIT_PENALTY: isize = 1000;

pub const WUMPUS_PENALTY: isize = 1000;

pub const GOLD_REWARD: isize = 1000;

impl RoomKind {
    /// The score delta for entering a room of this kind.
    pub fn score(&self) -> (r: isize)
        ensures
            r == self.score_spec(),
    {
        match self {
            RoomKind::Void => -MOVE_PENALTY,
            RoomKind::Pit => -PIT_PENALTY,
            RoomKind::Wumpus => -WUMPUS_PENALTY,
            RoomKind::Gold => GOLD_REWARD,
        }
    }

    pub open spec fn score_spec(self) -> int {
        match self {
            RoomKind::Void => -1,
            RoomKind::Pit => -1000,
            RoomKind::Wumpus => -1000,
            RoomKind::Gold => 1000,
        }
    }
}

/// A sense a room radiates to the agent standing in it.
#[derive(Clone, Copy, PartialEq, Eq, Structural, Hash, Debug)]
pub enum RoomSense {
    Stench,
    Breeze,
}

/// One cell of the grid.
pub struct Room {
    kind: RoomKind,
    senses: Vec<RoomSense>,
    visited: bool,
}

impl Room {
    pub closed spec fn kind_spec(self) -> RoomKind {
        self.kind
    }

    pub closed spec fn visited_spec(self) -> bool {
        self.visited
    }

    pub closed spec fn senses_spec(self) -> Set<RoomSense> {
        self.senses@.to_set()
    }

    /// A freshly built room: void, no senses, not visited.
    pub open spec fn is_initial(self) -> bool {
        &&& self.kind_spec() == RoomKind::Void
        &&& self.senses_spec() == Set::<RoomSense>::empty()
        &&& !self.visited_spec()
    }

    pub fn new() -> (r: Room)
        ensures
            r.is_initial(),
    {
        let r = Room { kind: RoomKind::Void, senses: Vec::new(), visited: false };
        proof {
            assert(r.senses_spec() =~= Set::<RoomSense>::empty());
        }
        r
    }

    pub fn set_kind(&mut self, kind: RoomKind)
        ensures
            final(self).kind_spec() == kind,
            final(self).senses_spec() == old(self).senses_spec(),
            final(self).visited_spec() == old(self).visited_spec(),
    {
        self.kind = kind;
    }

    pub fn get_kind(&self) -> (r: &RoomKind)
        ensures
            *r == self.kind_spec(),
    {
        &self.kind
    }

    pub fn is_visited(&self) -> (r: bool)
        ensures
            r == self.visited_spec(),
    {
        self.visited
    }

    pub fn set_visited(&mut self, visited: bool)
        ensures
            final(self).visited_spec() == visited,
            final(self).kind_spec() == old(self).kind_spec(),
            final(self).senses_spec() == old(self).senses_spec(),
    {
        self.visited = visited;
    }

    /// Records a sense in the room; recording it twice changes nothing.
    pub fn add_sense(&mut self, sense: RoomSense)
        ensures
            final(self).senses_spec() == old(self).senses_spec().insert(sense),
            final(self).kind_spec() == old(self).kind_spec(),
            final(self).visited_spec() == old(self).visited_spec(),
    {
        let mut present = false;
        let mut i: usize = 0;
        while i < self.senses.len()
            invariant
                0 <= i <= self.senses@.len(),
                present ==> self.senses@.to_set().contains(sense),
                !present ==> forall|j: int| 0 <= j < i ==> self.senses@[j] != sense,
            decreases self.senses@.len() - i,
        {
            if self.senses[i] == sense {
                present = true;
                proof {
                    assert(self.senses@.contains(sense));
                }
            }
            i += 1;
        }
        if !present {
            proof {
                if self.senses@.contains(sense) {
                    let j = choose|j: int|
                        0 <= j < self.senses@.len() && self.senses@[j] == sense;
                    assert(false);
                }
            }
            let ghost prev = self.senses@;
            self.senses.push(sense);
            proof {
                broadcast use vstd::seq_lib::lemma_seq_contains_after_push;

                assert(self.senses@.to_set() =~= prev.to_set().insert(sense));
            }
        } else {
            proof {
                assert(self.senses@.to_set() =~= self.senses@.to_set().insert(sense));
            }
        }
    }

    pub fn has_sense(&self, sense: RoomSense) -> (r: bool)
        ensures
            r == self.senses_spec().contains(sense),
    {
        let mut i: usize = 0;
        while i < self.senses.len()
            invariant
                0 <= i <= self.senses@.len(),
                forall|j: int| 0 <= j < i ==> self.senses@[j] != sense,
            decreases self.senses@.len() - i,
        {
            if self.senses[i] == sense {
                proof {
                    assert(self.senses@.contains(sense));
                }
                return true;
            }
            i += 1;
        }
        proof {
            if self.senses@.contains(sense) {
                let j = choose|j: int| 0 <= j < self.senses@.len() && self.senses@[j] == sense;
                assert(false);
            }
        }
        false
    }
}

} // verus!
