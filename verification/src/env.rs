//! The grid world: hidden hazards, percept radiation, scoring, and the
//! turn-level interface the agent sees.

use vstd::prelude::*;

use crate::agent::{Action, Direction, Observation};
use crate::grid::{dir_valid_spec, is_neighbor, kind_near, moved_spec, with_senses, Grid, Pos};
use crate::room::{Room, RoomKind, RoomSense};

verus! {

/// A percept delivered to the agent.
#[derive(Clone, Copy, PartialEq, Eq, Structural, Hash, Debug)]
pub enum Sense {
    Stench,
    Breeze,
    Scream(Direction),
    Glitter,
    Bump(Direction),
    Ceil,
}

/// What the environment reports back for an action.
#[derive(Clone, Copy, PartialEq, Eq, Structural, Debug)]
pub enum ActionResult {
    Proceed,
    GameOver,
    Sense(Sense),
}

/// Which world to build: the classic fixed board or a random one.
pub enum GridType {
    Classic,
    Random,
}

pub const ARROW_PENALTY: isize = 10;

/// Relies on `rand::random_range`: returns a uniformly random index below
/// the bound; the bound must be positive, as the range may not be empty.
#[verifier::external_body]
fn rand_below(n: usize) -> (r: usize)
    requires
        n >= 1,
    ensures
        r < n,
{
    rand::random_range(0..n)
}

/// Saturating signed addition.
pub open spec fn sat_add_spec(a: int, b: int) -> int {
    if a + b > isize::MAX as int {
        isize::MAX as int
    } else if a + b < isize::MIN as int {
        isize::MIN as int
    } else {
        a + b
    }
}

fn sat_add(a: isize, b: isize) -> (r: isize)
    ensures
        r as int == sat_add_spec(a as int, b as int),
{
    if b >= 0 {
        if a > isize::MAX - b {
            isize::MAX
        } else {
            a + b
        }
    } else {
        if a < isize::MIN - b {
            isize::MIN
        } else {
            a + b
        }
    }
}

/// The senses a room delivers to an agent standing in it: its radiated
/// stench and breeze, and a glitter when it holds the gold.
pub open spec fn room_senses_spec(room: Room) -> Seq<Sense> {
    (if room.senses_spec().contains(RoomSense::Stench) {
        seq![Sense::Stench]
    } else {
        Seq::empty()
    }) + (if room.senses_spec().contains(RoomSense::Breeze) {
        seq![Sense::Breeze]
    } else {
        Seq::empty()
    }) + (if room.kind_spec() == RoomKind::Gold {
        seq![Sense::Glitter]
    } else {
        Seq::empty()
    })
}

/// The directions that stay on the grid from a cell, in compass order.
pub open spec fn avail_dirs_spec(row: int, col: int, nrows: int, ncols: int) -> Seq<Direction> {
    (if row > 0 {
        seq![Direction::North]
    } else {
        Seq::empty()
    }) + (if row < nrows - 1 {
        seq![Direction::South]
    } else {
        Seq::empty()
    }) + (if col < ncols - 1 {
        seq![Direction::East]
    } else {
        Seq::empty()
    }) + (if col > 0 {
        seq![Direction::West]
    } else {
        Seq::empty()
    })
}

/// An upper bound on how many cells before `(i, j)` in row-major order lie
/// in the closed neighborhood of the start cell `(sr, sc)`: at most one in
/// each adjacent row and at most three in the start's own row, five in all.
pub open spec fn skip_bound(sr: int, sc: int, i: int, j: int) -> int {
    (if i > sr - 1 {
        1int
    } else if i == sr - 1 && j > sc {
        1int
    } else {
        0int
    }) + (if i > sr {
        3int
    } else if i == sr {
        (if j > sc + 1 {
            3int
        } else if j > sc {
            2int
        } else if j > sc - 1 {
            1int
        } else {
            0int
        })
    } else {
        0int
    }) + (if i > sr + 1 {
        1int
    } else if i == sr + 1 && j > sc {
        1int
    } else {
        0int
    })
}

/// The kind of each cell of the classic board, with the start at `(3, 0)`.
pub open spec fn classic_kind(r: int, c: int) -> RoomKind {
    if r == 0 && c == 3 {
        RoomKind::Pit
    } else if r == 1 && c == 0 {
        RoomKind::Wumpus
    } else if r == 1 && c == 1 {
        RoomKind::Gold
    } else if r == 1 && c == 2 {
        RoomKind::Pit
    } else if r == 3 && c == 2 {
        RoomKind::Pit
    } else {
        RoomKind::Void
    }
}

/// The grid world with the agent's position, score and current observation.
pub struct Environment {
    grid: Grid,
    score: isize,
    init_pos: Pos,
    agent_pos: Pos,
    curr_obs: Observation,
}

impl Environment {
    /// Builds a world and starts its first episode: the classic 4 by 4
    /// board with the start at `(3, 0)`, or a random board of 4 to 6 rows
    /// and columns with a void start cell, hazard-free start neighborhood,
    /// about a fifth of the remaining cells pits, one Wumpus and one gold.
    pub fn new(grid_type: GridType) -> (r: Self)
        ensures
            r.wf(),
            r.score_spec() == 0,
            r.agent_spec() == r.init_spec(),
            r.obs_spec().position_spec() == r.init_spec(),
            r.obs_spec().senses_seq() == Seq::<Sense>::empty(),
            r.grid_spec().room_spec(
                r.init_spec().row as int,
                r.init_spec().col as int,
            ).kind_spec() == RoomKind::Void,
            (match grid_type {
                GridType::Classic => {
                    &&& r.grid_spec().nrows_spec() == 4
                    &&& r.grid_spec().ncols_spec() == 4
                    &&& r.init_spec() == (Pos { row: 3, col: 0 })
                    &&& forall|i: int, j: int|
                        0 <= i < 4 && 0 <= j < 4 ==> (#[trigger] r.grid_spec().room_spec(
                            i,
                            j,
                        )).kind_spec() == classic_kind(i, j)
                },
                GridType::Random => {
                    &&& 4 <= r.grid_spec().nrows_spec() <= 6
                    &&& 4 <= r.grid_spec().ncols_spec() <= 6
                    &&& (forall|i: int, j: int|
                        0 <= i < r.grid_spec().nrows_spec() && 0 <= j < r.grid_spec().ncols_spec()
                            && crate::grid::is_neighbor(
                            i,
                            j,
                            r.init_spec().row as int,
                            r.init_spec().col as int,
                        ) ==> (#[trigger] r.grid_spec().room_spec(i, j)).kind_spec()
                            == RoomKind::Void)
                    &&& (exists|i: int, j: int|
                        0 <= i < r.grid_spec().nrows_spec() && 0 <= j < r.grid_spec().ncols_spec()
                            && (#[trigger] r.grid_spec().room_spec(i, j)).kind_spec()
                            == RoomKind::Wumpus)
                    &&& (exists|i: int, j: int|
                        0 <= i < r.grid_spec().nrows_spec() && 0 <= j < r.grid_spec().ncols_spec()
                            && (#[trigger] r.grid_spec().room_spec(i, j)).kind_spec()
                            == RoomKind::Gold)
                },
            }),
    {
        let mut grid: Grid;
        let init_pos: Pos;
        let ghost mut wpos: Pos = Pos { row: 0, col: 0 };
        let ghost mut gpos: Pos = Pos { row: 0, col: 0 };

        match grid_type {
            GridType::Classic => {
                init_pos = Pos::new(3, 0);
                grid = Grid::new(4, 4);
                grid.mut_room_at(&Pos::new(0, 3)).set_kind(RoomKind::Pit);
                grid.mut_room_at(&Pos::new(1, 0)).set_kind(RoomKind::Wumpus);
                grid.mut_room_at(&Pos::new(1, 1)).set_kind(RoomKind::Gold);
                grid.mut_room_at(&Pos::new(1, 2)).set_kind(RoomKind::Pit);
                grid.mut_room_at(&Pos::new(3, 2)).set_kind(RoomKind::Pit);
                proof {
                    assert forall|i: int, j: int| 0 <= i < 4 && 0 <= j < 4 implies (
                    #[trigger] grid.room_spec(i, j)).kind_spec() == classic_kind(i, j) by {}
                }
            },
            GridType::Random => {
                let nrows = 4 + rand_below(3);
                let ncols = 4 + rand_below(3);
                grid = Grid::new(nrows, ncols);

                // Choose a random start cell.
                proof {
                    assert(1 <= nrows * ncols <= 36) by (nonlinear_arith)
                        requires
                            4 <= nrows <= 6,
                            4 <= ncols <= 6,
                    ;
                }
                let start_index = rand_below(nrows * ncols);
                let sr = start_index / ncols;
                let sc = start_index % ncols;
                proof {
                    assert(sr < nrows && sc < ncols) by (nonlinear_arith)
                        requires
                            start_index < nrows * ncols,
                            sr == start_index / ncols,
                            sc == start_index % ncols,
                            nrows >= 1,
                            ncols >= 1,
                    ;
                }
                init_pos = Pos::new(sr, sc);

                // Candidate hazard cells: everything but the start cell and
                // its neighborhood. At most five cells are excluded, so a
                // board of at least sixteen leaves room for the Wumpus and
                // the gold.
                let mut cand: Vec<Pos> = Vec::new();
                let ghost mut skipped: int = 0;
                let mut i: usize = 0;
                while i < nrows
                    invariant
                        0 <= i <= nrows,
                        4 <= nrows <= 6,
                        4 <= ncols <= 6,
                        sr < nrows,
                        sc < ncols,
                        forall|k: int|
                            0 <= k < cand@.len() ==> {
                                let p = #[trigger] cand@[k];
                                &&& p.row < nrows
                                &&& p.col < ncols
                                &&& !(p.row == sr && p.col == sc)
                                &&& !is_neighbor(p.row as int, p.col as int, sr as int, sc as int)
                                &&& p.row < i
                            },
                        forall|k1: int, k2: int|
                            0 <= k1 < k2 < cand@.len() ==> #[trigger] cand@[k1] != #[trigger] cand@[k2],
                        cand@.len() + skipped == i as int * ncols as int,
                        0 <= skipped <= skip_bound(sr as int, sc as int, i as int, 0),
                    decreases nrows - i,
                {
                    let mut j: usize = 0;
                    while j < ncols
                        invariant
                            0 <= j <= ncols,
                            4 <= nrows <= 6,
                            4 <= ncols <= 6,
                            sr < nrows,
                            sc < ncols,
                            i < nrows,
                            forall|k: int|
                                0 <= k < cand@.len() ==> {
                                    let p = #[trigger] cand@[k];
                                    &&& p.row < nrows
                                    &&& p.col < ncols
                                    &&& !(p.row == sr && p.col == sc)
                                    &&& !is_neighbor(p.row as int, p.col as int, sr as int, sc as int)
                                    &&& (p.row < i || (p.row == i && p.col < j))
                                },
                            forall|k1: int, k2: int|
                                0 <= k1 < k2 < cand@.len() ==> #[trigger] cand@[k1] != #[trigger] cand@[k2],
                            cand@.len() + skipped == i as int * ncols as int + j as int,
                            0 <= skipped <= skip_bound(sr as int, sc as int, i as int, j as int),
                        decreases ncols - j,
                    {
                        let same = i == sr && j == sc;
                        let near = (i == sr && (j + 1 == sc || (sc + 1 == j))) || (j == sc && (i
                            + 1 == sr || (sr + 1 == i)));
                        if !same && !near {
                            let ghost prev = cand@;
                            cand.push(Pos::new(i, j));
                            proof {
                                assert(cand@.last() == (Pos { row: i, col: j }));
                                assert(skip_bound(sr as int, sc as int, i as int, j as int + 1)
                                    >= skip_bound(sr as int, sc as int, i as int, j as int));
                            }
                        } else {
                            proof {
                                skipped = skipped + 1;
                                assert(skip_bound(sr as int, sc as int, i as int, j as int + 1)
                                    >= skip_bound(sr as int, sc as int, i as int, j as int) + 1);
                            }
                        }
                        j += 1;
                    }
                    proof {
                        assert(i as int * ncols as int + ncols as int == (i as int + 1)
                            * ncols as int) by (nonlinear_arith);
                        assert(skip_bound(sr as int, sc as int, i as int + 1, 0) >= skip_bound(
                            sr as int,
                            sc as int,
                            i as int,
                            ncols as int,
                        ));
                    }
                    i += 1;
                }
                proof {
                    assert(skip_bound(sr as int, sc as int, nrows as int, 0) <= 5);
                    assert(nrows as int * ncols as int >= 16) by (nonlinear_arith)
                        requires
                            4 <= nrows <= 6 && 4 <= ncols <= 6,
                    ;
                    assert(cand@.len() >= 11);
                }

                // Pits with one-in-five probability, always keeping at least
                // two hazard-free candidates for the Wumpus and the gold.
                let mut free: Vec<Pos> = Vec::new();
                let mut k: usize = 0;
                while k < cand.len()
                    invariant
                        cand@.len() >= 2,
                        k <= cand@.len(),
                        free@.len() <= k,
                        free@.len() + (cand@.len() - k) >= 2,
                        forall|m: int|
                            0 <= m < free@.len() ==> {
                                let p = #[trigger] free@[m];
                                &&& p.row < grid.nrows_spec()
                                &&& p.col < grid.ncols_spec()
                                &&& !(p.row == sr && p.col == sc)
                                &&& !is_neighbor(p.row as int, p.col as int, sr as int, sc as int)
                            },
                        forall|m: int|
                            0 <= m < free@.len() ==> exists|kk: int|
                                0 <= kk < k && #[trigger] free@[m] == cand@[kk],
                        forall|m1: int, m2: int|
                            0 <= m1 < m2 < free@.len() ==> #[trigger] free@[m1] != #[trigger] free@[m2],
                        forall|m: int|
                            0 <= m < cand@.len() ==> {
                                let p = #[trigger] cand@[m];
                                &&& p.row < grid.nrows_spec()
                                &&& p.col < grid.ncols_spec()
                                &&& !(p.row == sr && p.col == sc)
                                &&& !is_neighbor(p.row as int, p.col as int, sr as int, sc as int)
                            },
                        forall|k1: int, k2: int|
                            0 <= k1 < k2 < cand@.len() ==> #[trigger] cand@[k1] != #[trigger] cand@[k2],
                        grid.wf(),
                        grid.nrows_spec() == nrows,
                        grid.ncols_spec() == ncols,
                        sr < nrows,
                        sc < ncols,
                        grid.room_spec(sr as int, sc as int).kind_spec() == RoomKind::Void,
                        forall|a: int, b: int|
                            0 <= a < nrows && 0 <= b < ncols && is_neighbor(
                                a,
                                b,
                                sr as int,
                                sc as int,
                            ) ==> (#[trigger] grid.room_spec(a, b)).kind_spec()
                                == RoomKind::Void,
                    decreases cand.len() - k,
                {
                    let may_pit = free.len() + (cand.len() - k - 1) >= 2;
                    if may_pit && rand_below(5) == 0 {
                        let p = cand[k];
                        let room = grid.mut_room_at(&p);
                        room.set_kind(RoomKind::Pit);
                    } else {
                        let ghost prev_free = free@;
                        free.push(cand[k]);
                        proof {
                            assert(free@.last() == cand@[k as int]);
                            assert forall|m: int|
                                0 <= m < prev_free.len() implies free@[m] == prev_free[m] by {}
                        }
                    }
                    k += 1;
                }

                // One Wumpus on a hazard-free candidate, then the gold on
                // another: the two cells are distinct, so both survive.
                let wi = rand_below(free.len());
                let ghost free_before = free@;
                let wumpus_pos = free.remove(wi);
                proof {
                    assert(wumpus_pos == free_before[wi as int]);
                    assert forall|m: int| 0 <= m < free@.len() implies {
                        let p = #[trigger] free@[m];
                        &&& p.row < grid.nrows_spec()
                        &&& p.col < grid.ncols_spec()
                        &&& !(p.row == sr && p.col == sc)
                        &&& !is_neighbor(p.row as int, p.col as int, sr as int, sc as int)
                        &&& p != wumpus_pos
                    } by {
                        if m < wi as int {
                            assert(free@[m] == free_before[m]);
                        } else {
                            assert(free@[m] == free_before[m + 1]);
                        }
                    }
                }
                let room = grid.mut_room_at(&wumpus_pos);
                room.set_kind(RoomKind::Wumpus);
                proof {
                    wpos = wumpus_pos;
                }

                let gi = rand_below(free.len());
                let gold_pos = free[gi];
                let room2 = grid.mut_room_at(&gold_pos);
                room2.set_kind(RoomKind::Gold);
                proof {
                    gpos = gold_pos;
                    assert(wpos.row < nrows && wpos.col < ncols);
                    assert(gpos.row < nrows && gpos.col < ncols);
                    assert(grid.room_spec(wpos.row as int, wpos.col as int).kind_spec()
                        == RoomKind::Wumpus);
                    assert(grid.room_spec(gpos.row as int, gpos.col as int).kind_spec()
                        == RoomKind::Gold);
                }
            },
        }

        let mut env = Environment {
            grid,
            score: 0,
            init_pos: Pos::new(init_pos.row, init_pos.col),
            agent_pos: Pos::new(init_pos.row, init_pos.col),
            curr_obs: Observation::new(Pos::new(init_pos.row, init_pos.col)),
        };
        env.initialize();
        proof {
            match grid_type {
                GridType::Random => {
                    assert(env.grid_spec().room_spec(
                        wpos.row as int,
                        wpos.col as int,
                    ).kind_spec() == RoomKind::Wumpus);
                    assert(env.grid_spec().room_spec(
                        gpos.row as int,
                        gpos.col as int,
                    ).kind_spec() == RoomKind::Gold);
                },
                GridType::Classic => {},
            }
        }
        env
    }

    pub closed spec fn grid_spec(self) -> Grid {
        self.grid
    }

    pub closed spec fn score_spec(self) -> int {
        self.score as int
    }

    pub closed spec fn init_spec(self) -> Pos {
        self.init_pos
    }

    pub closed spec fn agent_spec(self) -> Pos {
        self.agent_pos
    }

    pub closed spec fn obs_spec(self) -> Observation {
        self.curr_obs
    }

    /// The grid is well formed and both tracked positions are on it.
    pub open spec fn wf(self) -> bool {
        &&& self.grid_spec().wf()
        &&& self.init_spec().row < self.grid_spec().nrows_spec()
        &&& self.init_spec().col < self.grid_spec().ncols_spec()
        &&& self.agent_spec().row < self.grid_spec().nrows_spec()
        &&& self.agent_spec().col < self.grid_spec().ncols_spec()
    }

    pub fn grid(&self) -> (r: &Grid)
        ensures
            *r == self.grid_spec(),
    {
        &self.grid
    }

    pub fn agent_position(&self) -> (r: &Pos)
        ensures
            *r == self.agent_spec(),
    {
        &self.agent_pos
    }

    pub fn mut_agent_position(&mut self) -> (r: &mut Pos)
        ensures
            *r == old(self).agent_spec(),
            final(self).agent_spec() == *final(r),
            final(self).grid_spec() == old(self).grid_spec(),
            final(self).score_spec() == old(self).score_spec(),
            final(self).init_spec() == old(self).init_spec(),
            final(self).obs_spec() == old(self).obs_spec(),
    {
        &mut self.agent_pos
    }

    pub fn is_direction_valid(&self, direction: &Direction) -> (r: bool)
        requires
            self.wf(),
        ensures
            r == dir_valid_spec(
                self.agent_spec().row as int,
                self.agent_spec().col as int,
                *direction,
                self.grid_spec().nrows_spec(),
                self.grid_spec().ncols_spec(),
            ),
    {
        match direction {
            Direction::North => self.agent_pos.row > 0,
            Direction::South => self.agent_pos.row < self.grid.nrows() - 1,
            Direction::East => self.agent_pos.col < self.grid.ncols() - 1,
            Direction::West => self.agent_pos.col > 0,
        }
    }

    /// The directions that stay on the grid from the agent's cell.
    fn available_directions(&self) -> (r: Vec<Direction>)
        requires
            self.wf(),
        ensures
            r@ == avail_dirs_spec(
                self.agent_spec().row as int,
                self.agent_spec().col as int,
                self.grid_spec().nrows_spec(),
                self.grid_spec().ncols_spec(),
            ),
    {
        let mut all: Vec<Direction> = Vec::new();
        if self.is_direction_valid(&Direction::North) {
            all.push(Direction::North);
        }
        if self.is_direction_valid(&Direction::South) {
            all.push(Direction::South);
        }
        if self.is_direction_valid(&Direction::East) {
            all.push(Direction::East);
        }
        if self.is_direction_valid(&Direction::West) {
            all.push(Direction::West);
        }
        proof {
            assert(all@ =~= avail_dirs_spec(
                self.agent_spec().row as int,
                self.agent_spec().col as int,
                self.grid_spec().nrows_spec(),
                self.grid_spec().ncols_spec(),
            ));
        }
        all
    }

    /// The senses the agent's current room delivers.
    fn current_room_senses(&self) -> (r: Vec<Sense>)
        requires
            self.wf(),
        ensures
            r@ == room_senses_spec(
                self.grid_spec().room_spec(
                    self.agent_spec().row as int,
                    self.agent_spec().col as int,
                ),
            ),
    {
        let room = self.grid.room_at(&self.agent_pos);
        let mut senses: Vec<Sense> = Vec::new();
        if room.has_sense(RoomSense::Stench) {
            senses.push(Sense::Stench);
        }
        if room.has_sense(RoomSense::Breeze) {
            senses.push(Sense::Breeze);
        }
        if matches!(room.get_kind(), RoomKind::Gold) {
            senses.push(Sense::Glitter);
        }
        proof {
            assert(senses@ =~= room_senses_spec(*room));
        }
        senses
    }

    pub fn score(&self) -> (r: isize)
        ensures
            r as int == self.score_spec(),
    {
        self.score
    }

    pub fn set_score(&mut self, score: isize)
        ensures
            final(self).score_spec() == score as int,
            final(self).grid_spec() == old(self).grid_spec(),
            final(self).init_spec() == old(self).init_spec(),
            final(self).agent_spec() == old(self).agent_spec(),
            final(self).obs_spec() == old(self).obs_spec(),
    {
        self.score = score;
    }

    pub fn current_room(&self) -> (r: &Room)
        requires
            self.wf(),
        ensures
            *r == self.grid_spec().room_spec(
                self.agent_spec().row as int,
                self.agent_spec().col as int,
            ),
    {
        self.grid.room_at(&self.agent_pos)
    }

    pub fn observation(&self) -> (r: &Observation)
        ensures
            *r == self.obs_spec(),
    {
        &self.curr_obs
    }

    /// Marks the agent's current room as visited.
    pub fn lightup_agent_position(&mut self)
        requires
            old(self).wf(),
        ensures
            final(self).wf(),
            final(self).grid_spec().nrows_spec() == old(self).grid_spec().nrows_spec(),
            final(self).grid_spec().ncols_spec() == old(self).grid_spec().ncols_spec(),
            final(self).score_spec() == old(self).score_spec(),
            final(self).init_spec() == old(self).init_spec(),
            final(self).agent_spec() == old(self).agent_spec(),
            final(self).obs_spec() == old(self).obs_spec(),
            final(self).grid_spec().room_spec(
                old(self).agent_spec().row as int,
                old(self).agent_spec().col as int,
            ).visited_spec(),
            forall|i: int, j: int|
                0 <= i < old(self).grid_spec().nrows_spec() && 0 <= j < old(
                    self,
                ).grid_spec().ncols_spec() && !(i == old(self).agent_spec().row as int && j == old(
                    self,
                ).agent_spec().col as int) ==> #[trigger] final(self).grid_spec().room_spec(i, j)
                    == old(self).grid_spec().room_spec(i, j),
            ({
                let before = old(self).grid_spec().room_spec(
                    old(self).agent_spec().row as int,
                    old(self).agent_spec().col as int,
                );
                let after = final(self).grid_spec().room_spec(
                    old(self).agent_spec().row as int,
                    old(self).agent_spec().col as int,
                );
                after.kind_spec() == before.kind_spec() && after.senses_spec()
                    == before.senses_spec()
            }),
    {
        let pos = Pos::new(self.agent_pos.row, self.agent_pos.col);
        let room = self.grid.mut_room_at(&pos);
        room.set_visited(true);
    }

    /// Resets the episode: zero score, the agent back at the start, a fresh
    /// observation, radiated senses recomputed, and only the start visited.
    pub fn initialize(&mut self)
        requires
            old(self).wf(),
        ensures
            final(self).wf(),
            final(self).score_spec() == 0,
            final(self).init_spec() == old(self).init_spec(),
            final(self).agent_spec() == old(self).init_spec(),
            final(self).grid_spec().nrows_spec() == old(self).grid_spec().nrows_spec(),
            final(self).grid_spec().ncols_spec() == old(self).grid_spec().ncols_spec(),
            forall|i: int, j: int|
                0 <= i < old(self).grid_spec().nrows_spec() && 0 <= j < old(
                    self,
                ).grid_spec().ncols_spec() ==> (#[trigger] final(self).grid_spec().room_spec(
                    i,
                    j,
                )).kind_spec() == old(self).grid_spec().room_spec(i, j).kind_spec(),
            forall|i: int, j: int|
                0 <= i < old(self).grid_spec().nrows_spec() && 0 <= j < old(
                    self,
                ).grid_spec().ncols_spec() ==> ((#[trigger] final(self).grid_spec().room_spec(
                    i,
                    j,
                )).visited_spec() <==> (i == old(self).init_spec().row as int && j == old(
                    self,
                ).init_spec().col as int)),
            final(self).obs_spec().position_spec() == old(self).init_spec(),
            final(self).obs_spec().senses_seq() == Seq::<Sense>::empty(),
            final(self).obs_spec().directions_seq() == avail_dirs_spec(
                old(self).init_spec().row as int,
                old(self).init_spec().col as int,
                old(self).grid_spec().nrows_spec(),
                old(self).grid_spec().ncols_spec(),
            ),
    {
        self.score = 0;
        self.agent_pos = Pos::new(self.init_pos.row, self.init_pos.col);
        self.curr_obs.set_position(Pos::new(self.init_pos.row, self.init_pos.col));
        self.curr_obs.mut_senses().clear();
        self.curr_obs.mut_directions().clear();
        let mut directions = self.available_directions();
        self.curr_obs.mut_directions().append(&mut directions);
        self.grid.initialize();
        self.lightup_agent_position();
    }

    /// Performs one action: a move onto or a shot over the grid edge only
    /// bumps; a move updates position, visited mark, score and observation
    /// and ends the game in a hazard room; a shot kills an adjacent Wumpus;
    /// a climb ends the game only at the start cell.
    pub fn step(&mut self, action: &Action) -> (r: ActionResult)
        requires
            old(self).wf(),
        ensures
            final(self).wf(),
            final(self).init_spec() == old(self).init_spec(),
            final(self).grid_spec().nrows_spec() == old(self).grid_spec().nrows_spec(),
            final(self).grid_spec().ncols_spec() == old(self).grid_spec().ncols_spec(),
            (match *action {
                Action::Move(d) => {
                    let nrows = old(self).grid_spec().nrows_spec();
                    let ncols = old(self).grid_spec().ncols_spec();
                    let row = old(self).agent_spec().row as int;
                    let col = old(self).agent_spec().col as int;
                    if !dir_valid_spec(row, col, d, nrows, ncols) {
                        r == ActionResult::Sense(Sense::Bump(d)) && *final(self) == *old(self)
                    } else {
                        let (nr, nc) = moved_spec(row, col, d);
                        let target = old(self).grid_spec().room_spec(nr, nc);
                        &&& final(self).agent_spec().row as int == nr
                        &&& final(self).agent_spec().col as int == nc
                        &&& final(self).score_spec() == sat_add_spec(
                            old(self).score_spec(),
                            target.kind_spec().score_spec(),
                        )
                        &&& final(self).grid_spec().room_spec(nr, nc).visited_spec()
                        &&& final(self).grid_spec().room_spec(nr, nc).kind_spec()
                            == target.kind_spec()
                        &&& (forall|i: int, j: int|
                            0 <= i < nrows && 0 <= j < ncols && !(i == nr && j == nc)
                                ==> #[trigger] final(self).grid_spec().room_spec(i, j) == old(
                                self,
                            ).grid_spec().room_spec(i, j))
                        &&& final(self).obs_spec().position_spec() == final(self).agent_spec()
                        &&& final(self).obs_spec().senses_seq() == room_senses_spec(target)
                        &&& final(self).obs_spec().directions_seq() == avail_dirs_spec(
                            nr,
                            nc,
                            nrows,
                            ncols,
                        )
                        &&& r == (match target.kind_spec() {
                            RoomKind::Pit => ActionResult::GameOver,
                            RoomKind::Wumpus => ActionResult::GameOver,
                            _ => ActionResult::Proceed,
                        })
                    }
                },
                Action::Shoot(d) => {
                    let nrows = old(self).grid_spec().nrows_spec();
                    let ncols = old(self).grid_spec().ncols_spec();
                    let row = old(self).agent_spec().row as int;
                    let col = old(self).agent_spec().col as int;
                    if !dir_valid_spec(row, col, d, nrows, ncols) {
                        r == ActionResult::Sense(Sense::Bump(d)) && *final(self) == *old(self)
                    } else {
                        let (tr, tc) = moved_spec(row, col, d);
                        let target = old(self).grid_spec().room_spec(tr, tc);
                        if target.kind_spec() == RoomKind::Wumpus {
                            &&& final(self).grid_spec().room_spec(tr, tc).kind_spec()
                                == RoomKind::Void
                            &&& final(self).grid_spec().room_spec(tr, tc).visited_spec()
                            &&& (forall|i: int, j: int|
                                0 <= i < nrows && 0 <= j < ncols && !(i == tr && j == tc)
                                    ==> #[trigger] final(self).grid_spec().room_spec(i, j) == old(
                                    self,
                                ).grid_spec().room_spec(i, j))
                            &&& final(self).score_spec() == sat_add_spec(
                                old(self).score_spec(),
                                -10,
                            )
                            &&& final(self).agent_spec() == old(self).agent_spec()
                            &&& final(self).obs_spec().position_spec() == old(
                                self,
                            ).obs_spec().position_spec()
                            &&& final(self).obs_spec().directions_seq() == old(
                                self,
                            ).obs_spec().directions_seq()
                            &&& final(self).obs_spec().senses_seq() == old(
                                self,
                            ).obs_spec().senses_seq().push(Sense::Scream(d))
                            &&& r == ActionResult::Sense(Sense::Scream(d))
                        } else {
                            r == ActionResult::Proceed && *final(self) == *old(self)
                        }
                    }
                },
                Action::Grab => r == ActionResult::Proceed && *final(self) == *old(self),
                Action::Climb => {
                    if old(self).agent_spec() == old(self).init_spec() {
                        r == ActionResult::GameOver && *final(self) == *old(self)
                    } else {
                        &&& final(self).agent_spec() == old(self).agent_spec()
                        &&& final(self).score_spec() == old(self).score_spec()
                        &&& final(self).grid_spec() == old(self).grid_spec()
                        &&& final(self).obs_spec().senses_seq() == old(
                            self,
                        ).obs_spec().senses_seq().push(Sense::Ceil)
                        &&& final(self).obs_spec().position_spec() == old(
                            self,
                        ).obs_spec().position_spec()
                        &&& final(self).obs_spec().directions_seq() == old(
                            self,
                        ).obs_spec().directions_seq()
                        &&& r == ActionResult::Sense(Sense::Ceil)
                    }
                },
            }),
    {
        match action {
            Action::Move(direction) => {
                if !self.is_direction_valid(direction) {
                    return ActionResult::Sense(Sense::Bump(*direction));
                }
                proof {
                    self.grid_spec().lemma_dims_bounded();
                }
                self.agent_pos = self.agent_pos.moved(direction);
                self.lightup_agent_position();
                let delta = self.current_room().get_kind().score();
                let new_score = sat_add(self.score, delta);
                self.score = new_score;

                self.curr_obs.set_position(Pos::new(self.agent_pos.row, self.agent_pos.col));

                let mut current_senses = self.current_room_senses();
                self.curr_obs.mut_senses().clear();
                self.curr_obs.mut_senses().append(&mut current_senses);

                let mut available_dirs = self.available_directions();
                self.curr_obs.mut_directions().clear();
                self.curr_obs.mut_directions().append(&mut available_dirs);

                match self.current_room().get_kind() {
                    RoomKind::Pit => ActionResult::GameOver,
                    RoomKind::Wumpus => ActionResult::GameOver,
                    _ => ActionResult::Proceed,
                }
            },
            Action::Shoot(direction) => {
                if !self.is_direction_valid(direction) {
                    return ActionResult::Sense(Sense::Bump(*direction));
                }
                proof {
                    self.grid_spec().lemma_dims_bounded();
                }
                let target_position = self.agent_pos.moved(direction);
                let is_wumpus = matches!(
                    self.grid.room_at(&target_position).get_kind(),
                    RoomKind::Wumpus
                );
                if is_wumpus {
                    let room = self.grid.mut_room_at(&target_position);
                    room.set_kind(RoomKind::Void);
                    let room2 = self.grid.mut_room_at(&target_position);
                    room2.set_visited(true);
                    let new_score = sat_add(self.score, -ARROW_PENALTY);
                    self.score = new_score;

                    let sense = Sense::Scream(*direction);
                    self.curr_obs.mut_senses().push(sense);
                    ActionResult::Sense(sense)
                } else {
                    ActionResult::Proceed
                }
            },
            Action::Grab => ActionResult::Proceed,
            Action::Climb => {
                if self.agent_pos.row == self.init_pos.row && self.agent_pos.col
                    == self.init_pos.col {
                    ActionResult::GameOver
                } else {
                    let sense = Sense::Ceil;
                    self.curr_obs.mut_senses().push(sense);
                    ActionResult::Sense(sense)
                }
            },
        }
    }
}

} // verus!
