//! The grid of rooms and positions on it.

use vstd::prelude::*;

use crate::agent::Direction;
use crate::room::{Room, RoomKind, RoomSense};

verus! {

/// A cell coordinate: row and column, both zero-based.
#[derive(Clone, Copy, PartialEq, Eq, Structural, Hash, Debug)]
pub struct Pos {
    pub row: usize,
    pub col: usize,
}

/// Where one step in a direction leads, as row and column.
pub open spec fn moved_spec(row: int, col: int, d: Direction) -> (int, int) {
    match d {
        Direction::North => (row - 1, col),
        Direction::South => (row + 1, col),
        Direction::East => (row, col + 1),
        Direction::West => (row, col - 1),
    }
}

/// Whether two cells are grid-adjacent (one step apart in one axis).
pub open spec fn is_neighbor(r1: int, c1: int, r2: int, c2: int) -> bool {
    ||| (r1 == r2 - 1 && c1 == c2)
    ||| (r1 == r2 + 1 && c1 == c2)
    ||| (r1 == r2 && c1 == c2 - 1)
    ||| (r1 == r2 && c1 == c2 + 1)
}

/// The position one step in a direction, as a position value.
pub open spec fn moved_pos(p: Pos, d: Direction) -> Pos {
    match d {
        Direction::North => Pos { row: (p.row - 1) as usize, col: p.col },
        Direction::South => Pos { row: (p.row + 1) as usize, col: p.col },
        Direction::East => Pos { row: p.row, col: (p.col + 1) as usize },
        Direction::West => Pos { row: p.row, col: (p.col - 1) as usize },
    }
}

/// Whether one step in a direction stays on an `nrows` by `ncols` grid.
pub open spec fn dir_valid_spec(row: int, col: int, d: Direction, nrows: int, ncols: int) -> bool {
    match d {
        Direction::North => row > 0,
        Direction::South => row < nrows - 1,
        Direction::East => col < ncols - 1,
        Direction::West => col > 0,
    }
}

impl Pos {
    pub fn new(row: usize, col: usize) -> (r: Pos)
        ensures
            r.row == row,
            r.col == col,
    {
        Pos { row, col }
    }

    /// The neighboring position one step in the given direction.
    pub fn moved(&self, direction: &Direction) -> (r: Pos)
        requires
            direction is North ==> self.row > 0,
            direction is West ==> self.col > 0,
            direction is South ==> self.row < usize::MAX,
            direction is East ==> self.col < usize::MAX,
        ensures
            (r.row as int, r.col as int) == moved_spec(self.row as int, self.col as int, *direction),
            r == moved_pos(*self, *direction),
    {
        let mut result = *self;
        match direction {
            Direction::North => result.row = result.row - 1,
            Direction::South => result.row = result.row + 1,
            Direction::East => result.col = result.col + 1,
            Direction::West => result.col = result.col - 1,
        }
        result
    }
}

/// A base sense set extended with a breeze and a stench when asked.
pub open spec fn with_senses(base: Set<RoomSense>, breeze: bool, stench: bool) -> Set<RoomSense> {
    let b = if breeze {
        base.insert(RoomSense::Breeze)
    } else {
        base
    };
    if stench {
        b.insert(RoomSense::Stench)
    } else {
        b
    }
}

/// Row-major processing order: whether cell `(p, q)` comes before the
/// current cell `(i, j)`.
pub open spec fn done_before(p: int, q: int, i: int, j: int) -> bool {
    p < i || (p == i && q < j)
}

/// Whether some already processed cell adjacent to `(a, b)` holds the kind.
pub open spec fn kind_done_near(g: Grid, kind: RoomKind, a: int, b: int, i: int, j: int) -> bool {
    exists|p: int, q: int|
        0 <= p < g.nrows_spec() && 0 <= q < g.ncols_spec() && done_before(p, q, i, j)
            && (#[trigger] g.room_spec(p, q)).kind_spec() == kind && is_neighbor(a, b, p, q)
}

/// Whether some cell adjacent to `(a, b)` holds the kind.
pub open spec fn kind_near(g: Grid, kind: RoomKind, a: int, b: int) -> bool {
    kind_done_near(g, kind, a, b, g.nrows_spec(), 0)
}

/// The per-cell state of sense radiation when processing has reached cell
/// `(i, j)` in row-major order: kinds and visited marks are untouched, and a
/// cell is breezy or stenchy exactly for the already processed hazards next
/// to it.
pub open spec fn step_state(g0: Grid, g: Grid, a: int, b: int, i: int, j: int) -> bool {
    let before = g0.room_spec(a, b);
    let after = g.room_spec(a, b);
    &&& after.kind_spec() == before.kind_spec()
    &&& after.visited_spec() == before.visited_spec()
    &&& after.senses_spec() == with_senses(
        before.senses_spec(),
        kind_done_near(g0, RoomKind::Pit, a, b, i, j),
        kind_done_near(g0, RoomKind::Wumpus, a, b, i, j),
    )
}

/// At the end of a row the processed region is the same as at the start of
/// the next row.
proof fn lemma_done_wraps(g0: Grid, a: int, b: int, i: int, ncols: int)
    requires
        g0.ncols_spec() == ncols,
    ensures
        kind_done_near(g0, RoomKind::Pit, a, b, i, ncols) == kind_done_near(
            g0,
            RoomKind::Pit,
            a,
            b,
            i + 1,
            0,
        ),
        kind_done_near(g0, RoomKind::Wumpus, a, b, i, ncols) == kind_done_near(
            g0,
            RoomKind::Wumpus,
            a,
            b,
            i + 1,
            0,
        ),
{
    lemma_done_wraps_kind(g0, RoomKind::Pit, a, b, i, ncols);
    lemma_done_wraps_kind(g0, RoomKind::Wumpus, a, b, i, ncols);
}

proof fn lemma_done_wraps_kind(g0: Grid, kind: RoomKind, a: int, b: int, i: int, ncols: int)
    requires
        g0.ncols_spec() == ncols,
    ensures
        kind_done_near(g0, kind, a, b, i, ncols) == kind_done_near(g0, kind, a, b, i + 1, 0),
{
    if kind_done_near(g0, kind, a, b, i, ncols) {
        let (p, q) = choose|p: int, q: int|
            0 <= p < g0.nrows_spec() && 0 <= q < g0.ncols_spec() && done_before(p, q, i, ncols)
                && (#[trigger] g0.room_spec(p, q)).kind_spec() == kind && is_neighbor(a, b, p, q);
        assert(done_before(p, q, i + 1, 0));
        assert(kind_done_near(g0, kind, a, b, i + 1, 0));
    }
    if kind_done_near(g0, kind, a, b, i + 1, 0) {
        let (p, q) = choose|p: int, q: int|
            0 <= p < g0.nrows_spec() && 0 <= q < g0.ncols_spec() && done_before(p, q, i + 1, 0)
                && (#[trigger] g0.room_spec(p, q)).kind_spec() == kind && is_neighbor(a, b, p, q);
        assert(done_before(p, q, i, ncols));
        assert(kind_done_near(g0, kind, a, b, i, ncols));
    }
}

/// Processing one cell advances the per-cell radiation state by one step.
proof fn lemma_update_senses_step(g0: Grid, mid: Grid, g: Grid, i: int, j: int)
    requires
        g0.wf(),
        0 <= i < g0.nrows_spec(),
        0 <= j < g0.ncols_spec(),
        mid.nrows_spec() == g0.nrows_spec(),
        mid.ncols_spec() == g0.ncols_spec(),
        g.nrows_spec() == g0.nrows_spec(),
        g.ncols_spec() == g0.ncols_spec(),
        forall|a: int, b: int|
            0 <= a < g0.nrows_spec() && 0 <= b < g0.ncols_spec() ==> #[trigger] step_state(
                g0,
                mid,
                a,
                b,
                i,
                j,
            ),
        forall|a: int, b: int|
            0 <= a < g0.nrows_spec() && 0 <= b < g0.ncols_spec() ==> {
                let before = mid.room_spec(a, b);
                let after = #[trigger] g.room_spec(a, b);
                &&& after.kind_spec() == before.kind_spec()
                &&& after.visited_spec() == before.visited_spec()
                &&& after.senses_spec() == (match g0.room_spec(i, j).kind_spec() {
                    RoomKind::Pit => if is_neighbor(a, b, i, j) {
                        before.senses_spec().insert(RoomSense::Breeze)
                    } else {
                        before.senses_spec()
                    },
                    RoomKind::Wumpus => if is_neighbor(a, b, i, j) {
                        before.senses_spec().insert(RoomSense::Stench)
                    } else {
                        before.senses_spec()
                    },
                    _ => before.senses_spec(),
                })
            },
    ensures
        forall|a: int, b: int|
            0 <= a < g0.nrows_spec() && 0 <= b < g0.ncols_spec() ==> #[trigger] step_state(
                g0,
                g,
                a,
                b,
                i,
                j + 1,
            ),
{
    assert forall|a: int, b: int|
        0 <= a < g0.nrows_spec() && 0 <= b < g0.ncols_spec() implies #[trigger] step_state(
        g0,
        g,
        a,
        b,
        i,
        j + 1,
    ) by {
        assert(step_state(g0, mid, a, b, i, j));
        let kind0 = g0.room_spec(i, j).kind_spec();
        lemma_done_advance(g0, RoomKind::Pit, a, b, i, j, kind0);
        lemma_done_advance(g0, RoomKind::Wumpus, a, b, i, j, kind0);
        let base = g0.room_spec(a, b).senses_spec();
        let p_old = kind_done_near(g0, RoomKind::Pit, a, b, i, j);
        let w_old = kind_done_near(g0, RoomKind::Wumpus, a, b, i, j);
        let p_new = kind_done_near(g0, RoomKind::Pit, a, b, i, j + 1);
        let w_new = kind_done_near(g0, RoomKind::Wumpus, a, b, i, j + 1);
        if kind0 == RoomKind::Pit && is_neighbor(a, b, i, j) {
            assert(with_senses(base, p_old, w_old).insert(RoomSense::Breeze) =~= with_senses(
                base,
                true,
                w_old,
            ));
        } else if kind0 == RoomKind::Wumpus && is_neighbor(a, b, i, j) {
            assert(with_senses(base, p_old, w_old).insert(RoomSense::Stench) =~= with_senses(
                base,
                p_old,
                true,
            ));
        }
    }
}

/// How the processed-hazard predicate changes when one more cell, of a known
/// kind, is processed.
proof fn lemma_done_advance(
    g0: Grid,
    kind: RoomKind,
    a: int,
    b: int,
    i: int,
    j: int,
    kind_ij: RoomKind,
)
    requires
        g0.room_spec(i, j).kind_spec() == kind_ij,
        0 <= i < g0.nrows_spec(),
        0 <= j < g0.ncols_spec(),
    ensures
        kind_done_near(g0, kind, a, b, i, j + 1) == (kind_done_near(g0, kind, a, b, i, j) || (
        kind_ij == kind && is_neighbor(a, b, i, j))),
{
    if kind_done_near(g0, kind, a, b, i, j + 1) {
        let (p, q) = choose|p: int, q: int|
            0 <= p < g0.nrows_spec() && 0 <= q < g0.ncols_spec() && done_before(p, q, i, j + 1)
                && (#[trigger] g0.room_spec(p, q)).kind_spec() == kind && is_neighbor(a, b, p, q);
        if p == i && q == j {
            assert(kind_ij == kind && is_neighbor(a, b, i, j));
        } else {
            assert(done_before(p, q, i, j));
            assert(kind_done_near(g0, kind, a, b, i, j));
        }
    }
    if kind_done_near(g0, kind, a, b, i, j) {
        let (p, q) = choose|p: int, q: int|
            0 <= p < g0.nrows_spec() && 0 <= q < g0.ncols_spec() && done_before(p, q, i, j)
                && (#[trigger] g0.room_spec(p, q)).kind_spec() == kind && is_neighbor(a, b, p, q);
        assert(done_before(p, q, i, j + 1));
        assert(kind_done_near(g0, kind, a, b, i, j + 1));
    }
    if kind_ij == kind && is_neighbor(a, b, i, j) {
        assert(done_before(i, j, i, j + 1));
        assert(kind_done_near(g0, kind, a, b, i, j + 1));
    }
}

/// A rectangular grid of rooms.
pub struct Grid {
    cells: Vec<Vec<Room>>,
    nrows: usize,
    ncols: usize,
}

impl Grid {
    /// The grid holds exactly `nrows` rows of `ncols` rooms each, and the
    /// grid is not degenerate.
    pub closed spec fn wf(self) -> bool {
        &&& self.cells@.len() == self.nrows
        &&& forall|i: int| 0 <= i < self.cells@.len() ==> (#[trigger] self.cells@[i])@.len() == self.ncols
        &&& self.nrows >= 1
        &&& self.ncols >= 1
    }

    pub closed spec fn nrows_spec(self) -> int {
        self.nrows as int
    }

    pub closed spec fn ncols_spec(self) -> int {
        self.ncols as int
    }

    /// The room at a coordinate.
    pub closed spec fn room_spec(self, row: int, col: int) -> Room {
        self.cells@[row]@[col]
    }

    pub fn new(nrows: usize, ncols: usize) -> (r: Grid)
        requires
            1 <= nrows,
            1 <= ncols,
        ensures
            r.wf(),
            r.nrows_spec() == nrows,
            r.ncols_spec() == ncols,
            forall|i: int, j: int|
                0 <= i < nrows && 0 <= j < ncols ==> (#[trigger] r.room_spec(i, j)).is_initial(),
    {
        let mut cells: Vec<Vec<Room>> = Vec::new();
        let mut i: usize = 0;
        while i < nrows
            invariant
                0 <= i <= nrows,
                cells@.len() == i,
                forall|a: int| 0 <= a < i ==> (#[trigger] cells@[a])@.len() == ncols,
                forall|a: int, b: int|
                    0 <= a < i && 0 <= b < ncols ==> (#[trigger] cells@[a]@[b]).is_initial(),
            decreases nrows - i,
        {
            let mut row: Vec<Room> = Vec::new();
            let mut j: usize = 0;
            while j < ncols
                invariant
                    0 <= j <= ncols,
                    row@.len() == j,
                    forall|b: int| 0 <= b < j ==> (#[trigger] row@[b]).is_initial(),
                decreases ncols - j,
            {
                row.push(Room::new());
                j += 1;
            }
            cells.push(row);
            i += 1;
        }
        Grid { cells, nrows, ncols }
    }

    /// The dimensions are machine integers.
    pub proof fn lemma_dims_bounded(self)
        ensures
            self.nrows_spec() <= usize::MAX as int,
            self.ncols_spec() <= usize::MAX as int,
    {
    }

    pub fn nrows(&self) -> (r: usize)
        ensures
            r == self.nrows_spec(),
    {
        self.nrows
    }

    pub fn ncols(&self) -> (r: usize)
        ensures
            r == self.ncols_spec(),
    {
        self.ncols
    }

    pub fn room_at(&self, position: &Pos) -> (r: &Room)
        requires
            self.wf(),
            position.row < self.nrows_spec(),
            position.col < self.ncols_spec(),
        ensures
            *r == self.room_spec(position.row as int, position.col as int),
    {
        &self.cells[position.row][position.col]
    }

    /// Adds a sense to every existing grid neighbor of a cell.
    fn surround_cell(&mut self, row: usize, col: usize, with: RoomSense)
        requires
            old(self).wf(),
            row < old(self).nrows_spec(),
            col < old(self).ncols_spec(),
        ensures
            final(self).wf(),
            final(self).nrows_spec() == old(self).nrows_spec(),
            final(self).ncols_spec() == old(self).ncols_spec(),
            forall|i: int, j: int|
                0 <= i < old(self).nrows_spec() && 0 <= j < old(self).ncols_spec() ==> {
                    let before = old(self).room_spec(i, j);
                    let after = #[trigger] final(self).room_spec(i, j);
                    &&& after.kind_spec() == before.kind_spec()
                    &&& after.visited_spec() == before.visited_spec()
                    &&& after.senses_spec() == if is_neighbor(i, j, row as int, col as int) {
                        before.senses_spec().insert(with)
                    } else {
                        before.senses_spec()
                    }
                },
    {
        if row >= 1 {
            let r = self.mut_room_at(&Pos::new(row - 1, col));
            r.add_sense(with);
        }
        if row + 1 <= self.nrows - 1 {
            let r = self.mut_room_at(&Pos::new(row + 1, col));
            r.add_sense(with);
        }
        if col >= 1 {
            let r = self.mut_room_at(&Pos::new(row, col - 1));
            r.add_sense(with);
        }
        if col + 1 <= self.ncols - 1 {
            let r = self.mut_room_at(&Pos::new(row, col + 1));
            r.add_sense(with);
        }
    }

    /// Radiates senses: every neighbor of a pit becomes breezy, every
    /// neighbor of the Wumpus stenchy; kinds and visited marks are kept.
    fn update_senses(&mut self)
        requires
            old(self).wf(),
        ensures
            final(self).wf(),
            final(self).nrows_spec() == old(self).nrows_spec(),
            final(self).ncols_spec() == old(self).ncols_spec(),
            forall|a: int, b: int|
                0 <= a < old(self).nrows_spec() && 0 <= b < old(self).ncols_spec() ==> {
                    let before = old(self).room_spec(a, b);
                    let after = #[trigger] final(self).room_spec(a, b);
                    &&& after.kind_spec() == before.kind_spec()
                    &&& after.visited_spec() == before.visited_spec()
                    &&& after.senses_spec() == with_senses(
                        before.senses_spec(),
                        kind_near(*old(self), RoomKind::Pit, a, b),
                        kind_near(*old(self), RoomKind::Wumpus, a, b),
                    )
                },
    {
        let ghost g0 = *old(self);
        let nrows = self.nrows;
        let ncols = self.ncols;
        let mut i: usize = 0;
        while i < nrows
            invariant
                0 <= i <= nrows,
                self.wf(),
                self.nrows_spec() == nrows,
                self.ncols_spec() == ncols,
                g0.wf(),
                g0.nrows_spec() == nrows,
                g0.ncols_spec() == ncols,
                forall|a: int, b: int|
                    0 <= a < nrows && 0 <= b < ncols ==> step_state(g0, *self, a, b, i as int, 0),
            decreases nrows - i,
        {
            let mut j: usize = 0;
            while j < ncols
                invariant
                    0 <= i < nrows,
                    0 <= j <= ncols,
                    self.wf(),
                    self.nrows_spec() == nrows,
                    self.ncols_spec() == ncols,
                    g0.wf(),
                    g0.nrows_spec() == nrows,
                    g0.ncols_spec() == ncols,
                    forall|a: int, b: int|
                        0 <= a < nrows && 0 <= b < ncols ==> step_state(
                            g0,
                            *self,
                            a,
                            b,
                            i as int,
                            j as int,
                        ),
                decreases ncols - j,
            {
                let kind = *self.room_at(&Pos::new(i, j)).get_kind();
                let ghost mid = *self;
                proof {
                    assert(step_state(g0, mid, i as int, j as int, i as int, j as int));
                    assert(g0.room_spec(i as int, j as int).kind_spec() == kind);
                }
                match kind {
                    RoomKind::Void => {},
                    RoomKind::Gold => {},
                    RoomKind::Pit => {
                        self.surround_cell(i, j, RoomSense::Breeze);
                    },
                    RoomKind::Wumpus => {
                        self.surround_cell(i, j, RoomSense::Stench);
                    },
                }
                proof {
                    lemma_update_senses_step(g0, mid, *self, i as int, j as int);
                }
                j += 1;
            }
            proof {
                assert forall|a: int, b: int|
                    0 <= a < nrows && 0 <= b < ncols implies #[trigger] step_state(
                    g0,
                    *self,
                    a,
                    b,
                    i as int + 1,
                    0,
                ) by {
                    assert(step_state(g0, *self, a, b, i as int, ncols as int));
                    lemma_done_wraps(g0, a, b, i as int, ncols as int);
                }
            }
            i += 1;
        }
        proof {
            assert forall|a: int, b: int|
                #![trigger self.room_spec(a, b)]
                0 <= a < nrows && 0 <= b < ncols implies {
                let before = g0.room_spec(a, b);
                let after = self.room_spec(a, b);
                after.kind_spec() == before.kind_spec() && after.visited_spec()
                    == before.visited_spec() && after.senses_spec() == with_senses(
                    before.senses_spec(),
                    kind_near(g0, RoomKind::Pit, a, b),
                    kind_near(g0, RoomKind::Wumpus, a, b),
                )
            } by {
                assert(step_state(g0, *self, a, b, nrows as int, 0));
            }
        }
    }

    /// Recomputes the radiated senses and clears every visited mark.
    pub fn initialize(&mut self)
        requires
            old(self).wf(),
        ensures
            final(self).wf(),
            final(self).nrows_spec() == old(self).nrows_spec(),
            final(self).ncols_spec() == old(self).ncols_spec(),
            forall|a: int, b: int|
                0 <= a < old(self).nrows_spec() && 0 <= b < old(self).ncols_spec() ==> {
                    let before = old(self).room_spec(a, b);
                    let after = #[trigger] final(self).room_spec(a, b);
                    &&& after.kind_spec() == before.kind_spec()
                    &&& !after.visited_spec()
                    &&& after.senses_spec() == with_senses(
                        before.senses_spec(),
                        kind_near(*old(self), RoomKind::Pit, a, b),
                        kind_near(*old(self), RoomKind::Wumpus, a, b),
                    )
                },
    {
        self.update_senses();
        let ghost g1 = *self;
        let nrows = self.nrows;
        let ncols = self.ncols;
        let mut i: usize = 0;
        while i < nrows
            invariant
                0 <= i <= nrows,
                self.wf(),
                self.nrows_spec() == nrows,
                self.ncols_spec() == ncols,
                g1.wf(),
                g1.nrows_spec() == nrows,
                g1.ncols_spec() == ncols,
                forall|a: int, b: int|
                    0 <= a < nrows && 0 <= b < ncols ==> {
                        let before = g1.room_spec(a, b);
                        let after = #[trigger] self.room_spec(a, b);
                        &&& after.kind_spec() == before.kind_spec()
                        &&& after.senses_spec() == before.senses_spec()
                        &&& if a < i {
                            !after.visited_spec()
                        } else {
                            after.visited_spec() == before.visited_spec()
                        }
                    },
            decreases nrows - i,
        {
            let mut j: usize = 0;
            while j < ncols
                invariant
                    0 <= i < nrows,
                    0 <= j <= ncols,
                    self.wf(),
                    self.nrows_spec() == nrows,
                    self.ncols_spec() == ncols,
                    g1.wf(),
                    g1.nrows_spec() == nrows,
                    g1.ncols_spec() == ncols,
                    forall|a: int, b: int|
                        0 <= a < nrows && 0 <= b < ncols ==> {
                            let before = g1.room_spec(a, b);
                            let after = #[trigger] self.room_spec(a, b);
                            &&& after.kind_spec() == before.kind_spec()
                            &&& after.senses_spec() == before.senses_spec()
                            &&& if a < i || (a == i && b < j) {
                                !after.visited_spec()
                            } else {
                                after.visited_spec() == before.visited_spec()
                            }
                        },
                decreases ncols - j,
            {
                let r = self.mut_room_at(&Pos::new(i, j));
                r.set_visited(false);
                j += 1;
            }
            i += 1;
        }
    }

    pub fn mut_room_at(&mut self, position: &Pos) -> (r: &mut Room)
        requires
            old(self).wf(),
            position.row < old(self).nrows_spec(),
            position.col < old(self).ncols_spec(),
        ensures
            *r == old(self).room_spec(position.row as int, position.col as int),
            final(self).wf(),
            final(self).nrows_spec() == old(self).nrows_spec(),
            final(self).ncols_spec() == old(self).ncols_spec(),
            final(self).room_spec(position.row as int, position.col as int) == *final(r),
            forall|i: int, j: int|
                0 <= i < old(self).nrows_spec() && 0 <= j < old(self).ncols_spec() && !(i
                    == position.row as int && j == position.col as int)
                    ==> #[trigger] final(self).room_spec(i, j) == old(self).room_spec(i, j),
    {
        let row: &mut Vec<Room> = &mut self.cells[position.row];
        &mut row[position.col]
    }
}

} // verus!
