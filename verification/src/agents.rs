//! The knowledge-based explorer: per-episode axiom synthesis over the grid
//! and a depth-first explore/backtrack search that consults the knowledge
//! base before stepping onto any unvisited cell.

pub mod keyboard_agent;

use vstd::prelude::*;
use vstd::string::StringExecFns;

use crate::agent::{Action, Agent, Direction, Observation};
use crate::env::Sense;
use crate::grid::{dir_valid_spec, moved_pos, moved_spec, Pos};
use crate::kb::{entails, told_union, KnowledgeBase};
use crate::logic::{conj_of, disj_of, views, Atomic, SpecStatement, Statement};

verus! {

// Stack ////////////////////////////////////////////////////

/// A plain last-in, first-out stack.
pub struct Stack<T> {
    vec: Vec<T>,
}

impl<T> Stack<T> {
    /// The stack's content, bottom first.
    pub closed spec fn seq(self) -> Seq<T> {
        self.vec@
    }

    pub fn new() -> (r: Self)
        ensures
            r.seq() == Seq::<T>::empty(),
    {
        Self { vec: Vec::new() }
    }

    /// A stack holding the given items, bottom first.
    pub fn of(items: Vec<T>) -> (r: Self)
        ensures
            r.seq() == items@,
    {
        Self { vec: items }
    }

    pub fn is_empty(&self) -> (r: bool)
        ensures
            r == (self.seq().len() == 0),
    {
        self.vec.len() == 0
    }

    pub fn peek(&self) -> (r: &T)
        requires
            self.seq().len() > 0,
        ensures
            *r == self.seq().last(),
    {
        &self.vec[self.vec.len() - 1]
    }

    pub fn mut_peek(&mut self) -> (r: &mut T)
        requires
            old(self).seq().len() > 0,
        ensures
            *r == old(self).seq().last(),
            final(self).seq() == old(self).seq().drop_last().push(*final(r)),
    {
        let i = self.vec.len() - 1;
        let r = &mut self.vec[i];
        proof {
            assert(old(self).seq().drop_last().push(*final(r)) =~= old(self).seq().update(
                i as int,
                *final(r),
            ));
        }
        r
    }

    pub fn push(&mut self, value: T)
        ensures
            final(self).seq() == old(self).seq().push(value),
    {
        self.vec.push(value);
    }

    pub fn pop(&mut self) -> (r: T)
        requires
            old(self).seq().len() > 0,
        ensures
            r == old(self).seq().last(),
            final(self).seq() == old(self).seq().drop_last(),
    {
        let r = self.vec.pop();
        match r {
            Some(v) => v,
            None => vstd::pervasive::unreached(),
        }
    }

    pub fn clear(&mut self)
        ensures
            final(self).seq() == Seq::<T>::empty(),
    {
        self.vec.clear();
    }
}

// Atoms ////////////////////////////////////////////////////

/// The decimal digit for one value below ten.
pub open spec fn dec_digit(d: int) -> char {
    if d == 0 {
        '0'
    } else if d == 1 {
        '1'
    } else if d == 2 {
        '2'
    } else if d == 3 {
        '3'
    } else if d == 4 {
        '4'
    } else if d == 5 {
        '5'
    } else if d == 6 {
        '6'
    } else if d == 7 {
        '7'
    } else if d == 8 {
        '8'
    } else {
        '9'
    }
}

/// The decimal representation of a non-negative number.
pub open spec fn dec_rep(n: int) -> Seq<char>
    recommends
        n >= 0,
    decreases n,
{
    if n < 10 {
        seq![dec_digit(n)]
    } else {
        dec_rep(n / 10).push(dec_digit(n % 10))
    }
}

/// The name of a per-cell atom: a prefix, then the row and the column in
/// decimal, separated by a comma.
pub open spec fn atom_name(prefix: Seq<char>, r: int, c: int) -> Seq<char> {
    prefix + dec_rep(r) + seq![','] + dec_rep(c)
}

/// The atom for one cell under one prefix.
pub open spec fn pos_atom(prefix: Seq<char>, r: int, c: int) -> SpecStatement {
    SpecStatement::Atom(atom_name(prefix, r, c))
}

pub open spec fn safe_atom(r: int, c: int) -> SpecStatement {
    pos_atom(seq!['S', '_'], r, c)
}

pub open spec fn void_atom(r: int, c: int) -> SpecStatement {
    pos_atom(seq!['V', '_'], r, c)
}

pub open spec fn wumpus_atom(r: int, c: int) -> SpecStatement {
    pos_atom(seq!['W', '_'], r, c)
}

pub open spec fn pit_atom(r: int, c: int) -> SpecStatement {
    pos_atom(seq!['P', '_'], r, c)
}

pub open spec fn breeze_atom(r: int, c: int) -> SpecStatement {
    pos_atom(seq!['B', 'r', '_'], r, c)
}

pub open spec fn stench_atom(r: int, c: int) -> SpecStatement {
    pos_atom(seq!['S', 't', '_'], r, c)
}

pub open spec fn scream_atom(r: int, c: int) -> SpecStatement {
    pos_atom(seq!['S', 'c', '_'], r, c)
}

pub open spec fn glitter_atom(r: int, c: int) -> SpecStatement {
    pos_atom(seq!['G', 'l', '_'], r, c)
}

/// Appends the decimal representation of a number to a string.
fn push_decimal(s: &mut String, n: usize)
    ensures
        final(s)@ == old(s)@ + dec_rep(n as int),
    decreases n,
{
    if n >= 10 {
        push_decimal(s, n / 10);
    }
    let d = n % 10;
    let digit: &str = if d == 0 {
        "0"
    } else if d == 1 {
        "1"
    } else if d == 2 {
        "2"
    } else if d == 3 {
        "3"
    } else if d == 4 {
        "4"
    } else if d == 5 {
        "5"
    } else if d == 6 {
        "6"
    } else if d == 7 {
        "7"
    } else if d == 8 {
        "8"
    } else {
        "9"
    };
    proof {
        reveal_strlit("0");
        reveal_strlit("1");
        reveal_strlit("2");
        reveal_strlit("3");
        reveal_strlit("4");
        reveal_strlit("5");
        reveal_strlit("6");
        reveal_strlit("7");
        reveal_strlit("8");
        reveal_strlit("9");
        assert(digit@ =~= seq![dec_digit(d as int)]);
    }
    s.append(digit);
    proof {
        if n >= 10 {
            assert(final(s)@ =~= old(s)@ + dec_rep(n as int));
        } else {
            assert(final(s)@ =~= old(s)@ + dec_rep(n as int));
        }
    }
}

/// Builds the atom for one cell under one prefix.
fn make_pos_atomic(prefix: &str, pos: &Pos) -> (r: Statement)
    ensures
        r@ == pos_atom(prefix@, pos.row as int, pos.col as int),
{
    let mut s: String = prefix.to_owned();
    push_decimal(&mut s, pos.row);
    s.append(",");
    proof {
        reveal_strlit(",");
        assert(","@ =~= seq![',']);
    }
    push_decimal(&mut s, pos.col);
    proof {
        assert(s@ =~= atom_name(prefix@, pos.row as int, pos.col as int));
    }
    Statement::Atomic(Atomic::new(s.as_str()))
}

pub fn make_safe_atomic(pos: &Pos) -> (r: Statement)
    ensures
        r@ == safe_atom(pos.row as int, pos.col as int),
{
    proof {
        reveal_strlit("S_");
        assert("S_"@ =~= seq!['S', '_']);
    }
    make_pos_atomic("S_", pos)
}

pub fn make_void_atomic(pos: &Pos) -> (r: Statement)
    ensures
        r@ == void_atom(pos.row as int, pos.col as int),
{
    proof {
        reveal_strlit("V_");
        assert("V_"@ =~= seq!['V', '_']);
    }
    make_pos_atomic("V_", pos)
}

pub fn make_wumpus_atomic(pos: &Pos) -> (r: Statement)
    ensures
        r@ == wumpus_atom(pos.row as int, pos.col as int),
{
    proof {
        reveal_strlit("W_");
        assert("W_"@ =~= seq!['W', '_']);
    }
    make_pos_atomic("W_", pos)
}

pub fn make_pit_atomic(pos: &Pos) -> (r: Statement)
    ensures
        r@ == pit_atom(pos.row as int, pos.col as int),
{
    proof {
        reveal_strlit("P_");
        assert("P_"@ =~= seq!['P', '_']);
    }
    make_pos_atomic("P_", pos)
}

pub fn make_breeze_atomic(pos: &Pos) -> (r: Statement)
    ensures
        r@ == breeze_atom(pos.row as int, pos.col as int),
{
    proof {
        reveal_strlit("Br_");
        assert("Br_"@ =~= seq!['B', 'r', '_']);
    }
    make_pos_atomic("Br_", pos)
}

pub fn make_stench_atomic(pos: &Pos) -> (r: Statement)
    ensures
        r@ == stench_atom(pos.row as int, pos.col as int),
{
    proof {
        reveal_strlit("St_");
        assert("St_"@ =~= seq!['S', 't', '_']);
    }
    make_pos_atomic("St_", pos)
}

fn make_scream_atomic(pos: &Pos) -> (r: Statement)
    ensures
        r@ == scream_atom(pos.row as int, pos.col as int),
{
    proof {
        reveal_strlit("Sc_");
        assert("Sc_"@ =~= seq!['S', 'c', '_']);
    }
    make_pos_atomic("Sc_", pos)
}

fn make_glitter_atomic(pos: &Pos) -> (r: Statement)
    ensures
        r@ == glitter_atom(pos.row as int, pos.col as int),
{
    proof {
        reveal_strlit("Gl_");
        assert("Gl_"@ =~= seq!['G', 'l', '_']);
    }
    make_pos_atomic("Gl_", pos)
}

// Conjunctions and disjunctions ////////////////////////////

/// Chains a list of formulas into one right-nested conjunction; an empty
/// list gives nothing.
pub fn make_conjuncts(stmts: &Vec<Statement>) -> (r: Option<Statement>)
    ensures
        (r is Some) == (stmts@.len() > 0),
        stmts@.len() > 0 ==> (r matches Some(s) && s@ == conj_of(views(stmts@))),
{
    if stmts.len() == 0 {
        return None;
    }
    let mut acc: Statement = stmts[stmts.len() - 1].clone();
    let mut i: usize = stmts.len() - 1;
    proof {
        assert(views(stmts@).skip(i as int) =~= seq![views(stmts@)[i as int]]);
    }
    while i > 0
        invariant
            0 <= i < stmts@.len(),
            acc@ == conj_of(views(stmts@).skip(i as int)),
        decreases i,
    {
        i -= 1;
        acc = Statement::AndClause(Box::new(stmts[i].clone()), Box::new(acc));
        proof {
            let v = views(stmts@);
            assert(v.skip(i as int).len() >= 2);
            assert(v.skip(i as int)[0] == v[i as int]);
            assert(v.skip(i as int).drop_first() =~= v.skip(i as int + 1));
            assert(acc@ == conj_of(v.skip(i as int)));
        }
    }
    proof {
        assert(views(stmts@).skip(0) =~= views(stmts@));
    }
    Some(acc)
}

/// Chains a list of formulas into one right-nested disjunction; an empty
/// list gives nothing.
pub fn make_disjuncts(stmts: &Vec<Statement>) -> (r: Option<Statement>)
    ensures
        (r is Some) == (stmts@.len() > 0),
        stmts@.len() > 0 ==> (r matches Some(s) && s@ == disj_of(views(stmts@))),
{
    if stmts.len() == 0 {
        return None;
    }
    let mut acc: Statement = stmts[stmts.len() - 1].clone();
    let mut i: usize = stmts.len() - 1;
    proof {
        assert(views(stmts@).skip(i as int) =~= seq![views(stmts@)[i as int]]);
    }
    while i > 0
        invariant
            0 <= i < stmts@.len(),
            acc@ == disj_of(views(stmts@).skip(i as int)),
        decreases i,
    {
        i -= 1;
        acc = Statement::OrClause(Box::new(stmts[i].clone()), Box::new(acc));
        proof {
            let v = views(stmts@);
            assert(v.skip(i as int).len() >= 2);
            assert(v.skip(i as int)[0] == v[i as int]);
            assert(v.skip(i as int).drop_first() =~= v.skip(i as int + 1));
            assert(acc@ == disj_of(v.skip(i as int)));
        }
    }
    proof {
        assert(views(stmts@).skip(0) =~= views(stmts@));
    }
    Some(acc)
}

// Axiom synthesis //////////////////////////////////////////

/// The positions of a list of cells, as row and column pairs.
pub open spec fn pos_pairs(s: Seq<Pos>) -> Seq<(int, int)>
    decreases s.len(),
{
    if s.len() == 0 {
        Seq::empty()
    } else {
        pos_pairs(s.drop_last()).push((s.last().row as int, s.last().col as int))
    }
}

/// The up-to-four grid neighbors of a cell, in north, south, east, west
/// order.
pub open spec fn neighbors_spec(rows: int, cols: int, r: int, c: int) -> Seq<(int, int)> {
    (if r > 0 {
        seq![(r - 1, c)]
    } else {
        Seq::empty()
    }) + (if r < rows - 1 {
        seq![(r + 1, c)]
    } else {
        Seq::empty()
    }) + (if c < cols - 1 {
        seq![(r, c + 1)]
    } else {
        Seq::empty()
    }) + (if c > 0 {
        seq![(r, c - 1)]
    } else {
        Seq::empty()
    })
}

/// The atom of one prefix for every cell of a list.
pub open spec fn pos_atoms(prefix: Seq<char>, cells: Seq<(int, int)>) -> Seq<SpecStatement>
    decreases cells.len(),
{
    if cells.len() == 0 {
        Seq::empty()
    } else {
        pos_atoms(prefix, cells.drop_last()).push(
            pos_atom(prefix, cells.last().0, cells.last().1),
        )
    }
}

/// The negation of every formula of a list.
pub open spec fn neg_each(s: Seq<SpecStatement>) -> Seq<SpecStatement>
    decreases s.len(),
{
    if s.len() == 0 {
        Seq::empty()
    } else {
        neg_each(s.drop_last()).push(crate::logic::not_of(s.last()))
    }
}

/// The cells of one row, left to right.
pub open spec fn row_cells(r: int, c: int) -> Seq<(int, int)>
    decreases c,
{
    if c <= 0 {
        Seq::empty()
    } else {
        row_cells(r, c - 1).push((r, c - 1))
    }
}

/// The first `r` rows of cells, row-major.
pub open spec fn all_cells(r: int, cols: int) -> Seq<(int, int)>
    decreases r,
{
    if r <= 0 {
        Seq::empty()
    } else {
        all_cells(r - 1, cols) + row_cells(r - 1, cols)
    }
}

/// The cells of one row except a distinguished cell.
pub open spec fn others_row(r: int, c: int, er: int, ec: int) -> Seq<(int, int)>
    decreases c,
{
    if c <= 0 {
        Seq::empty()
    } else {
        others_row(r, c - 1, er, ec) + (if r == er && c - 1 == ec {
            Seq::empty()
        } else {
            seq![(r, c - 1)]
        })
    }
}

/// The first `r` rows of cells except a distinguished cell, row-major.
pub open spec fn other_cells(r: int, cols: int, er: int, ec: int) -> Seq<(int, int)>
    decreases r,
{
    if r <= 0 {
        Seq::empty()
    } else {
        other_cells(r - 1, cols, er, ec) + others_row(r - 1, cols, er, ec)
    }
}

pub proof fn lemma_others_row_len(r: int, c: int, er: int, ec: int)
    requires
        c >= 0,
    ensures
        others_row(r, c, er, ec).len() == if r == er && 0 <= ec < c {
            c - 1
        } else {
            c
        },
    decreases c,
{
    if c > 0 {
        lemma_others_row_len(r, c - 1, er, ec);
    }
}

pub proof fn lemma_other_cells_len(r: int, cols: int, er: int, ec: int)
    requires
        cols >= 0,
    ensures
        other_cells(r, cols, er, ec).len() == if 0 <= er < r && 0 <= ec < cols {
            r * cols - 1
        } else if r >= 0 {
            r * cols
        } else {
            0
        },
    decreases r,
{
    if r > 0 {
        lemma_other_cells_len(r - 1, cols, er, ec);
        lemma_others_row_len(r - 1, cols, er, ec);
        assert(r * cols == (r - 1) * cols + cols) by (nonlinear_arith);
    } else if r == 0 {
        assert(r * cols == 0) by (nonlinear_arith)
            requires
                r == 0,
        ;
    }
}

pub proof fn lemma_all_cells_len(r: int, cols: int)
    requires
        cols >= 0,
    ensures
        all_cells(r, cols).len() == if r >= 0 {
            r * cols
        } else {
            0
        },
    decreases r,
{
    if r > 0 {
        lemma_all_cells_len(r - 1, cols);
        lemma_row_cells_len(r - 1, cols);
        assert(all_cells(r - 1, cols).len() == (r - 1) * cols);
        assert(row_cells(r - 1, cols).len() == cols);
        assert(all_cells(r, cols) == all_cells(r - 1, cols) + row_cells(r - 1, cols));
        assert(all_cells(r, cols).len() == (r - 1) * cols + cols);
        assert((r - 1) * cols + cols == r * cols) by (nonlinear_arith);
        assert(all_cells(r, cols).len() == r * cols);
    } else if r == 0 {
        assert(r * cols == 0) by (nonlinear_arith)
            requires
                r == 0,
        ;
    }
}

pub proof fn lemma_row_cells_len(r: int, c: int)
    requires
        c >= 0,
    ensures
        row_cells(r, c).len() == c,
    decreases c,
{
    if c > 0 {
        lemma_row_cells_len(r, c - 1);
    }
}

/// The per-cell axiom families of the domain theory.
#[derive(Clone, Copy, PartialEq, Eq, Structural, Debug)]
pub enum AxiomKind {
    /// Holding the Wumpus forbids every other cell from holding it.
    WumpusUnique,
    /// A cell is safe exactly when it has neither the Wumpus nor a pit.
    SafeDef,
    /// A cell is void exactly when it and all its neighbors are safe.
    VoidDef,
    /// No cell holds both the Wumpus and a pit.
    NotBoth,
    /// A cell is breezy exactly when some neighbor holds a pit.
    BreezeDef,
    /// A cell is stenchy exactly when some neighbor holds the Wumpus.
    StenchDef,
    /// A pit makes every neighbor breezy.
    PitRadiates,
    /// The Wumpus makes every neighbor stenchy.
    WumpusRadiates,
}

/// The axiom of one family for one cell.
pub open spec fn cell_axiom(kind: AxiomKind, rows: int, cols: int, r: int, c: int) -> SpecStatement {
    let nbrs = neighbors_spec(rows, cols, r, c);
    match kind {
        AxiomKind::WumpusUnique => SpecStatement::Implies(
            Box::new(wumpus_atom(r, c)),
            Box::new(
                conj_of(
                    neg_each(pos_atoms(seq!['W', '_'], other_cells(rows, cols, r, c))),
                ),
            ),
        ),
        AxiomKind::SafeDef => SpecStatement::Iff(
            Box::new(safe_atom(r, c)),
            Box::new(
                SpecStatement::And(
                    Box::new(crate::logic::not_of(wumpus_atom(r, c))),
                    Box::new(crate::logic::not_of(pit_atom(r, c))),
                ),
            ),
        ),
        AxiomKind::VoidDef => SpecStatement::Iff(
            Box::new(void_atom(r, c)),
            Box::new(conj_of(seq![safe_atom(r, c)] + pos_atoms(seq!['S', '_'], nbrs))),
        ),
        AxiomKind::NotBoth => crate::logic::not_of(
            SpecStatement::And(Box::new(wumpus_atom(r, c)), Box::new(pit_atom(r, c))),
        ),
        AxiomKind::BreezeDef => SpecStatement::Iff(
            Box::new(breeze_atom(r, c)),
            Box::new(disj_of(pos_atoms(seq!['P', '_'], nbrs))),
        ),
        AxiomKind::StenchDef => SpecStatement::Iff(
            Box::new(stench_atom(r, c)),
            Box::new(disj_of(pos_atoms(seq!['W', '_'], nbrs))),
        ),
        AxiomKind::PitRadiates => SpecStatement::Implies(
            Box::new(pit_atom(r, c)),
            Box::new(conj_of(pos_atoms(seq!['B', 'r', '_'], nbrs))),
        ),
        AxiomKind::WumpusRadiates => SpecStatement::Implies(
            Box::new(wumpus_atom(r, c)),
            Box::new(conj_of(pos_atoms(seq!['S', 't', '_'], nbrs))),
        ),
    }
}

/// The axioms of one family for one row of cells.
pub open spec fn cell_axioms_row(kind: AxiomKind, rows: int, cols: int, r: int, c: int) -> Seq<
    SpecStatement,
>
    decreases c,
{
    if c <= 0 {
        Seq::empty()
    } else {
        cell_axioms_row(kind, rows, cols, r, c - 1).push(cell_axiom(kind, rows, cols, r, c - 1))
    }
}

/// The axioms of one family for the first `r` rows of cells.
pub open spec fn cell_axioms(kind: AxiomKind, rows: int, cols: int, r: int) -> Seq<SpecStatement>
    decreases r,
{
    if r <= 0 {
        Seq::empty()
    } else {
        cell_axioms(kind, rows, cols, r - 1) + cell_axioms_row(kind, rows, cols, r - 1, cols)
    }
}

pub proof fn lemma_cell_axioms_row_len(kind: AxiomKind, rows: int, cols: int, r: int, c: int)
    requires
        c >= 0,
    ensures
        cell_axioms_row(kind, rows, cols, r, c).len() == c,
    decreases c,
{
    if c > 0 {
        lemma_cell_axioms_row_len(kind, rows, cols, r, c - 1);
    }
}

pub proof fn lemma_cell_axioms_len(kind: AxiomKind, rows: int, cols: int, r: int)
    requires
        cols >= 0,
        r >= 0,
    ensures
        cell_axioms(kind, rows, cols, r).len() == r * cols,
    decreases r,
{
    if r > 0 {
        lemma_cell_axioms_len(kind, rows, cols, r - 1);
        lemma_cell_axioms_row_len(kind, rows, cols, r - 1, cols);
        assert(r * cols == (r - 1) * cols + cols) by (nonlinear_arith);
    } else if r == 0 {
        assert(r * cols == 0) by (nonlinear_arith)
            requires
                r == 0,
        ;
    }
}

/// Builds the axiom of one family for one cell.
fn build_cell_axiom(kind: AxiomKind, rows: usize, cols: usize, pos: &Pos) -> (r: Statement)
    requires
        1 <= rows,
        1 <= cols,
        2 <= rows * cols,
        pos.row < rows,
        pos.col < cols,
    ensures
        r@ == cell_axiom(kind, rows as int, cols as int, pos.row as int, pos.col as int),
{
    let ghost ri = rows as int;
    let ghost ci = cols as int;
    let ghost pr = pos.row as int;
    let ghost pc = pos.col as int;
    let nbrs = neighbor_positions(rows, cols, pos);
    proof {
        lemma_pos_pairs_len(nbrs@);
        if ri == 1 && ci == 1 {
            assert(ri * ci == 1) by (nonlinear_arith)
                requires
                    ri == 1 && ci == 1,
            ;
        }
        assert(neighbors_spec(ri, ci, pr, pc).len() >= 1);
    }
    match kind {
        AxiomKind::WumpusUnique => {
            let others = other_positions(rows, cols, pos);
            let atoms = atoms_for("W_", &others);
            proof {
                reveal_strlit("W_");
                assert("W_"@ =~= seq!['W', '_']);
                lemma_other_cells_len(ri, ci, pr, pc);
                lemma_pos_pairs_len(others@);
                lemma_pos_atoms_len(seq!['W', '_'], other_cells(ri, ci, pr, pc));
                lemma_neg_each_len(views(atoms@));
            }
            let negs = negate_all(&atoms);
            let body = match make_conjuncts(&negs) {
                Some(s) => s,
                None => vstd::pervasive::unreached(),
            };
            let head = make_wumpus_atomic(pos);
            let r = Statement::ImplyClause(Box::new(head), Box::new(body));
            proof {
                assert(r@ == cell_axiom(kind, ri, ci, pr, pc));
            }
            r
        },
        AxiomKind::SafeDef => {
            let nw = Statement::NotClause(Box::new(make_wumpus_atomic(pos)));
            proof {
                assert(nw@ == crate::logic::not_of(wumpus_atom(pr, pc)));
            }
            let np = Statement::NotClause(Box::new(make_pit_atomic(pos)));
            proof {
                assert(np@ == crate::logic::not_of(pit_atom(pr, pc)));
            }
            let both = Statement::AndClause(Box::new(nw), Box::new(np));
            proof {
                assert(both@ == SpecStatement::And(
                    Box::new(crate::logic::not_of(wumpus_atom(pr, pc))),
                    Box::new(crate::logic::not_of(pit_atom(pr, pc))),
                ));
            }
            let r = Statement::EquivalClause(Box::new(make_safe_atomic(pos)), Box::new(both));
            proof {
                assert(r@ == cell_axiom(kind, ri, ci, pr, pc));
            }
            r
        },
        AxiomKind::VoidDef => {
            let mut list: Vec<Statement> = Vec::new();
            list.push(make_safe_atomic(pos));
            let mut nbr_atoms = atoms_for("S_", &nbrs);
            proof {
                reveal_strlit("S_");
                assert("S_"@ =~= seq!['S', '_']);
                lemma_pos_atoms_len(seq!['S', '_'], pos_pairs(nbrs@));
            }
            list.append(&mut nbr_atoms);
            proof {
                assert(views(list@) =~= seq![safe_atom(pr, pc)] + pos_atoms(
                    seq!['S', '_'],
                    neighbors_spec(ri, ci, pr, pc),
                ));
            }
            let body = match make_conjuncts(&list) {
                Some(s) => s,
                None => vstd::pervasive::unreached(),
            };
            let r = Statement::EquivalClause(Box::new(make_void_atomic(pos)), Box::new(body));
            proof {
                assert(r@ == cell_axiom(kind, ri, ci, pr, pc));
            }
            r
        },
        AxiomKind::NotBoth => {
            let both = Statement::AndClause(
                Box::new(make_wumpus_atomic(pos)),
                Box::new(make_pit_atomic(pos)),
            );
            proof {
                assert(both@ == SpecStatement::And(
                    Box::new(wumpus_atom(pr, pc)),
                    Box::new(pit_atom(pr, pc)),
                ));
            }
            let r = Statement::NotClause(Box::new(both));
            proof {
                assert(r@ == cell_axiom(kind, ri, ci, pr, pc));
            }
            r
        },
        AxiomKind::BreezeDef => {
            let nbr_atoms = atoms_for("P_", &nbrs);
            proof {
                reveal_strlit("P_");
                assert("P_"@ =~= seq!['P', '_']);
                lemma_pos_atoms_len(seq!['P', '_'], pos_pairs(nbrs@));
            }
            let body = match make_disjuncts(&nbr_atoms) {
                Some(s) => s,
                None => vstd::pervasive::unreached(),
            };
            let r = Statement::EquivalClause(Box::new(make_breeze_atomic(pos)), Box::new(body));
            proof {
                assert(r@ == cell_axiom(kind, ri, ci, pr, pc));
            }
            r
        },
        AxiomKind::StenchDef => {
            let nbr_atoms = atoms_for("W_", &nbrs);
            proof {
                reveal_strlit("W_");
                assert("W_"@ =~= seq!['W', '_']);
                lemma_pos_atoms_len(seq!['W', '_'], pos_pairs(nbrs@));
            }
            let body = match make_disjuncts(&nbr_atoms) {
                Some(s) => s,
                None => vstd::pervasive::unreached(),
            };
            let r = Statement::EquivalClause(Box::new(make_stench_atomic(pos)), Box::new(body));
            proof {
                assert(r@ == cell_axiom(kind, ri, ci, pr, pc));
            }
            r
        },
        AxiomKind::PitRadiates => {
            let nbr_atoms = atoms_for("Br_", &nbrs);
            proof {
                reveal_strlit("Br_");
                assert("Br_"@ =~= seq!['B', 'r', '_']);
                lemma_pos_atoms_len(seq!['B', 'r', '_'], pos_pairs(nbrs@));
            }
            let body = match make_conjuncts(&nbr_atoms) {
                Some(s) => s,
                None => vstd::pervasive::unreached(),
            };
            let r = Statement::ImplyClause(Box::new(make_pit_atomic(pos)), Box::new(body));
            proof {
                assert(r@ == cell_axiom(kind, ri, ci, pr, pc));
            }
            r
        },
        AxiomKind::WumpusRadiates => {
            let nbr_atoms = atoms_for("St_", &nbrs);
            proof {
                reveal_strlit("St_");
                assert("St_"@ =~= seq!['S', 't', '_']);
                lemma_pos_atoms_len(seq!['S', 't', '_'], pos_pairs(nbrs@));
            }
            let body = match make_conjuncts(&nbr_atoms) {
                Some(s) => s,
                None => vstd::pervasive::unreached(),
            };
            let r = Statement::ImplyClause(Box::new(make_wumpus_atomic(pos)), Box::new(body));
            proof {
                assert(r@ == cell_axiom(kind, ri, ci, pr, pc));
            }
            r
        },
    }
}

/// The axioms of one family for every cell of the grid, row-major.
fn group_axioms(kind: AxiomKind, rows: usize, cols: usize) -> (r: Vec<Statement>)
    requires
        1 <= rows,
        1 <= cols,
        2 <= rows * cols,
    ensures
        views(r@) == cell_axioms(kind, rows as int, cols as int, rows as int),
{
    let mut r: Vec<Statement> = Vec::new();
    let mut i: usize = 0;
    while i < rows
        invariant
            0 <= i <= rows,
            1 <= rows,
            1 <= cols,
            2 <= rows * cols,
            views(r@) == cell_axioms(kind, rows as int, cols as int, i as int),
        decreases rows - i,
    {
        let mut j: usize = 0;
        while j < cols
            invariant
                0 <= j <= cols,
                i < rows,
                1 <= rows,
                1 <= cols,
                2 <= rows * cols,
                views(r@) == cell_axioms(kind, rows as int, cols as int, i as int)
                    + cell_axioms_row(kind, rows as int, cols as int, i as int, j as int),
            decreases cols - j,
        {
            let ghost prev = views(r@);
            let a = build_cell_axiom(kind, rows, cols, &Pos::new(i, j));
            r.push(a);
            proof {
                assert(views(r@) =~= prev.push(a@));
                assert(views(r@) =~= cell_axioms(kind, rows as int, cols as int, i as int)
                    + cell_axioms_row(kind, rows as int, cols as int, i as int, j as int + 1));
            }
            j += 1;
        }
        proof {
            assert(views(r@) =~= cell_axioms(kind, rows as int, cols as int, i as int + 1));
        }
        i += 1;
    }
    r
}

/// The full domain theory for a grid, in the order it is told: the start is
/// hazard-free and safe, the Wumpus is in exactly one cell, and safety,
/// voidness, breezes and stenches are defined per cell.
pub open spec fn axiom_seq(rows: int, cols: int, sr: int, sc: int) -> Seq<SpecStatement> {
    seq![
        SpecStatement::And(
            Box::new(crate::logic::not_of(pit_atom(sr, sc))),
            Box::new(crate::logic::not_of(wumpus_atom(sr, sc))),
        ),
        disj_of(pos_atoms(seq!['W', '_'], all_cells(rows, cols))),
    ] + cell_axioms(AxiomKind::WumpusUnique, rows, cols, rows) + seq![
        conj_of(cell_axioms(AxiomKind::SafeDef, rows, cols, rows)),
        safe_atom(sr, sc),
    ] + cell_axioms(AxiomKind::VoidDef, rows, cols, rows) + seq![
        conj_of(cell_axioms(AxiomKind::NotBoth, rows, cols, rows)),
    ] + cell_axioms(AxiomKind::BreezeDef, rows, cols, rows) + cell_axioms(
        AxiomKind::StenchDef,
        rows,
        cols,
        rows,
    ) + cell_axioms(AxiomKind::PitRadiates, rows, cols, rows) + cell_axioms(
        AxiomKind::WumpusRadiates,
        rows,
        cols,
        rows,
    )
}

pub proof fn lemma_pos_pairs_len(s: Seq<Pos>)
    ensures
        pos_pairs(s).len() == s.len(),
    decreases s.len(),
{
    if s.len() > 0 {
        lemma_pos_pairs_len(s.drop_last());
    }
}

pub proof fn lemma_pos_atoms_len(prefix: Seq<char>, cells: Seq<(int, int)>)
    ensures
        pos_atoms(prefix, cells).len() == cells.len(),
    decreases cells.len(),
{
    if cells.len() > 0 {
        lemma_pos_atoms_len(prefix, cells.drop_last());
    }
}

pub proof fn lemma_neg_each_len(s: Seq<SpecStatement>)
    ensures
        neg_each(s).len() == s.len(),
    decreases s.len(),
{
    if s.len() > 0 {
        lemma_neg_each_len(s.drop_last());
    }
}

/// The grid neighbors of a cell, in north, south, east, west order.
fn neighbor_positions(rows: usize, cols: usize, pos: &Pos) -> (r: Vec<Pos>)
    requires
        pos.row < rows,
        pos.col < cols,
    ensures
        pos_pairs(r@) == neighbors_spec(rows as int, cols as int, pos.row as int, pos.col as int),
        forall|k: int|
            0 <= k < r@.len() ==> (#[trigger] r@[k]).row < rows && r@[k].col < cols,
{
    let mut v: Vec<Pos> = Vec::new();
    if pos.row > 0 {
        v.push(Pos::new(pos.row - 1, pos.col));
    }
    if pos.row < rows - 1 {
        v.push(Pos::new(pos.row + 1, pos.col));
    }
    if pos.col < cols - 1 {
        v.push(Pos::new(pos.row, pos.col + 1));
    }
    if pos.col > 0 {
        v.push(Pos::new(pos.row, pos.col - 1));
    }
    proof {
        assert(pos_pairs(v@) =~= neighbors_spec(
            rows as int,
            cols as int,
            pos.row as int,
            pos.col as int,
        )) by {
            reveal_with_fuel(pos_pairs, 6);
        }
    }
    v
}

/// Negates every formula of a list.
fn negate_all(stmts: &Vec<Statement>) -> (r: Vec<Statement>)
    ensures
        views(r@) == neg_each(views(stmts@)),
{
    let mut r: Vec<Statement> = Vec::new();
    let mut i: usize = 0;
    while i < stmts.len()
        invariant
            0 <= i <= stmts@.len(),
            views(r@) == neg_each(views(stmts@).take(i as int)),
        decreases stmts@.len() - i,
    {
        r.push(Statement::NotClause(Box::new(stmts[i].clone())));
        proof {
            let t = views(stmts@).take(i as int + 1);
            assert(t.drop_last() =~= views(stmts@).take(i as int));
            assert(t.last() == views(stmts@)[i as int]);
            assert(views(r@) =~= neg_each(t));
        }
        i += 1;
    }
    proof {
        assert(views(stmts@).take(stmts@.len() as int) =~= views(stmts@));
    }
    r
}

/// Every cell of the grid except one, row-major.
fn other_positions(rows: usize, cols: usize, excl: &Pos) -> (r: Vec<Pos>)
    ensures
        pos_pairs(r@) == other_cells(rows as int, cols as int, excl.row as int, excl.col as int),
{
    let ghost er = excl.row as int;
    let ghost ec = excl.col as int;
    let mut r: Vec<Pos> = Vec::new();
    let mut i: usize = 0;
    while i < rows
        invariant
            0 <= i <= rows,
            er == excl.row as int,
            ec == excl.col as int,
            pos_pairs(r@) == other_cells(i as int, cols as int, er, ec),
        decreases rows - i,
    {
        let mut j: usize = 0;
        while j < cols
            invariant
                0 <= j <= cols,
                i < rows,
                er == excl.row as int,
                ec == excl.col as int,
                pos_pairs(r@) == other_cells(i as int, cols as int, er, ec) + others_row(
                    i as int,
                    j as int,
                    er,
                    ec,
                ),
            decreases cols - j,
        {
            let ghost prev = r@;
            if !(i == excl.row && j == excl.col) {
                r.push(Pos::new(i, j));
                proof {
                    assert(r@.drop_last() =~= prev);
                    assert(pos_pairs(r@) == pos_pairs(prev).push((i as int, j as int)));
                    assert(pos_pairs(r@) =~= other_cells(i as int, cols as int, er, ec)
                        + others_row(i as int, j as int + 1, er, ec));
                }
            } else {
                proof {
                    assert(pos_pairs(r@) =~= other_cells(i as int, cols as int, er, ec)
                        + others_row(i as int, j as int + 1, er, ec));
                }
            }
            j += 1;
        }
        proof {
            assert(pos_pairs(r@) =~= other_cells(i as int + 1, cols as int, er, ec));
        }
        i += 1;
    }
    r
}

/// Every cell of the grid, row-major.
fn all_positions(rows: usize, cols: usize) -> (r: Vec<Pos>)
    ensures
        pos_pairs(r@) == all_cells(rows as int, cols as int),
{
    let mut r: Vec<Pos> = Vec::new();
    let mut i: usize = 0;
    while i < rows
        invariant
            0 <= i <= rows,
            pos_pairs(r@) == all_cells(i as int, cols as int),
        decreases rows - i,
    {
        let mut j: usize = 0;
        while j < cols
            invariant
                0 <= j <= cols,
                i < rows,
                pos_pairs(r@) == all_cells(i as int, cols as int) + row_cells(i as int, j as int),
            decreases cols - j,
        {
            let ghost prev = r@;
            r.push(Pos::new(i, j));
            proof {
                assert(r@.drop_last() =~= prev);
                assert(pos_pairs(r@) == pos_pairs(prev).push((i as int, j as int)));
                assert(pos_pairs(r@) =~= all_cells(i as int, cols as int) + row_cells(
                    i as int,
                    j as int + 1,
                ));
            }
            j += 1;
        }
        proof {
            assert(pos_pairs(r@) =~= all_cells(i as int + 1, cols as int));
        }
        i += 1;
    }
    r
}

/// The atom of one prefix for every cell of a list.
fn atoms_for(prefix: &str, cells: &Vec<Pos>) -> (r: Vec<Statement>)
    ensures
        views(r@) == pos_atoms(prefix@, pos_pairs(cells@)),
{
    let mut r: Vec<Statement> = Vec::new();
    let mut i: usize = 0;
    while i < cells.len()
        invariant
            0 <= i <= cells@.len(),
            views(r@) == pos_atoms(prefix@, pos_pairs(cells@.take(i as int))),
        decreases cells@.len() - i,
    {
        let a = make_pos_atomic(prefix, &cells[i]);
        r.push(a);
        proof {
            let t = cells@.take(i as int + 1);
            assert(t.drop_last() =~= cells@.take(i as int));
            assert(t.last() == cells@[i as int]);
            assert(pos_pairs(t).drop_last() == pos_pairs(cells@.take(i as int)));
            assert(views(r@) =~= pos_atoms(prefix@, pos_pairs(t)));
        }
        i += 1;
    }
    proof {
        assert(cells@.take(cells@.len() as int) =~= cells@);
    }
    r
}

/// Builds the full domain theory for the grid, in telling order.
pub fn build_axioms(rows: usize, cols: usize, start: &Pos) -> (r: Vec<Statement>)
    requires
        1 <= rows,
        1 <= cols,
        2 <= rows * cols,
        start.row < rows,
        start.col < cols,
    ensures
        views(r@) == axiom_seq(rows as int, cols as int, start.row as int, start.col as int),
{
    let ghost ri = rows as int;
    let ghost ci = cols as int;
    let ghost sr = start.row as int;
    let ghost sc = start.col as int;
    let mut out: Vec<Statement> = Vec::new();

    // The start cell holds no hazard.
    let np = Statement::NotClause(Box::new(make_pit_atomic(start)));
    proof {
        assert(np@ == crate::logic::not_of(pit_atom(sr, sc)));
    }
    let nw = Statement::NotClause(Box::new(make_wumpus_atomic(start)));
    proof {
        assert(nw@ == crate::logic::not_of(wumpus_atom(sr, sc)));
    }
    let first = Statement::AndClause(Box::new(np), Box::new(nw));
    proof {
        assert(first@ == SpecStatement::And(
            Box::new(crate::logic::not_of(pit_atom(sr, sc))),
            Box::new(crate::logic::not_of(wumpus_atom(sr, sc))),
        ));
    }
    out.push(first);

    // The Wumpus is in some cell.
    let cells = all_positions(rows, cols);
    let watoms = atoms_for("W_", &cells);
    proof {
        reveal_strlit("W_");
        assert("W_"@ =~= seq!['W', '_']);
        lemma_all_cells_len(ri, ci);
        lemma_pos_atoms_len(seq!['W', '_'], all_cells(ri, ci));
    }
    let somewhere = match make_disjuncts(&watoms) {
        Some(s) => s,
        None => vstd::pervasive::unreached(),
    };
    out.push(somewhere);

    // Exactly one cell holds it.
    let mut g1 = group_axioms(AxiomKind::WumpusUnique, rows, cols);
    out.append(&mut g1);

    // Safety defined for every cell, told as one conjunction.
    let g2 = group_axioms(AxiomKind::SafeDef, rows, cols);
    proof {
        lemma_cell_axioms_len(AxiomKind::SafeDef, ri, ci, ri);
    }
    let safe_conj = match make_conjuncts(&g2) {
        Some(s) => s,
        None => vstd::pervasive::unreached(),
    };
    out.push(safe_conj);

    // The start is safe.
    out.push(make_safe_atomic(start));

    // Voidness defined per cell.
    let mut g3 = group_axioms(AxiomKind::VoidDef, rows, cols);
    out.append(&mut g3);

    // No cell holds both hazards, told as one conjunction.
    let g4 = group_axioms(AxiomKind::NotBoth, rows, cols);
    proof {
        lemma_cell_axioms_len(AxiomKind::NotBoth, ri, ci, ri);
    }
    let nb_conj = match make_conjuncts(&g4) {
        Some(s) => s,
        None => vstd::pervasive::unreached(),
    };
    out.push(nb_conj);

    // Breezes, stenches, and hazard radiation per cell.
    let mut g5 = group_axioms(AxiomKind::BreezeDef, rows, cols);
    out.append(&mut g5);
    let mut g6 = group_axioms(AxiomKind::StenchDef, rows, cols);
    out.append(&mut g6);
    let mut g7 = group_axioms(AxiomKind::PitRadiates, rows, cols);
    out.append(&mut g7);
    let mut g8 = group_axioms(AxiomKind::WumpusRadiates, rows, cols);
    out.append(&mut g8);

    proof {
        assert(views(out@) =~= axiom_seq(ri, ci, sr, sc));
    }
    out
}

// Percepts /////////////////////////////////////////////////

/// The atoms asserted for the percepts beyond stench and breeze: a scream
/// marks the struck cell, a glitter the current one.
pub open spec fn extra_percepts(pr: int, pc: int, senses: Seq<Sense>) -> Seq<SpecStatement>
    decreases senses.len(),
{
    if senses.len() == 0 {
        Seq::empty()
    } else {
        extra_percepts(pr, pc, senses.drop_last()) + (match senses.last() {
            Sense::Scream(d) => seq![
                scream_atom(moved_spec(pr, pc, d).0, moved_spec(pr, pc, d).1),
            ],
            Sense::Glitter => seq![glitter_atom(pr, pc)],
            _ => Seq::empty(),
        })
    }
}

/// The formula a sensing turn tells the knowledge base: the void atom when
/// nothing was sensed, else a conjunction asserting stench and breeze
/// positively or negatively plus any scream and glitter atoms.
pub open spec fn percept_spec(pr: int, pc: int, senses: Seq<Sense>) -> SpecStatement {
    if senses.len() == 0 {
        void_atom(pr, pc)
    } else {
        conj_of(
            seq![
                if senses.contains(Sense::Stench) {
                    stench_atom(pr, pc)
                } else {
                    crate::logic::not_of(stench_atom(pr, pc))
                },
                if senses.contains(Sense::Breeze) {
                    breeze_atom(pr, pc)
                } else {
                    crate::logic::not_of(breeze_atom(pr, pc))
                },
            ] + extra_percepts(pr, pc, senses),
        )
    }
}

/// Whether a sense occurs in a list.
fn senses_contains(v: &Vec<Sense>, s: Sense) -> (r: bool)
    ensures
        r == v@.contains(s),
{
    let mut i: usize = 0;
    while i < v.len()
        invariant
            0 <= i <= v.len(),
            forall|j: int| 0 <= j < i ==> v@[j] != s,
        decreases v.len() - i,
    {
        if v[i] == s {
            return true;
        }
        i += 1;
    }
    proof {
        if v@.contains(s) {
            let j = choose|j: int| 0 <= j < v@.len() && v@[j] == s;
        }
    }
    false
}

/// Whether a position occurs in a list.
fn pos_in(v: &Vec<Pos>, p: &Pos) -> (r: bool)
    ensures
        r == v@.to_set().contains(*p),
{
    let mut i: usize = 0;
    while i < v.len()
        invariant
            0 <= i <= v.len(),
            forall|j: int| 0 <= j < i ==> v@[j] != *p,
        decreases v.len() - i,
    {
        if v[i] == *p {
            proof {
                assert(v@.contains(*p));
            }
            return true;
        }
        i += 1;
    }
    proof {
        if v@.contains(*p) {
            let j = choose|j: int| 0 <= j < v@.len() && v@[j] == *p;
        }
    }
    false
}

// Knowledge-Based Agent ////////////////////////////////////

/// The searchable frontier is empty: no observed direction leads to an
/// unvisited cell whose safety the knowledge base is obliged to confirm
/// (an unknown answer counts as unsafe).
pub open spec fn no_provable_candidate(
    facts: Set<SpecStatement>,
    visited: Set<Pos>,
    curr: Pos,
    dirs: Seq<Direction>,
) -> bool {
    forall|k: int|
        0 <= k < dirs.len() ==> {
            let t = moved_pos(curr, #[trigger] dirs[k]);
            visited.contains(t) || !crate::kb::ask_must_true(
                facts,
                safe_atom(t.row as int, t.col as int),
            )
        }
}

/// What one decision of the explorer may and must do, relative to the state
/// before it and the facts at decision time. A glitter with treasure still
/// out forces the grab; being done back at the start forces the climb-out;
/// any other climb happens only with no stack, with the frame exhausted and
/// the frontier empty, or to discard a top candidate the knowledge base no
/// longer confirms; and a move either descends onto the top frame's next
/// candidate (a proven-safe or revisited cell) or is exactly the reversal
/// of the parent frame's last taken direction.
pub open spec fn decision_spec(
    pre: KnowledgeBasedAgent,
    facts: Set<SpecStatement>,
    post: KnowledgeBasedAgent,
    obs: Observation,
    a: Action,
) -> bool {
    let rows = pre.rows_spec();
    let cols = pre.cols_spec();
    let curr = pre.curr_spec();
    let h = pre.stack_height();
    let grabbing = pre.treasures_spec() < pre.total_treasures_spec()
        && obs.senses_seq().contains(Sense::Glitter);
    let done = pre.satisfied_spec() || pre.treasures_spec() == pre.total_treasures_spec();
    &&& (grabbing ==> a == Action::Grab)
    &&& (!grabbing && done && curr == pre.start_spec() ==> a == Action::Climb)
    &&& post.satisfied_spec() == (pre.satisfied_spec() || (!grabbing && pre.treasures_spec()
        == pre.total_treasures_spec()))
    &&& post.total_treasures_spec() == pre.total_treasures_spec()
    &&& (match a {
        Action::Grab => {
            &&& grabbing
            &&& post.treasures_spec() == pre.treasures_spec() + 1
            &&& post.curr_spec() == curr
            &&& post.visited_set() == pre.visited_set()
            &&& post.frames() == pre.frames()
        },
        Action::Climb => {
            &&& post.treasures_spec() == pre.treasures_spec()
            &&& post.curr_spec() == curr
            &&& post.visited_set() == pre.visited_set()
            &&& ({
                ||| (!grabbing && done && curr == pre.start_spec())
                ||| h == 0
                ||| (h >= 1 && pre.frames().last().len() == 0 && no_provable_candidate(
                    facts,
                    pre.visited_set(),
                    curr,
                    obs.directions_seq(),
                ))
                ||| (h >= 1 && pre.frames().last().len() > 0 && {
                    let d = pre.frames().last().last();
                    let t = moved_pos(curr, d);
                    !(dir_valid_spec(curr.row as int, curr.col as int, d, rows, cols) && (
                    pre.visited_set().contains(t) || crate::kb::ask_must_true(
                        facts,
                        safe_atom(t.row as int, t.col as int),
                    )))
                })
            })
        },
        Action::Move(d) => {
            &&& dir_valid_spec(curr.row as int, curr.col as int, d, rows, cols)
            &&& post.treasures_spec() == pre.treasures_spec()
            &&& post.curr_spec() == moved_pos(curr, d)
            &&& post.visited_set() == pre.visited_set().insert(post.curr_spec())
            &&& (post.stack_height() < h || pre.visited_set().contains(post.curr_spec())
                || entails(
                facts,
                safe_atom(post.curr_spec().row as int, post.curr_spec().col as int),
            ))
            &&& (post.stack_height() < h ==> {
                &&& h >= 2
                &&& pre.frames().last().len() == 0
                &&& pre.frames()[h - 2].len() > 0
                &&& d == pre.frames()[h - 2].last().reverse_spec()
            })
            &&& (h >= 1 && pre.frames().last().len() > 0 && post.stack_height() >= h ==> d
                == pre.frames().last().last())
        },
        Action::Shoot(_) => false,
    })
}

/// The per-frame contents of a stack of direction frames, bottom first.
pub open spec fn frames_of(s: Seq<Stack<Direction>>) -> Seq<Seq<Direction>>
    decreases s.len(),
{
    if s.len() == 0 {
        Seq::empty()
    } else {
        frames_of(s.drop_last()).push(s.last().seq())
    }
}

pub proof fn lemma_frames_of_len(s: Seq<Stack<Direction>>)
    ensures
        frames_of(s).len() == s.len(),
    decreases s.len(),
{
    if s.len() > 0 {
        lemma_frames_of_len(s.drop_last());
    }
}

pub proof fn lemma_frames_of_index(s: Seq<Stack<Direction>>, i: int)
    requires
        0 <= i < s.len(),
    ensures
        frames_of(s)[i] == s[i].seq(),
    decreases s.len(),
{
    lemma_frames_of_len(s);
    if i == s.len() - 1 {
    } else {
        lemma_frames_of_index(s.drop_last(), i);
        lemma_frames_of_len(s.drop_last());
        assert(s.drop_last()[i] == s[i]);
    }
}

/// The explorer: a knowledge base, the grid frame, the positions already
/// visited, and an explicit stack of depth-first frames of directions not
/// yet tried, persisted across turns.
pub struct KnowledgeBasedAgent {
    kb: KnowledgeBase,
    start_pos: Pos,
    curr_pos: Pos,
    grid_rows: usize,
    grid_cols: usize,
    stack: Stack<Stack<Direction>>,
    visited: Vec<Pos>,
    satisfied: bool,
    total_treasures: usize,
    treasures: usize,
}

impl KnowledgeBasedAgent {
    /// The facts the agent's knowledge base holds.
    pub closed spec fn facts(self) -> Set<SpecStatement> {
        self.kb.facts_set()
    }

    pub closed spec fn start_spec(self) -> Pos {
        self.start_pos
    }

    pub closed spec fn curr_spec(self) -> Pos {
        self.curr_pos
    }

    pub closed spec fn rows_spec(self) -> int {
        self.grid_rows as int
    }

    pub closed spec fn cols_spec(self) -> int {
        self.grid_cols as int
    }

    pub closed spec fn visited_set(self) -> Set<Pos> {
        self.visited@.to_set()
    }

    /// The number of stack frames: one per depth-first level in flight.
    pub closed spec fn stack_height(self) -> int {
        self.stack.seq().len() as int
    }

    /// The frames of the search stack, bottom first; each frame holds the
    /// directions not yet tried at its depth, the next candidate last.
    pub closed spec fn frames(self) -> Seq<Seq<Direction>> {
        frames_of(self.stack.seq())
    }

    pub closed spec fn treasures_spec(self) -> int {
        self.treasures as int
    }

    pub closed spec fn total_treasures_spec(self) -> int {
        self.total_treasures as int
    }

    /// Whether the agent has collected everything and is heading out.
    pub closed spec fn satisfied_spec(self) -> bool {
        self.satisfied
    }

    /// The stack height counts the frames.
    pub proof fn lemma_frames_len(self)
        ensures
            self.frames().len() == self.stack_height(),
    {
        lemma_frames_of_len(self.stack.seq());
    }

    /// Well-formed between turns: a sound knowledge base and positions on a
    /// non-degenerate grid of at least two cells.
    pub closed spec fn wf(self) -> bool {
        &&& self.kb.wf()
        &&& 1 <= self.grid_rows
        &&& 1 <= self.grid_cols
        &&& 2 <= self.grid_rows * self.grid_cols
        &&& self.start_pos.row < self.grid_rows
        &&& self.start_pos.col < self.grid_cols
        &&& self.curr_pos.row < self.grid_rows
        &&& self.curr_pos.col < self.grid_cols
    }

    pub fn new(start_pos: &Pos, grid_rows: usize, grid_cols: usize) -> (r: Self)
        requires
            1 <= grid_rows,
            1 <= grid_cols,
            2 <= grid_rows * grid_cols,
            start_pos.row < grid_rows,
            start_pos.col < grid_cols,
        ensures
            r.wf(),
            r.start_spec() == *start_pos,
            r.curr_spec() == *start_pos,
            r.rows_spec() == grid_rows as int,
            r.cols_spec() == grid_cols as int,
            r.visited_set() == Set::<Pos>::empty().insert(*start_pos),
            r.treasures_spec() == 0,
            r.total_treasures_spec() == 1,
            !r.satisfied_spec(),
            r.stack_height() == 1,
            r.frames() == seq![Seq::<Direction>::empty()],
            r.facts() == told_union(
                Set::<SpecStatement>::empty(),
                axiom_seq(
                    grid_rows as int,
                    grid_cols as int,
                    start_pos.row as int,
                    start_pos.col as int,
                ),
            ),
    {
        let mut agent = Self {
            kb: KnowledgeBase::new(),
            start_pos: Pos::new(start_pos.row, start_pos.col),
            curr_pos: Pos::new(0, 0),
            grid_rows,
            grid_cols,
            stack: Stack::new(),
            visited: Vec::new(),
            satisfied: false,
            total_treasures: 1,
            treasures: 0,
        };
        agent.reset();
        agent
    }

    /// Starts the episode over: empty history, one empty frame, the agent
    /// at the start, and the domain theory re-told from scratch.
    pub fn reset(&mut self)
        requires
            old(self).wf(),
        ensures
            final(self).wf(),
            final(self).start_spec() == old(self).start_spec(),
            final(self).rows_spec() == old(self).rows_spec(),
            final(self).cols_spec() == old(self).cols_spec(),
            final(self).curr_spec() == old(self).start_spec(),
            final(self).visited_set() == Set::<Pos>::empty().insert(old(self).start_spec()),
            final(self).treasures_spec() == 0,
            final(self).total_treasures_spec() == old(self).total_treasures_spec(),
            !final(self).satisfied_spec(),
            final(self).stack_height() == 1,
            final(self).frames() == seq![Seq::<Direction>::empty()],
            final(self).facts() == told_union(
                Set::<SpecStatement>::empty(),
                axiom_seq(
                    old(self).rows_spec(),
                    old(self).cols_spec(),
                    old(self).start_spec().row as int,
                    old(self).start_spec().col as int,
                ),
            ),
    {
        self.treasures = 0;
        self.satisfied = false;
        self.kb.clear();
        self.visited.clear();
        self.visited.push(Pos::new(self.start_pos.row, self.start_pos.col));
        proof {
            broadcast use vstd::seq_lib::lemma_seq_contains_after_push;

            assert(self.visited@.to_set() =~= Set::<Pos>::empty().insert(self.start_pos));
        }
        self.stack.clear();
        self.stack.push(Stack::new());
        proof {
            assert(self.stack.seq().drop_last() =~= Seq::<Stack<Direction>>::empty());
            assert(frames_of(Seq::<Stack<Direction>>::empty()) =~= Seq::<Seq<Direction>>::empty());
            assert(self.frames() =~= seq![Seq::<Direction>::empty()]);
        }
        self.curr_pos = Pos::new(self.start_pos.row, self.start_pos.col);
        self.axiomatize();
    }

    /// Tells the knowledge base the full domain theory for the grid.
    fn axiomatize(&mut self)
        requires
            old(self).wf(),
            old(self).facts() == Set::<SpecStatement>::empty(),
        ensures
            final(self).wf(),
            final(self).start_spec() == old(self).start_spec(),
            final(self).curr_spec() == old(self).curr_spec(),
            final(self).rows_spec() == old(self).rows_spec(),
            final(self).cols_spec() == old(self).cols_spec(),
            final(self).visited_set() == old(self).visited_set(),
            final(self).stack_height() == old(self).stack_height(),
            final(self).frames() == old(self).frames(),
            final(self).treasures_spec() == old(self).treasures_spec(),
            final(self).total_treasures_spec() == old(self).total_treasures_spec(),
            final(self).satisfied_spec() == old(self).satisfied_spec(),
            final(self).facts() == told_union(
                Set::<SpecStatement>::empty(),
                axiom_seq(
                    old(self).rows_spec(),
                    old(self).cols_spec(),
                    old(self).start_spec().row as int,
                    old(self).start_spec().col as int,
                ),
            ),
    {
        let start = Pos::new(self.start_pos.row, self.start_pos.col);
        let axioms = build_axioms(self.grid_rows, self.grid_cols, &start);
        let ghost aseq = views(axioms@);
        let mut i: usize = 0;
        while i < axioms.len()
            invariant
                0 <= i <= axioms@.len(),
                aseq == views(axioms@),
                self.kb.wf(),
                self.kb.facts_set() == told_union(
                    Set::<SpecStatement>::empty(),
                    aseq.take(i as int),
                ),
                self.start_pos == old(self).start_pos,
                self.curr_pos == old(self).curr_pos,
                self.grid_rows == old(self).grid_rows,
                self.grid_cols == old(self).grid_cols,
                self.visited == old(self).visited,
                self.stack == old(self).stack,
                self.treasures == old(self).treasures,
                self.satisfied == old(self).satisfied,
                self.total_treasures == old(self).total_treasures,
            decreases axioms@.len() - i,
        {
            let stmt = axioms[i].clone();
            self.kb.tell(stmt);
            proof {
                let t = aseq.take(i as int + 1);
                assert(t.drop_last() =~= aseq.take(i as int));
                assert(t.last() == aseq[i as int]);
            }
            i += 1;
        }
        proof {
            assert(aseq.take(aseq.len() as int) =~= aseq);
        }
    }

    /// Whether one step from a position stays on the agent's grid.
    fn is_direction_valid(&self, pos: &Pos, direction: &Direction) -> (r: bool)
        requires
            self.wf(),
        ensures
            r == dir_valid_spec(
                pos.row as int,
                pos.col as int,
                *direction,
                self.rows_spec(),
                self.cols_spec(),
            ),
    {
        match direction {
            Direction::North => pos.row > 0,
            Direction::South => pos.row < self.grid_rows - 1,
            Direction::East => pos.col < self.grid_cols - 1,
            Direction::West => pos.col > 0,
        }
    }

    /// The grid neighbors of a position.
    fn neighborhood(&self, pos: &Pos) -> (r: Vec<Pos>)
        requires
            pos.row < self.rows_spec(),
            pos.col < self.cols_spec(),
        ensures
            pos_pairs(r@) == neighbors_spec(
                self.rows_spec(),
                self.cols_spec(),
                pos.row as int,
                pos.col as int,
            ),
    {
        neighbor_positions(self.grid_rows, self.grid_cols, pos)
    }

    /// Keeps only the directions whose target cell was not visited yet.
    fn retain_non_visited(&self, directions: &mut Vec<Direction>)
        requires
            self.wf(),
            forall|k: int|
                0 <= k < old(directions)@.len() ==> dir_valid_spec(
                    self.curr_spec().row as int,
                    self.curr_spec().col as int,
                    #[trigger] old(directions)@[k],
                    self.rows_spec(),
                    self.cols_spec(),
                ),
        ensures
            forall|k: int|
                0 <= k < final(directions)@.len() ==> {
                    let d = #[trigger] final(directions)@[k];
                    &&& old(directions)@.contains(d)
                    &&& !self.visited_set().contains(moved_pos(self.curr_spec(), d))
                },
            forall|k: int|
                0 <= k < old(directions)@.len() ==> {
                    let d = #[trigger] old(directions)@[k];
                    !self.visited_set().contains(moved_pos(self.curr_spec(), d))
                        ==> final(directions)@.contains(d)
                },
    {
        broadcast use vstd::seq_lib::lemma_seq_contains_after_push;

        let mut kept: Vec<Direction> = Vec::new();
        let mut i: usize = 0;
        while i < directions.len()
            invariant
                0 <= i <= directions@.len(),
                self.wf(),
                directions@ == old(directions)@,
                forall|k: int|
                    0 <= k < directions@.len() ==> dir_valid_spec(
                        self.curr_spec().row as int,
                        self.curr_spec().col as int,
                        #[trigger] directions@[k],
                        self.rows_spec(),
                        self.cols_spec(),
                    ),
                forall|k: int|
                    0 <= k < kept@.len() ==> {
                        let d = #[trigger] kept@[k];
                        &&& directions@.contains(d)
                        &&& !self.visited_set().contains(moved_pos(self.curr_spec(), d))
                    },
                forall|k: int|
                    0 <= k < i ==> {
                        let d = #[trigger] directions@[k];
                        !self.visited_set().contains(moved_pos(self.curr_spec(), d))
                            ==> kept@.contains(d)
                    },
            decreases directions@.len() - i,
        {
            let d = directions[i];
            proof {
                assert(dir_valid_spec(
                    self.curr_spec().row as int,
                    self.curr_spec().col as int,
                    directions@[i as int],
                    self.rows_spec(),
                    self.cols_spec(),
                ));
                self.lemma_dims_bounded_agent();
            }
            let target = self.curr_pos.moved(&d);
            if !pos_in(&self.visited, &target) {
                let ghost prev_kept = kept@;
                kept.push(d);
                proof {
                    assert(directions@.contains(d));
                    assert forall|x: Direction| prev_kept.contains(x) implies kept@.contains(
                        x,
                    ) by {
                        let j = choose|j: int| 0 <= j < prev_kept.len() && prev_kept[j] == x;
                        assert(kept@[j] == x);
                    }
                    assert(kept@.last() == d);
                    assert(kept@.contains(d));
                }
            }
            i += 1;
        }
        *directions = kept;
    }

    proof fn lemma_dims_bounded_agent(&self)
        ensures
            self.rows_spec() <= usize::MAX as int,
            self.cols_spec() <= usize::MAX as int,
    {
    }

    /// Keeps only the directions whose target cell the knowledge base
    /// proves safe; an unknown answer drops the direction.
    fn retain_safe(&mut self, directions: &mut Vec<Direction>)
        requires
            old(self).wf(),
            forall|k: int|
                0 <= k < old(directions)@.len() ==> dir_valid_spec(
                    old(self).curr_spec().row as int,
                    old(self).curr_spec().col as int,
                    #[trigger] old(directions)@[k],
                    old(self).rows_spec(),
                    old(self).cols_spec(),
                ),
        ensures
            final(self).wf(),
            final(self).facts() == old(self).facts(),
            final(self).start_spec() == old(self).start_spec(),
            final(self).curr_spec() == old(self).curr_spec(),
            final(self).rows_spec() == old(self).rows_spec(),
            final(self).cols_spec() == old(self).cols_spec(),
            final(self).visited_set() == old(self).visited_set(),
            final(self).stack_height() == old(self).stack_height(),
            final(self).frames() == old(self).frames(),
            final(self).treasures_spec() == old(self).treasures_spec(),
            final(self).total_treasures_spec() == old(self).total_treasures_spec(),
            final(self).satisfied_spec() == old(self).satisfied_spec(),
            forall|k: int|
                0 <= k < final(directions)@.len() ==> {
                    let d = #[trigger] final(directions)@[k];
                    &&& old(directions)@.contains(d)
                    &&& entails(
                        old(self).facts(),
                        safe_atom(
                            moved_pos(old(self).curr_spec(), d).row as int,
                            moved_pos(old(self).curr_spec(), d).col as int,
                        ),
                    )
                },
            forall|k: int|
                0 <= k < old(directions)@.len() ==> {
                    let d = #[trigger] old(directions)@[k];
                    crate::kb::ask_must_true(
                        old(self).facts(),
                        safe_atom(
                            moved_pos(old(self).curr_spec(), d).row as int,
                            moved_pos(old(self).curr_spec(), d).col as int,
                        ),
                    ) ==> final(directions)@.contains(d)
                },
    {
        broadcast use vstd::seq_lib::lemma_seq_contains_after_push;

        let mut kept: Vec<Direction> = Vec::new();
        let mut i: usize = 0;
        while i < directions.len()
            invariant
                0 <= i <= directions@.len(),
                self.wf(),
                self.kb.facts_set() == old(self).kb.facts_set(),
                self.start_pos == old(self).start_pos,
                self.curr_pos == old(self).curr_pos,
                self.grid_rows == old(self).grid_rows,
                self.grid_cols == old(self).grid_cols,
                self.visited == old(self).visited,
                self.stack == old(self).stack,
                self.treasures == old(self).treasures,
                self.satisfied == old(self).satisfied,
                self.total_treasures == old(self).total_treasures,
                directions@ == old(directions)@,
                forall|k: int|
                    0 <= k < directions@.len() ==> dir_valid_spec(
                        self.curr_spec().row as int,
                        self.curr_spec().col as int,
                        #[trigger] directions@[k],
                        self.rows_spec(),
                        self.cols_spec(),
                    ),
                forall|k: int|
                    0 <= k < kept@.len() ==> {
                        let d = #[trigger] kept@[k];
                        &&& directions@.contains(d)
                        &&& entails(
                            self.kb.facts_set(),
                            safe_atom(
                                moved_pos(self.curr_spec(), d).row as int,
                                moved_pos(self.curr_spec(), d).col as int,
                            ),
                        )
                    },
                forall|k: int|
                    0 <= k < i ==> {
                        let d = #[trigger] directions@[k];
                        crate::kb::ask_must_true(
                            self.kb.facts_set(),
                            safe_atom(
                                moved_pos(self.curr_spec(), d).row as int,
                                moved_pos(self.curr_spec(), d).col as int,
                            ),
                        ) ==> kept@.contains(d)
                    },
            decreases directions@.len() - i,
        {
            let d = directions[i];
            proof {
                assert(dir_valid_spec(
                    self.curr_spec().row as int,
                    self.curr_spec().col as int,
                    directions@[i as int],
                    self.rows_spec(),
                    self.cols_spec(),
                ));
                self.lemma_dims_bounded_agent();
            }
            let target = self.curr_pos.moved(&d);
            let query = make_safe_atomic(&target);
            let answer = self.kb.ask(&query);
            let keep = matches!(answer, Some(true));
            if keep {
                let ghost prev_kept = kept@;
                kept.push(d);
                proof {
                    assert(directions@.contains(d));
                    assert forall|x: Direction| prev_kept.contains(x) implies kept@.contains(
                        x,
                    ) by {
                        let j = choose|j: int| 0 <= j < prev_kept.len() && prev_kept[j] == x;
                        assert(kept@[j] == x);
                    }
                    assert(kept@.last() == d);
                    assert(kept@.contains(d));
                }
            }
            i += 1;
        }
        *directions = kept;
    }

    /// Translates an observation into the formula told to the knowledge
    /// base: absence of a stench or breeze is asserted explicitly, since the
    /// engine makes no closed-world assumption and could otherwise never
    /// prove a cell safe from silence.
    pub fn make_percept_stmt(&self, obs: &Observation) -> (r: Statement)
        requires
            self.wf(),
            obs.position_spec().row < self.rows_spec(),
            obs.position_spec().col < self.cols_spec(),
            forall|k: int|
                0 <= k < obs.senses_seq().len() ==> !((#[trigger] obs.senses_seq()[k]) is Bump)
                    && !(obs.senses_seq()[k] is Ceil),
            forall|k: int|
                0 <= k < obs.senses_seq().len() ==> ((#[trigger] obs.senses_seq()[k]) matches
                Sense::Scream(d) ==> dir_valid_spec(
                    obs.position_spec().row as int,
                    obs.position_spec().col as int,
                    d,
                    self.rows_spec(),
                    self.cols_spec(),
                )),
        ensures
            r@ == percept_spec(
                obs.position_spec().row as int,
                obs.position_spec().col as int,
                obs.senses_seq(),
            ),
    {
        let pos = obs.position();
        let senses = obs.senses();
        let ghost pr = pos.row as int;
        let ghost pc = pos.col as int;

        if senses.len() == 0 {
            return make_void_atomic(pos);
        }
        let mut conjuncts: Vec<Statement> = Vec::new();
        if senses_contains(senses, Sense::Stench) {
            conjuncts.push(make_stench_atomic(pos));
        } else {
            conjuncts.push(Statement::NotClause(Box::new(make_stench_atomic(pos))));
        }
        if senses_contains(senses, Sense::Breeze) {
            conjuncts.push(make_breeze_atomic(pos));
        } else {
            conjuncts.push(Statement::NotClause(Box::new(make_breeze_atomic(pos))));
        }
        let ghost head2 = views(conjuncts@);

        let mut k: usize = 0;
        while k < senses.len()
            invariant
                0 <= k <= senses@.len(),
                self.wf(),
                pr == pos.row as int,
                pc == pos.col as int,
                pos.row < self.rows_spec(),
                pos.col < self.cols_spec(),
                forall|m: int|
                    0 <= m < senses@.len() ==> !((#[trigger] senses@[m]) is Bump) && !(senses@[m]
                        is Ceil),
                forall|m: int|
                    0 <= m < senses@.len() ==> ((#[trigger] senses@[m]) matches Sense::Scream(d)
                        ==> dir_valid_spec(pr, pc, d, self.rows_spec(), self.cols_spec())),
                views(conjuncts@) == head2 + extra_percepts(pr, pc, senses@.take(k as int)),
            decreases senses@.len() - k,
        {
            let ghost prev = views(conjuncts@);
            proof {
                let t = senses@.take(k as int + 1);
                assert(t.drop_last() =~= senses@.take(k as int));
                assert(t.last() == senses@[k as int]);
            }
            let s = senses[k];
            match s {
                Sense::Scream(d) => {
                    proof {
                        assert(senses@[k as int] matches Sense::Scream(dd) && dd == d);
                        self.lemma_dims_bounded_agent();
                    }
                    let wumpus_pos = pos.moved(&d);
                    proof {
                        assert(wumpus_pos.row as int == moved_spec(pr, pc, d).0);
                        assert(wumpus_pos.col as int == moved_spec(pr, pc, d).1);
                    }
                    conjuncts.push(make_scream_atomic(&wumpus_pos));
                    proof {
                        let t = senses@.take(k as int + 1);
                        let atom = scream_atom(moved_spec(pr, pc, d).0, moved_spec(pr, pc, d).1);
                        assert(extra_percepts(pr, pc, t) == extra_percepts(
                            pr,
                            pc,
                            senses@.take(k as int),
                        ).push(atom));
                        assert(views(conjuncts@) =~= prev.push(atom));
                        assert(prev.push(atom) =~= head2 + extra_percepts(pr, pc, t));
                        assert(views(conjuncts@) == head2 + extra_percepts(pr, pc, t));
                    }
                },
                Sense::Glitter => {
                    conjuncts.push(make_glitter_atomic(pos));
                    proof {
                        let t = senses@.take(k as int + 1);
                        let atom = glitter_atom(pr, pc);
                        assert(extra_percepts(pr, pc, t) == extra_percepts(
                            pr,
                            pc,
                            senses@.take(k as int),
                        ).push(atom));
                        assert(views(conjuncts@) =~= prev.push(atom));
                        assert(prev.push(atom) =~= head2 + extra_percepts(pr, pc, t));
                        assert(views(conjuncts@) == head2 + extra_percepts(pr, pc, t));
                    }
                },
                Sense::Stench => {
                    proof {
                        let t = senses@.take(k as int + 1);
                        assert(extra_percepts(pr, pc, t) =~= extra_percepts(
                            pr,
                            pc,
                            senses@.take(k as int),
                        ));
                        assert(views(conjuncts@) =~= head2 + extra_percepts(pr, pc, t));
                    }
                },
                Sense::Breeze => {
                    proof {
                        let t = senses@.take(k as int + 1);
                        assert(extra_percepts(pr, pc, t) =~= extra_percepts(
                            pr,
                            pc,
                            senses@.take(k as int),
                        ));
                        assert(views(conjuncts@) =~= head2 + extra_percepts(pr, pc, t));
                    }
                },
                Sense::Bump(_) => {
                    proof {
                        assert(senses@[k as int] is Bump);
                        assert(false);
                    }
                },
                Sense::Ceil => {
                    proof {
                        assert(senses@[k as int] is Ceil);
                        assert(false);
                    }
                },
            }
            k += 1;
        }
        proof {
            assert(senses@.take(senses@.len() as int) =~= senses@);
        }
        let r = match make_conjuncts(&conjuncts) {
            Some(s) => s,
            None => vstd::pervasive::unreached(),
        };
        proof {
            assert(head2 + extra_percepts(pr, pc, senses@) =~= seq![
                head2[0],
                head2[1],
            ] + extra_percepts(pr, pc, senses@));
            assert(r@ == percept_spec(pr, pc, senses@));
        }
        r
    }

    /// One decision of the explore/backtrack search. A glitter is grabbed
    /// at once; with the treasure in hand the agent climbs out at the start.
    /// Otherwise the top frame drives the depth-first search: an exhausted
    /// frame is popped and fresh candidates are computed, keeping only
    /// unvisited targets the knowledge base proves safe; with no candidates
    /// left the agent retraces its last step (the one move that may enter a
    /// cell not freshly proven safe, and the only one that shrinks the
    /// stack), and with nowhere to backtrack it climbs out empty-handed.
    /// The whole decision is pinned by [`decision_spec`].
    #[verifier::rlimit(60)]
    pub fn ask_for_action(&mut self, obs: &Observation) -> (a: Action)
        requires
            old(self).wf(),
            forall|k: int|
                0 <= k < obs.directions_seq().len() ==> dir_valid_spec(
                    old(self).curr_spec().row as int,
                    old(self).curr_spec().col as int,
                    #[trigger] obs.directions_seq()[k],
                    old(self).rows_spec(),
                    old(self).cols_spec(),
                ),
        ensures
            final(self).wf(),
            final(self).facts() == old(self).facts(),
            final(self).start_spec() == old(self).start_spec(),
            final(self).rows_spec() == old(self).rows_spec(),
            final(self).cols_spec() == old(self).cols_spec(),
            decision_spec(*old(self), old(self).facts(), *final(self), *obs, a),
    {
        proof {
            old(self).lemma_frames_len();
        }
        // Grab each treasure once: the glitter stays in later observations.
        if self.treasures < self.total_treasures && senses_contains(obs.senses(), Sense::Glitter) {
            self.treasures = self.treasures + 1;
            return Action::Grab;
        }

        if self.treasures == self.total_treasures {
            self.satisfied = true;
        }

        if self.satisfied && self.curr_pos == self.start_pos {
            return Action::Climb;
        }

        if self.stack.is_empty() {
            // The search is exhausted: nothing is left but to leave.
            return Action::Climb;
        }

        proof {
            lemma_frames_of_index(old(self).stack.seq(), old(self).stack_height() - 1);
        }
        let frame_is_empty = self.stack.peek().is_empty();
        if frame_is_empty {
            let _exhausted = self.stack.pop();
            let mut directions: Vec<Direction> = Vec::new();
            let obs_dirs = obs.directions();
            let mut di: usize = 0;
            while di < obs_dirs.len()
                invariant
                    0 <= di <= obs_dirs@.len(),
                    obs_dirs@ == obs.directions_seq(),
                    directions@ == obs_dirs@.take(di as int),
                decreases obs_dirs@.len() - di,
            {
                directions.push(obs_dirs[di]);
                proof {
                    assert(directions@ =~= obs_dirs@.take(di as int + 1));
                }
                di += 1;
            }
            proof {
                assert(obs_dirs@.take(obs_dirs@.len() as int) =~= obs_dirs@);
                assert(directions@ == obs.directions_seq());
            }
            self.retain_non_visited(&mut directions);
            let ghost unvisited_dirs = directions@;
            self.retain_safe(&mut directions);
            if directions.len() == 0 {
                // Every frontier cell is visited or beyond what the
                // knowledge base is obliged to confirm.
                proof {
                    assert forall|k: int|
                        0 <= k < obs.directions_seq().len() implies {
                        let t = moved_pos(
                            old(self).curr_spec(),
                            #[trigger] obs.directions_seq()[k],
                        );
                        old(self).visited_set().contains(t) || !crate::kb::ask_must_true(
                            old(self).facts(),
                            safe_atom(t.row as int, t.col as int),
                        )
                    } by {
                        let d = obs.directions_seq()[k];
                        let t = moved_pos(old(self).curr_spec(), d);
                        if !old(self).visited_set().contains(t) && crate::kb::ask_must_true(
                            old(self).facts(),
                            safe_atom(t.row as int, t.col as int),
                        ) {
                            assert(unvisited_dirs.contains(d));
                            let j = choose|j: int|
                                0 <= j < unvisited_dirs.len() && unvisited_dirs[j] == d;
                            assert(directions@.contains(d));
                        }
                    }
                    assert(no_provable_candidate(
                        old(self).facts(),
                        old(self).visited_set(),
                        old(self).curr_spec(),
                        obs.directions_seq(),
                    ));
                }
                if self.stack.is_empty() {
                    // There's no way to backtrack, so climb out.
                    return Action::Climb;
                }
                proof {
                    lemma_frames_of_index(old(self).stack.seq(), old(self).stack_height() - 2);
                }
                let parent = self.stack.mut_peek();
                if parent.is_empty() {
                    return Action::Climb;
                }
                let dir = parent.pop();
                let rev = dir.reverse();
                if !self.is_direction_valid(&Pos::new(self.curr_pos.row, self.curr_pos.col), &rev)
                {
                    return Action::Climb;
                }
                self.update_and_mark_position(&rev);
                return Action::Move(rev);
            } else {
                let frame = Stack::of(directions);
                let dir = *frame.peek();
                self.stack.push(frame);
                self.stack.push(Stack::new());
                self.update_and_mark_position(&dir);
                return Action::Move(dir);
            }
        } else {
            let dir = *self.stack.peek().peek();
            if !self.is_direction_valid(&Pos::new(self.curr_pos.row, self.curr_pos.col), &dir) {
                return Action::Climb;
            }
            proof {
                self.lemma_dims_bounded_agent();
            }
            let target = self.curr_pos.moved(&dir);
            let revisit = pos_in(&self.visited, &target);
            let mut proven = revisit;
            if !revisit {
                let query = make_safe_atomic(&target);
                let answer = self.kb.ask(&query);
                proven = matches!(answer, Some(true));
                proof {
                    if !proven && crate::kb::ask_must_true(
                        self.kb.facts_set(),
                        safe_atom(target.row as int, target.col as int),
                    ) {
                        assert(false);
                    }
                }
            }
            if proven {
                self.stack.push(Stack::new());
                self.update_and_mark_position(&dir);
                return Action::Move(dir);
            } else {
                // A stale candidate the knowledge base no longer confirms:
                // drop it and fail safe this turn.
                let top = self.stack.mut_peek();
                let _stale = top.pop();
                return Action::Climb;
            }
        }
    }

    /// Moves the agent one step and marks the new cell visited.
    fn update_and_mark_position(&mut self, direction: &Direction)
        requires
            old(self).wf(),
            dir_valid_spec(
                old(self).curr_spec().row as int,
                old(self).curr_spec().col as int,
                *direction,
                old(self).rows_spec(),
                old(self).cols_spec(),
            ),
        ensures
            final(self).wf(),
            final(self).facts() == old(self).facts(),
            final(self).start_spec() == old(self).start_spec(),
            final(self).rows_spec() == old(self).rows_spec(),
            final(self).cols_spec() == old(self).cols_spec(),
            final(self).stack_height() == old(self).stack_height(),
            final(self).frames() == old(self).frames(),
            final(self).treasures_spec() == old(self).treasures_spec(),
            final(self).total_treasures_spec() == old(self).total_treasures_spec(),
            final(self).satisfied_spec() == old(self).satisfied_spec(),
            final(self).curr_spec() == moved_pos(old(self).curr_spec(), *direction),
            final(self).visited_set() == old(self).visited_set().insert(final(self).curr_spec()),
    {
        proof {
            self.lemma_dims_bounded_agent();
        }
        self.curr_pos = self.curr_pos.moved(direction);
        let here = Pos::new(self.curr_pos.row, self.curr_pos.col);
        let ghost prev = self.visited@;
        if !pos_in(&self.visited, &here) {
            self.visited.push(here);
            proof {
                broadcast use vstd::seq_lib::lemma_seq_contains_after_push;

                assert(self.visited@.to_set() =~= prev.to_set().insert(here));
            }
        } else {
            proof {
                assert(self.visited@.to_set() =~= prev.to_set().insert(here));
            }
        }
    }
}

impl Agent for KnowledgeBasedAgent {
    open spec fn inv(&self) -> bool {
        self.wf()
    }

    /// The agent acts on observations taken where it stands, with on-grid
    /// directions, and without the bump and ceiling percepts that only the
    /// keyboard flow produces.
    open spec fn obs_ok(&self, obs: &Observation) -> bool {
        &&& obs.position_spec() == self.curr_spec()
        &&& obs.position_spec().row < self.rows_spec()
        &&& obs.position_spec().col < self.cols_spec()
        &&& (forall|k: int|
            0 <= k < obs.senses_seq().len() ==> !((#[trigger] obs.senses_seq()[k]) is Bump) && !(
            obs.senses_seq()[k] is Ceil))
        &&& (forall|k: int|
            0 <= k < obs.senses_seq().len() ==> ((#[trigger] obs.senses_seq()[k]) matches
            Sense::Scream(d) ==> dir_valid_spec(
                obs.position_spec().row as int,
                obs.position_spec().col as int,
                d,
                self.rows_spec(),
                self.cols_spec(),
            )))
        &&& (forall|k: int|
            0 <= k < obs.directions_seq().len() ==> dir_valid_spec(
                self.curr_spec().row as int,
                self.curr_spec().col as int,
                #[trigger] obs.directions_seq()[k],
                self.rows_spec(),
                self.cols_spec(),
            ))
    }

    /// One turn: tell the knowledge base what was perceived, then decide.
    /// The knowledge grows by exactly the normalized percept, and the
    /// decision meets [`decision_spec`] against the grown knowledge: a
    /// glitter forces the grab, climbs happen only when owed or exhausted,
    /// and any move is a proven-safe descent, a revisit, or the exact
    /// reversal of the last step.
    fn act(&mut self, obs: &Observation) -> (a: Action)
        ensures
            final(self).facts() == old(self).facts() + crate::kb::normal_set(
                percept_spec(
                    obs.position_spec().row as int,
                    obs.position_spec().col as int,
                    obs.senses_seq(),
                ),
            ),
            decision_spec(*old(self), final(self).facts(), *final(self), *obs, a),
    {
        let stmt = self.make_percept_stmt(obs);
        self.kb.tell(stmt);
        let ghost mid = *self;
        let action = self.ask_for_action(obs);
        proof {
            assert(decision_spec(mid, mid.facts(), *self, *obs, action));
            assert(mid.frames() == old(self).frames());
            assert(decision_spec(*old(self), self.facts(), *self, *obs, action));
        }
        action
    }
}

} // verus!
