//! Propositional formula trees.
//!
//! A [`Statement`] is an immutable tree of atoms and connectives, compared
//! structurally. Its mathematical model is [`SpecStatement`], where an atom
//! is identified by its name as a sequence of characters.

use vstd::prelude::*;

verus! {

/// Mathematical model of a propositional formula: atoms are identified by
/// their name, and every connective owns its sub-formulas.
pub enum SpecStatement {
    Atom(Seq<char>),
    And(Box<SpecStatement>, Box<SpecStatement>),
    Or(Box<SpecStatement>, Box<SpecStatement>),
    Not(Box<SpecStatement>),
    Implies(Box<SpecStatement>, Box<SpecStatement>),
    Iff(Box<SpecStatement>, Box<SpecStatement>),
}

/// The structural negation of a formula.
pub open spec fn not_of(s: SpecStatement) -> SpecStatement {
    SpecStatement::Not(Box::new(s))
}

/// A literal is an atom or a negated atom.
pub open spec fn is_literal(s: SpecStatement) -> bool {
    match s {
        SpecStatement::Atom(_) => true,
        SpecStatement::Not(x) => *x is Atom,
        _ => false,
    }
}

/// Logical negation: strips an outer negation instead of stacking a second one.
pub open spec fn spec_negate(s: SpecStatement) -> SpecStatement {
    match s {
        SpecStatement::Not(inner) => *inner,
        _ => not_of(s),
    }
}

// Logic Primitives /////////////////////////////////////////

/// An indivisible named proposition.
pub struct Atomic {
    name: String,
}

impl Atomic {
    /// The name of the atom, as a sequence of characters.
    pub closed spec fn name_spec(&self) -> Seq<char> {
        self.name@
    }

    pub fn new(name: &str) -> (r: Self)
        ensures
            r.name_spec() == name@,
    {
        Atomic { name: name.to_owned() }
    }
}

/// A pair of sub-formulas, as used by the binary connectives.
pub struct BinaryOp {
    left: Statement,
    right: Statement,
}

impl BinaryOp {
    /// The model of the left sub-formula.
    pub closed spec fn left_spec(&self) -> SpecStatement {
        self.left@
    }

    /// The model of the right sub-formula.
    pub closed spec fn right_spec(&self) -> SpecStatement {
        self.right@
    }

    pub fn new(left: Statement, right: Statement) -> (r: Self)
        ensures
            r.left_spec() == left@,
            r.right_spec() == right@,
    {
        BinaryOp { left, right }
    }
}

/// A single sub-formula, as used by negation.
pub struct UnaryOp {
    stmt: Statement,
}

impl UnaryOp {
    /// The model of the wrapped sub-formula.
    pub closed spec fn stmt_spec(&self) -> SpecStatement {
        self.stmt@
    }

    pub fn new(stmt: Statement) -> (r: Self)
        ensures
            r.stmt_spec() == stmt@,
    {
        UnaryOp { stmt }
    }
}

///////////////////////////////////////////////////////////

/// A propositional formula: a tree of atoms and connectives, compared
/// structurally by [`Statement::eq`].
pub enum Statement {
    Atomic(Atomic),
    AndClause(Box<Statement>, Box<Statement>),
    OrClause(Box<Statement>, Box<Statement>),
    NotClause(Box<Statement>),
    ImplyClause(Box<Statement>, Box<Statement>),
    EquivalClause(Box<Statement>, Box<Statement>),
}

/// The model of a formula tree: the same tree over atom names.
pub open spec fn stmt_view(s: Statement) -> SpecStatement
    decreases s,
{
    match s {
        Statement::Atomic(a) => SpecStatement::Atom(a.name_spec()),
        Statement::AndClause(l, r) => SpecStatement::And(
            Box::new(stmt_view(*l)),
            Box::new(stmt_view(*r)),
        ),
        Statement::OrClause(l, r) => SpecStatement::Or(
            Box::new(stmt_view(*l)),
            Box::new(stmt_view(*r)),
        ),
        Statement::NotClause(x) => SpecStatement::Not(Box::new(stmt_view(*x))),
        Statement::ImplyClause(l, r) => SpecStatement::Implies(
            Box::new(stmt_view(*l)),
            Box::new(stmt_view(*r)),
        ),
        Statement::EquivalClause(l, r) => SpecStatement::Iff(
            Box::new(stmt_view(*l)),
            Box::new(stmt_view(*r)),
        ),
    }
}

impl View for Statement {
    type V = SpecStatement;

    open spec fn view(&self) -> SpecStatement {
        stmt_view(*self)
    }
}

/// The models of a sequence of formula trees.
pub open spec fn views(s: Seq<Statement>) -> Seq<SpecStatement> {
    s.map_values(|x: Statement| x@)
}

/// The conjuncts of a formula: a nested conjunction is flattened into the
/// sequence of its maximal non-conjunction sub-formulas.
pub open spec fn spec_conjuncts(s: SpecStatement) -> Seq<SpecStatement>
    decreases s,
{
    match s {
        SpecStatement::And(l, r) => spec_conjuncts(*l) + spec_conjuncts(*r),
        _ => seq![s],
    }
}

/// The disjuncts of a formula: a nested disjunction is flattened into the
/// sequence of its maximal non-disjunction sub-formulas.
pub open spec fn spec_disjuncts(s: SpecStatement) -> Seq<SpecStatement>
    decreases s,
{
    match s {
        SpecStatement::Or(l, r) => spec_disjuncts(*l) + spec_disjuncts(*r),
        _ => seq![s],
    }
}

/// Flattens a nested conjunction into the list of its conjuncts.
pub fn get_conjuncts(stmt: &Statement) -> (r: Vec<Statement>)
    ensures
        views(r@) == spec_conjuncts(stmt@),
    decreases stmt,
{
    match stmt {
        Statement::AndClause(l, r) => {
            let mut v = get_conjuncts(&**l);
            let mut v2 = get_conjuncts(&**r);
            v.append(&mut v2);
            proof {
                assert(views(v@) =~= spec_conjuncts(stmt@));
            }
            v
        },
        _ => {
            let mut v: Vec<Statement> = Vec::new();
            v.push(stmt.clone());
            proof {
                assert(views(v@) =~= spec_conjuncts(stmt@));
            }
            v
        },
    }
}

/// Flattens a nested disjunction into the list of its disjuncts.
pub fn get_disjuncts(stmt: &Statement) -> (r: Vec<Statement>)
    ensures
        views(r@) == spec_disjuncts(stmt@),
    decreases stmt,
{
    match stmt {
        Statement::OrClause(l, r) => {
            let mut v = get_disjuncts(&**l);
            let mut v2 = get_disjuncts(&**r);
            v.append(&mut v2);
            proof {
                assert(views(v@) =~= spec_disjuncts(stmt@));
            }
            v
        },
        _ => {
            let mut v: Vec<Statement> = Vec::new();
            v.push(stmt.clone());
            proof {
                assert(views(v@) =~= spec_disjuncts(stmt@));
            }
            v
        },
    }
}

/// Structural equality of two formula trees.
pub fn stmt_eq(a: &Statement, b: &Statement) -> (r: bool)
    ensures
        r == (a@ == b@),
    decreases a,
{
    match (a, b) {
        (Statement::Atomic(x), Statement::Atomic(y)) => x.name == y.name,
        (Statement::AndClause(l1, r1), Statement::AndClause(l2, r2)) => {
            stmt_eq(&**l1, &**l2) && stmt_eq(&**r1, &**r2)
        },
        (Statement::OrClause(l1, r1), Statement::OrClause(l2, r2)) => {
            stmt_eq(&**l1, &**l2) && stmt_eq(&**r1, &**r2)
        },
        (Statement::NotClause(x1), Statement::NotClause(x2)) => stmt_eq(&**x1, &**x2),
        (Statement::ImplyClause(l1, r1), Statement::ImplyClause(l2, r2)) => {
            stmt_eq(&**l1, &**l2) && stmt_eq(&**r1, &**r2)
        },
        (Statement::EquivalClause(l1, r1), Statement::EquivalClause(l2, r2)) => {
            stmt_eq(&**l1, &**l2) && stmt_eq(&**r1, &**r2)
        },
        _ => false,
    }
}

impl Clone for Atomic {
    fn clone(&self) -> (r: Self)
        ensures
            r.name_spec() == self.name_spec(),
    {
        Atomic { name: self.name.clone() }
    }
}

impl Clone for Statement {
    fn clone(&self) -> (r: Self)
        ensures
            r@ == self@,
        decreases self,
    {
        match self {
            Statement::Atomic(a) => Statement::Atomic(a.clone()),
            Statement::AndClause(l, r) => Statement::AndClause(
                Box::new((**l).clone()),
                Box::new((**r).clone()),
            ),
            Statement::OrClause(l, r) => Statement::OrClause(
                Box::new((**l).clone()),
                Box::new((**r).clone()),
            ),
            Statement::NotClause(x) => Statement::NotClause(Box::new((**x).clone())),
            Statement::ImplyClause(l, r) => Statement::ImplyClause(
                Box::new((**l).clone()),
                Box::new((**r).clone()),
            ),
            Statement::EquivalClause(l, r) => Statement::EquivalClause(
                Box::new((**l).clone()),
                Box::new((**r).clone()),
            ),
        }
    }
}

/// A right-nested conjunction of a non-empty list of formulas.
pub open spec fn conj_of(s: Seq<SpecStatement>) -> SpecStatement
    recommends
        s.len() >= 1,
    decreases s.len(),
{
    if s.len() <= 1 {
        s[0]
    } else {
        SpecStatement::And(Box::new(s[0]), Box::new(conj_of(s.drop_first())))
    }
}

/// A right-nested disjunction of a non-empty list of formulas.
pub open spec fn disj_of(s: Seq<SpecStatement>) -> SpecStatement
    recommends
        s.len() >= 1,
    decreases s.len(),
{
    if s.len() <= 1 {
        s[0]
    } else {
        SpecStatement::Or(Box::new(s[0]), Box::new(disj_of(s.drop_first())))
    }
}

/// The value of a formula when every atom is read as true.
pub open spec fn spec_eval(s: SpecStatement) -> bool
    decreases s,
{
    match s {
        SpecStatement::Atom(_) => true,
        SpecStatement::And(l, r) => spec_eval(*l) && spec_eval(*r),
        SpecStatement::Or(l, r) => spec_eval(*l) || spec_eval(*r),
        SpecStatement::Not(x) => !spec_eval(*x),
        SpecStatement::Implies(l, r) => !spec_eval(*l) || spec_eval(*r),
        SpecStatement::Iff(l, r) => spec_eval(*l) == spec_eval(*r),
    }
}

/// The textual form of a formula: fully parenthesized infix, with chains of
/// the same associative connective printed flat, so that a nested
/// conjunction reads `(A & B & C)`.
pub open spec fn render_spec(s: SpecStatement) -> Seq<char>
    decreases s, 0int,
{
    match s {
        SpecStatement::Atom(n) => n,
        SpecStatement::And(l, r) => seq!['('] + render_spec(*l) + seq![' ', '&', ' ']
            + and_chain_spec(*r) + seq![')'],
        SpecStatement::Or(l, r) => seq!['('] + render_spec(*l) + seq![' ', '|', ' ']
            + or_chain_spec(*r) + seq![')'],
        SpecStatement::Not(x) => seq!['~'] + render_spec(*x),
        SpecStatement::Implies(l, r) => seq!['('] + render_spec(*l) + seq![' ', '\u{27F9}', ' ']
            + render_spec(*r) + seq![')'],
        SpecStatement::Iff(l, r) => seq!['('] + render_spec(*l) + seq![' ', '\u{27FA}', ' ']
            + render_spec(*r) + seq![')'],
    }
}

/// The spine of a conjunction chain, rendered without inner parentheses.
pub open spec fn and_chain_spec(s: SpecStatement) -> Seq<char>
    decreases s, 1int,
{
    match s {
        SpecStatement::And(l, r) => render_spec(*l) + seq![' ', '&', ' '] + and_chain_spec(*r),
        _ => render_spec(s),
    }
}

/// The spine of a disjunction chain, rendered without inner parentheses.
pub open spec fn or_chain_spec(s: SpecStatement) -> Seq<char>
    decreases s, 1int,
{
    match s {
        SpecStatement::Or(l, r) => render_spec(*l) + seq![' ', '|', ' '] + or_chain_spec(*r),
        _ => render_spec(s),
    }
}

/// Appends the rendering of a formula to a string.
fn render_into(s: &Statement, out: &mut String)
    ensures
        final(out)@ == old(out)@ + render_spec(s@),
    decreases s, 0int,
{
    match s {
        Statement::Atomic(a) => {
            out.append(a.name.as_str());
        },
        Statement::AndClause(l, r) => {
            append_lit_paren_open(out);
            render_into(&**l, out);
            append_lit_amp(out);
            and_chain_into(&**r, out);
            append_lit_paren_close(out);
            proof {
                assert(final(out)@ =~= old(out)@ + render_spec(s@));
            }
        },
        Statement::OrClause(l, r) => {
            append_lit_paren_open(out);
            render_into(&**l, out);
            append_lit_bar(out);
            or_chain_into(&**r, out);
            append_lit_paren_close(out);
            proof {
                assert(final(out)@ =~= old(out)@ + render_spec(s@));
            }
        },
        Statement::NotClause(x) => {
            append_lit_tilde(out);
            render_into(&**x, out);
            proof {
                assert(final(out)@ =~= old(out)@ + render_spec(s@));
            }
        },
        Statement::ImplyClause(l, r) => {
            append_lit_paren_open(out);
            render_into(&**l, out);
            append_lit_implies(out);
            render_into(&**r, out);
            append_lit_paren_close(out);
            proof {
                assert(final(out)@ =~= old(out)@ + render_spec(s@));
            }
        },
        Statement::EquivalClause(l, r) => {
            append_lit_paren_open(out);
            render_into(&**l, out);
            append_lit_iff(out);
            render_into(&**r, out);
            append_lit_paren_close(out);
            proof {
                assert(final(out)@ =~= old(out)@ + render_spec(s@));
            }
        },
    }
}

/// Appends the rendering of a conjunction spine to a string.
fn and_chain_into(s: &Statement, out: &mut String)
    ensures
        final(out)@ == old(out)@ + and_chain_spec(s@),
    decreases s, 1int,
{
    match s {
        Statement::AndClause(l, r) => {
            render_into(&**l, out);
            append_lit_amp(out);
            and_chain_into(&**r, out);
            proof {
                assert(final(out)@ =~= old(out)@ + and_chain_spec(s@));
            }
        },
        _ => {
            render_into(s, out);
        },
    }
}

/// Appends the rendering of a disjunction spine to a string.
fn or_chain_into(s: &Statement, out: &mut String)
    ensures
        final(out)@ == old(out)@ + or_chain_spec(s@),
    decreases s, 1int,
{
    match s {
        Statement::OrClause(l, r) => {
            render_into(&**l, out);
            append_lit_bar(out);
            or_chain_into(&**r, out);
            proof {
                assert(final(out)@ =~= old(out)@ + or_chain_spec(s@));
            }
        },
        _ => {
            render_into(s, out);
        },
    }
}

fn append_lit_paren_open(out: &mut String)
    ensures
        final(out)@ == old(out)@ + seq!['('],
{
    proof {
        reveal_strlit("(");
        assert("("@ =~= seq!['(']);
    }
    out.append("(");
}

fn append_lit_paren_close(out: &mut String)
    ensures
        final(out)@ == old(out)@ + seq![')'],
{
    proof {
        reveal_strlit(")");
        assert(")"@ =~= seq![')']);
    }
    out.append(")");
}

fn append_lit_amp(out: &mut String)
    ensures
        final(out)@ == old(out)@ + seq![' ', '&', ' '],
{
    proof {
        reveal_strlit(" & ");
        assert(" & "@ =~= seq![' ', '&', ' ']);
    }
    out.append(" & ");
}

fn append_lit_bar(out: &mut String)
    ensures
        final(out)@ == old(out)@ + seq![' ', '|', ' '],
{
    proof {
        reveal_strlit(" | ");
        assert(" | "@ =~= seq![' ', '|', ' ']);
    }
    out.append(" | ");
}

fn append_lit_tilde(out: &mut String)
    ensures
        final(out)@ == old(out)@ + seq!['~'],
{
    proof {
        reveal_strlit("~");
        assert("~"@ =~= seq!['~']);
    }
    out.append("~");
}

fn append_lit_implies(out: &mut String)
    ensures
        final(out)@ == old(out)@ + seq![' ', '\u{27F9}', ' '],
{
    proof {
        reveal_strlit(" \u{27F9} ");
        assert(" \u{27F9} "@ =~= seq![' ', '\u{27F9}', ' ']);
    }
    out.append(" \u{27F9} ");
}

fn append_lit_iff(out: &mut String)
    ensures
        final(out)@ == old(out)@ + seq![' ', '\u{27FA}', ' '],
{
    proof {
        reveal_strlit(" \u{27FA} ");
        assert(" \u{27FA} "@ =~= seq![' ', '\u{27FA}', ' ']);
    }
    out.append(" \u{27FA} ");
}

impl Statement {
    /// The fully parenthesized infix text of the formula; display-only.
    pub fn render(&self) -> (r: String)
        ensures
            r@ == render_spec(self@),
    {
        let mut out = String::new();
        render_into(self, &mut out);
        proof {
            assert(Seq::<char>::empty() + render_spec(self@) =~= render_spec(self@));
        }
        out
    }

    /// Evaluates the formula with every atom read as true.
    pub fn eval(&self) -> (r: bool)
        ensures
            r == spec_eval(self@),
        decreases self,
    {
        match self {
            Statement::Atomic(_) => true,
            Statement::AndClause(left, right) => left.eval() && right.eval(),
            Statement::OrClause(left, right) => left.eval() || right.eval(),
            Statement::NotClause(stmt) => !stmt.eval(),
            Statement::ImplyClause(left, right) => !left.eval() || right.eval(),
            Statement::EquivalClause(left, right) => left.eval() == right.eval(),
        }
    }

    pub fn boxed(self) -> (r: Box<Self>)
        ensures
            r@ == self@,
    {
        Box::new(self)
    }

    /// Logical negation: an already negated formula loses its negation,
    /// any other formula gains one.
    pub fn negate(self) -> (r: Self)
        ensures
            r@ == spec_negate(self@),
    {
        match self {
            Statement::NotClause(inner) => *inner,
            other => Statement::NotClause(Box::new(other)),
        }
    }
}

} // verus!
