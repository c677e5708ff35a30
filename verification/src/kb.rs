//! The knowledge base: a fact store with a normalization pipeline and a
//! memoized, cycle-safe backward-chaining query answerer.
//!
//! `tell` rewrites a formula into backward-chaining shape (implications with
//! a simple consequent, or bare literals) and unions the results into the
//! fact set. `ask` answers a query with `Some(true)`, `Some(false)` or
//! `None` (unknown); every definite answer is sound with respect to the
//! truth-assignment semantics of the stored facts ([`entails`]).

use vstd::prelude::*;

use crate::logic::{
    is_literal, not_of, spec_conjuncts, spec_disjuncts, spec_negate, stmt_eq, views, get_conjuncts,
    get_disjuncts, SpecStatement, Statement,
};

verus! {

// Semantics ////////////////////////////////////////////////

/// Whether a formula is true under a truth assignment for the atoms.
pub open spec fn holds(v: spec_fn(Seq<char>) -> bool, s: SpecStatement) -> bool
    decreases s,
{
    match s {
        SpecStatement::Atom(name) => v(name),
        SpecStatement::And(l, r) => holds(v, *l) && holds(v, *r),
        SpecStatement::Or(l, r) => holds(v, *l) || holds(v, *r),
        SpecStatement::Not(x) => !holds(v, *x),
        SpecStatement::Implies(l, r) => holds(v, *l) ==> holds(v, *r),
        SpecStatement::Iff(l, r) => holds(v, *l) == holds(v, *r),
    }
}

/// Whether every fact of a set is true under a truth assignment.
pub open spec fn all_hold(v: spec_fn(Seq<char>) -> bool, facts: Set<SpecStatement>) -> bool {
    forall|f: SpecStatement| #[trigger] facts.contains(f) ==> holds(v, f)
}

/// Semantic entailment: the goal is true under every truth assignment that
/// makes every stored fact true.
pub open spec fn entails(facts: Set<SpecStatement>, goal: SpecStatement) -> bool {
    forall|v: spec_fn(Seq<char>) -> bool| #[trigger] all_hold(v, facts) ==> holds(v, goal)
}

/// A member of the fact set is entailed by it.
pub proof fn lemma_member_entails(facts: Set<SpecStatement>, goal: SpecStatement)
    requires
        facts.contains(goal),
    ensures
        entails(facts, goal),
{
}

/// A stored implication carries entailment from its antecedent to its
/// consequent.
pub proof fn lemma_implies_entails(facts: Set<SpecStatement>, h: SpecStatement, g: SpecStatement)
    requires
        facts.contains(SpecStatement::Implies(Box::new(h), Box::new(g))),
        entails(facts, h),
    ensures
        entails(facts, g),
{
    assert forall|v: spec_fn(Seq<char>) -> bool| #[trigger] all_hold(v, facts) implies holds(v, g) by {
        assert(holds(v, SpecStatement::Implies(Box::new(h), Box::new(g))));
    }
}

/// A formula is true exactly when all of its conjuncts are.
pub proof fn lemma_holds_conjuncts(v: spec_fn(Seq<char>) -> bool, s: SpecStatement)
    ensures
        holds(v, s) <==> (forall|i: int|
            0 <= i < spec_conjuncts(s).len() ==> holds(v, #[trigger] spec_conjuncts(s)[i])),
    decreases s,
{
    match s {
        SpecStatement::And(l, r) => {
            lemma_holds_conjuncts(v, *l);
            lemma_holds_conjuncts(v, *r);
            assert forall|i: int|
                0 <= i < spec_conjuncts(s).len() && holds(v, s) implies holds(
                v,
                #[trigger] spec_conjuncts(s)[i],
            ) by {
                if i < spec_conjuncts(*l).len() {
                    assert(spec_conjuncts(s)[i] == spec_conjuncts(*l)[i]);
                } else {
                    assert(spec_conjuncts(s)[i] == spec_conjuncts(*r)[i - spec_conjuncts(
                        *l,
                    ).len()]);
                }
            }
            if forall|i: int|
                0 <= i < spec_conjuncts(s).len() ==> holds(v, #[trigger] spec_conjuncts(s)[i]) {
                assert forall|i: int| 0 <= i < spec_conjuncts(*l).len() implies holds(
                    v,
                    #[trigger] spec_conjuncts(*l)[i],
                ) by {
                    assert(spec_conjuncts(s)[i] == spec_conjuncts(*l)[i]);
                }
                assert forall|i: int| 0 <= i < spec_conjuncts(*r).len() implies holds(
                    v,
                    #[trigger] spec_conjuncts(*r)[i],
                ) by {
                    assert(spec_conjuncts(s)[spec_conjuncts(*l).len() + i] == spec_conjuncts(
                        *r,
                    )[i]);
                }
            }
        },
        _ => {
            assert(spec_conjuncts(s) == seq![s]);
            assert(spec_conjuncts(s)[0] == s);
        },
    }
}

/// A formula is true exactly when at least one of its disjuncts is.
pub proof fn lemma_holds_disjuncts(v: spec_fn(Seq<char>) -> bool, s: SpecStatement)
    ensures
        holds(v, s) <==> (exists|i: int|
            0 <= i < spec_disjuncts(s).len() && holds(v, #[trigger] spec_disjuncts(s)[i])),
    decreases s,
{
    match s {
        SpecStatement::Or(l, r) => {
            lemma_holds_disjuncts(v, *l);
            lemma_holds_disjuncts(v, *r);
            if holds(v, s) {
                if holds(v, *l) {
                    let i = choose|i: int|
                        0 <= i < spec_disjuncts(*l).len() && holds(
                            v,
                            #[trigger] spec_disjuncts(*l)[i],
                        );
                    assert(spec_disjuncts(s)[i] == spec_disjuncts(*l)[i]);
                } else {
                    let i = choose|i: int|
                        0 <= i < spec_disjuncts(*r).len() && holds(
                            v,
                            #[trigger] spec_disjuncts(*r)[i],
                        );
                    assert(spec_disjuncts(s)[spec_disjuncts(*l).len() + i] == spec_disjuncts(
                        *r,
                    )[i]);
                }
            }
            if exists|i: int|
                0 <= i < spec_disjuncts(s).len() && holds(v, #[trigger] spec_disjuncts(s)[i]) {
                let i = choose|i: int|
                    0 <= i < spec_disjuncts(s).len() && holds(v, #[trigger] spec_disjuncts(s)[i]);
                if i < spec_disjuncts(*l).len() {
                    assert(spec_disjuncts(s)[i] == spec_disjuncts(*l)[i]);
                } else {
                    assert(spec_disjuncts(s)[i] == spec_disjuncts(*r)[i - spec_disjuncts(
                        *l,
                    ).len()]);
                }
            }
        },
        _ => {
            assert(spec_disjuncts(s) == seq![s]);
            assert(spec_disjuncts(s)[0] == s);
        },
    }
}

// Normalization ////////////////////////////////////////////

/// Rewrites a negated conjunction into the pair of implications
/// `L -> not R` and `R -> not L`; leaves every other formula alone.
pub open spec fn norm_not_and(p: SpecStatement) -> Seq<SpecStatement> {
    match p {
        SpecStatement::Not(inner) => match *inner {
            SpecStatement::And(l, r) => seq![
                SpecStatement::Implies(l, Box::new(not_of(*r))),
                SpecStatement::Implies(r, Box::new(not_of(*l))),
            ],
            _ => seq![p],
        },
        _ => seq![p],
    }
}

/// Rewrites an equivalence into the pair of implications in both directions;
/// leaves every other formula alone.
pub open spec fn norm_iff(p: SpecStatement) -> Seq<SpecStatement> {
    match p {
        SpecStatement::Iff(l, r) => seq![
            SpecStatement::Implies(l, r),
            SpecStatement::Implies(r, l),
        ],
        _ => seq![p],
    }
}

/// One implication from a fixed antecedent to each formula of a list.
pub open spec fn implies_each(l: SpecStatement, cs: Seq<SpecStatement>) -> Seq<SpecStatement>
    decreases cs.len(),
{
    if cs.len() == 0 {
        Seq::empty()
    } else {
        implies_each(l, cs.drop_last()).push(
            SpecStatement::Implies(Box::new(l), Box::new(cs.last())),
        )
    }
}

/// Distributes an implication over a conjunctive consequent; leaves every
/// other formula alone.
pub open spec fn norm_distrib(p: SpecStatement) -> Seq<SpecStatement> {
    match p {
        SpecStatement::Implies(l, r) => match *r {
            SpecStatement::And(_, _) => implies_each(*l, spec_conjuncts(*r)),
            _ => seq![p],
        },
        _ => seq![p],
    }
}

/// Pairs an implication between literals with its contrapositive; leaves
/// every other formula alone.
pub open spec fn norm_contra(p: SpecStatement) -> Seq<SpecStatement> {
    match p {
        SpecStatement::Implies(l, r) => if is_literal(*l) && is_literal(*r) {
            seq![
                p,
                SpecStatement::Implies(Box::new(spec_negate(*r)), Box::new(spec_negate(*l))),
            ]
        } else {
            seq![p]
        },
        _ => seq![p],
    }
}

/// The negated-conjunction pass mapped over a sequence of formulas.
pub open spec fn fm_not_and(s: Seq<SpecStatement>) -> Seq<SpecStatement>
    decreases s.len(),
{
    if s.len() == 0 {
        Seq::empty()
    } else {
        fm_not_and(s.drop_last()) + norm_not_and(s.last())
    }
}

/// The equivalence pass mapped over a sequence of formulas.
pub open spec fn fm_iff(s: Seq<SpecStatement>) -> Seq<SpecStatement>
    decreases s.len(),
{
    if s.len() == 0 {
        Seq::empty()
    } else {
        fm_iff(s.drop_last()) + norm_iff(s.last())
    }
}

/// The distribution pass mapped over a sequence of formulas.
pub open spec fn fm_distrib(s: Seq<SpecStatement>) -> Seq<SpecStatement>
    decreases s.len(),
{
    if s.len() == 0 {
        Seq::empty()
    } else {
        fm_distrib(s.drop_last()) + norm_distrib(s.last())
    }
}

/// The contrapositive pass mapped over a sequence of formulas.
pub open spec fn fm_contra(s: Seq<SpecStatement>) -> Seq<SpecStatement>
    decreases s.len(),
{
    if s.len() == 0 {
        Seq::empty()
    } else {
        fm_contra(s.drop_last()) + norm_contra(s.last())
    }
}

/// The full normalization pipeline: flatten a conjunction, rewrite negated
/// conjunctions, rewrite equivalences, distribute implications over
/// conjunctive consequents, and add contrapositives of literal implications.
pub open spec fn normal_seq(f: SpecStatement) -> Seq<SpecStatement> {
    fm_contra(fm_distrib(fm_iff(fm_not_and(spec_conjuncts(f)))))
}

/// The set of stored facts that telling a formula adds to the knowledge base.
pub open spec fn normal_set(f: SpecStatement) -> Set<SpecStatement> {
    normal_seq(f).to_set()
}

/// The fact set left by telling a list of formulas in order.
pub open spec fn told_union(
    facts: Set<SpecStatement>,
    told: Seq<SpecStatement>,
) -> Set<SpecStatement>
    decreases told.len(),
{
    if told.len() == 0 {
        facts
    } else {
        told_union(facts, told.drop_last()) + normal_set(told.last())
    }
}

/// Appending one element to a sequence inserts it into the sequence's set.
pub proof fn lemma_to_set_push(s: Seq<SpecStatement>, x: SpecStatement)
    ensures
        s.push(x).to_set() == s.to_set().insert(x),
{
    broadcast use vstd::seq_lib::lemma_seq_contains_after_push;

    assert(s.push(x).to_set() =~= s.to_set().insert(x));
}

/// Rewrites every negated conjunction in the list.
fn apply_not_and(v: &Vec<Statement>) -> (out: Vec<Statement>)
    ensures
        views(out@) == fm_not_and(views(v@)),
{
    let mut out: Vec<Statement> = Vec::new();
    let mut i: usize = 0;
    while i < v.len()
        invariant
            0 <= i <= v.len(),
            views(out@) == fm_not_and(views(v@).take(i as int)),
        decreases v.len() - i,
    {
        let p = &v[i];
        match p {
            Statement::NotClause(inner) => match &**inner {
                Statement::AndClause(l, r) => {
                    let not_r = Statement::NotClause(Box::new((**r).clone()));
                    proof {
                        assert(not_r@ == not_of((**r)@));
                    }
                    let imp1 = Statement::ImplyClause(Box::new((**l).clone()), Box::new(not_r));
                    proof {
                        assert(imp1@ == SpecStatement::Implies(
                            Box::new((**l)@),
                            Box::new(not_of((**r)@)),
                        ));
                    }
                    out.push(imp1);
                    let not_l = Statement::NotClause(Box::new((**l).clone()));
                    proof {
                        assert(not_l@ == not_of((**l)@));
                    }
                    let imp2 = Statement::ImplyClause(Box::new((**r).clone()), Box::new(not_l));
                    proof {
                        assert(imp2@ == SpecStatement::Implies(
                            Box::new((**r)@),
                            Box::new(not_of((**l)@)),
                        ));
                    }
                    out.push(imp2);
                    proof {
                        assert((**inner)@ == SpecStatement::And(
                            Box::new((**l)@),
                            Box::new((**r)@),
                        ));
                        assert(p@ == SpecStatement::Not(Box::new((**inner)@)));
                    }
                },
                _ => {
                    out.push(p.clone());
                    proof {
                        assert(p@ == SpecStatement::Not(Box::new((**inner)@)));
                    }
                },
            },
            _ => out.push(p.clone()),
        }
        proof {
            let s = views(v@);
            assert(s.take(i as int + 1).drop_last() =~= s.take(i as int));
            assert(s.take(i as int + 1).last() == s[i as int]);
            assert(s[i as int] == p@);
            assert(views(out@) =~= fm_not_and(s.take(i as int)) + norm_not_and(p@));
        }
        i += 1;
    }
    proof {
        assert(views(v@).take(v@.len() as int) =~= views(v@));
    }
    out
}

/// Rewrites every equivalence in the list.
fn apply_iff(v: &Vec<Statement>) -> (out: Vec<Statement>)
    ensures
        views(out@) == fm_iff(views(v@)),
{
    let mut out: Vec<Statement> = Vec::new();
    let mut i: usize = 0;
    while i < v.len()
        invariant
            0 <= i <= v.len(),
            views(out@) == fm_iff(views(v@).take(i as int)),
        decreases v.len() - i,
    {
        let p = &v[i];
        match p {
            Statement::EquivalClause(l, r) => {
                out.push(
                    Statement::ImplyClause(Box::new((**l).clone()), Box::new((**r).clone())),
                );
                out.push(
                    Statement::ImplyClause(Box::new((**r).clone()), Box::new((**l).clone())),
                );
                proof {
                    assert(p@ == SpecStatement::Iff(Box::new((**l)@), Box::new((**r)@)));
                }
            },
            _ => out.push(p.clone()),
        }
        proof {
            let s = views(v@);
            assert(s.take(i as int + 1).drop_last() =~= s.take(i as int));
            assert(s.take(i as int + 1).last() == s[i as int]);
            assert(s[i as int] == p@);
            assert(views(out@) =~= fm_iff(s.take(i as int)) + norm_iff(p@));
        }
        i += 1;
    }
    proof {
        assert(views(v@).take(v@.len() as int) =~= views(v@));
    }
    out
}

/// Distributes every implication with a conjunctive consequent in the list.
fn apply_distrib(v: &Vec<Statement>) -> (out: Vec<Statement>)
    ensures
        views(out@) == fm_distrib(views(v@)),
{
    let mut out: Vec<Statement> = Vec::new();
    let mut i: usize = 0;
    while i < v.len()
        invariant
            0 <= i <= v.len(),
            views(out@) == fm_distrib(views(v@).take(i as int)),
        decreases v.len() - i,
    {
        let p = &v[i];
        match p {
            Statement::ImplyClause(l, r) => match &**r {
                Statement::AndClause(_, _) => {
                    let conjs = get_conjuncts(&**r);
                    let ghost lv = (**l)@;
                    let mut k: usize = 0;
                    while k < conjs.len()
                        invariant
                            0 <= k <= conjs.len(),
                            lv == (**l)@,
                            views(conjs@) == spec_conjuncts((**r)@),
                            views(out@) == fm_distrib(views(v@).take(i as int)) + implies_each(
                                lv,
                                views(conjs@).take(k as int),
                            ),
                        decreases conjs.len() - k,
                    {
                        let cl = (**l).clone();
                        let ck = conjs[k].clone();
                        proof {
                            assert(cl@ == lv);
                            assert(conjs@[k as int]@ == views(conjs@)[k as int]);
                            assert(ck@ == views(conjs@)[k as int]);
                        }
                        let imp = Statement::ImplyClause(Box::new(cl), Box::new(ck));
                        proof {
                            assert(imp@ == SpecStatement::Implies(
                                Box::new(lv),
                                Box::new(views(conjs@)[k as int]),
                            ));
                        }
                        let ghost prev_out = views(out@);
                        out.push(imp);
                        proof {
                            let cs = views(conjs@);
                            assert(cs.take(k as int + 1).drop_last() =~= cs.take(k as int));
                            assert(cs.take(k as int + 1).last() == cs[k as int]);
                            assert(implies_each(lv, cs.take(k as int + 1)) == implies_each(
                                lv,
                                cs.take(k as int),
                            ).push(imp@));
                            assert(views(out@) =~= prev_out.push(imp@));
                            assert(views(out@) =~= fm_distrib(views(v@).take(i as int))
                                + implies_each(lv, cs.take(k as int + 1)));
                        }
                        k += 1;
                    }
                    proof {
                        assert(p@ == SpecStatement::Implies(Box::new((**l)@), Box::new((**r)@)));
                        assert((**r)@ is And);
                        assert(views(conjs@).take(conjs@.len() as int) =~= views(conjs@));
                        assert(norm_distrib(p@) == implies_each(lv, views(conjs@)));
                    }
                },
                _ => {
                    out.push(p.clone());
                    proof {
                        assert(p@ == SpecStatement::Implies(Box::new((**l)@), Box::new((**r)@)));
                        assert(!((**r)@ is And));
                    }
                },
            },
            _ => out.push(p.clone()),
        }
        proof {
            let s = views(v@);
            assert(s.take(i as int + 1).drop_last() =~= s.take(i as int));
            assert(s.take(i as int + 1).last() == s[i as int]);
            assert(s[i as int] == p@);
            assert(views(out@) =~= fm_distrib(s.take(i as int)) + norm_distrib(p@));
        }
        i += 1;
    }
    proof {
        assert(views(v@).take(v@.len() as int) =~= views(v@));
    }
    out
}

/// Adds the contrapositive of every implication between literals in the list.
fn apply_contra(v: &Vec<Statement>) -> (out: Vec<Statement>)
    ensures
        views(out@) == fm_contra(views(v@)),
{
    let mut out: Vec<Statement> = Vec::new();
    let mut i: usize = 0;
    while i < v.len()
        invariant
            0 <= i <= v.len(),
            views(out@) == fm_contra(views(v@).take(i as int)),
        decreases v.len() - i,
    {
        let p = &v[i];
        match p {
            Statement::ImplyClause(l, r) => {
                proof {
                    assert(p@ == SpecStatement::Implies(Box::new((**l)@), Box::new((**r)@)));
                }
                let lit_l = match &**l {
                    Statement::Atomic(_) => true,
                    Statement::NotClause(x) => {
                        let inner_atomic = matches!(&**x, Statement::Atomic(_));
                        proof {
                            assert((**l)@ == SpecStatement::Not(Box::new((**x)@)));
                        }
                        inner_atomic
                    },
                    _ => false,
                };
                let lit_r = match &**r {
                    Statement::Atomic(_) => true,
                    Statement::NotClause(x) => {
                        let inner_atomic = matches!(&**x, Statement::Atomic(_));
                        proof {
                            assert((**r)@ == SpecStatement::Not(Box::new((**x)@)));
                        }
                        inner_atomic
                    },
                    _ => false,
                };
                proof {
                    assert(lit_l == is_literal((**l)@));
                    assert(lit_r == is_literal((**r)@));
                }
                out.push(p.clone());
                if lit_l && lit_r {
                    out.push(
                        Statement::ImplyClause(
                            Box::new((**r).clone().negate()),
                            Box::new((**l).clone().negate()),
                        ),
                    );
                }
            },
            _ => out.push(p.clone()),
        }
        proof {
            let s = views(v@);
            assert(s.take(i as int + 1).drop_last() =~= s.take(i as int));
            assert(s.take(i as int + 1).last() == s[i as int]);
            assert(s[i as int] == p@);
            assert(views(out@) =~= fm_contra(s.take(i as int)) + norm_contra(p@));
        }
        i += 1;
    }
    proof {
        assert(views(v@).take(v@.len() as int) =~= views(v@));
    }
    out
}

/// All conjuncts of every stored fact are entailed together exactly when the
/// fact is.
pub proof fn lemma_entails_all_conjuncts(facts: Set<SpecStatement>, h: SpecStatement)
    requires
        forall|i: int|
            0 <= i < spec_conjuncts(h).len() ==> entails(facts, #[trigger] spec_conjuncts(h)[i]),
    ensures
        entails(facts, h),
{
    assert forall|v: spec_fn(Seq<char>) -> bool| #[trigger] all_hold(v, facts) implies holds(v, h) by {
        assert forall|i: int| 0 <= i < spec_conjuncts(h).len() implies holds(
            v,
            #[trigger] spec_conjuncts(h)[i],
        ) by {
            assert(entails(facts, spec_conjuncts(h)[i]));
        }
        lemma_holds_conjuncts(v, h);
    }
}

/// An entailed disjunct entails the whole disjunction.
pub proof fn lemma_entails_disjunct(facts: Set<SpecStatement>, h: SpecStatement, i: int)
    requires
        0 <= i < spec_disjuncts(h).len(),
        entails(facts, spec_disjuncts(h)[i]),
    ensures
        entails(facts, h),
{
    assert forall|v: spec_fn(Seq<char>) -> bool| #[trigger] all_hold(v, facts) implies holds(v, h) by {
        assert(holds(v, spec_disjuncts(h)[i]));
        lemma_holds_disjuncts(v, h);
    }
}

// Termination of backward chaining /////////////////////////

/// The sub-formulas of a formula, the formula itself included.
pub open spec fn subterms(s: SpecStatement) -> Set<SpecStatement>
    decreases s,
{
    match s {
        SpecStatement::Atom(_) => set![s],
        SpecStatement::Not(x) => set![s] + subterms(*x),
        SpecStatement::And(l, r) => set![s] + subterms(*l) + subterms(*r),
        SpecStatement::Or(l, r) => set![s] + subterms(*l) + subterms(*r),
        SpecStatement::Implies(l, r) => set![s] + subterms(*l) + subterms(*r),
        SpecStatement::Iff(l, r) => set![s] + subterms(*l) + subterms(*r),
    }
}

pub proof fn lemma_subterms_finite(s: SpecStatement)
    ensures
        subterms(s).finite(),
        subterms(s).contains(s),
    decreases s,
{
    match s {
        SpecStatement::Atom(_) => {},
        SpecStatement::Not(x) => lemma_subterms_finite(*x),
        SpecStatement::And(l, r) => {
            lemma_subterms_finite(*l);
            lemma_subterms_finite(*r);
        },
        SpecStatement::Or(l, r) => {
            lemma_subterms_finite(*l);
            lemma_subterms_finite(*r);
        },
        SpecStatement::Implies(l, r) => {
            lemma_subterms_finite(*l);
            lemma_subterms_finite(*r);
        },
        SpecStatement::Iff(l, r) => {
            lemma_subterms_finite(*l);
            lemma_subterms_finite(*r);
        },
    }
}

/// Being a sub-formula is transitive.
pub proof fn lemma_subterms_trans(s: SpecStatement, x: SpecStatement)
    requires
        subterms(s).contains(x),
    ensures
        subterms(x).subset_of(subterms(s)),
    decreases s,
{
    if x == s {
    } else {
        match s {
            SpecStatement::Atom(_) => {},
            SpecStatement::Not(y) => {
                lemma_subterms_trans(*y, x);
            },
            SpecStatement::And(l, r) => {
                if subterms(*l).contains(x) {
                    lemma_subterms_trans(*l, x);
                } else {
                    lemma_subterms_trans(*r, x);
                }
            },
            SpecStatement::Or(l, r) => {
                if subterms(*l).contains(x) {
                    lemma_subterms_trans(*l, x);
                } else {
                    lemma_subterms_trans(*r, x);
                }
            },
            SpecStatement::Implies(l, r) => {
                if subterms(*l).contains(x) {
                    lemma_subterms_trans(*l, x);
                } else {
                    lemma_subterms_trans(*r, x);
                }
            },
            SpecStatement::Iff(l, r) => {
                if subterms(*l).contains(x) {
                    lemma_subterms_trans(*l, x);
                } else {
                    lemma_subterms_trans(*r, x);
                }
            },
        }
    }
}

/// Every conjunct and disjunct of a formula is one of its sub-formulas.
pub proof fn lemma_parts_are_subterms(s: SpecStatement)
    ensures
        forall|i: int|
            0 <= i < spec_conjuncts(s).len() ==> subterms(s).contains(
                #[trigger] spec_conjuncts(s)[i],
            ),
        forall|i: int|
            0 <= i < spec_disjuncts(s).len() ==> subterms(s).contains(
                #[trigger] spec_disjuncts(s)[i],
            ),
    decreases s,
{
    match s {
        SpecStatement::And(l, r) => {
            lemma_parts_are_subterms(*l);
            lemma_parts_are_subterms(*r);
            assert forall|i: int| 0 <= i < spec_conjuncts(s).len() implies subterms(s).contains(
                #[trigger] spec_conjuncts(s)[i],
            ) by {
                if i < spec_conjuncts(*l).len() {
                    assert(spec_conjuncts(s)[i] == spec_conjuncts(*l)[i]);
                } else {
                    assert(spec_conjuncts(s)[i] == spec_conjuncts(*r)[i - spec_conjuncts(
                        *l,
                    ).len()]);
                }
            }
            assert(spec_disjuncts(s) == seq![s]);
            assert(spec_disjuncts(s)[0] == s);
            lemma_subterms_finite(s);
        },
        SpecStatement::Or(l, r) => {
            lemma_parts_are_subterms(*l);
            lemma_parts_are_subterms(*r);
            assert forall|i: int| 0 <= i < spec_disjuncts(s).len() implies subterms(s).contains(
                #[trigger] spec_disjuncts(s)[i],
            ) by {
                if i < spec_disjuncts(*l).len() {
                    assert(spec_disjuncts(s)[i] == spec_disjuncts(*l)[i]);
                } else {
                    assert(spec_disjuncts(s)[i] == spec_disjuncts(*r)[i - spec_disjuncts(
                        *l,
                    ).len()]);
                }
            }
            assert(spec_conjuncts(s) == seq![s]);
            assert(spec_conjuncts(s)[0] == s);
            lemma_subterms_finite(s);
        },
        _ => {
            assert(spec_conjuncts(s) == seq![s]);
            assert(spec_conjuncts(s)[0] == s);
            assert(spec_disjuncts(s) == seq![s]);
            assert(spec_disjuncts(s)[0] == s);
            lemma_subterms_finite(s);
        },
    }
}

/// The goal pool of a fact list: every sub-formula of every fact. Recursive
/// queries only ever descend into the pool, which bounds the chainer.
pub open spec fn pool(s: Seq<SpecStatement>) -> Set<SpecStatement>
    decreases s.len(),
{
    if s.len() == 0 {
        Set::empty()
    } else {
        pool(s.drop_last()) + subterms(s.last())
    }
}

pub proof fn lemma_pool_finite(s: Seq<SpecStatement>)
    ensures
        pool(s).finite(),
    decreases s.len(),
{
    if s.len() == 0 {
    } else {
        lemma_pool_finite(s.drop_last());
        lemma_subterms_finite(s.last());
    }
}

/// The sub-formulas of every fact are in the pool.
pub proof fn lemma_pool_member(s: Seq<SpecStatement>, i: int)
    requires
        0 <= i < s.len(),
    ensures
        subterms(s[i]).subset_of(pool(s)),
    decreases s.len(),
{
    if i == s.len() - 1 {
        assert(s.last() == s[i]);
    } else {
        lemma_pool_member(s.drop_last(), i);
        assert(s.drop_last()[i] == s[i]);
    }
}

// Query answering //////////////////////////////////////////

/// Conditions under which `ask` is bound to answer `Some(true)`: no stored
/// negation of the goal, and the goal is either stored itself or concluded
/// by a stored implication whose antecedent is a stored literal with no
/// stored negation.
pub open spec fn ask_must_true(facts: Set<SpecStatement>, goal: SpecStatement) -> bool {
    &&& !facts.contains(not_of(goal))
    &&& (facts.contains(goal) || exists|h: SpecStatement|
        {
            &&& #[trigger] facts.contains(h)
            &&& facts.contains(SpecStatement::Implies(Box::new(h), Box::new(goal)))
            &&& is_literal(h)
            &&& h != goal
            &&& !facts.contains(not_of(h))
        })
}

/// Conditions under which `ask` is bound to answer `Some(false)`: the
/// negation of the goal is stored and the goal itself is not.
pub open spec fn ask_must_false(facts: Set<SpecStatement>, goal: SpecStatement) -> bool {
    facts.contains(not_of(goal)) && !facts.contains(goal)
}

/// A goal the backward chainer is bound to derive within `n` steps while
/// avoiding the goals already under evaluation: it is not blocked (not
/// avoided, no stored structural negation) and is either stored directly or
/// concluded by a stored implication whose antecedent fires one step down.
pub open spec fn derivable(
    facts: Set<SpecStatement>,
    avoid: Set<SpecStatement>,
    goal: SpecStatement,
    n: nat,
) -> bool
    decreases n, 0int,
{
    &&& !avoid.contains(goal)
    &&& !facts.contains(not_of(goal))
    &&& (facts.contains(goal) || (n > 0 && exists|h: SpecStatement|
        #[trigger] facts.contains(SpecStatement::Implies(Box::new(h), Box::new(goal)))
            && head_fires(facts, avoid.insert(goal), h, (n - 1) as nat)))
}

/// Whether an entailer head is established within the remaining depth: a
/// literal is derived on its own, a conjunctive head needs every conjunct,
/// a disjunctive head some disjunct; any other shape never fires.
pub open spec fn head_fires(
    facts: Set<SpecStatement>,
    avoid: Set<SpecStatement>,
    h: SpecStatement,
    n: nat,
) -> bool
    decreases n, 1int,
{
    if is_literal(h) {
        derivable(facts, avoid, h, n)
    } else if h is And {
        forall|i: int|
            0 <= i < spec_conjuncts(h).len() ==> derivable(
                facts,
                avoid,
                #[trigger] spec_conjuncts(h)[i],
                n,
            )
    } else if h is Or {
        exists|i: int|
            0 <= i < spec_disjuncts(h).len() && derivable(
                facts,
                avoid,
                #[trigger] spec_disjuncts(h)[i],
                n,
            )
    } else {
        false
    }
}

/// A goal `ask` must answer true is derivable in one step.
pub proof fn lemma_must_true_derivable(facts: Set<SpecStatement>, goal: SpecStatement)
    requires
        ask_must_true(facts, goal),
    ensures
        derivable(facts, Set::<SpecStatement>::empty(), goal, 1),
{
    if facts.contains(goal) {
        assert(!Set::<SpecStatement>::empty().contains(goal));
    } else {
        let h = choose|h: SpecStatement|
            {
                &&& #[trigger] facts.contains(h)
                &&& facts.contains(SpecStatement::Implies(Box::new(h), Box::new(goal)))
                &&& is_literal(h)
                &&& h != goal
                &&& !facts.contains(not_of(h))
            };
        let av = Set::<SpecStatement>::empty().insert(goal);
        assert(!av.contains(h));
        assert(derivable(facts, av, h, 0));
        assert(head_fires(facts, av, h, 0));
        assert(facts.contains(SpecStatement::Implies(Box::new(h), Box::new(goal)))
            && head_fires(facts, Set::<SpecStatement>::empty().insert(goal), h, (1 - 1) as nat));
    }
}

/// Whether a formula occurs in a list.
fn vec_contains(v: &Vec<Statement>, s: &Statement) -> (r: bool)
    ensures
        r == views(v@).to_set().contains(s@),
{
    let mut i: usize = 0;
    while i < v.len()
        invariant
            0 <= i <= v.len(),
            forall|j: int| 0 <= j < i ==> views(v@)[j] != s@,
        decreases v.len() - i,
    {
        if stmt_eq(&v[i], s) {
            proof {
                assert(views(v@)[i as int] == s@);
                assert(views(v@).contains(s@));
            }
            return true;
        }
        i += 1;
    }
    proof {
        if views(v@).contains(s@) {
            let j = choose|j: int| 0 <= j < views(v@).len() && views(v@)[j] == s@;
            assert(views(v@)[j] != s@);
        }
    }
    false
}

/// Scans the fact list for the query or its structural negation and reports
/// the first hit.
fn scan_direct(facts: &Vec<Statement>, s: &Statement) -> (r: Option<bool>)
    ensures
        r == Some(true) ==> views(facts@).to_set().contains(s@),
        r == Some(false) ==> views(facts@).to_set().contains(not_of(s@)),
        r is None ==> !views(facts@).to_set().contains(s@) && !views(facts@).to_set().contains(
            not_of(s@),
        ),
{
    let ghost fsq = views(facts@);
    let mut i: usize = 0;
    while i < facts.len()
        invariant
            0 <= i <= facts.len(),
            fsq == views(facts@),
            forall|j: int| 0 <= j < i ==> fsq[j] != s@ && fsq[j] != not_of(s@),
        decreases facts.len() - i,
    {
        if stmt_eq(&facts[i], s) {
            proof {
                assert(fsq[i as int] == s@);
                assert(fsq.contains(s@));
            }
            return Some(true);
        }
        let neg_hit = match &facts[i] {
            Statement::NotClause(x) => stmt_eq(&**x, s),
            _ => false,
        };
        if neg_hit {
            proof {
                assert(fsq[i as int] == not_of(s@));
                assert(fsq.contains(not_of(s@)));
            }
            return Some(false);
        }
        proof {
            if fsq[i as int] == not_of(s@) {
                assert(facts@[i as int]@ == not_of(s@));
                assert(false);
            }
        }
        i += 1;
    }
    proof {
        if fsq.contains(s@) {
            let j = choose|j: int| 0 <= j < fsq.len() && fsq[j] == s@;
            assert(fsq[j] != s@);
        }
        if fsq.contains(not_of(s@)) {
            let j = choose|j: int| 0 <= j < fsq.len() && fsq[j] == not_of(s@);
            assert(fsq[j] != not_of(s@));
        }
    }
    None
}

/// Whether a fact, if it is an implication concluding the goal, has its
/// antecedent recorded in the list of entailer heads.
pub open spec fn entailer_recorded(
    f: SpecStatement,
    goal: SpecStatement,
    hs: Seq<SpecStatement>,
) -> bool {
    match f {
        SpecStatement::Implies(h, g) => *g == goal ==> hs.contains(*h),
        _ => true,
    }
}

/// Collects the antecedent of every stored implication whose consequent is
/// the query: the entailers the backward chainer will try to prove.
fn collect_entailers(facts: &Vec<Statement>, goal: &Statement) -> (r: Vec<Statement>)
    ensures
        forall|j: int|
            0 <= j < views(r@).len() ==> views(facts@).to_set().contains(
                SpecStatement::Implies(Box::new(#[trigger] views(r@)[j]), Box::new(goal@)),
            ),
        forall|h: SpecStatement|
            views(facts@).to_set().contains(
                SpecStatement::Implies(Box::new(h), Box::new(goal@)),
            ) ==> #[trigger] views(r@).contains(h),
{
    let ghost fsq = views(facts@);
    let mut r: Vec<Statement> = Vec::new();
    let mut i: usize = 0;
    while i < facts.len()
        invariant
            0 <= i <= facts.len(),
            fsq == views(facts@),
            forall|j: int|
                0 <= j < views(r@).len() ==> fsq.contains(
                    SpecStatement::Implies(Box::new(#[trigger] views(r@)[j]), Box::new(goal@)),
                ),
            forall|j: int| 0 <= j < i ==> #[trigger] entailer_recorded(fsq[j], goal@, views(r@)),
        decreases facts.len() - i,
    {
        let ghost prev = views(r@);
        match &facts[i] {
            Statement::ImplyClause(l, rr) => {
                proof {
                    assert(fsq[i as int] == SpecStatement::Implies(
                        Box::new((**l)@),
                        Box::new((**rr)@),
                    ));
                }
                if stmt_eq(&**rr, goal) {
                    r.push((**l).clone());
                    proof {
                        assert(fsq.contains(
                            SpecStatement::Implies(Box::new((**l)@), Box::new(goal@)),
                        ));
                        assert(views(r@) =~= prev.push((**l)@));
                        assert(views(r@)[prev.len() as int] == (**l)@);
                        assert(views(r@).contains((**l)@));
                        assert forall|j: int| 0 <= j < i + 1 implies #[trigger] entailer_recorded(
                            fsq[j],
                            goal@,
                            views(r@),
                        ) by {
                            if j < i {
                                assert(entailer_recorded(fsq[j], goal@, prev));
                                if fsq[j] is Implies && *fsq[j]->Implies_1 == goal@ {
                                    let h = *fsq[j]->Implies_0;
                                    assert(prev.contains(h));
                                    let jj = choose|jj: int|
                                        0 <= jj < prev.len() && prev[jj] == h;
                                    assert(views(r@)[jj] == h);
                                }
                            }
                        }
                    }
                }
            },
            _ => {},
        }
        i += 1;
    }
    proof {
        assert forall|h: SpecStatement|
            fsq.to_set().contains(
                SpecStatement::Implies(Box::new(h), Box::new(goal@)),
            ) implies #[trigger] views(r@).contains(h) by {
            let f = SpecStatement::Implies(Box::new(h), Box::new(goal@));
            let j = choose|j: int| 0 <= j < fsq.len() && fsq[j] == f;
            assert(entailer_recorded(fsq[j], goal@, views(r@)));
        }
    }
    r
}

// Knowledge base ///////////////////////////////////////////

/// Soundness of one memoized answer with respect to the fact set: a cached
/// `true` is entailed (and can only coexist with a stored negation if the
/// query itself is stored), a cached `false` records a stored negation.
pub open spec fn cache_entry_ok(facts: Set<SpecStatement>, s: SpecStatement, b: bool) -> bool {
    if b {
        entails(facts, s) && (facts.contains(not_of(s)) ==> facts.contains(s))
    } else {
        facts.contains(not_of(s))
    }
}

/// Every memoized answer of a cache list is sound for a fact list.
pub open spec fn cache_entries_ok(facts: Seq<SpecStatement>, cache: Seq<(Statement, bool)>) -> bool {
    forall|i: int|
        0 <= i < cache.len() ==> cache_entry_ok(
            facts.to_set(),
            (#[trigger] cache[i]).0@,
            cache[i].1,
        )
}

/// The bound on the chainer's descent: pool goals not yet pending, plus one
/// if the current goal lies outside the pool.
pub open spec fn ask_measure(
    facts: Seq<SpecStatement>,
    pending: Set<SpecStatement>,
    goal: SpecStatement,
) -> int {
    pool(facts).difference(pending).len() + (if pool(facts).contains(goal) {
        0int
    } else {
        1int
    })
}

/// Marking the current goal pending strictly shrinks the measure for any
/// pool goal the chainer then descends into.
proof fn lemma_ask_measure_decreases(
    facts: Seq<SpecStatement>,
    pending: Set<SpecStatement>,
    goal: SpecStatement,
    h: SpecStatement,
)
    requires
        !pending.contains(goal),
        pool(facts).contains(h),
    ensures
        0 <= ask_measure(facts, pending.insert(goal), h) < ask_measure(facts, pending, goal),
{
    broadcast use vstd::set::group_set_axioms;

    lemma_pool_finite(facts);
    let pl = pool(facts);
    if pl.contains(goal) {
        pl.lemma_set_insert_diff_decreases(pending, goal);
    } else {
        assert(pl.difference(pending.insert(goal)) =~= pl.difference(pending));
    }
}

/// Answers a query against a fact list by memoized backward chaining, with
/// the pending list as the cycle guard. Definite answers are sound; a stored
/// query (or one concluded by a stored literal implication) that is not
/// contradicted is answered `Some(true)`, a contradicted one `Some(false)`.
fn ask_rec(
    facts: &Vec<Statement>,
    pending: &mut Vec<Statement>,
    cache: &mut Vec<(Statement, bool)>,
    stmt: &Statement,
) -> (r: Option<bool>)
    requires
        cache_entries_ok(views(facts@), old(cache)@),
    ensures
        views(final(pending)@) == views(old(pending)@),
        cache_entries_ok(views(facts@), final(cache)@),
        r == Some(true) ==> entails(views(facts@).to_set(), stmt@),
        r == Some(false) ==> views(facts@).to_set().contains(not_of(stmt@)),
        !views(old(pending)@).to_set().contains(stmt@) && views(facts@).to_set().contains(stmt@)
            && !views(facts@).to_set().contains(not_of(stmt@)) ==> r == Some(true),
        !views(old(pending)@).to_set().contains(stmt@) && ask_must_false(
            views(facts@).to_set(),
            stmt@,
        ) ==> r == Some(false),
        forall|n: nat|
            derivable(
                views(facts@).to_set(),
                views(old(pending)@).to_set(),
                stmt@,
                n,
            ) ==> r == Some(true),
    decreases ask_measure(views(facts@), views(old(pending)@).to_set(), stmt@),
{
    let ghost fs = views(facts@).to_set();
    let ghost p0 = views(old(pending)@).to_set();

    // Cycle guard: a query already under evaluation stays unknown.
    if vec_contains(pending, stmt) {
        return None;
    }

    // Memoized answer.
    let mut ci: usize = 0;
    while ci < cache.len()
        invariant
            0 <= ci <= cache.len(),
            fs == views(facts@).to_set(),
            cache@ == old(cache)@,
            cache_entries_ok(views(facts@), cache@),
            views(pending@) == views(old(pending)@),
        decreases cache.len() - ci,
    {
        if stmt_eq(&cache[ci].0, stmt) {
            let b = cache[ci].1;
            proof {
                assert(cache_entry_ok(fs, cache@[ci as int].0@, cache@[ci as int].1));
            }
            return Some(b);
        }
        ci += 1;
    }

    // Mark the query pending.
    let ghost pend0 = views(pending@);
    pending.push(stmt.clone());
    proof {
        assert(views(pending@) =~= pend0.push(stmt@));
        lemma_to_set_push(pend0, stmt@);
    }

    // A stored fact or stored negation answers directly.
    let direct = scan_direct(facts, stmt);

    let result: Option<bool>;
    match direct {
        Some(b) => {
            result = Some(b);
            proof {
                if b {
                    lemma_member_entails(fs, stmt@);
                }
            }
        },
        None => {
            // Backward chaining: try to prove any entailer of the query.
            let heads = collect_entailers(facts, stmt);
            let ghost must = exists|n: nat| derivable(fs, p0, stmt@, n);
            let ghost n0 = choose|n: nat| derivable(fs, p0, stmt@, n);
            let ghost nh: nat = if n0 > 0 {
                (n0 - 1) as nat
            } else {
                0
            };
            let ghost hh = choose|h: SpecStatement|
                #[trigger] fs.contains(SpecStatement::Implies(Box::new(h), Box::new(stmt@)))
                    && head_fires(fs, p0.insert(stmt@), h, (n0 - 1) as nat);
            proof {
                if must {
                    assert(derivable(fs, p0, stmt@, n0));
                    assert(!fs.contains(stmt@));
                    assert(n0 > 0);
                    assert(fs.contains(SpecStatement::Implies(Box::new(hh), Box::new(stmt@)))
                        && head_fires(fs, p0.insert(stmt@), hh, nh));
                    assert(views(heads@).contains(hh));
                    let jj0 = choose|jj: int|
                        0 <= jj < views(heads@).len() && views(heads@)[jj] == hh;
                    assert(views(heads@)[jj0] == hh);
                }
            }
            let mut res: Option<bool> = None;
            let mut j: usize = 0;
            while j < heads.len() && res.is_none()
                invariant
                    0 <= j <= heads.len(),
                    fs == views(facts@).to_set(),
                    cache_entries_ok(views(facts@), cache@),
                    views(pending@) == views(old(pending)@).push(stmt@),
                    views(pending@).to_set() == p0.insert(stmt@),
                    p0 == views(old(pending)@).to_set(),
                    !p0.contains(stmt@),
                    forall|jj: int|
                        0 <= jj < views(heads@).len() ==> fs.contains(
                            SpecStatement::Implies(
                                Box::new(#[trigger] views(heads@)[jj]),
                                Box::new(stmt@),
                            ),
                        ),
                    res is None || res == Some(true),
                    res == Some(true) ==> entails(fs, stmt@),
                    must ==> fs.contains(SpecStatement::Implies(Box::new(hh), Box::new(stmt@)))
                        && head_fires(fs, p0.insert(stmt@), hh, nh),
                    must && res is None ==> exists|jj: int|
                        j <= jj < views(heads@).len() && views(heads@)[jj] == hh,
                decreases heads.len() - j,
            {
                let head = &heads[j];
                proof {
                    assert(views(heads@)[j as int] == head@);
                    assert(fs.contains(SpecStatement::Implies(Box::new(head@), Box::new(stmt@))));
                    let f = SpecStatement::Implies(Box::new(head@), Box::new(stmt@));
                    assert(views(facts@).contains(f));
                    let w = choose|w: int| 0 <= w < views(facts@).len() && views(facts@)[w] == f;
                    lemma_pool_member(views(facts@), w);
                    lemma_subterms_finite(f);
                    lemma_subterms_finite(head@);
                    lemma_subterms_trans(f, head@);
                    assert(pool(views(facts@)).contains(head@));
                    assert(subterms(head@).subset_of(pool(views(facts@))));
                }
                let is_lit = match head {
                    Statement::Atomic(_) => true,
                    Statement::NotClause(x) => {
                        let inner_atomic = matches!(&**x, Statement::Atomic(_));
                        proof {
                            assert(head@ == SpecStatement::Not(Box::new((**x)@)));
                        }
                        inner_atomic
                    },
                    _ => false,
                };
                proof {
                    assert(is_lit == is_literal(head@));
                }
                if is_lit {
                    proof {
                        lemma_ask_measure_decreases(views(facts@), p0, stmt@, head@);
                    }
                    let a = ask_rec(facts, pending, cache, head);
                    match a {
                        Some(true) => {
                            res = Some(true);
                            proof {
                                lemma_implies_entails(fs, head@, stmt@);
                            }
                        },
                        _ => {
                            proof {
                                if must && head@ == hh {
                                    // The chosen entailer head is a literal
                                    // that is derivable while avoiding the
                                    // pending goals, so the recursive query
                                    // had to answer true.
                                    assert(derivable(fs, p0.insert(stmt@), hh, nh));
                                    assert(false);
                                }
                            }
                        },
                    }
                } else {
                    match head {
                        Statement::AndClause(_, _) => {
                            // The entailer fires only if every conjunct is proven.
                            let conjs = get_conjuncts(head);
                            let ghost forced = must && head@ == hh;
                            proof {
                                if forced {
                                    assert(head_fires(fs, p0.insert(stmt@), head@, nh));
                                }
                            }
                            let mut all_true = true;
                            let mut k: usize = 0;
                            while k < conjs.len() && all_true
                                invariant
                                    0 <= k <= conjs.len(),
                                    fs == views(facts@).to_set(),
                                    cache_entries_ok(views(facts@), cache@),
                                    views(pending@) == views(old(pending)@).push(stmt@),
                                    views(pending@).to_set() == p0.insert(stmt@),
                                    p0 == views(old(pending)@).to_set(),
                                    !p0.contains(stmt@),
                                    views(conjs@) == spec_conjuncts(head@),
                                    subterms(head@).subset_of(pool(views(facts@))),
                                    all_true ==> forall|kk: int|
                                        0 <= kk < k ==> entails(fs, #[trigger] views(conjs@)[kk]),
                                    forced ==> forall|i: int|
                                        0 <= i < spec_conjuncts(head@).len() ==> derivable(
                                            fs,
                                            p0.insert(stmt@),
                                            #[trigger] spec_conjuncts(head@)[i],
                                            nh,
                                        ),
                                    forced ==> all_true,
                                decreases conjs.len() - k,
                            {
                                proof {
                                    lemma_parts_are_subterms(head@);
                                    assert(subterms(head@).contains(views(conjs@)[k as int]));
                                    assert(conjs@[k as int]@ == views(conjs@)[k as int]);
                                    lemma_ask_measure_decreases(
                                        views(facts@),
                                        p0,
                                        stmt@,
                                        views(conjs@)[k as int],
                                    );
                                }
                                let a = ask_rec(facts, pending, cache, &conjs[k]);
                                proof {
                                    if forced {
                                        assert(derivable(
                                            fs,
                                            p0.insert(stmt@),
                                            views(conjs@)[k as int],
                                            nh,
                                        ));
                                        assert(a == Some(true));
                                    }
                                }
                                match a {
                                    Some(true) => {},
                                    _ => {
                                        all_true = false;
                                    },
                                }
                                k += 1;
                            }
                            if all_true {
                                res = Some(true);
                                proof {
                                    lemma_entails_all_conjuncts(fs, head@);
                                    lemma_implies_entails(fs, head@, stmt@);
                                }
                            }
                        },
                        Statement::OrClause(_, _) => {
                            // The entailer fires if any disjunct is proven.
                            let disjs = get_disjuncts(head);
                            let ghost forced = must && head@ == hh;
                            let ghost di = choose|i: int|
                                0 <= i < spec_disjuncts(head@).len() && derivable(
                                    fs,
                                    p0.insert(stmt@),
                                    #[trigger] spec_disjuncts(head@)[i],
                                    nh,
                                );
                            proof {
                                if forced {
                                    assert(head_fires(fs, p0.insert(stmt@), head@, nh));
                                    assert(0 <= di < spec_disjuncts(head@).len() && derivable(
                                        fs,
                                        p0.insert(stmt@),
                                        spec_disjuncts(head@)[di],
                                        nh,
                                    ));
                                }
                            }
                            let mut fired = false;
                            let mut k: usize = 0;
                            while k < disjs.len() && !fired
                                invariant
                                    0 <= k <= disjs.len(),
                                    fs == views(facts@).to_set(),
                                    cache_entries_ok(views(facts@), cache@),
                                    views(pending@) == views(old(pending)@).push(stmt@),
                                    views(pending@).to_set() == p0.insert(stmt@),
                                    p0 == views(old(pending)@).to_set(),
                                    !p0.contains(stmt@),
                                    views(disjs@) == spec_disjuncts(head@),
                                    subterms(head@).subset_of(pool(views(facts@))),
                                    fs.contains(
                                        SpecStatement::Implies(Box::new(head@), Box::new(stmt@)),
                                    ),
                                    fired ==> entails(fs, stmt@),
                                    forced && !fired ==> k <= di < spec_disjuncts(head@).len()
                                        && derivable(
                                        fs,
                                        p0.insert(stmt@),
                                        spec_disjuncts(head@)[di],
                                        nh,
                                    ),
                                decreases disjs.len() - k,
                            {
                                proof {
                                    lemma_parts_are_subterms(head@);
                                    assert(subterms(head@).contains(views(disjs@)[k as int]));
                                    assert(disjs@[k as int]@ == views(disjs@)[k as int]);
                                    lemma_ask_measure_decreases(
                                        views(facts@),
                                        p0,
                                        stmt@,
                                        views(disjs@)[k as int],
                                    );
                                }
                                let a = ask_rec(facts, pending, cache, &disjs[k]);
                                proof {
                                    if forced && !fired && k as int == di {
                                        assert(derivable(
                                            fs,
                                            p0.insert(stmt@),
                                            views(disjs@)[k as int],
                                            nh,
                                        ));
                                        assert(a == Some(true));
                                    }
                                }
                                match a {
                                    Some(true) => {
                                        fired = true;
                                        proof {
                                            lemma_entails_disjunct(fs, head@, k as int);
                                            lemma_implies_entails(fs, head@, stmt@);
                                        }
                                    },
                                    _ => {},
                                }
                                k += 1;
                            }
                            proof {
                                if forced && !fired {
                                    assert(false);
                                }
                            }
                            if fired {
                                res = Some(true);
                            }
                        },
                        _ => {},
                    }
                    proof {
                        if must && res is None {
                            assert(head@ != hh);
                        }
                    }
                }
                proof {
                    if must && res is None {
                        let jj = choose|jj: int|
                            j <= jj < views(heads@).len() && views(heads@)[jj] == hh;
                        assert(jj != j);
                        assert(j + 1 <= jj < views(heads@).len() && views(heads@)[jj] == hh);
                    }
                }
                j += 1;
            }
            proof {
                if must && res is None {
                    let jj = choose|jj: int|
                        j <= jj < views(heads@).len() && views(heads@)[jj] == hh;
                    assert(false);
                }
            }
            result = res;
        },
    }

    // Unmark the query; memoize a definite answer.
    let ghost before_pop = views(pending@);
    let _popped = pending.pop();
    proof {
        assert(before_pop == views(old(pending)@).push(stmt@));
        assert(before_pop.len() > 0);
        assert(views(pending@) =~= before_pop.drop_last());
        assert(before_pop.drop_last() =~= views(old(pending)@));
        assert(views(pending@) == views(old(pending)@));
    }
    if let Some(b) = result {
        let ghost prev_cache = cache@;
        cache.push((stmt.clone(), b));
        proof {
            assert forall|i: int| 0 <= i < cache@.len() implies cache_entry_ok(
                views(facts@).to_set(),
                (#[trigger] cache@[i]).0@,
                cache@[i].1,
            ) by {
                if i < prev_cache.len() {
                    assert(cache_entry_ok(fs, (prev_cache[i]).0@, prev_cache[i].1));
                } else {
                    assert(cache@[i].0@ == stmt@ && cache@[i].1 == b);
                }
            }
        }
    }
    result
}

/// A set of logical statements an agent knows, stored normalized, with an
/// interface for adding facts (`tell`) and querying them (`ask`).
pub struct KnowledgeBase {
    facts: Vec<Statement>,
    pending: Vec<Statement>,
    cache: Vec<(Statement, bool)>,
}

impl KnowledgeBase {
    /// The stored facts, in insertion order.
    pub closed spec fn facts_seq(self) -> Seq<SpecStatement> {
        views(self.facts@)
    }

    /// The set of stored facts.
    pub open spec fn facts_set(self) -> Set<SpecStatement> {
        self.facts_seq().to_set()
    }

    /// The queries whose evaluation is in progress, used as a cycle guard.
    pub closed spec fn pending_seq(self) -> Seq<SpecStatement> {
        views(self.pending@)
    }

    closed spec fn pending_set(self) -> Set<SpecStatement> {
        self.pending_seq().to_set()
    }

    /// Every memoized answer is sound for the current fact set.
    pub closed spec fn cache_ok(self) -> bool {
        cache_entries_ok(self.facts_seq(), self.cache@)
    }

    /// Well-formed outside an in-flight query: no pending entries, and every
    /// cached answer sound for the current fact set.
    pub closed spec fn wf(self) -> bool {
        self.pending@.len() == 0 && self.cache_ok()
    }

    pub fn new() -> (r: Self)
        ensures
            r.wf(),
            r.facts_set() == Set::<SpecStatement>::empty(),
    {
        let r = KnowledgeBase { facts: Vec::new(), pending: Vec::new(), cache: Vec::new() };
        proof {
            assert(r.pending@.len() == 0);
            assert(r.cache_ok());
            assert(r.facts_set() =~= Set::<SpecStatement>::empty());
        }
        r
    }

    pub fn clear(&mut self)
        ensures
            final(self).wf(),
            final(self).facts_set() == Set::<SpecStatement>::empty(),
    {
        self.facts.clear();
        self.pending.clear();
        self.invalidate_cache();
        proof {
            assert(self.facts_set() =~= Set::<SpecStatement>::empty());
        }
    }

    /// Drops every memoized answer; the fact set is unchanged.
    pub fn invalidate_cache(&mut self)
        ensures
            final(self).facts_set() == old(self).facts_set(),
            final(self).pending_seq() == old(self).pending_seq(),
            old(self).pending_seq().len() == 0 ==> final(self).wf(),
            old(self).wf() ==> final(self).wf(),
            final(self).cache_ok(),
    {
        self.cache.clear();
    }

    /// Whether a formula is among the stored facts.
    fn contains_fact(&self, s: &Statement) -> (r: bool)
        ensures
            r == self.facts_set().contains(s@),
    {
        let mut i: usize = 0;
        while i < self.facts.len()
            invariant
                0 <= i <= self.facts.len(),
                forall|j: int| 0 <= j < i ==> self.facts_seq()[j] != s@,
            decreases self.facts.len() - i,
        {
            if stmt_eq(&self.facts[i], s) {
                proof {
                    assert(self.facts_seq()[i as int] == s@);
                    assert(self.facts_seq().contains(s@));
                }
                return true;
            }
            i += 1;
        }
        proof {
            if self.facts_seq().contains(s@) {
                let j = choose|j: int|
                    0 <= j < self.facts_seq().len() && self.facts_seq()[j] == s@;
                assert(self.facts_seq()[j] != s@);
            }
        }
        false
    }

    /// Stores a fact: the formula is rewritten by the normalization pipeline
    /// and the results are unioned into the fact set; the answer cache is
    /// invalidated.
    pub fn tell(&mut self, stmt: Statement)
        requires
            old(self).wf(),
        ensures
            final(self).wf(),
            final(self).facts_set() == old(self).facts_set() + normal_set(stmt@),
    {
        let stage0 = get_conjuncts(&stmt);
        let stage1 = apply_not_and(&stage0);
        let stage2 = apply_iff(&stage1);
        let stage3 = apply_distrib(&stage2);
        let stage4 = apply_contra(&stage3);
        proof {
            assert(views(stage4@) == normal_seq(stmt@));
        }

        // Union the normalized facts into the fact set.
        let mut i: usize = 0;
        while i < stage4.len()
            invariant
                0 <= i <= stage4.len(),
                views(stage4@) == normal_seq(stmt@),
                self.facts_set() == old(self).facts_set() + views(stage4@).take(i as int).to_set(),
                self.pending@.len() == 0,
            decreases stage4.len() - i,
        {
            let present = self.contains_fact(&stage4[i]);
            let ghost prev_facts = self.facts_seq();
            let ghost x = views(stage4@)[i as int];
            if !present {
                let f = stage4[i].clone();
                self.facts.push(f);
                proof {
                    assert(self.facts_seq() =~= prev_facts.push(x));
                    lemma_to_set_push(prev_facts, x);
                }
            }
            proof {
                let t = views(stage4@);
                assert(t.take(i as int).push(x) =~= t.take(i as int + 1));
                lemma_to_set_push(t.take(i as int), x);
                assert(self.facts_set() =~= old(self).facts_set() + t.take(i as int + 1).to_set());
            }
            i += 1;
        }
        proof {
            assert(views(stage4@).take(stage4@.len() as int) =~= views(stage4@));
        }
        self.invalidate_cache();
    }

    /// Queries the knowledge base: `Some(true)` when the query was derived
    /// from the stored facts, `Some(false)` when its structural negation is
    /// stored, `None` when neither could be established.
    pub fn ask(&mut self, stmt: &Statement) -> (r: Option<bool>)
        requires
            old(self).wf(),
        ensures
            final(self).wf(),
            final(self).facts_set() == old(self).facts_set(),
            r == Some(true) ==> entails(old(self).facts_set(), stmt@),
            r == Some(false) ==> old(self).facts_set().contains(not_of(stmt@)),
            forall|n: nat|
                derivable(
                    old(self).facts_set(),
                    Set::<SpecStatement>::empty(),
                    stmt@,
                    n,
                ) ==> r == Some(true),
            ask_must_true(old(self).facts_set(), stmt@) ==> r == Some(true),
            ask_must_false(old(self).facts_set(), stmt@) ==> r == Some(false),
    {
        proof {
            assert(views(self.pending@).len() == 0);
            if views(self.pending@).to_set().contains(stmt@) {
                let j = choose|j: int|
                    0 <= j < views(self.pending@).len() && views(self.pending@)[j] == stmt@;
                assert(false);
            }
            assert(views(self.pending@).to_set() =~= Set::<SpecStatement>::empty());
        }
        let r = ask_rec(&self.facts, &mut self.pending, &mut self.cache, stmt);
        proof {
            assert(self.pending@.len() == views(self.pending@).len());
            assert(self.facts_set() =~= old(self).facts_set());
            if ask_must_true(old(self).facts_set(), stmt@) {
                lemma_must_true_derivable(old(self).facts_set(), stmt@);
                assert(r == Some(true));
            }
        }
        r
    }
}

// Laws /////////////////////////////////////////////////////

/// Telling a formula a second time adds nothing: the fact set, and with it
/// every derivable truth, is exactly what one `tell` leaves behind.
pub proof fn lemma_tell_idempotent(facts: Set<SpecStatement>, f: SpecStatement)
    ensures
        (facts + normal_set(f)) + normal_set(f) == facts + normal_set(f),
        forall|g: SpecStatement|
            entails((facts + normal_set(f)) + normal_set(f), g) == entails(
                facts + normal_set(f),
                g,
            ),
{
    assert((facts + normal_set(f)) + normal_set(f) =~= facts + normal_set(f));
}

/// Entailment is monotone: facts only accumulate within an episode, and a
/// truth derivable from fewer facts stays derivable from more.
pub proof fn lemma_entails_monotone(
    s1: Set<SpecStatement>,
    s2: Set<SpecStatement>,
    g: SpecStatement,
)
    requires
        entails(s1, g),
        s1.subset_of(s2),
    ensures
        entails(s2, g),
{
    assert forall|v: spec_fn(Seq<char>) -> bool| #[trigger] all_hold(v, s2) implies holds(v, g) by {
        assert forall|f: SpecStatement| #[trigger] s1.contains(f) implies holds(v, f) by {
            assert(s2.contains(f));
        }
        assert(all_hold(v, s1));
    }
}

/// Whether every formula of a list is true under a truth assignment.
pub open spec fn all_hold_seq(v: spec_fn(Seq<char>) -> bool, s: Seq<SpecStatement>) -> bool {
    forall|i: int| 0 <= i < s.len() ==> holds(v, #[trigger] s[i])
}

/// The logical negation of a formula is its semantic negation.
proof fn lemma_holds_negate(v: spec_fn(Seq<char>) -> bool, s: SpecStatement)
    ensures
        holds(v, spec_negate(s)) == !holds(v, s),
{
    match s {
        SpecStatement::Not(x) => {},
        _ => {},
    }
}

proof fn lemma_fm_not_and_sound(v: spec_fn(Seq<char>) -> bool, s: Seq<SpecStatement>)
    requires
        all_hold_seq(v, s),
    ensures
        all_hold_seq(v, fm_not_and(s)),
    decreases s.len(),
{
    if s.len() > 0 {
        assert(all_hold_seq(v, s.drop_last()));
        lemma_fm_not_and_sound(v, s.drop_last());
        let last = s.last();
        assert(holds(v, last));
        let n = norm_not_and(last);
        assert forall|i: int| 0 <= i < n.len() implies holds(v, #[trigger] n[i]) by {
            match last {
                SpecStatement::Not(inner) => {
                    match *inner {
                        SpecStatement::And(l, r) => {
                            assert(n[0] == SpecStatement::Implies(l, Box::new(not_of(*r))));
                            assert(n[1] == SpecStatement::Implies(r, Box::new(not_of(*l))));
                            assert(holds(v, *inner) == (holds(v, *l) && holds(v, *r)));
                            assert(holds(v, not_of(*r)) == !holds(v, *r));
                            assert(holds(v, not_of(*l)) == !holds(v, *l));
                        },
                        _ => {
                            assert(n[0] == last);
                        },
                    }
                },
                _ => {
                    assert(n[0] == last);
                },
            }
        }
        assert forall|i: int| 0 <= i < fm_not_and(s).len() implies holds(
            v,
            #[trigger] fm_not_and(s)[i],
        ) by {
            if i < fm_not_and(s.drop_last()).len() {
                assert(fm_not_and(s)[i] == fm_not_and(s.drop_last())[i]);
            } else {
                assert(fm_not_and(s)[i] == n[i - fm_not_and(s.drop_last()).len()]);
            }
        }
    }
}

proof fn lemma_fm_iff_sound(v: spec_fn(Seq<char>) -> bool, s: Seq<SpecStatement>)
    requires
        all_hold_seq(v, s),
    ensures
        all_hold_seq(v, fm_iff(s)),
    decreases s.len(),
{
    if s.len() > 0 {
        assert(all_hold_seq(v, s.drop_last()));
        lemma_fm_iff_sound(v, s.drop_last());
        let last = s.last();
        assert(holds(v, last));
        let n = norm_iff(last);
        assert forall|i: int| 0 <= i < n.len() implies holds(v, #[trigger] n[i]) by {
            match last {
                SpecStatement::Iff(l, r) => {
                    assert(n[0] == SpecStatement::Implies(l, r));
                    assert(n[1] == SpecStatement::Implies(r, l));
                },
                _ => {
                    assert(n[0] == last);
                },
            }
        }
        assert forall|i: int| 0 <= i < fm_iff(s).len() implies holds(v, #[trigger] fm_iff(s)[i]) by {
            if i < fm_iff(s.drop_last()).len() {
                assert(fm_iff(s)[i] == fm_iff(s.drop_last())[i]);
            } else {
                assert(fm_iff(s)[i] == n[i - fm_iff(s.drop_last()).len()]);
            }
        }
    }
}

proof fn lemma_fm_distrib_sound(v: spec_fn(Seq<char>) -> bool, s: Seq<SpecStatement>)
    requires
        all_hold_seq(v, s),
    ensures
        all_hold_seq(v, fm_distrib(s)),
    decreases s.len(),
{
    if s.len() > 0 {
        assert(all_hold_seq(v, s.drop_last()));
        lemma_fm_distrib_sound(v, s.drop_last());
        let last = s.last();
        assert(holds(v, last));
        let n = norm_distrib(last);
        assert forall|i: int| 0 <= i < n.len() implies holds(v, #[trigger] n[i]) by {
            match last {
                SpecStatement::Implies(l, r) => {
                    match *r {
                        SpecStatement::And(_, _) => {
                            lemma_implies_each_sound(v, *l, *r, spec_conjuncts(*r), i);
                        },
                        _ => {
                            assert(n[0] == last);
                        },
                    }
                },
                _ => {
                    assert(n[0] == last);
                },
            }
        }
        assert forall|i: int| 0 <= i < fm_distrib(s).len() implies holds(
            v,
            #[trigger] fm_distrib(s)[i],
        ) by {
            if i < fm_distrib(s.drop_last()).len() {
                assert(fm_distrib(s)[i] == fm_distrib(s.drop_last())[i]);
            } else {
                assert(fm_distrib(s)[i] == n[i - fm_distrib(s.drop_last()).len()]);
            }
        }
    }
}

/// Distributing an implication over its conjunctive consequent keeps each
/// piece true.
proof fn lemma_implies_each_sound(
    v: spec_fn(Seq<char>) -> bool,
    l: SpecStatement,
    r: SpecStatement,
    cs: Seq<SpecStatement>,
    i: int,
)
    requires
        holds(v, SpecStatement::Implies(Box::new(l), Box::new(r))),
        cs == spec_conjuncts(r),
        0 <= i < implies_each(l, cs).len(),
    ensures
        holds(v, implies_each(l, cs)[i]),
    decreases cs.len(),
{
    lemma_holds_conjuncts(v, r);
    if i == implies_each(l, cs).len() - 1 {
        assert(implies_each(l, cs)[i] == SpecStatement::Implies(Box::new(l), Box::new(cs.last())));
        if holds(v, l) {
            assert(holds(v, r));
            assert(cs.last() == spec_conjuncts(r)[cs.len() - 1]);
            assert(holds(v, cs.last()));
        }
    } else {
        lemma_implies_each_prefix(l, cs, i);
        if holds(v, l) {
            assert(holds(v, r));
            let j = choose|j: int| 0 <= j < cs.len() && implies_each(l, cs)[i]
                == SpecStatement::Implies(Box::new(l), Box::new(cs[j]));
            assert(holds(v, spec_conjuncts(r)[j]));
        }
        assert(holds(v, implies_each(l, cs)[i]));
    }
}

/// Every element of a distributed implication list is the implication from
/// the antecedent to some conjunct.
proof fn lemma_implies_each_prefix(l: SpecStatement, cs: Seq<SpecStatement>, i: int)
    requires
        0 <= i < implies_each(l, cs).len(),
    ensures
        exists|j: int|
            0 <= j < cs.len() && implies_each(l, cs)[i] == SpecStatement::Implies(
                Box::new(l),
                Box::new(cs[j]),
            ),
    decreases cs.len(),
{
    if cs.len() > 0 {
        if i == implies_each(l, cs).len() - 1 {
            assert(implies_each(l, cs)[i] == SpecStatement::Implies(
                Box::new(l),
                Box::new(cs.last()),
            ));
            assert(cs[cs.len() - 1] == cs.last());
        } else {
            lemma_implies_each_prefix(l, cs.drop_last(), i);
            let j = choose|j: int| 0 <= j < cs.drop_last().len() && implies_each(
                l,
                cs.drop_last(),
            )[i] == SpecStatement::Implies(Box::new(l), Box::new(cs.drop_last()[j]));
            assert(cs.drop_last()[j] == cs[j]);
            assert(implies_each(l, cs)[i] == implies_each(l, cs.drop_last())[i]);
        }
    }
}

proof fn lemma_fm_contra_sound(v: spec_fn(Seq<char>) -> bool, s: Seq<SpecStatement>)
    requires
        all_hold_seq(v, s),
    ensures
        all_hold_seq(v, fm_contra(s)),
    decreases s.len(),
{
    if s.len() > 0 {
        assert(all_hold_seq(v, s.drop_last()));
        lemma_fm_contra_sound(v, s.drop_last());
        let last = s.last();
        assert(holds(v, last));
        let n = norm_contra(last);
        assert forall|i: int| 0 <= i < n.len() implies holds(v, #[trigger] n[i]) by {
            match last {
                SpecStatement::Implies(l, r) => {
                    if is_literal(*l) && is_literal(*r) {
                        assert(n[0] == last);
                        assert(n[1] == SpecStatement::Implies(
                            Box::new(spec_negate(*r)),
                            Box::new(spec_negate(*l)),
                        ));
                        lemma_holds_negate(v, *l);
                        lemma_holds_negate(v, *r);
                    } else {
                        assert(n[0] == last);
                    }
                },
                _ => {
                    assert(n[0] == last);
                },
            }
        }
        assert forall|i: int| 0 <= i < fm_contra(s).len() implies holds(
            v,
            #[trigger] fm_contra(s)[i],
        ) by {
            if i < fm_contra(s.drop_last()).len() {
                assert(fm_contra(s)[i] == fm_contra(s.drop_last())[i]);
            } else {
                assert(fm_contra(s)[i] == n[i - fm_contra(s.drop_last()).len()]);
            }
        }
    }
}

/// Normalization preserves truth: every fact `tell` stores for a formula is
/// true under any assignment that makes the told formula true.
pub proof fn lemma_normalization_sound(v: spec_fn(Seq<char>) -> bool, f: SpecStatement)
    requires
        holds(v, f),
    ensures
        all_hold_seq(v, normal_seq(f)),
{
    lemma_holds_conjuncts(v, f);
    assert(all_hold_seq(v, spec_conjuncts(f)));
    lemma_fm_not_and_sound(v, spec_conjuncts(f));
    lemma_fm_iff_sound(v, fm_not_and(spec_conjuncts(f)));
    lemma_fm_distrib_sound(v, fm_iff(fm_not_and(spec_conjuncts(f))));
    lemma_fm_contra_sound(v, fm_distrib(fm_iff(fm_not_and(spec_conjuncts(f)))));
}

/// Telling a true formula keeps the whole fact set true: storing facts never
/// manufactures truths beyond what the told formulas mean.
pub proof fn lemma_tell_preserves_truth(
    v: spec_fn(Seq<char>) -> bool,
    facts: Set<SpecStatement>,
    f: SpecStatement,
)
    requires
        all_hold(v, facts),
        holds(v, f),
    ensures
        all_hold(v, facts + normal_set(f)),
{
    lemma_normalization_sound(v, f);
    assert forall|g: SpecStatement| #[trigger] (facts + normal_set(f)).contains(g) implies holds(
        v,
        g,
    ) by {
        if facts.contains(g) {
        } else {
            assert(normal_seq(f).to_set().contains(g));
            let i = choose|i: int| 0 <= i < normal_seq(f).len() && normal_seq(f)[i] == g;
            assert(holds(v, normal_seq(f)[i]));
        }
    }
}

/// Telling a whole list of true formulas keeps the fact set true, so any
/// assignment satisfying a told theory satisfies everything stored for it,
/// and with the soundness of `ask` every derived truth follows from the
/// theory alone.
pub proof fn lemma_told_union_sound(
    v: spec_fn(Seq<char>) -> bool,
    facts: Set<SpecStatement>,
    told: Seq<SpecStatement>,
)
    requires
        all_hold(v, facts),
        all_hold_seq(v, told),
    ensures
        all_hold(v, told_union(facts, told)),
    decreases told.len(),
{
    if told.len() > 0 {
        assert(all_hold_seq(v, told.drop_last()));
        lemma_told_union_sound(v, facts, told.drop_last());
        assert(holds(v, told.last()));
        lemma_tell_preserves_truth(v, told_union(facts, told.drop_last()), told.last());
    }
}

/// A formula the normalization pipeline stores unchanged: not a conjunction,
/// not a negated conjunction, not an equivalence, and not an implication
/// with a conjunctive consequent.
pub open spec fn stored_shape(f: SpecStatement) -> bool {
    match f {
        SpecStatement::And(_, _) => false,
        SpecStatement::Not(x) => !(*x is And),
        SpecStatement::Iff(_, _) => false,
        SpecStatement::Implies(_, r) => !(*r is And),
        _ => true,
    }
}

/// What the pipeline makes of a formula of stored shape: the formula itself,
/// joined by its contrapositive when it is an implication between literals.
pub proof fn lemma_normal_seq_shape(f: SpecStatement)
    requires
        stored_shape(f),
    ensures
        normal_seq(f).len() >= 1,
        normal_seq(f)[0] == f,
        match f {
            SpecStatement::Implies(l, r) => if is_literal(*l) && is_literal(*r) {
                normal_seq(f) == seq![
                    f,
                    SpecStatement::Implies(
                        Box::new(spec_negate(*r)),
                        Box::new(spec_negate(*l)),
                    ),
                ]
            } else {
                normal_seq(f) == seq![f]
            },
            _ => normal_seq(f) == seq![f],
        },
{
    let one = seq![f];
    let s0 = spec_conjuncts(f);
    assert(s0 =~= one);
    assert(one.drop_last() =~= Seq::<SpecStatement>::empty());
    assert(one.last() == f);
    assert(fm_not_and(Seq::<SpecStatement>::empty()) =~= Seq::<SpecStatement>::empty());
    assert(fm_not_and(one) =~= Seq::<SpecStatement>::empty() + norm_not_and(f));
    assert(norm_not_and(f) == one);
    assert(fm_not_and(s0) =~= one);
    assert(fm_iff(Seq::<SpecStatement>::empty()) =~= Seq::<SpecStatement>::empty());
    assert(fm_iff(one) =~= Seq::<SpecStatement>::empty() + norm_iff(f));
    assert(norm_iff(f) == one);
    assert(fm_iff(fm_not_and(s0)) =~= one);
    assert(fm_distrib(Seq::<SpecStatement>::empty()) =~= Seq::<SpecStatement>::empty());
    assert(fm_distrib(one) =~= Seq::<SpecStatement>::empty() + norm_distrib(f));
    assert(norm_distrib(f) == one);
    assert(fm_distrib(fm_iff(fm_not_and(s0))) =~= one);
    assert(fm_contra(Seq::<SpecStatement>::empty()) =~= Seq::<SpecStatement>::empty());
    assert(fm_contra(one) =~= Seq::<SpecStatement>::empty() + norm_contra(f));
    assert(normal_seq(f) =~= norm_contra(f));
    match f {
        SpecStatement::Implies(l, r) => {
            if is_literal(*l) && is_literal(*r) {
                assert(norm_contra(f) == seq![
                    f,
                    SpecStatement::Implies(
                        Box::new(spec_negate(*r)),
                        Box::new(spec_negate(*l)),
                    ),
                ]);
            } else {
                assert(norm_contra(f) == one);
            }
        },
        _ => {
            assert(norm_contra(f) == one);
        },
    }
}

/// Soundness of `tell`: a told formula of stored shape is itself in the fact
/// set afterwards, so `ask` is bound to answer `Some(true)` for it as long
/// as the set does not also hold its negation.
pub proof fn lemma_tell_soundness(facts: Set<SpecStatement>, f: SpecStatement)
    requires
        stored_shape(f),
        !(facts + normal_set(f)).contains(not_of(f)),
    ensures
        (facts + normal_set(f)).contains(f),
        ask_must_true(facts + normal_set(f), f),
{
    lemma_normal_seq_shape(f);
    assert(normal_seq(f).contains(f));
    assert(normal_set(f).contains(f));
}

/// Telling an implication between two distinct atoms stores both the
/// implication and its contrapositive.
pub proof fn lemma_contrapositive_stored(a: Seq<char>, b: Seq<char>)
    ensures
        normal_set(
            SpecStatement::Implies(
                Box::new(SpecStatement::Atom(a)),
                Box::new(SpecStatement::Atom(b)),
            ),
        ).contains(
            SpecStatement::Implies(
                Box::new(SpecStatement::Atom(a)),
                Box::new(SpecStatement::Atom(b)),
            ),
        ),
        normal_set(
            SpecStatement::Implies(
                Box::new(SpecStatement::Atom(a)),
                Box::new(SpecStatement::Atom(b)),
            ),
        ).contains(
            SpecStatement::Implies(
                Box::new(not_of(SpecStatement::Atom(b))),
                Box::new(not_of(SpecStatement::Atom(a))),
            ),
        ),
{
    let aa = SpecStatement::Atom(a);
    let bb = SpecStatement::Atom(b);
    let imp = SpecStatement::Implies(Box::new(aa), Box::new(bb));
    lemma_normal_seq_shape(imp);
    assert(spec_negate(bb) == not_of(bb));
    assert(spec_negate(aa) == not_of(aa));
    assert(normal_seq(imp)[0] == imp);
    assert(normal_seq(imp)[1] == SpecStatement::Implies(
        Box::new(not_of(bb)),
        Box::new(not_of(aa)),
    ));
    assert(normal_seq(imp).contains(imp));
    assert(normal_seq(imp).contains(
        SpecStatement::Implies(Box::new(not_of(bb)), Box::new(not_of(aa))),
    ));
}

/// Forward direction of contrapositive symmetry: with `Implies(a, b)` and
/// `a` stored and nothing contradicted, `ask(b)` is bound to answer true.
pub proof fn lemma_modus_ponens_must_answer(facts: Set<SpecStatement>, a: Seq<char>, b: Seq<char>)
    requires
        a != b,
        facts.contains(
            SpecStatement::Implies(
                Box::new(SpecStatement::Atom(a)),
                Box::new(SpecStatement::Atom(b)),
            ),
        ),
        facts.contains(SpecStatement::Atom(a)),
        !facts.contains(not_of(SpecStatement::Atom(a))),
        !facts.contains(not_of(SpecStatement::Atom(b))),
    ensures
        ask_must_true(facts, SpecStatement::Atom(b)),
{
    let aa = SpecStatement::Atom(a);
    let bb = SpecStatement::Atom(b);
    assert(aa != bb);
    assert({
        &&& facts.contains(aa)
        &&& facts.contains(SpecStatement::Implies(Box::new(aa), Box::new(bb)))
        &&& is_literal(aa)
        &&& aa != bb
        &&& !facts.contains(not_of(aa))
    });
}

/// Backward direction of contrapositive symmetry: with the stored
/// contrapositive `Implies(not b, not a)` and `not b` stored and no double
/// negation stored, `ask(not a)` is bound to answer true.
pub proof fn lemma_contrapositive_must_answer(
    facts: Set<SpecStatement>,
    a: Seq<char>,
    b: Seq<char>,
)
    requires
        a != b,
        facts.contains(
            SpecStatement::Implies(
                Box::new(not_of(SpecStatement::Atom(b))),
                Box::new(not_of(SpecStatement::Atom(a))),
            ),
        ),
        facts.contains(not_of(SpecStatement::Atom(b))),
        !facts.contains(not_of(not_of(SpecStatement::Atom(b)))),
        !facts.contains(not_of(not_of(SpecStatement::Atom(a)))),
    ensures
        ask_must_true(facts, not_of(SpecStatement::Atom(a))),
{
    let na = not_of(SpecStatement::Atom(a));
    let nb = not_of(SpecStatement::Atom(b));
    assert(na != nb);
    assert({
        &&& facts.contains(nb)
        &&& facts.contains(SpecStatement::Implies(Box::new(nb), Box::new(na)))
        &&& is_literal(nb)
        &&& nb != na
        &&& !facts.contains(not_of(nb))
    });
}

/// Contrapositive symmetry, end to end: after telling `Implies(a, b)`,
/// telling `a` obliges `ask(b)` to answer true, and telling `not b` obliges
/// `ask(not a)` to answer true — as long as the fact set does not also hold
/// the contradicting literals named in the hypotheses.
pub proof fn lemma_contrapositive_symmetry(facts0: Set<SpecStatement>, a: Seq<char>, b: Seq<char>)
    requires
        a != b,
    ensures
        ({
            let aa = SpecStatement::Atom(a);
            let bb = SpecStatement::Atom(b);
            let imp = SpecStatement::Implies(Box::new(aa), Box::new(bb));
            let fwd = facts0 + normal_set(imp) + normal_set(aa);
            !fwd.contains(not_of(aa)) && !fwd.contains(not_of(bb)) ==> ask_must_true(fwd, bb)
        }),
        ({
            let aa = SpecStatement::Atom(a);
            let bb = SpecStatement::Atom(b);
            let imp = SpecStatement::Implies(Box::new(aa), Box::new(bb));
            let bwd = facts0 + normal_set(imp) + normal_set(not_of(bb));
            !bwd.contains(not_of(not_of(bb))) && !bwd.contains(not_of(not_of(aa)))
                ==> ask_must_true(bwd, not_of(aa))
        }),
{
    let aa = SpecStatement::Atom(a);
    let bb = SpecStatement::Atom(b);
    let imp = SpecStatement::Implies(Box::new(aa), Box::new(bb));
    lemma_contrapositive_stored(a, b);

    let fwd = facts0 + normal_set(imp) + normal_set(aa);
    lemma_normal_seq_shape(aa);
    assert(normal_seq(aa)[0] == aa);
    assert(normal_seq(aa).contains(aa));
    assert(normal_set(aa).contains(aa));
    assert(fwd.contains(aa));
    assert(fwd.contains(imp));
    if !fwd.contains(not_of(aa)) && !fwd.contains(not_of(bb)) {
        lemma_modus_ponens_must_answer(fwd, a, b);
    }

    let nb = not_of(bb);
    let bwd = facts0 + normal_set(imp) + normal_set(nb);
    lemma_normal_seq_shape(nb);
    assert(normal_seq(nb)[0] == nb);
    assert(normal_seq(nb).contains(nb));
    assert(normal_set(nb).contains(nb));
    assert(bwd.contains(nb));
    assert(bwd.contains(
        SpecStatement::Implies(Box::new(not_of(bb)), Box::new(not_of(aa))),
    ));
    if !bwd.contains(not_of(not_of(bb))) && !bwd.contains(not_of(not_of(aa))) {
        lemma_contrapositive_must_answer(bwd, a, b);
    }
}

/// The fact set left by telling the two implications of a two-atom cycle.
pub open spec fn cycle_facts(a: Seq<char>, b: Seq<char>) -> Set<SpecStatement> {
    normal_set(
        SpecStatement::Implies(
            Box::new(SpecStatement::Atom(a)),
            Box::new(SpecStatement::Atom(b)),
        ),
    ) + normal_set(
        SpecStatement::Implies(
            Box::new(SpecStatement::Atom(b)),
            Box::new(SpecStatement::Atom(a)),
        ),
    )
}

/// Cycle safety: from the two implications of a cycle alone, with neither
/// atom asserted, any answer that meets `ask`'s contract for the query `a`
/// is unknown; the chainer cannot answer true (nothing entails `a`) and
/// cannot answer false (no negation is stored). Termination itself holds for
/// every query by the measure of the chainer.
pub proof fn lemma_cycle_safety(a: Seq<char>, b: Seq<char>, r: Option<bool>)
    requires
        r == Some(true) ==> entails(cycle_facts(a, b), SpecStatement::Atom(a)),
        r == Some(false) ==> cycle_facts(a, b).contains(not_of(SpecStatement::Atom(a))),
    ensures
        r is None,
{
    let aa = SpecStatement::Atom(a);
    let bb = SpecStatement::Atom(b);
    let imp_ab = SpecStatement::Implies(Box::new(aa), Box::new(bb));
    let imp_ba = SpecStatement::Implies(Box::new(bb), Box::new(aa));
    let con_ab = SpecStatement::Implies(Box::new(not_of(bb)), Box::new(not_of(aa)));
    let con_ba = SpecStatement::Implies(Box::new(not_of(aa)), Box::new(not_of(bb)));
    lemma_normal_seq_shape(imp_ab);
    lemma_normal_seq_shape(imp_ba);
    assert(normal_seq(imp_ab) == seq![imp_ab, con_ab]);
    assert(normal_seq(imp_ba) == seq![imp_ba, con_ba]);
    let cf = cycle_facts(a, b);
    assert forall|f: SpecStatement| #[trigger] cf.contains(f) implies f == imp_ab || f == con_ab
        || f == imp_ba || f == con_ba by {
        if normal_seq(imp_ab).to_set().contains(f) {
            let j = choose|j: int|
                0 <= j < normal_seq(imp_ab).len() && normal_seq(imp_ab)[j] == f;
        } else {
            let j = choose|j: int|
                0 <= j < normal_seq(imp_ba).len() && normal_seq(imp_ba)[j] == f;
        }
    }
    // Nothing entails the atom: the all-false assignment satisfies every
    // stored implication yet falsifies the atom.
    let v = |n: Seq<char>| false;
    assert forall|f: SpecStatement| #[trigger] cf.contains(f) implies holds(v, f) by {
        assert(!holds(v, aa));
        assert(!holds(v, bb));
        assert(holds(v, not_of(aa)));
        assert(holds(v, not_of(bb)));
    }
    assert(all_hold(v, cf));
    match r {
        Some(b) => {
            if b {
                assert(r == Some(true));
                assert(holds(v, aa));
                assert(false);
            } else {
                assert(r == Some(false));
                assert(cf.contains(not_of(aa)));
                assert(false);
            }
        },
        None => {},
    }
}

} // verus!
