use wumpus::kb::KnowledgeBase;
use wumpus::logic::{Atomic, Statement};
use wumpus::tui::parse_direction;
use wumpus::agent::{Action, Direction};
use wumpus::agents::keyboard_agent::KeyboardAgent;

fn atom(name: &str) -> Statement {
    Statement::Atomic(Atomic::new(name))
}

fn imp(l: Statement, r: Statement) -> Statement {
    Statement::ImplyClause(Box::new(l), Box::new(r))
}

fn not(s: Statement) -> Statement {
    Statement::NotClause(Box::new(s))
}

fn and(l: Statement, r: Statement) -> Statement {
    Statement::AndClause(Box::new(l), Box::new(r))
}

fn or(l: Statement, r: Statement) -> Statement {
    Statement::OrClause(Box::new(l), Box::new(r))
}

fn iff(l: Statement, r: Statement) -> Statement {
    Statement::EquivalClause(Box::new(l), Box::new(r))
}

#[test]
fn told_fact_is_derivable() {
    let mut kb = KnowledgeBase::new();
    kb.tell(atom("a"));
    assert_eq!(kb.ask(&atom("a")), Some(true));
}

#[test]
fn told_negation_answers_false() {
    let mut kb = KnowledgeBase::new();
    kb.tell(not(atom("a")));
    assert_eq!(kb.ask(&atom("a")), Some(false));
}

#[test]
fn unknown_without_facts() {
    let mut kb = KnowledgeBase::new();
    assert_eq!(kb.ask(&atom("a")), None);
}

#[test]
fn tell_is_idempotent() {
    let mut once = KnowledgeBase::new();
    once.tell(imp(atom("a"), atom("b")));
    once.tell(atom("a"));

    let mut twice = KnowledgeBase::new();
    twice.tell(imp(atom("a"), atom("b")));
    twice.tell(imp(atom("a"), atom("b")));
    twice.tell(atom("a"));
    twice.tell(atom("a"));

    for q in [atom("a"), atom("b"), atom("c"), not(atom("a")), not(atom("b"))] {
        let from_once = once.ask(&q);
        let from_twice = twice.ask(&q);
        assert_eq!(from_once, from_twice);
    }
}

#[test]
fn modus_ponens_fires() {
    let mut kb = KnowledgeBase::new();
    kb.tell(imp(atom("a"), atom("b")));
    kb.tell(atom("a"));
    assert_eq!(kb.ask(&atom("b")), Some(true));
}

#[test]
fn contrapositive_fires() {
    let mut kb = KnowledgeBase::new();
    kb.tell(imp(atom("a"), atom("b")));
    kb.tell(not(atom("b")));
    assert_eq!(kb.ask(&not(atom("a"))), Some(true));
}

#[test]
fn cycle_answers_unknown() {
    let mut kb = KnowledgeBase::new();
    kb.tell(imp(atom("a"), atom("b")));
    kb.tell(imp(atom("b"), atom("a")));
    assert_eq!(kb.ask(&atom("a")), None);
    assert_eq!(kb.ask(&atom("b")), None);
}

#[test]
fn rewritten_shapes_are_not_stored_verbatim() {
    // An equivalence is stored as its two implications, so asking for the
    // equivalence itself stays unknown even right after telling it.
    let mut kb = KnowledgeBase::new();
    kb.tell(iff(atom("a"), atom("b")));
    assert_eq!(kb.ask(&iff(atom("a"), atom("b"))), None);
}

#[test]
fn equivalence_splits_into_implications() {
    let mut kb = KnowledgeBase::new();
    kb.tell(iff(atom("a"), atom("b")));
    kb.tell(atom("b"));
    assert_eq!(kb.ask(&atom("a")), Some(true));
}

#[test]
fn negated_conjunction_rewrites() {
    let mut kb = KnowledgeBase::new();
    kb.tell(not(and(atom("a"), atom("b"))));
    kb.tell(atom("a"));
    assert_eq!(kb.ask(&not(atom("b"))), Some(true));
}

#[test]
fn implication_distributes_over_conjunction() {
    let mut kb = KnowledgeBase::new();
    kb.tell(imp(atom("a"), and(atom("b"), atom("c"))));
    kb.tell(atom("a"));
    assert_eq!(kb.ask(&atom("b")), Some(true));
    assert_eq!(kb.ask(&atom("c")), Some(true));
}

#[test]
fn top_level_conjunction_flattens() {
    let mut kb = KnowledgeBase::new();
    kb.tell(and(atom("a"), and(atom("b"), atom("c"))));
    assert_eq!(kb.ask(&atom("a")), Some(true));
    assert_eq!(kb.ask(&atom("b")), Some(true));
    assert_eq!(kb.ask(&atom("c")), Some(true));
}

#[test]
fn conjunctive_entailer_needs_all_parts() {
    let mut kb = KnowledgeBase::new();
    kb.tell(imp(and(atom("a"), atom("b")), atom("c")));
    kb.tell(atom("a"));
    assert_eq!(kb.ask(&atom("c")), None);
    kb.tell(atom("b"));
    assert_eq!(kb.ask(&atom("c")), Some(true));
}

#[test]
fn disjunctive_entailer_needs_one_part() {
    let mut kb = KnowledgeBase::new();
    kb.tell(imp(or(atom("a"), atom("b")), atom("c")));
    assert_eq!(kb.ask(&atom("c")), None);
    kb.tell(atom("b"));
    assert_eq!(kb.ask(&atom("c")), Some(true));
}

#[test]
fn clear_forgets_everything() {
    let mut kb = KnowledgeBase::new();
    kb.tell(atom("a"));
    assert_eq!(kb.ask(&atom("a")), Some(true));
    kb.clear();
    assert_eq!(kb.ask(&atom("a")), None);
}

#[test]
fn eval_reads_every_atom_as_true() {
    assert!(atom("a").eval());
    assert!(!not(atom("a")).eval());
    assert!(and(atom("a"), atom("b")).eval());
    assert!(or(not(atom("a")), atom("b")).eval());
    assert!(imp(atom("a"), atom("b")).eval());
    assert!(!imp(atom("a"), not(atom("b"))).eval());
    assert!(iff(atom("a"), atom("b")).eval());
    assert!(!iff(atom("a"), not(atom("b"))).eval());
}

#[test]
fn structural_equality_is_exact() {
    assert!(wumpus::logic::stmt_eq(&atom("a"), &atom("a")));
    assert!(!wumpus::logic::stmt_eq(&atom("a"), &atom("b")));
    assert!(wumpus::logic::stmt_eq(
        &and(atom("a"), atom("b")),
        &and(atom("a"), atom("b")),
    ));
    assert!(!wumpus::logic::stmt_eq(
        &and(atom("a"), atom("b")),
        &and(atom("b"), atom("a")),
    ));
    assert!(!wumpus::logic::stmt_eq(&atom("a"), &not(atom("a"))));
}

#[test]
fn negate_strips_a_double_negation() {
    let double = not(atom("a")).negate();
    assert!(wumpus::logic::stmt_eq(&double, &atom("a")));
    let single = atom("a").negate();
    assert!(wumpus::logic::stmt_eq(&single, &not(atom("a"))));
}

#[test]
fn rendering_flattens_same_connective_chains() {
    assert_eq!(atom("a").render().as_str(), "a");
    assert_eq!(not(atom("a")).render().as_str(), "~a");
    assert_eq!(
        and(atom("a"), and(atom("b"), atom("c"))).render().as_str(),
        "(a & b & c)",
    );
    assert_eq!(
        or(atom("a"), or(atom("b"), atom("c"))).render().as_str(),
        "(a | b | c)",
    );
    assert_eq!(
        imp(atom("a"), atom("b")).render().as_str(),
        "(a \u{27F9} b)",
    );
    assert_eq!(
        iff(atom("a"), atom("b")).render().as_str(),
        "(a \u{27FA} b)",
    );
    assert_eq!(
        and(and(atom("a"), atom("b")), atom("c")).render().as_str(),
        "((a & b) & c)",
    );
}

#[test]
fn conjunction_and_disjunction_builders() {
    let stmts = vec![atom("a"), atom("b"), atom("c")];
    let conj = wumpus::agents::make_conjuncts(&stmts).unwrap();
    assert_eq!(conj.render().as_str(), "(a & b & c)");
    let disj = wumpus::agents::make_disjuncts(&stmts).unwrap();
    assert_eq!(disj.render().as_str(), "(a | b | c)");
    let empty: Vec<Statement> = Vec::new();
    assert!(wumpus::agents::make_conjuncts(&empty).is_none());
    assert!(wumpus::agents::make_disjuncts(&empty).is_none());
}

#[test]
fn parse_direction_reads_second_token() {
    assert_eq!(parse_direction("mv n"), Some(Direction::North));
    assert_eq!(parse_direction("mv s"), Some(Direction::South));
    assert_eq!(parse_direction("sh e"), Some(Direction::East));
    assert_eq!(parse_direction("mv w"), Some(Direction::West));
    assert_eq!(parse_direction("mv x"), None);
    assert_eq!(parse_direction("mv"), None);
    assert_eq!(parse_direction("cl"), None);
    assert_eq!(parse_direction("mv nn"), None);
    assert_eq!(parse_direction(""), None);
    assert_eq!(parse_direction("mv  n"), Some(Direction::North));
}

#[test]
fn keyboard_agent_turns_commands_into_actions() {
    let mut agent = KeyboardAgent::new();
    assert_eq!(agent.act(), None);

    agent.set_cmd(String::from("mv n"));
    assert_eq!(agent.act(), Some(Action::Move(Direction::North)));
    assert_eq!(agent.act(), None);

    agent.set_cmd(String::from("sh w"));
    assert_eq!(agent.act(), Some(Action::Shoot(Direction::West)));

    agent.set_cmd(String::from("cl"));
    assert_eq!(agent.act(), Some(Action::Climb));

    agent.set_cmd(String::from("mv q"));
    assert_eq!(agent.act(), None);

    agent.set_cmd(String::from("hello"));
    assert_eq!(agent.act(), None);
}

#[test]
fn direction_reverse_is_an_involution() {
    for d in [Direction::North, Direction::South, Direction::East, Direction::West] {
        assert_eq!(d.reverse().reverse(), d);
    }
    assert_eq!(Direction::North.reverse(), Direction::South);
    assert_eq!(Direction::East.reverse(), Direction::West);
}
