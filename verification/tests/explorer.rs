use wumpus::agent::{Action, Agent, Direction, Observation};
use wumpus::agents::{
    build_axioms, make_breeze_atomic, make_safe_atomic, make_stench_atomic, make_void_atomic,
    make_wumpus_atomic, KnowledgeBasedAgent,
};
use wumpus::env::{ActionResult, Environment, GridType, Sense};
use wumpus::grid::Pos;
use wumpus::kb::KnowledgeBase;

fn kb_with_classic_axioms() -> KnowledgeBase {
    let mut kb = KnowledgeBase::new();
    let theory = build_axioms(4, 4, &Pos::new(3, 0));
    for formula in theory {
        kb.tell(formula);
    }
    kb
}

#[test]
fn start_cell_is_provably_safe_after_synthesis() {
    let mut kb = kb_with_classic_axioms();
    let q = make_safe_atomic(&Pos::new(3, 0));
    assert_eq!(kb.ask(&q), Some(true));
}

#[test]
fn unimplicated_cells_are_not_provably_safe() {
    let mut kb = kb_with_classic_axioms();
    // The cell that in fact holds the Wumpus must not be provably safe
    // before any percept implicates it; nor is any other unvisited cell.
    assert_ne!(kb.ask(&make_safe_atomic(&Pos::new(1, 0))), Some(true));
    assert_eq!(kb.ask(&make_safe_atomic(&Pos::new(1, 0))), None);
    assert_eq!(kb.ask(&make_safe_atomic(&Pos::new(2, 2))), None);
}

#[test]
fn silence_proves_the_neighborhood_safe() {
    let mut kb = kb_with_classic_axioms();
    kb.tell(make_void_atomic(&Pos::new(3, 0)));
    assert_eq!(kb.ask(&make_safe_atomic(&Pos::new(2, 0))), Some(true));
    assert_eq!(kb.ask(&make_safe_atomic(&Pos::new(3, 1))), Some(true));
}

#[test]
fn negative_percepts_clear_hazards_next_door() {
    let mut kb = kb_with_classic_axioms();
    // No stench and no breeze at (2, 0): its neighbors hold no hazard.
    kb.tell(make_stench_atomic(&Pos::new(2, 0)).negate());
    kb.tell(make_breeze_atomic(&Pos::new(2, 0)).negate());
    assert_eq!(kb.ask(&make_wumpus_atomic(&Pos::new(1, 0)).negate()), Some(true));
    assert_eq!(kb.ask(&make_safe_atomic(&Pos::new(1, 0))), Some(true));
}

#[test]
fn percept_statement_spells_out_absence() {
    let agent = KnowledgeBasedAgent::new(&Pos::new(3, 0), 4, 4);
    let mut obs = Observation::new(Pos::new(3, 0));
    let silent = agent.make_percept_stmt(&obs);
    assert_eq!(silent.render().as_str(), "V_3,0");
    obs.mut_senses().push(Sense::Breeze);
    let breezy = agent.make_percept_stmt(&obs);
    assert_eq!(breezy.render().as_str(), "(~St_3,0 & Br_3,0)");
    obs.mut_senses().push(Sense::Glitter);
    let glittering = agent.make_percept_stmt(&obs);
    assert_eq!(glittering.render().as_str(), "(~St_3,0 & Br_3,0 & Gl_3,0)");
}

#[test]
fn axioms_start_with_the_start_cell() {
    let axioms = build_axioms(2, 2, &Pos::new(0, 0));
    assert_eq!(axioms[0].render().as_str(), "(~P_0,0 & ~W_0,0)");
    assert_eq!(axioms[1].render().as_str(), "(W_0,0 | W_0,1 | W_1,0 | W_1,1)");
}

fn observe(pos: Pos, senses: &[Sense], dirs: &[Direction]) -> Observation {
    let mut obs = Observation::new(pos);
    for s in senses {
        obs.mut_senses().push(*s);
    }
    for d in dirs {
        obs.mut_directions().push(*d);
    }
    obs
}

#[test]
fn backtracking_retraces_the_last_steps() {
    // The agent walks north then east; when no safe frontier remains it must
    // retrace exactly west, then south, before trying any new branch.
    let mut agent = KnowledgeBasedAgent::new(&Pos::new(3, 0), 4, 4);

    let o1 = observe(Pos::new(3, 0), &[], &[Direction::East, Direction::North]);
    assert_eq!(agent.act(&o1), Action::Move(Direction::North));

    let o2 = observe(Pos::new(2, 0), &[], &[Direction::South, Direction::East]);
    assert_eq!(agent.act(&o2), Action::Move(Direction::East));

    let o3 = observe(
        Pos::new(2, 1),
        &[Sense::Breeze, Sense::Stench],
        &[Direction::North, Direction::East, Direction::West],
    );
    assert_eq!(agent.act(&o3), Action::Move(Direction::West));

    let o4 = observe(Pos::new(2, 0), &[], &[Direction::South, Direction::East]);
    assert_eq!(agent.act(&o4), Action::Move(Direction::South));
}

#[test]
fn classic_episode_grabs_the_gold_and_climbs_out() {
    let mut env = Environment::new(GridType::Classic);
    let start = Pos::new(3, 0);
    let mut agent = KnowledgeBasedAgent::new(&start, 4, 4);
    let mut grabs = 0;
    let mut expected_score: isize = 0;
    let mut turns = 0;
    loop {
        turns += 1;
        assert!(turns < 500, "episode did not terminate");
        let action = agent.act(env.observation());
        match action {
            Action::Move(d) => {
                let pos = *env.agent_position();
                let target = pos.moved(&d);
                let delta = env.grid().room_at(&target).get_kind().score();
                match env.step(&Action::Move(d)) {
                    ActionResult::Proceed => expected_score += delta,
                    ActionResult::GameOver => panic!("the agent stepped into a hazard"),
                    ActionResult::Sense(_) => panic!("the agent bumped into a wall"),
                }
            }
            Action::Grab => {
                grabs += 1;
                assert!(matches!(env.step(&Action::Grab), ActionResult::Proceed));
            }
            Action::Climb => match env.step(&Action::Climb) {
                ActionResult::GameOver => break,
                _ => panic!("the agent climbed away from the start"),
            },
            Action::Shoot(_) => panic!("the agent shot without cause"),
        }
    }
    assert_eq!(grabs, 1, "the agent must grab the gold exactly once");
    assert_eq!(env.score(), expected_score);
    assert!(env.score() > 0, "one gold reward must outweigh the move penalties");
    assert_eq!(*env.agent_position(), start);
}

#[test]
fn glitter_forces_one_grab_then_the_climb_out() {
    let mut agent = KnowledgeBasedAgent::new(&Pos::new(3, 0), 4, 4);
    let obs = observe(
        Pos::new(3, 0),
        &[Sense::Glitter],
        &[Direction::East, Direction::North],
    );
    // The glitter is grabbed at once; with the treasure in hand and the
    // agent at the start, the next decision is the climb out.
    assert_eq!(agent.act(&obs), Action::Grab);
    assert_eq!(agent.act(&obs), Action::Climb);
}

#[test]
fn reset_restores_the_initial_state() {
    let mut agent = KnowledgeBasedAgent::new(&Pos::new(3, 0), 4, 4);
    let o1 = observe(Pos::new(3, 0), &[], &[Direction::East, Direction::North]);
    assert!(matches!(agent.act(&o1), Action::Move(_)));
    agent.reset();
    let o2 = observe(Pos::new(3, 0), &[], &[Direction::East, Direction::North]);
    assert!(matches!(agent.act(&o2), Action::Move(_)));
}
