use wumpus::agent::{Action, Direction};
use wumpus::env::{ActionResult, Environment, GridType, Sense};
use wumpus::grid::Pos;
use wumpus::room::{Room, RoomKind, RoomSense};

#[test]
fn classic_layout_matches_the_board() {
    let env = Environment::new(GridType::Classic);
    assert_eq!(env.grid().nrows(), 4);
    assert_eq!(env.grid().ncols(), 4);
    assert_eq!(*env.agent_position(), Pos::new(3, 0));

    let expect = |r: usize, c: usize, kind: RoomKind| {
        assert_eq!(*env.grid().room_at(&Pos::new(r, c)).get_kind(), kind);
    };
    expect(0, 3, RoomKind::Pit);
    expect(1, 0, RoomKind::Wumpus);
    expect(1, 1, RoomKind::Gold);
    expect(1, 2, RoomKind::Pit);
    expect(3, 2, RoomKind::Pit);
    expect(0, 0, RoomKind::Void);
    expect(3, 0, RoomKind::Void);
}

#[test]
fn senses_radiate_to_neighbors() {
    let env = Environment::new(GridType::Classic);
    // Pit at (3, 2) breezes onto (3, 1), (2, 2) and (3, 3).
    assert!(env.grid().room_at(&Pos::new(3, 1)).has_sense(RoomSense::Breeze));
    assert!(env.grid().room_at(&Pos::new(2, 2)).has_sense(RoomSense::Breeze));
    assert!(env.grid().room_at(&Pos::new(3, 3)).has_sense(RoomSense::Breeze));
    // The Wumpus at (1, 0) stenches onto (0, 0), (2, 0) and (1, 1).
    assert!(env.grid().room_at(&Pos::new(0, 0)).has_sense(RoomSense::Stench));
    assert!(env.grid().room_at(&Pos::new(2, 0)).has_sense(RoomSense::Stench));
    assert!(env.grid().room_at(&Pos::new(1, 1)).has_sense(RoomSense::Stench));
    // The start cell senses nothing.
    assert!(!env.grid().room_at(&Pos::new(3, 0)).has_sense(RoomSense::Breeze));
    assert!(!env.grid().room_at(&Pos::new(3, 0)).has_sense(RoomSense::Stench));
}

#[test]
fn initial_observation_is_at_the_start() {
    let env = Environment::new(GridType::Classic);
    let obs = env.observation();
    assert_eq!(*obs.position(), Pos::new(3, 0));
    assert!(obs.senses().is_empty());
    assert_eq!(*obs.directions(), vec![Direction::North, Direction::East]);
}

#[test]
fn moving_off_the_grid_bumps() {
    let mut env = Environment::new(GridType::Classic);
    let r = env.step(&Action::Move(Direction::South));
    assert!(matches!(r, ActionResult::Sense(Sense::Bump(Direction::South))));
    assert_eq!(*env.agent_position(), Pos::new(3, 0));
    assert_eq!(env.score(), 0);
}

#[test]
fn moving_updates_position_score_and_observation() {
    let mut env = Environment::new(GridType::Classic);
    let r = env.step(&Action::Move(Direction::North));
    assert!(matches!(r, ActionResult::Proceed));
    assert_eq!(*env.agent_position(), Pos::new(2, 0));
    assert_eq!(env.score(), -1);
    assert!(env.current_room().is_visited());
    let obs = env.observation();
    assert_eq!(*obs.position(), Pos::new(2, 0));
    // (2, 0) is next to the Wumpus at (1, 0).
    assert_eq!(*obs.senses(), vec![Sense::Stench]);
}

#[test]
fn stepping_into_a_pit_ends_the_game() {
    let mut env = Environment::new(GridType::Classic);
    assert!(matches!(env.step(&Action::Move(Direction::East)), ActionResult::Proceed));
    let r = env.step(&Action::Move(Direction::East));
    assert!(matches!(r, ActionResult::GameOver));
    assert_eq!(env.score(), -1 - 1000);
}

#[test]
fn shooting_the_wumpus_clears_it() {
    let mut env = Environment::new(GridType::Classic);
    assert!(matches!(env.step(&Action::Move(Direction::North)), ActionResult::Proceed));
    let r = env.step(&Action::Shoot(Direction::North));
    assert!(matches!(r, ActionResult::Sense(Sense::Scream(Direction::North))));
    assert_eq!(*env.grid().room_at(&Pos::new(1, 0)).get_kind(), RoomKind::Void);
    assert_eq!(env.score(), -1 - 10);
    assert!(env.observation().senses().contains(&Sense::Scream(Direction::North)));
}

#[test]
fn shooting_a_void_room_does_nothing() {
    let mut env = Environment::new(GridType::Classic);
    let r = env.step(&Action::Shoot(Direction::East));
    assert!(matches!(r, ActionResult::Proceed));
    assert_eq!(env.score(), 0);
}

#[test]
fn climbing_only_works_at_the_start() {
    let mut env = Environment::new(GridType::Classic);
    assert!(matches!(env.step(&Action::Move(Direction::North)), ActionResult::Proceed));
    let blocked = env.step(&Action::Climb);
    assert!(matches!(blocked, ActionResult::Sense(Sense::Ceil)));
    assert!(matches!(env.step(&Action::Move(Direction::South)), ActionResult::Proceed));
    let out = env.step(&Action::Climb);
    assert!(matches!(out, ActionResult::GameOver));
}

#[test]
fn initialize_restarts_the_episode() {
    let mut env = Environment::new(GridType::Classic);
    assert!(matches!(env.step(&Action::Move(Direction::North)), ActionResult::Proceed));
    env.initialize();
    assert_eq!(env.score(), 0);
    assert_eq!(*env.agent_position(), Pos::new(3, 0));
    assert!(!env.grid().room_at(&Pos::new(2, 0)).is_visited());
    assert!(env.grid().room_at(&Pos::new(3, 0)).is_visited());
}

#[test]
fn random_board_is_well_formed() {
    let env = Environment::new(GridType::Random);
    let rows = env.grid().nrows();
    let cols = env.grid().ncols();
    assert!((4..=6).contains(&rows));
    assert!((4..=6).contains(&cols));
    assert_eq!(env.score(), 0);
    let start = *env.agent_position();
    assert!(start.row < rows && start.col < cols);
    assert_eq!(*env.grid().room_at(&start).get_kind(), RoomKind::Void);
}

#[test]
fn room_kind_scores() {
    assert_eq!(RoomKind::Void.score(), -1);
    assert_eq!(RoomKind::Pit.score(), -1000);
    assert_eq!(RoomKind::Wumpus.score(), -1000);
    assert_eq!(RoomKind::Gold.score(), 1000);
}

#[test]
fn room_senses_do_not_duplicate() {
    let mut room = Room::new();
    assert!(!room.has_sense(RoomSense::Breeze));
    room.add_sense(RoomSense::Breeze);
    room.add_sense(RoomSense::Breeze);
    assert!(room.has_sense(RoomSense::Breeze));
    assert!(!room.has_sense(RoomSense::Stench));
    room.set_kind(RoomKind::Gold);
    assert_eq!(*room.get_kind(), RoomKind::Gold);
    room.set_visited(true);
    assert!(room.is_visited());
}

#[test]
fn positions_move_by_direction() {
    let p = Pos::new(2, 3);
    assert_eq!(p.moved(&Direction::North), Pos::new(1, 3));
    assert_eq!(p.moved(&Direction::South), Pos::new(3, 3));
    assert_eq!(p.moved(&Direction::East), Pos::new(2, 4));
    assert_eq!(p.moved(&Direction::West), Pos::new(2, 2));
}
