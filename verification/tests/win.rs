//! Goal consumption and the win check.

use atomsim::atom::AtomType;
use atomsim::grid::GridPos;
use atomsim::level::{Level, LevelAssets, LevelAtom, LevelGoal, LevelGoalPosition};
use atomsim::movement::CardinalDirection;
use atomsim::sim::{SimMessage, Simulation};
use atomsim::state::GameState;

fn level(atoms: Vec<LevelAtom>, goal: LevelGoal) -> Level {
    Level {
        sidebar_text: String::new(),
        level_complete_text: String::new(),
        atoms,
        goal,
        placeable_atoms: vec![],
    }
}

fn running_sim(l: Level) -> Simulation {
    let mut sim = Simulation::new(LevelAssets { levels: vec![Some(l)] });
    sim.current_level.set_level(0, 0);
    sim.initialise_level();
    sim.toggle_start_stop();
    assert_eq!(sim.state, GameState::Running);
    sim
}

#[test]
fn reaching_a_goal_consumes_marker_and_atom_then_wins() {
    // A Splitting atom moves east from (2,2) towards a Splitting goal
    // marker at (4,2).
    let l = level(
        vec![LevelAtom::new_with_velocity(
            AtomType::Splitting,
            GridPos { x: 2, y: 2 },
            CardinalDirection::E,
        )],
        LevelGoal::ReachPositions(vec![LevelGoalPosition::new(
            AtomType::Splitting,
            GridPos { x: 4, y: 2 },
        )]),
    );
    let mut sim = running_sim(l);
    assert_eq!(sim.goals.len(), 1);

    // Each 100 ms tick advances the atom 0.2 units; after 7 ticks it is
    // 0.6 units short of the marker, still outside the 0.5 threshold.
    for _ in 0..7 {
        sim.tick(100);
    }
    assert_eq!(sim.state, GameState::Running);
    assert_eq!(sim.goals.len(), 1);
    assert_eq!(sim.atoms.len(), 1);
    assert_eq!(sim.atoms[0].position.x, 3400);

    // One more tick brings it within 0.4 units: the marker and the atom
    // despawn, no marker remains, and the level completes the same tick.
    sim.tick(100);
    assert!(sim.goals.is_empty());
    assert!(sim.atoms.is_empty());
    assert_eq!(sim.state, GameState::LevelComplete);
    let messages = sim.drain_messages();
    assert_eq!(messages.last(), Some(&SimMessage::LevelCompleted));
}

#[test]
fn goal_of_a_different_type_is_not_consumed() {
    let l = level(
        vec![LevelAtom::new_with_velocity(
            AtomType::Basic,
            GridPos { x: 4, y: 2 },
            CardinalDirection::N,
        )],
        LevelGoal::ReachPositions(vec![LevelGoalPosition::new(
            AtomType::Splitting,
            GridPos { x: 4, y: 2 },
        )]),
    );
    let mut sim = running_sim(l);
    sim.tick(16);
    assert_eq!(sim.goals.len(), 1);
    assert_eq!(sim.atoms.len(), 1);
    assert_eq!(sim.state, GameState::Running);
}

#[test]
fn create_atom_goal_wins_without_consuming_the_atom() {
    let l = level(
        vec![LevelAtom::new(AtomType::Antimatter, GridPos { x: -7, y: 9 })],
        LevelGoal::CreateAtom(AtomType::Antimatter),
    );
    let mut sim = running_sim(l);
    sim.tick(16);
    assert_eq!(sim.state, GameState::LevelComplete);
    // The witnessing atom is not despawned.
    assert_eq!(sim.atoms.len(), 1);
    assert_eq!(sim.atoms[0].atom_type, AtomType::Antimatter);
    assert_eq!(sim.drain_messages(), vec![SimMessage::LevelCompleted]);
}

#[test]
fn create_atom_goal_waits_for_the_type() {
    let l = level(
        vec![LevelAtom::new(AtomType::Basic, GridPos { x: 0, y: 0 })],
        LevelGoal::CreateAtom(AtomType::Antimatter),
    );
    let mut sim = running_sim(l);
    sim.tick(16);
    assert_eq!(sim.state, GameState::Running);
}

#[test]
fn sandbox_never_auto_wins() {
    let l = level(
        vec![LevelAtom::new(AtomType::Antimatter, GridPos { x: 0, y: 0 })],
        LevelGoal::NoGoal,
    );
    let mut sim = running_sim(l);
    for _ in 0..10 {
        sim.tick(100);
    }
    assert_eq!(sim.state, GameState::Running);
}

#[test]
fn exactly_half_a_unit_away_is_not_within_the_threshold() {
    // The threshold is strict: a matching atom exactly 0.5 units from
    // the marker does not consume it.
    let l = level(
        vec![LevelAtom::new(AtomType::Basic, GridPos { x: 0, y: 0 })],
        LevelGoal::ReachPositions(vec![LevelGoalPosition::new(
            AtomType::Basic,
            GridPos { x: 0, y: 0 },
        )]),
    );
    let mut sim = running_sim(l);
    sim.atoms[0].position.x = 500;
    sim.tick(0);
    assert_eq!(sim.goals.len(), 1);
    assert_eq!(sim.atoms.len(), 1);

    // A hair closer, and both are consumed.
    sim.atoms[0].position.x = 499;
    sim.tick(0);
    assert!(sim.goals.is_empty());
    assert!(sim.atoms.is_empty());
    assert_eq!(sim.state, GameState::LevelComplete);
}
