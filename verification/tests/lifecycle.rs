//! The level life-cycle state machine and level initialisation.

use atomsim::atom::AtomType;
use atomsim::grid::GridPos;
use atomsim::level::{CurrentLevel, Level, LevelAssets, LevelAtom, LevelGoal};
use atomsim::movement::CardinalDirection;
use atomsim::sim::Simulation;
use atomsim::state::GameState;

fn level_with_atoms(atoms: Vec<LevelAtom>) -> Level {
    Level {
        sidebar_text: String::new(),
        level_complete_text: String::new(),
        atoms,
        goal: LevelGoal::NoGoal,
        placeable_atoms: vec![AtomType::Basic],
    }
}

fn one_atom_level(x: i64) -> Level {
    level_with_atoms(vec![LevelAtom::new_with_velocity(
        AtomType::Basic,
        GridPos { x, y: 0 },
        CardinalDirection::E,
    )])
}

#[test]
fn toggle_flips_between_placement_and_running() {
    let mut sim = Simulation::new(LevelAssets { levels: vec![Some(one_atom_level(-3))] });
    sim.current_level.set_level(0, 0);
    sim.initialise_level();
    assert_eq!(sim.state, GameState::Placement);

    sim.toggle_start_stop();
    assert_eq!(sim.state, GameState::Running);

    // Stopping settles back into placement and re-initialises the field.
    sim.tick(100);
    let moved = sim.atoms[0].position.x;
    assert_eq!(moved, -2800);
    sim.toggle_start_stop();
    assert_eq!(sim.state, GameState::Placement);
    assert_eq!(sim.atoms[0].position.x, -3000);
}

#[test]
fn toggle_leaves_a_completed_level_alone() {
    let mut sim = Simulation::new(LevelAssets { levels: vec![] });
    sim.state = GameState::LevelComplete;
    sim.toggle_start_stop();
    assert_eq!(sim.state, GameState::LevelComplete);
}

#[test]
fn reset_clears_placements_and_settles_into_placement() {
    let mut sim = Simulation::new(LevelAssets { levels: vec![Some(one_atom_level(-3))] });
    sim.current_level.set_level(0, 0);
    sim.initialise_level();
    assert!(sim.place_atom(AtomType::Basic, GridPos { x: 5, y: 5 }));
    assert_eq!(sim.atoms.len(), 2);

    sim.request_reset();
    assert_eq!(sim.state, GameState::RestartLevel);
    assert!(sim.placed_atoms.entries.is_empty());

    // The next tick settles into placement and re-initialises: only the
    // authored atom remains.
    sim.tick(16);
    assert_eq!(sim.state, GameState::Placement);
    assert_eq!(sim.atoms.len(), 1);
    assert_eq!(sim.atoms[0].position.x, -3000);
}

#[test]
fn placed_atoms_survive_reinitialisation_until_reset() {
    let mut sim = Simulation::new(LevelAssets { levels: vec![Some(one_atom_level(-3))] });
    sim.current_level.set_level(0, 0);
    sim.initialise_level();
    assert!(sim.place_atom(AtomType::Wall, GridPos { x: 1, y: 1 }));

    // Start and stop: the placement is respawned from the record.
    sim.toggle_start_stop();
    sim.toggle_start_stop();
    assert_eq!(sim.atoms.len(), 2);
    assert_eq!(sim.atoms[1].atom_type, AtomType::Wall);
    assert_eq!((sim.atoms[1].position.x, sim.atoms[1].position.y), (1000, 1000));
}

#[test]
fn initialise_without_a_level_leaves_the_field_empty() {
    let mut sim = Simulation::new(LevelAssets { levels: vec![] });
    sim.initialise_level();
    assert!(sim.atoms.is_empty() && sim.goals.is_empty());

    // A handle that does not resolve behaves the same.
    sim.current_level.set_level(3, 3);
    sim.initialise_level();
    assert!(sim.atoms.is_empty() && sim.goals.is_empty());

    let mut sim = Simulation::new(LevelAssets { levels: vec![None] });
    sim.current_level.set_level(0, 0);
    sim.initialise_level();
    assert!(sim.atoms.is_empty() && sim.goals.is_empty());
}

#[test]
fn walls_authored_with_velocity_spawn_stationary() {
    let level = level_with_atoms(vec![LevelAtom::new_with_velocity(
        AtomType::Wall,
        GridPos { x: 0, y: 0 },
        CardinalDirection::E,
    )]);
    let mut sim = Simulation::new(LevelAssets { levels: vec![Some(level)] });
    sim.current_level.set_level(0, 0);
    sim.initialise_level();
    assert_eq!(sim.atoms.len(), 1);
    assert!(sim.atoms[0].movement.is_none());
}

#[test]
fn continue_advances_to_the_next_level() {
    let assets = LevelAssets { levels: vec![Some(one_atom_level(-3)), Some(one_atom_level(4))] };
    let mut sim = Simulation::new(assets);
    sim.current_level.set_level(0, 0);
    sim.initialise_level();
    sim.state = GameState::LevelComplete;

    assert!(sim.goto_next_level());
    assert_eq!(sim.state, GameState::Placement);
    assert_eq!(sim.current_level.get_index(), Some(1));
    assert_eq!(sim.atoms.len(), 1);
    assert_eq!(sim.atoms[0].position.x, 4000);
}

#[test]
fn continue_past_the_last_level_is_reported_not_fatal() {
    let assets = LevelAssets { levels: vec![Some(one_atom_level(-3))] };
    let mut sim = Simulation::new(assets);
    sim.current_level.set_level(0, 0);
    sim.initialise_level();
    sim.state = GameState::LevelComplete;
    assert!(sim.place_atom(AtomType::Basic, GridPos { x: 9, y: 9 }) == false);

    assert!(!sim.goto_next_level());
    // The state machine stays where it was; only the placements cleared.
    assert_eq!(sim.state, GameState::LevelComplete);
    assert_eq!(sim.current_level.get_index(), Some(0));
    assert!(sim.placed_atoms.entries.is_empty());
}

#[test]
fn current_level_reads_resolve_or_report() {
    let assets = LevelAssets { levels: vec![Some(one_atom_level(-3)), None] };
    let cl = CurrentLevel::Uninitialised;
    assert!(cl.get_level(&assets).is_err());
    assert_eq!(cl.get_index(), None);
    assert!(!cl.is_editing());

    let mut cl = CurrentLevel::Uninitialised;
    cl.set_level(0, 0);
    assert!(cl.get_level(&assets).is_ok());
    assert_eq!(cl.get_index(), Some(0));

    cl.set_level(1, 1);
    assert!(cl.get_level(&assets).is_err());

    let cl = CurrentLevel::Editing(one_atom_level(2));
    assert!(cl.is_editing());
    assert_eq!(cl.get_index(), None);
    assert_eq!(cl.get_level(&assets).unwrap().atoms[0].position.x, 2);
}

#[test]
fn authored_atoms_can_be_removed_by_cell() {
    let mut level = level_with_atoms(vec![
        LevelAtom::new(AtomType::Basic, GridPos { x: 1, y: 1 }),
        LevelAtom::new(AtomType::Wall, GridPos { x: 2, y: 2 }),
    ]);
    let removed = level.remove_atom_at_position(GridPos { x: 1, y: 1 });
    assert_eq!(removed.map(|a| a.atom_type), Some(AtomType::Basic));
    assert_eq!(level.atoms.len(), 1);
    assert!(level.remove_atom_at_position(GridPos { x: 9, y: 9 }).is_none());
}
