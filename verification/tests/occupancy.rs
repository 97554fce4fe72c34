//! The grid occupancy registry, the placement record, and placement
//! intents through the simulation.

use atomsim::atom::AtomType;
use atomsim::grid::GridPos;
use atomsim::level::{CurrentLevel, LevelAssets, PlacedLevelAtoms};
use atomsim::placement::OccupiedGridPositions;
use atomsim::sim::{SimMessage, Simulation};
use atomsim::state::GameState;

fn cell(x: i64, y: i64) -> GridPos {
    GridPos { x, y }
}

#[test]
fn occupied_cells_are_tracked_and_freed() {
    let mut occ = OccupiedGridPositions::new();
    assert!(!occ.contains(&cell(1, 2)));

    occ.insert(cell(1, 2));
    assert!(occ.contains(&cell(1, 2)));
    assert!(!occ.contains(&cell(2, 1)));

    // A second insert of the same cell changes nothing.
    occ.insert(cell(1, 2));
    assert_eq!(occ.cells.len(), 1);

    // Removing an atom frees its cell, and only its cell.
    occ.insert(cell(3, 3));
    occ.remove(&cell(1, 2));
    assert!(!occ.contains(&cell(1, 2)));
    assert!(occ.contains(&cell(3, 3)));

    // Removing a free cell changes nothing.
    occ.remove(&cell(7, 7));
    assert_eq!(occ.cells.len(), 1);

    occ.clear();
    assert!(!occ.contains(&cell(3, 3)));
}

#[test]
fn placed_atoms_map_one_atom_per_cell() {
    let mut placed = PlacedLevelAtoms::new();
    placed.add(AtomType::Basic, cell(0, 0));
    placed.add(AtomType::Wall, cell(1, 0));
    // Placing onto an occupied cell changes nothing.
    placed.add(AtomType::Reactive, cell(0, 0));
    assert_eq!(placed.entries.len(), 2);
    assert_eq!(placed.entries[0], (cell(0, 0), AtomType::Basic));

    placed.remove(&cell(0, 0));
    assert_eq!(placed.entries, vec![(cell(1, 0), AtomType::Wall)]);
    // Removing an empty cell changes nothing.
    placed.remove(&cell(5, 5));
    assert_eq!(placed.entries.len(), 1);

    placed.clear();
    assert!(placed.entries.is_empty());
}

#[test]
fn placement_rejected_on_occupied_cell_and_accepted_on_free_cell() {
    let mut sim = Simulation::new(LevelAssets { levels: vec![] });
    assert_eq!(sim.state, GameState::Placement);

    assert!(sim.place_atom(AtomType::Basic, cell(2, 2)));
    assert_eq!(sim.atoms.len(), 1);
    assert_eq!(sim.atoms[0].atom_type, AtomType::Basic);
    assert_eq!((sim.atoms[0].position.x, sim.atoms[0].position.y), (2000, 2000));
    assert!(sim.atoms[0].movement.is_none());

    // The same cell is now occupied.
    assert!(!sim.place_atom(AtomType::Wall, cell(2, 2)));
    assert_eq!(sim.atoms.len(), 1);

    // A neighbouring cell is free.
    assert!(sim.place_atom(AtomType::Wall, cell(3, 2)));
    assert_eq!(sim.atoms.len(), 2);

    let messages = sim.drain_messages();
    assert_eq!(
        messages,
        vec![
            SimMessage::PlacementAccepted { atom_type: AtomType::Basic, position: cell(2, 2) },
            SimMessage::PlacementRejected { atom_type: AtomType::Wall, position: cell(2, 2) },
            SimMessage::PlacementAccepted { atom_type: AtomType::Wall, position: cell(3, 2) },
        ]
    );
    assert!(sim.drain_messages().is_empty());
}

#[test]
fn placement_rejected_outside_the_placement_phase() {
    let mut sim = Simulation::new(LevelAssets { levels: vec![] });
    sim.current_level = CurrentLevel::Uninitialised;
    sim.toggle_start_stop();
    assert_eq!(sim.state, GameState::Running);
    assert!(!sim.place_atom(AtomType::Basic, cell(0, 0)));
    assert!(sim.atoms.is_empty());
}
