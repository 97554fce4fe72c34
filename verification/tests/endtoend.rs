//! End-to-end scenarios through the full tick pipeline.

use atomsim::atom::AtomType;
use atomsim::collision::COLLISION_IMMUNITY_MS;
use atomsim::grid::GridPos;
use atomsim::level::{Level, LevelAssets, LevelAtom, LevelGoal};
use atomsim::movement::{CardinalDirection, Movement, DEFAULT_SPEED_MILLI};
use atomsim::sim::{SimMessage, Simulation};
use atomsim::state::GameState;

fn sandbox(atoms: Vec<LevelAtom>) -> Simulation {
    let l = Level {
        sidebar_text: String::new(),
        level_complete_text: String::new(),
        atoms,
        goal: LevelGoal::NoGoal,
        placeable_atoms: vec![],
    };
    let mut sim = Simulation::new(LevelAssets { levels: vec![Some(l)] });
    sim.current_level.set_level(0, 0);
    sim.initialise_level();
    sim.toggle_start_stop();
    assert_eq!(sim.state, GameState::Running);
    sim
}

#[test]
fn two_basic_atoms_fuse_where_they_meet() {
    // One Basic atom stands at (2,0); another moves east from (-2,0) at
    // the default 2 units per second.
    let mut sim = sandbox(vec![
        LevelAtom::new(AtomType::Basic, GridPos { x: 2, y: 0 }),
        LevelAtom::new_with_velocity(
            AtomType::Basic,
            GridPos { x: -2, y: 0 },
            CardinalDirection::E,
        ),
    ]);

    // 0.2 units per 100 ms tick: after 19 ticks the mover stands at
    // 1.8 units, not yet rounding onto (2,0).
    for _ in 0..19 {
        sim.tick(100);
    }
    assert_eq!(sim.atoms.len(), 2);

    // The 20th tick brings it exactly onto (2,0): the pair fuses into
    // one Splitting atom there, inheriting the mover's eastward motion.
    sim.tick(100);
    assert_eq!(sim.atoms.len(), 1);
    let fused = sim.atoms[0];
    assert_eq!(fused.atom_type, AtomType::Splitting);
    assert_eq!((fused.position.x, fused.position.y), (2000, 0));
    assert_eq!(
        fused.movement,
        Some(Movement { direction: CardinalDirection::E, speed: DEFAULT_SPEED_MILLI })
    );
    assert_eq!(fused.cooldown.map(|c| c.remaining_ms), Some(COLLISION_IMMUNITY_MS));

    // Exactly one collision notification, at the meeting cell, naming
    // both atoms with the mover first.
    let collisions: Vec<SimMessage> = sim
        .drain_messages()
        .into_iter()
        .filter(|m| matches!(m, SimMessage::Collision(..)))
        .collect();
    assert_eq!(collisions.len(), 1);
    if let SimMessage::Collision(ev, outcome) = &collisions[0] {
        assert_eq!((ev.position.x, ev.position.y), (2, 0));
        assert_eq!(ev.entities, vec![1, 0]);
        // The notification also reports the resolved outcome.
        assert_eq!(outcome.despawned, vec![1, 0]);
        assert_eq!(outcome.spawned.len(), 1);
        assert_eq!(outcome.spawned[0].atom_type, AtomType::Splitting);
    } else {
        unreachable!();
    }
}

#[test]
fn splitting_atom_bounces_off_a_wall() {
    // A Splitting atom moves east from (1,0) towards a Wall at (3,0).
    let mut sim = sandbox(vec![
        LevelAtom::new(AtomType::Wall, GridPos { x: 3, y: 0 }),
        LevelAtom::new_with_velocity(
            AtomType::Splitting,
            GridPos { x: 1, y: 0 },
            CardinalDirection::E,
        ),
    ]);

    // Ten 100 ms ticks bring the mover onto the wall's cell.
    for _ in 0..10 {
        sim.tick(100);
    }

    // The wall survives unchanged; the Splitting atom was despawned and
    // respawned at the wall's cell, moving west, with a fresh immunity
    // window.
    assert_eq!(sim.atoms.len(), 2);
    let wall = sim.atoms[0];
    assert_eq!(wall.atom_type, AtomType::Wall);
    assert_eq!((wall.position.x, wall.position.y), (3000, 0));
    assert!(wall.movement.is_none());

    let bounced = sim.atoms[1];
    assert_eq!(bounced.atom_type, AtomType::Splitting);
    assert_eq!((bounced.position.x, bounced.position.y), (3000, 0));
    assert_eq!(
        bounced.movement,
        Some(Movement { direction: CardinalDirection::W, speed: DEFAULT_SPEED_MILLI })
    );
    assert_eq!(bounced.cooldown.map(|c| c.remaining_ms), Some(COLLISION_IMMUNITY_MS));

    // While immune it moves away without re-colliding; once the window
    // has elapsed it is 1 unit clear of the wall.
    for _ in 0..5 {
        sim.tick(100);
    }
    assert_eq!(sim.atoms.len(), 2);
    assert_eq!(sim.atoms[1].position.x, 2000);
    assert_eq!(sim.atoms[1].cooldown, None);
}

#[test]
fn simultaneous_collisions_resolve_independently_in_detection_order() {
    // Two separate pairs meet at (0,0) and (5,0) in the same tick.
    let mut sim = sandbox(vec![
        LevelAtom::new(AtomType::Basic, GridPos { x: 0, y: 0 }),
        LevelAtom::new_with_velocity(
            AtomType::Basic,
            GridPos { x: -1, y: 0 },
            CardinalDirection::E,
        ),
        LevelAtom::new(AtomType::Basic, GridPos { x: 5, y: 0 }),
        LevelAtom::new_with_velocity(
            AtomType::Basic,
            GridPos { x: 4, y: 0 },
            CardinalDirection::E,
        ),
    ]);
    let first_free_id = sim.next_id;

    for _ in 0..5 {
        sim.tick(100);
    }

    // Both pairs fused: two Splitting atoms, one per meeting cell, with
    // fresh identities counted up in group order.
    assert_eq!(sim.atoms.len(), 2);
    assert!(sim.atoms.iter().all(|a| a.atom_type == AtomType::Splitting));
    assert_eq!((sim.atoms[0].position.x, sim.atoms[0].position.y), (0, 0));
    assert_eq!((sim.atoms[1].position.x, sim.atoms[1].position.y), (5000, 0));
    assert_eq!(sim.atoms[0].id, first_free_id);
    assert_eq!(sim.atoms[1].id, first_free_id + 1);
    assert_eq!(sim.next_id, first_free_id + 2);

    // One notification per group, in detection order.
    let collisions: Vec<SimMessage> = sim
        .drain_messages()
        .into_iter()
        .filter(|m| matches!(m, SimMessage::Collision(..)))
        .collect();
    assert_eq!(collisions.len(), 2);
    match (&collisions[0], &collisions[1]) {
        (SimMessage::Collision(first, _), SimMessage::Collision(second, _)) => {
            assert_eq!((first.position.x, first.position.y), (0, 0));
            assert_eq!((second.position.x, second.position.y), (5, 0));
            assert_eq!(first.entities, vec![1, 0]);
            assert_eq!(second.entities, vec![3, 2]);
        }
        _ => unreachable!(),
    }
}

#[test]
fn freshly_spawned_atom_is_immune_even_if_another_moves_onto_it() {
    // Two Basic atoms fuse at (0,0); a third Basic atom arrives at the
    // same cell 0.2 seconds later, well inside the immunity window of
    // the fused product.
    let mut sim = sandbox(vec![
        LevelAtom::new(AtomType::Basic, GridPos { x: 0, y: 0 }),
        LevelAtom::new_with_velocity(
            AtomType::Basic,
            GridPos { x: -1, y: 0 },
            CardinalDirection::E,
        ),
        LevelAtom::new_with_velocity(
            AtomType::Basic,
            GridPos { x: 1, y: 0 },
            CardinalDirection::W,
        ),
    ]);
    // Stagger the third atom so it reaches (0,0) two ticks after the
    // fusing pair meets there.
    sim.atoms[2].position.x = 1400;

    // After 5 ticks the pair has fused at (0,0); the third atom is the
    // survivor in front, the product appended behind it.
    for _ in 0..5 {
        sim.tick(100);
    }
    assert_eq!(sim.atoms.len(), 2);
    assert_eq!(sim.atoms[0].atom_type, AtomType::Basic);
    assert_eq!(sim.atoms[1].atom_type, AtomType::Splitting);
    assert!(sim.atoms[1].cooldown.is_some());

    // Two more ticks put the third atom exactly on (0,0), but the fused
    // atom is still inside its immunity window: no reaction happens.
    for _ in 0..2 {
        sim.tick(100);
    }
    assert_eq!(sim.atoms.len(), 2);
    assert_eq!(sim.atoms[0].atom_type, AtomType::Basic);
    assert_eq!(sim.atoms[0].position.x, 0);
    assert_eq!(sim.atoms[1].atom_type, AtomType::Splitting);
    assert_eq!(sim.atoms[1].cooldown.map(|c| c.remaining_ms), Some(300));
}
