//! The reaction rule table, one case per pair, and the large-group rule.

use atomsim::atom::{Atom, AtomType};
use atomsim::collision::{
    handle_collision, AtomSeed, CollisionCooldown, CollisionGroup, COLLISION_IMMUNITY_MS,
};
use atomsim::grid::{GridPos, Position};
use atomsim::movement::{CardinalDirection, Movement, DEFAULT_SPEED_MILLI};

fn still(id: u64, atom_type: AtomType) -> Atom {
    Atom {
        id,
        atom_type,
        position: Position { x: 0, y: 0 },
        movement: None,
        cooldown: None,
    }
}

fn moving(id: u64, atom_type: AtomType, direction: CardinalDirection) -> Atom {
    Atom {
        id,
        atom_type,
        position: Position { x: 0, y: 0 },
        movement: Some(Movement::new(direction)),
        cooldown: None,
    }
}

fn group(members: Vec<Atom>) -> CollisionGroup {
    CollisionGroup { position: GridPos { x: 0, y: 0 }, members }
}

fn seed(atom_type: AtomType, movement: Option<Movement>) -> AtomSeed {
    AtomSeed { atom_type, movement }
}

#[test]
fn wall_and_antimatter_destroy_each_other() {
    let out = handle_collision(&group(vec![
        still(1, AtomType::Wall),
        moving(2, AtomType::Antimatter, CardinalDirection::E),
    ]));
    assert_eq!(out.despawned, vec![1, 2]);
    assert!(out.spawned.is_empty());

    let out = handle_collision(&group(vec![
        moving(2, AtomType::Antimatter, CardinalDirection::E),
        still(1, AtomType::Wall),
    ]));
    assert_eq!(out.despawned, vec![2, 1]);
    assert!(out.spawned.is_empty());
}

#[test]
fn wall_bounces_a_moving_atom() {
    let out = handle_collision(&group(vec![
        moving(7, AtomType::Basic, CardinalDirection::E),
        still(3, AtomType::Wall),
    ]));
    assert_eq!(out.despawned, vec![7]);
    assert_eq!(
        out.spawned,
        vec![seed(
            AtomType::Basic,
            Some(Movement { direction: CardinalDirection::W, speed: DEFAULT_SPEED_MILLI })
        )]
    );
}

#[test]
fn wall_bounce_keeps_the_atom_speed() {
    let fast = Atom {
        id: 7,
        atom_type: AtomType::Splitting,
        position: Position { x: 0, y: 0 },
        movement: Some(Movement { direction: CardinalDirection::NE, speed: 5000 }),
        cooldown: None,
    };
    let out = handle_collision(&group(vec![still(3, AtomType::Wall), fast]));
    assert_eq!(out.despawned, vec![7]);
    assert_eq!(
        out.spawned,
        vec![seed(
            AtomType::Splitting,
            Some(Movement { direction: CardinalDirection::SW, speed: 5000 })
        )]
    );
}

#[test]
fn wall_destroys_a_stationary_atom() {
    let out = handle_collision(&group(vec![
        still(3, AtomType::Wall),
        still(9, AtomType::Basic),
    ]));
    assert_eq!(out.despawned, vec![9]);
    assert!(out.spawned.is_empty());
}

#[test]
fn two_walls_destroy_the_second() {
    let out = handle_collision(&group(vec![
        still(3, AtomType::Wall),
        still(4, AtomType::Wall),
    ]));
    assert_eq!(out.despawned, vec![4]);
    assert!(out.spawned.is_empty());
}

#[test]
fn basic_pair_fuses_into_splitting_with_first_velocity() {
    let out = handle_collision(&group(vec![
        moving(1, AtomType::Basic, CardinalDirection::E),
        still(2, AtomType::Basic),
    ]));
    assert_eq!(out.despawned, vec![1, 2]);
    assert_eq!(
        out.spawned,
        vec![seed(AtomType::Splitting, Some(Movement::new(CardinalDirection::E)))]
    );
}

#[test]
fn basic_pair_second_velocity_used_when_first_is_still() {
    let out = handle_collision(&group(vec![
        still(1, AtomType::Basic),
        moving(2, AtomType::Basic, CardinalDirection::S),
    ]));
    assert_eq!(out.despawned, vec![1, 2]);
    assert_eq!(
        out.spawned,
        vec![seed(AtomType::Splitting, Some(Movement::new(CardinalDirection::S)))]
    );
}

#[test]
fn stationary_basic_pair_fuses_into_stationary_splitting() {
    let out = handle_collision(&group(vec![
        still(1, AtomType::Basic),
        still(2, AtomType::Basic),
    ]));
    assert_eq!(out.despawned, vec![1, 2]);
    assert_eq!(out.spawned, vec![seed(AtomType::Splitting, None)]);
}

#[test]
fn reactive_and_splitting_fuse_into_antimatter() {
    for members in [
        vec![still(1, AtomType::Reactive), moving(2, AtomType::Splitting, CardinalDirection::N)],
        vec![moving(2, AtomType::Splitting, CardinalDirection::N), still(1, AtomType::Reactive)],
    ] {
        let out = handle_collision(&group(members));
        assert_eq!(out.spawned, vec![seed(AtomType::Antimatter, None)]);
        assert_eq!(out.despawned.len(), 2);
    }
}

#[test]
fn basic_and_antimatter_split_from_the_opposite_direction() {
    let out = handle_collision(&group(vec![
        moving(1, AtomType::Basic, CardinalDirection::E),
        still(2, AtomType::Antimatter),
    ]));
    assert_eq!(out.despawned, vec![1, 2]);
    // Opposite of east is west; west splits into south-west and north-west.
    assert_eq!(
        out.spawned,
        vec![
            seed(AtomType::Basic, Some(Movement::new(CardinalDirection::SW))),
            seed(AtomType::Basic, Some(Movement::new(CardinalDirection::NW))),
        ]
    );
}

#[test]
fn stationary_basic_and_antimatter_fall_back_to_one_basic() {
    let out = handle_collision(&group(vec![
        still(1, AtomType::Antimatter),
        still(2, AtomType::Basic),
    ]));
    assert_eq!(out.despawned, vec![1, 2]);
    // The defensive fallback: one stationary Basic atom.
    assert_eq!(out.spawned, vec![seed(AtomType::Basic, None)]);
}

#[test]
fn splitting_atom_splits_from_its_own_direction() {
    for other in [AtomType::Basic, AtomType::Splitting, AtomType::Antimatter] {
        let out = handle_collision(&group(vec![
            moving(1, AtomType::Splitting, CardinalDirection::N),
            still(2, other),
        ]));
        assert_eq!(out.despawned, vec![1, 2]);
        assert_eq!(
            out.spawned,
            vec![
                seed(AtomType::Basic, Some(Movement::new(CardinalDirection::NE))),
                seed(AtomType::Basic, Some(Movement::new(CardinalDirection::NW))),
            ]
        );
    }
}

#[test]
fn stationary_splitting_pair_falls_back_to_one_basic() {
    let out = handle_collision(&group(vec![
        still(1, AtomType::Splitting),
        still(2, AtomType::Basic),
    ]));
    assert_eq!(out.despawned, vec![1, 2]);
    assert_eq!(out.spawned, vec![seed(AtomType::Basic, None)]);
}

#[test]
fn antimatter_passes_through_reactive_and_antimatter() {
    for members in [
        vec![still(1, AtomType::Antimatter), still(2, AtomType::Reactive)],
        vec![still(1, AtomType::Reactive), moving(2, AtomType::Antimatter, CardinalDirection::E)],
        vec![still(1, AtomType::Antimatter), still(2, AtomType::Antimatter)],
    ] {
        let out = handle_collision(&group(members));
        assert!(out.despawned.is_empty());
        assert!(out.spawned.is_empty());
    }
}

#[test]
fn unmodeled_pairs_despawn_both() {
    for members in [
        vec![still(1, AtomType::Basic), still(2, AtomType::Reactive)],
        vec![still(1, AtomType::Reactive), still(2, AtomType::Reactive)],
    ] {
        let out = handle_collision(&group(members));
        assert_eq!(out.despawned, vec![1, 2]);
        assert!(out.spawned.is_empty());
    }
}

#[test]
fn three_or_more_members_always_make_one_reactive() {
    let out = handle_collision(&group(vec![
        moving(1, AtomType::Basic, CardinalDirection::E),
        still(2, AtomType::Wall),
        moving(3, AtomType::Antimatter, CardinalDirection::W),
    ]));
    assert_eq!(out.despawned, vec![1, 2, 3]);
    assert_eq!(out.spawned, vec![seed(AtomType::Reactive, None)]);

    let out = handle_collision(&group(vec![
        still(4, AtomType::Splitting),
        still(5, AtomType::Splitting),
        still(6, AtomType::Splitting),
        still(7, AtomType::Reactive),
    ]));
    assert_eq!(out.despawned, vec![4, 5, 6, 7]);
    assert_eq!(out.spawned, vec![seed(AtomType::Reactive, None)]);
}

#[test]
fn degenerate_groups_are_no_ops() {
    let out = handle_collision(&group(vec![]));
    assert!(out.despawned.is_empty() && out.spawned.is_empty());
    let out = handle_collision(&group(vec![still(1, AtomType::Basic)]));
    assert!(out.despawned.is_empty() && out.spawned.is_empty());
}

#[test]
fn immunity_window_constant_is_half_a_second() {
    assert_eq!(COLLISION_IMMUNITY_MS, 500);
    let c: CollisionCooldown = Default::default();
    assert_eq!(c.remaining_ms, 500);
}
