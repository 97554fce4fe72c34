//! Direction arithmetic: unit vectors, rotations and the split table.

use atomsim::collision::get_split_directions;
use atomsim::movement::CardinalDirection;

const ALL_DIRECTIONS: [CardinalDirection; 8] = [
    CardinalDirection::N,
    CardinalDirection::E,
    CardinalDirection::S,
    CardinalDirection::W,
    CardinalDirection::NE,
    CardinalDirection::SE,
    CardinalDirection::SW,
    CardinalDirection::NW,
];

#[test]
fn unit_vectors_are_exact() {
    assert_eq!(CardinalDirection::N.as_velocity(), (0, 1000));
    assert_eq!(CardinalDirection::E.as_velocity(), (1000, 0));
    assert_eq!(CardinalDirection::S.as_velocity(), (0, -1000));
    assert_eq!(CardinalDirection::W.as_velocity(), (-1000, 0));
    assert_eq!(CardinalDirection::NE.as_velocity(), (707, 707));
    assert_eq!(CardinalDirection::SE.as_velocity(), (707, -707));
    assert_eq!(CardinalDirection::SW.as_velocity(), (-707, -707));
    assert_eq!(CardinalDirection::NW.as_velocity(), (-707, 707));
}

#[test]
fn opposite_is_an_involution() {
    for d in ALL_DIRECTIONS {
        assert_eq!(d.opposite().opposite(), d);
    }
    assert_eq!(CardinalDirection::N.opposite(), CardinalDirection::S);
    assert_eq!(CardinalDirection::NE.opposite(), CardinalDirection::SW);
}

#[test]
fn clockwise_and_anticlockwise_cancel() {
    for d in ALL_DIRECTIONS {
        assert_eq!(d.clockwise().anticlockwise(), d);
        assert_eq!(d.anticlockwise().clockwise(), d);
    }
    assert_eq!(CardinalDirection::N.clockwise(), CardinalDirection::NE);
    assert_eq!(CardinalDirection::N.anticlockwise(), CardinalDirection::NW);
}

#[test]
fn split_directions_table_is_exact() {
    assert_eq!(
        get_split_directions(CardinalDirection::N),
        (CardinalDirection::NE, CardinalDirection::NW)
    );
    assert_eq!(
        get_split_directions(CardinalDirection::E),
        (CardinalDirection::NE, CardinalDirection::SE)
    );
    assert_eq!(
        get_split_directions(CardinalDirection::S),
        (CardinalDirection::SE, CardinalDirection::SW)
    );
    assert_eq!(
        get_split_directions(CardinalDirection::W),
        (CardinalDirection::SW, CardinalDirection::NW)
    );
    assert_eq!(
        get_split_directions(CardinalDirection::NE),
        (CardinalDirection::N, CardinalDirection::E)
    );
    assert_eq!(
        get_split_directions(CardinalDirection::SE),
        (CardinalDirection::E, CardinalDirection::S)
    );
    assert_eq!(
        get_split_directions(CardinalDirection::SW),
        (CardinalDirection::S, CardinalDirection::W)
    );
    assert_eq!(
        get_split_directions(CardinalDirection::NW),
        (CardinalDirection::W, CardinalDirection::N)
    );
}

#[test]
fn split_of_opposite_is_pair_rotated_180() {
    for d in ALL_DIRECTIONS {
        let (a, b) = get_split_directions(d);
        let (c, e) = get_split_directions(d.opposite());
        let rotated = (a.opposite(), b.opposite());
        let swapped = (b.opposite(), a.opposite());
        assert!((c, e) == rotated || (c, e) == swapped);
    }
}
