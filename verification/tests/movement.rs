//! Fixed-point movement arithmetic and grid rounding.

use atomsim::grid::{GridPos, Position, POSITION_LIMIT_MILLI};
use atomsim::movement::{move_position, CardinalDirection, Movement};

#[test]
fn velocity_is_unit_vector_times_speed() {
    // In micro-units per second: the milli-unit vector scaled by the
    // milli-unit speed.
    let m = Movement::new(CardinalDirection::E);
    assert_eq!(m.velocity(), (2_000_000, 0));
    let m = Movement::new(CardinalDirection::NE);
    assert_eq!(m.velocity(), (1_414_000, 1_414_000));
    let m = Movement { direction: CardinalDirection::S, speed: 500 };
    assert_eq!(m.velocity(), (0, -500_000));
}

#[test]
fn default_movement_heads_north_at_default_speed() {
    let m: Movement = Default::default();
    assert_eq!(m, Movement { direction: CardinalDirection::N, speed: 2000 });
    assert_eq!(Movement::new(CardinalDirection::W).speed, 2000);
}

#[test]
fn cardinal_step_is_exact() {
    // 2 units per second for 100 ms moves 0.2 units east.
    let p = Position { x: 0, y: 0 };
    let m = Movement::new(CardinalDirection::E);
    let q = move_position(&p, &m, 100);
    assert_eq!((q.x, q.y), (200, 0));
}

#[test]
fn diagonal_step_rounds_towards_zero() {
    // A diagonal component covers 707/1000 of the speed: 141.4 milli-
    // units in 100 ms, truncated to 141 on both axes.
    let p = Position { x: 0, y: 0 };
    let m = Movement::new(CardinalDirection::NE);
    let q = move_position(&p, &m, 100);
    assert_eq!((q.x, q.y), (141, 141));

    let m = Movement::new(CardinalDirection::SW);
    let q = move_position(&p, &m, 100);
    assert_eq!((q.x, q.y), (-141, -141));
}

#[test]
fn movement_saturates_at_the_field_edge() {
    let p = Position { x: POSITION_LIMIT_MILLI - 100, y: 0 };
    let m = Movement::new(CardinalDirection::E);
    let q = move_position(&p, &m, 100);
    assert_eq!((q.x, q.y), (POSITION_LIMIT_MILLI, 0));
}

#[test]
fn half_way_positions_round_away_from_zero() {
    let p = Position { x: 1500, y: -1500 };
    let c = p.nearest_cell();
    assert_eq!((c.x, c.y), (2, -2));
    let p = Position { x: 1499, y: -1499 };
    let c = p.nearest_cell();
    assert_eq!((c.x, c.y), (1, -1));
}

#[test]
fn cells_convert_to_their_intersection_position() {
    let c = GridPos { x: -7, y: 12 };
    let p = c.position();
    assert_eq!((p.x, p.y), (-7000, 12000));
    assert!(p.near_intersection());
    let off = Position { x: -7049, y: 12050 };
    assert!(off.near_intersection());
    let off = Position { x: -7051, y: 12000 };
    assert!(!off.near_intersection());
}
