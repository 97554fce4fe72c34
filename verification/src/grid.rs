//! Fixed-point grid geometry.
//!
//! A grid cell sits at integer coordinates; continuous positions are kept
//! in milli-units, one thousandth of a grid unit, so that every quantity
//! the simulation handles is an exact integer.

use vstd::prelude::*;

verus! {

/// Milli-units per grid unit: positions are fixed point with three
/// fractional decimal digits.
pub const MILLI_PER_UNIT: i64 = 1000;

/// Half a grid unit in milli-units, used to round to the nearest cell.
pub const HALF_UNIT_MILLI: i64 = 500;

/// How far a coordinate may wander from the origin, in milli-units.
/// Movement saturates here, so the simulation never overflows.
pub const POSITION_LIMIT_MILLI: i64 = 4_000_000_000_000;

/// Largest cell coordinate: `CELL_LIMIT * MILLI_PER_UNIT` milli-units is
/// exactly the position limit.
pub const CELL_LIMIT: i64 = 4_000_000_000;

/// Tolerance around a grid intersection inside which a moving atom is
/// considered to be on the intersection: 0.05 grid units.
pub const INTERSECTION_EPSILON_MILLI: i64 = 50;

/// Distance below which an atom consumes a matching goal marker:
/// 0.5 grid units.
pub const GOAL_THRESHOLD_MILLI: i64 = 500;

/// An integer grid cell.
#[derive(Clone, Copy, Debug, PartialEq, Eq, Structural)]
pub struct GridPos {
    pub x: i64,
    pub y: i64,
}

/// A continuous position on the play field, in milli-units.
#[derive(Clone, Copy, Debug, PartialEq, Eq, Structural)]
pub struct Position {
    pub x: i64,
    pub y: i64,
}

impl GridPos {
    /// A cell the play field models: its milli-unit position is in range.
    pub open spec fn in_field(self) -> bool {
        -CELL_LIMIT <= self.x <= CELL_LIMIT && -CELL_LIMIT <= self.y <= CELL_LIMIT
    }

    /// The continuous position of this cell's grid intersection.
    pub open spec fn spec_position(self) -> Position {
        Position { x: (self.x * MILLI_PER_UNIT) as i64, y: (self.y * MILLI_PER_UNIT) as i64 }
    }

    /// Converts the cell to its continuous position.
    pub fn position(&self) -> (r: Position)
        requires
            self.in_field(),
        ensures
            r == self.spec_position(),
            r.in_field(),
    {
        Position { x: self.x * MILLI_PER_UNIT, y: self.y * MILLI_PER_UNIT }
    }
}

impl Position {
    /// A position the play field models.
    pub open spec fn in_field(self) -> bool {
        -POSITION_LIMIT_MILLI <= self.x <= POSITION_LIMIT_MILLI
            && -POSITION_LIMIT_MILLI <= self.y <= POSITION_LIMIT_MILLI
    }

    /// The nearest grid cell, rounding each coordinate half away from zero.
    pub open spec fn spec_nearest_cell(self) -> GridPos {
        GridPos { x: round_coord(self.x as int) as i64, y: round_coord(self.y as int) as i64 }
    }

    /// Both coordinates are within the detection tolerance of the nearest
    /// grid intersection.
    pub open spec fn spec_near_intersection(self) -> bool {
        near_intersection(self.x as int) && near_intersection(self.y as int)
    }

    /// Computes the nearest grid cell.
    pub fn nearest_cell(&self) -> (r: GridPos)
        requires
            self.in_field(),
        ensures
            r == self.spec_nearest_cell(),
            r.in_field(),
    {
        let r = GridPos { x: round_coord_exec(self.x), y: round_coord_exec(self.y) };
        proof {
            lemma_round_coord_in_field(self.x as int);
            lemma_round_coord_in_field(self.y as int);
        }
        r
    }

    /// Decides whether this position lies on a grid intersection, within
    /// the detection tolerance, on both axes.
    pub fn near_intersection(&self) -> (r: bool)
        requires
            self.in_field(),
        ensures
            r == self.spec_near_intersection(),
    {
        let cx = round_coord_exec(self.x);
        let cy = round_coord_exec(self.y);
        proof {
            lemma_round_coord_in_field(self.x as int);
            lemma_round_coord_in_field(self.y as int);
        }
        let ox = self.x - cx * MILLI_PER_UNIT;
        let oy = self.y - cy * MILLI_PER_UNIT;
        -INTERSECTION_EPSILON_MILLI <= ox && ox <= INTERSECTION_EPSILON_MILLI
            && -INTERSECTION_EPSILON_MILLI <= oy && oy <= INTERSECTION_EPSILON_MILLI
    }
}

/// The nearest whole-unit coordinate of a milli-unit coordinate, rounding
/// half away from zero.
pub open spec fn round_coord(x: int) -> int {
    if x >= 0 {
        (x + HALF_UNIT_MILLI) / (MILLI_PER_UNIT as int)
    } else {
        -((-x + HALF_UNIT_MILLI) / (MILLI_PER_UNIT as int))
    }
}

/// The coordinate is within the detection tolerance of its nearest
/// whole-unit coordinate.
pub open spec fn near_intersection(x: int) -> bool {
    let off = x - MILLI_PER_UNIT * round_coord(x);
    -INTERSECTION_EPSILON_MILLI <= off <= INTERSECTION_EPSILON_MILLI
}

/// An in-range coordinate rounds to an in-range cell coordinate.
pub proof fn lemma_round_coord_in_field(x: int)
    requires
        -POSITION_LIMIT_MILLI <= x <= POSITION_LIMIT_MILLI,
    ensures
        -CELL_LIMIT <= round_coord(x) <= CELL_LIMIT,
{
}

/// Computes `round_coord` on machine integers.
pub fn round_coord_exec(x: i64) -> (r: i64)
    requires
        -POSITION_LIMIT_MILLI <= x <= POSITION_LIMIT_MILLI,
    ensures
        r == round_coord(x as int),
{
    if x >= 0 {
        let q: u64 = ((x as u64) + 500) / 1000;
        q as i64
    } else {
        let q: u64 = (((-x) as u64) + 500) / 1000;
        -(q as i64)
    }
}

/// Clamps a coordinate into the play field.
pub open spec fn clamp_coord(v: int) -> int {
    if v < -POSITION_LIMIT_MILLI {
        -POSITION_LIMIT_MILLI as int
    } else if v > POSITION_LIMIT_MILLI {
        POSITION_LIMIT_MILLI as int
    } else {
        v
    }
}

/// Computes `clamp_coord` on machine integers.
pub fn clamp_coord_exec(v: i64) -> (r: i64)
    ensures
        r == clamp_coord(v as int),
{
    if v < -POSITION_LIMIT_MILLI {
        -POSITION_LIMIT_MILLI
    } else if v > POSITION_LIMIT_MILLI {
        POSITION_LIMIT_MILLI
    } else {
        v
    }
}

/// The square of a coordinate difference is small and non-negative.
proof fn lemma_square_bound(v: int)
    requires
        -0x80000000000000 <= v <= 0x80000000000000,
    ensures
        0 <= v * v <= 0x40000000000000000000000000000,
{
    assert(0 <= v * v <= 0x40000000000000000000000000000) by (nonlinear_arith)
        requires
            -0x80000000000000 <= v <= 0x80000000000000,
    ;
}

/// The squared Euclidean distance between two positions, in milli-units.
pub open spec fn dist_squared(a: Position, b: Position) -> int {
    (a.x - b.x) * (a.x - b.x) + (a.y - b.y) * (a.y - b.y)
}

/// Decides whether two positions are strictly closer than the goal
/// threshold.
pub fn within_goal_threshold(a: &Position, b: &Position) -> (r: bool)
    requires
        a.in_field(),
        b.in_field(),
    ensures
        r == (dist_squared(*a, *b) < GOAL_THRESHOLD_MILLI * GOAL_THRESHOLD_MILLI),
{
    let dx: i128 = (a.x as i128) - (b.x as i128);
    let dy: i128 = (a.y as i128) - (b.y as i128);
    proof {
        lemma_square_bound(dx as int);
        lemma_square_bound(dy as int);
    }
    let d2: i128 = dx * dx + dy * dy;
    d2 < (GOAL_THRESHOLD_MILLI as i128) * (GOAL_THRESHOLD_MILLI as i128)
}

} // verus!
