//! Directions and per-tick movement integration.
//!
//! Velocities are fixed point like positions: a direction's unit vector is
//! stored in milli-units, speed in milli-units per second, and a tick's
//! duration in milliseconds.

use vstd::pervasive::VecAdditionalExecFns;
use vstd::prelude::*;

use crate::atom::Atom;
use crate::grid::{clamp_coord, clamp_coord_exec, Position};

verus! {

/// Default speed of a newly created movement: 2 grid units per second.
pub const DEFAULT_SPEED_MILLI: u32 = 2000;

/// Largest speed the simulation models, in milli-units per second.
pub const SPEED_LIMIT_MILLI: u32 = 1_000_000;

/// Longest tick the simulation accepts, in milliseconds.
pub const DT_LIMIT_MS: u32 = 60_000;

/// One diagonal component of a unit vector, in milli-units: the nearest
/// fixed-point value to `1 / sqrt(2)`.
pub const DIAGONAL_COMPONENT_MILLI: i64 = 707;

/// One axis-aligned component of a unit vector, in milli-units.
pub const CARDINAL_COMPONENT_MILLI: i64 = 1000;

/// One of the eight directions an atom can move in: the four cardinals and
/// the four diagonals between them.  North is towards positive `y`, east
/// towards positive `x`.
#[derive(Clone, Copy, Debug, PartialEq, Eq, Structural)]
pub enum CardinalDirection {
    N,
    E,
    S,
    W,
    NE,
    SE,
    SW,
    NW,
}

impl CardinalDirection {
    /// The `x` component of the direction's unit vector, in milli-units.
    pub open spec fn spec_unit_x(self) -> i64 {
        match self {
            CardinalDirection::N => 0,
            CardinalDirection::E => CARDINAL_COMPONENT_MILLI,
            CardinalDirection::S => 0,
            CardinalDirection::W => (-CARDINAL_COMPONENT_MILLI) as i64,
            CardinalDirection::NE => DIAGONAL_COMPONENT_MILLI,
            CardinalDirection::SE => DIAGONAL_COMPONENT_MILLI,
            CardinalDirection::SW => (-DIAGONAL_COMPONENT_MILLI) as i64,
            CardinalDirection::NW => (-DIAGONAL_COMPONENT_MILLI) as i64,
        }
    }

    /// The `y` component of the direction's unit vector, in milli-units.
    pub open spec fn spec_unit_y(self) -> i64 {
        match self {
            CardinalDirection::N => CARDINAL_COMPONENT_MILLI,
            CardinalDirection::E => 0,
            CardinalDirection::S => (-CARDINAL_COMPONENT_MILLI) as i64,
            CardinalDirection::W => 0,
            CardinalDirection::NE => DIAGONAL_COMPONENT_MILLI,
            CardinalDirection::SE => (-DIAGONAL_COMPONENT_MILLI) as i64,
            CardinalDirection::SW => (-DIAGONAL_COMPONENT_MILLI) as i64,
            CardinalDirection::NW => DIAGONAL_COMPONENT_MILLI,
        }
    }

    /// The direction's unit vector in milli-units, `(x, y)`.
    pub fn as_velocity(&self) -> (r: (i64, i64))
        ensures
            r.0 == self.spec_unit_x(),
            r.1 == self.spec_unit_y(),
    {
        match self {
            CardinalDirection::N => (0, CARDINAL_COMPONENT_MILLI),
            CardinalDirection::E => (CARDINAL_COMPONENT_MILLI, 0),
            CardinalDirection::S => (0, -CARDINAL_COMPONENT_MILLI),
            CardinalDirection::W => (-CARDINAL_COMPONENT_MILLI, 0),
            CardinalDirection::NE => (DIAGONAL_COMPONENT_MILLI, DIAGONAL_COMPONENT_MILLI),
            CardinalDirection::SE => (DIAGONAL_COMPONENT_MILLI, -DIAGONAL_COMPONENT_MILLI),
            CardinalDirection::SW => (-DIAGONAL_COMPONENT_MILLI, -DIAGONAL_COMPONENT_MILLI),
            CardinalDirection::NW => (-DIAGONAL_COMPONENT_MILLI, DIAGONAL_COMPONENT_MILLI),
        }
    }

    /// The direction rotated by 180 degrees.
    pub open spec fn spec_opposite(self) -> CardinalDirection {
        match self {
            CardinalDirection::N => CardinalDirection::S,
            CardinalDirection::E => CardinalDirection::W,
            CardinalDirection::S => CardinalDirection::N,
            CardinalDirection::W => CardinalDirection::E,
            CardinalDirection::NE => CardinalDirection::SW,
            CardinalDirection::SE => CardinalDirection::NW,
            CardinalDirection::SW => CardinalDirection::NE,
            CardinalDirection::NW => CardinalDirection::SE,
        }
    }

    /// Returns the direction rotated by 180 degrees.
    pub fn opposite(&self) -> (r: CardinalDirection)
        ensures
            r == self.spec_opposite(),
    {
        match self {
            CardinalDirection::N => CardinalDirection::S,
            CardinalDirection::E => CardinalDirection::W,
            CardinalDirection::S => CardinalDirection::N,
            CardinalDirection::W => CardinalDirection::E,
            CardinalDirection::NE => CardinalDirection::SW,
            CardinalDirection::SE => CardinalDirection::NW,
            CardinalDirection::SW => CardinalDirection::NE,
            CardinalDirection::NW => CardinalDirection::SE,
        }
    }

    /// The direction rotated by 45 degrees clockwise.
    pub open spec fn spec_clockwise(self) -> CardinalDirection {
        match self {
            CardinalDirection::N => CardinalDirection::NE,
            CardinalDirection::NE => CardinalDirection::E,
            CardinalDirection::E => CardinalDirection::SE,
            CardinalDirection::SE => CardinalDirection::S,
            CardinalDirection::S => CardinalDirection::SW,
            CardinalDirection::SW => CardinalDirection::W,
            CardinalDirection::W => CardinalDirection::NW,
            CardinalDirection::NW => CardinalDirection::N,
        }
    }

    /// Returns the direction rotated by 45 degrees clockwise.
    pub fn clockwise(&self) -> (r: CardinalDirection)
        ensures
            r == self.spec_clockwise(),
    {
        match self {
            CardinalDirection::N => CardinalDirection::NE,
            CardinalDirection::NE => CardinalDirection::E,
            CardinalDirection::E => CardinalDirection::SE,
            CardinalDirection::SE => CardinalDirection::S,
            CardinalDirection::S => CardinalDirection::SW,
            CardinalDirection::SW => CardinalDirection::W,
            CardinalDirection::W => CardinalDirection::NW,
            CardinalDirection::NW => CardinalDirection::N,
        }
    }

    /// The direction rotated by 45 degrees anticlockwise.
    pub open spec fn spec_anticlockwise(self) -> CardinalDirection {
        match self {
            CardinalDirection::N => CardinalDirection::NW,
            CardinalDirection::NW => CardinalDirection::W,
            CardinalDirection::W => CardinalDirection::SW,
            CardinalDirection::SW => CardinalDirection::S,
            CardinalDirection::S => CardinalDirection::SE,
            CardinalDirection::SE => CardinalDirection::E,
            CardinalDirection::E => CardinalDirection::NE,
            CardinalDirection::NE => CardinalDirection::N,
        }
    }

    /// Returns the direction rotated by 45 degrees anticlockwise.
    pub fn anticlockwise(&self) -> (r: CardinalDirection)
        ensures
            r == self.spec_anticlockwise(),
    {
        match self {
            CardinalDirection::N => CardinalDirection::NW,
            CardinalDirection::NW => CardinalDirection::W,
            CardinalDirection::W => CardinalDirection::SW,
            CardinalDirection::SW => CardinalDirection::S,
            CardinalDirection::S => CardinalDirection::SE,
            CardinalDirection::SE => CardinalDirection::E,
            CardinalDirection::E => CardinalDirection::NE,
            CardinalDirection::NE => CardinalDirection::N,
        }
    }
}

/// The velocity of a moving atom: a direction and a scalar speed in
/// milli-units per second.
#[derive(Clone, Copy, Debug, PartialEq, Eq, Structural)]
pub struct Movement {
    pub direction: CardinalDirection,
    pub speed: u32,
}

impl Movement {
    /// The speed is one the simulation models.
    pub open spec fn wf(self) -> bool {
        self.speed <= SPEED_LIMIT_MILLI
    }

    /// Creates a movement with the default speed.
    pub fn new(direction: CardinalDirection) -> (r: Movement)
        ensures
            r == (Movement { direction, speed: DEFAULT_SPEED_MILLI }),
            r.wf(),
    {
        Movement { direction, speed: DEFAULT_SPEED_MILLI }
    }

    /// The movement's velocity vector, in micro-units per second: the
    /// direction's milli-unit vector scaled by the milli-unit speed.
    pub open spec fn spec_velocity(self) -> (i64, i64) {
        (
            (self.direction.spec_unit_x() * self.speed) as i64,
            (self.direction.spec_unit_y() * self.speed) as i64,
        )
    }

    /// Returns the velocity vector in micro-units per second.
    pub fn velocity(&self) -> (r: (i64, i64))
        requires
            self.wf(),
        ensures
            r == self.spec_velocity(),
    {
        let (ux, uy) = self.direction.as_velocity();
        proof {
            lemma_component_product_bound(ux as int, self.speed as int);
            lemma_component_product_bound(uy as int, self.speed as int);
        }
        (ux * (self.speed as i64), uy * (self.speed as i64))
    }
}

impl Default for Movement {
    /// Returns a northward movement at the default speed.
    fn default() -> (r: Movement)
        ensures
            r == (Movement { direction: CardinalDirection::N, speed: DEFAULT_SPEED_MILLI }),
            r.wf(),
    {
        Movement { direction: CardinalDirection::N, speed: DEFAULT_SPEED_MILLI }
    }
}

/// A unit-vector component times a bounded speed stays small.
proof fn lemma_component_product_bound(comp: int, speed: int)
    requires
        -1000 <= comp <= 1000,
        0 <= speed <= SPEED_LIMIT_MILLI,
    ensures
        -1_000_000_000_000 <= comp * speed <= 1_000_000_000_000,
{
    assert(-1_000_000_000_000 <= comp * speed <= 1_000_000_000_000) by (nonlinear_arith)
        requires
            -1000 <= comp <= 1000,
            0 <= speed <= 1_000_000,
    ;
}

/// The distance travelled along one axis in one tick: the unit-vector
/// component times speed times duration, brought back from
/// micro-milli-units to milli-units, with the magnitude rounded towards
/// zero.
pub open spec fn axis_delta(comp: int, speed: int, dt: int) -> int {
    if comp >= 0 {
        (comp * speed * dt) / 1_000_000
    } else {
        -(((-comp) * speed * dt) / 1_000_000)
    }
}

/// The product of a component magnitude, a speed and a duration stays
/// within machine range.
proof fn lemma_delta_product_bound(mag: int, speed: int, dt: int)
    requires
        0 <= mag <= 1000,
        0 <= speed <= SPEED_LIMIT_MILLI,
        0 <= dt <= DT_LIMIT_MS,
    ensures
        0 <= mag * speed <= 1_000_000_000,
        0 <= mag * speed * dt <= 60_000_000_000_000,
{
    assert(0 <= mag * speed <= 1_000_000_000 && 0 <= mag * speed * dt <= 60_000_000_000_000)
        by (nonlinear_arith)
        requires
            0 <= mag <= 1000,
            0 <= speed <= 1_000_000,
            0 <= dt <= 60_000,
    ;
}

/// Computes `axis_delta` on machine integers.
pub fn axis_delta_exec(comp: i64, speed: u32, dt: u32) -> (r: i64)
    requires
        -1000 <= comp <= 1000,
        speed <= SPEED_LIMIT_MILLI,
        dt <= DT_LIMIT_MS,
    ensures
        r == axis_delta(comp as int, speed as int, dt as int),
        -60_000_000 <= r <= 60_000_000,
{
    let mag: u64 = if comp >= 0 {
        comp as u64
    } else {
        (-comp) as u64
    };
    proof {
        lemma_delta_product_bound(mag as int, speed as int, dt as int);
    }
    let prod: u64 = mag * (speed as u64) * (dt as u64);
    let q: u64 = prod / 1_000_000;
    if comp >= 0 {
        q as i64
    } else {
        -(q as i64)
    }
}

/// Where a moving atom stands after one tick: each coordinate advances by
/// its axis delta and saturates at the edge of the play field.
pub open spec fn moved_position(p: Position, m: Movement, dt: u32) -> Position {
    Position {
        x: clamp_coord(
            p.x + axis_delta(m.direction.spec_unit_x() as int, m.speed as int, dt as int),
        ) as i64,
        y: clamp_coord(
            p.y + axis_delta(m.direction.spec_unit_y() as int, m.speed as int, dt as int),
        ) as i64,
    }
}

/// Advances a position by one tick of the given movement.
pub fn move_position(p: &Position, m: &Movement, dt: u32) -> (r: Position)
    requires
        p.in_field(),
        m.wf(),
        dt <= DT_LIMIT_MS,
    ensures
        r == moved_position(*p, *m, dt),
        r.in_field(),
{
    let (ux, uy) = m.direction.as_velocity();
    let dx = axis_delta_exec(ux, m.speed, dt);
    let dy = axis_delta_exec(uy, m.speed, dt);
    Position { x: clamp_coord_exec(p.x + dx), y: clamp_coord_exec(p.y + dy) }
}

/// The atom after one tick of movement: a moving atom's position advances
/// by its velocity over the tick's duration; a stationary atom stands
/// still.
pub open spec fn moved_atom(a: Atom, dt: u32) -> Atom {
    match a.movement {
        Some(m) => Atom {
            id: a.id,
            atom_type: a.atom_type,
            position: moved_position(a.position, m, dt),
            movement: a.movement,
            cooldown: a.cooldown,
        },
        None => a,
    }
}

/// Advances every atom carrying a movement by one tick.
pub fn move_atoms(atoms: &mut Vec<Atom>, dt: u32)
    requires
        forall|i: int| 0 <= i < old(atoms)@.len() ==> (#[trigger] old(atoms)@[i]).wf(),
        dt <= DT_LIMIT_MS,
    ensures
        final(atoms)@ == old(atoms)@.map_values(|a: Atom| moved_atom(a, dt)),
        forall|i: int| 0 <= i < final(atoms)@.len() ==> (#[trigger] final(atoms)@[i]).wf(),
{
    let ghost orig = atoms@;
    let mut i: usize = 0;
    while i < atoms.len()
        invariant
            i <= orig.len(),
            atoms@.len() == orig.len(),
            dt <= DT_LIMIT_MS,
            forall|k: int| 0 <= k < orig.len() ==> (#[trigger] orig[k]).wf(),
            forall|k: int| 0 <= k < i ==> atoms@[k] == moved_atom(orig[k], dt),
            forall|k: int| i <= k < orig.len() ==> atoms@[k] == orig[k],
        decreases orig.len() - i,
    {
        let a = atoms[i];
        if let Some(m) = a.movement {
            let p = move_position(&a.position, &m, dt);
            atoms.set(
                i,
                Atom {
                    id: a.id,
                    atom_type: a.atom_type,
                    position: p,
                    movement: a.movement,
                    cooldown: a.cooldown,
                },
            );
        }
        i = i + 1;
    }
    proof {
        assert(atoms@ =~= orig.map_values(|a: Atom| moved_atom(a, dt)));
        assert forall|k: int| 0 <= k < atoms@.len() implies (#[trigger] atoms@[k]).wf() by {
            assert(atoms@[k] == moved_atom(orig[k], dt));
        }
    }
}

} // verus!
