//! Atoms: the particles the simulation moves, collides and transmutes.

use vstd::prelude::*;

use crate::collision::CollisionCooldown;
use crate::grid::{GridPos, Position};
use crate::movement::Movement;

verus! {

/// The closed set of atom kinds the reaction table speaks about.
#[derive(Clone, Copy, Debug, PartialEq, Eq, Structural)]
pub enum AtomType {
    Basic,
    Splitting,
    Wall,
    Reactive,
    Antimatter,
}

/// One atom on the play field: an identity, a type, a continuous position,
/// an optional velocity and an optional collision-immunity countdown.
#[derive(Clone, Copy, Debug, PartialEq, Eq, Structural)]
pub struct Atom {
    pub id: u64,
    pub atom_type: AtomType,
    pub position: Position,
    pub movement: Option<Movement>,
    pub cooldown: Option<CollisionCooldown>,
}

impl Atom {
    /// The atom's data invariant: its position is on the play field, its
    /// speed is one the simulation models, and walls never move.
    pub open spec fn wf(self) -> bool {
        &&& self.position.in_field()
        &&& (self.movement matches Some(m) ==> m.wf())
        &&& (self.atom_type == AtomType::Wall ==> self.movement is None)
    }

    /// The atom carries a velocity.
    pub open spec fn is_moving(self) -> bool {
        self.movement is Some
    }

    /// The atom is still inside its post-spawn immunity window and is
    /// excluded from collision detection.
    pub open spec fn is_immune(self) -> bool {
        self.cooldown is Some
    }
}

/// Creates a stationary atom of the given type at a grid cell, with no
/// immunity window.
pub fn atom(id: u64, atom_type: AtomType, position: GridPos) -> (r: Atom)
    requires
        position.in_field(),
    ensures
        r == (Atom {
            id,
            atom_type,
            position: position.spec_position(),
            movement: None,
            cooldown: None,
        }),
        r.wf(),
{
    Atom { id, atom_type, position: position.position(), movement: None, cooldown: None }
}

} // verus!
