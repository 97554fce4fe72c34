//! Level data and the player's placements.
//!
//! A level is an already-decoded description handed in by the caller: its
//! initial atoms, its goal and the palette of placeable types.  The core
//! only reads it.

use vstd::prelude::*;

use crate::atom::AtomType;
use crate::grid::GridPos;
use crate::movement::{CardinalDirection, Movement, DEFAULT_SPEED_MILLI};

verus! {

/// One atom a level starts with: a type, a cell, and an optional velocity.
#[derive(Clone, Copy, Debug, PartialEq, Eq, Structural)]
pub struct LevelAtom {
    pub atom_type: AtomType,
    pub position: GridPos,
    pub velocity: Option<Movement>,
}

impl LevelAtom {
    /// The atom's cell is on the play field and its velocity, if any, is
    /// one the simulation models.
    pub open spec fn wf(self) -> bool {
        self.position.in_field() && (self.velocity matches Some(m) ==> m.wf())
    }

    /// Creates a stationary level atom.
    pub fn new(atom_type: AtomType, position: GridPos) -> (r: LevelAtom)
        ensures
            r == (LevelAtom { atom_type, position, velocity: None }),
    {
        LevelAtom { atom_type, position, velocity: None }
    }

    /// Creates a level atom moving in the given direction at the default
    /// speed.
    pub fn new_with_velocity(
        atom_type: AtomType,
        position: GridPos,
        direction: CardinalDirection,
    ) -> (r: LevelAtom)
        ensures
            r == (LevelAtom {
                atom_type,
                position,
                velocity: Some(Movement { direction, speed: DEFAULT_SPEED_MILLI }),
            }),
    {
        LevelAtom { atom_type, position, velocity: Some(Movement::new(direction)) }
    }
}

/// One target of a `ReachPositions` goal: an atom of this type must reach
/// this cell.
#[derive(Clone, Copy, Debug, PartialEq, Eq, Structural)]
pub struct LevelGoalPosition {
    pub atom_type: AtomType,
    pub position: GridPos,
}

impl LevelGoalPosition {
    /// The target cell is on the play field.
    pub open spec fn wf(self) -> bool {
        self.position.in_field()
    }

    /// Creates a goal target.
    pub fn new(atom_type: AtomType, position: GridPos) -> (r: LevelGoalPosition)
        ensures
            r == (LevelGoalPosition { atom_type, position }),
    {
        LevelGoalPosition { atom_type, position }
    }
}

/// A level's goal condition.
#[derive(Clone, Debug, PartialEq, Eq)]
pub enum LevelGoal {
    /// An open sandbox: the level never auto-completes.
    NoGoal,
    /// Destroy every goal marker by bringing a matching atom to it.
    ReachPositions(Vec<LevelGoalPosition>),
    /// Produce an atom of this type anywhere on the grid.
    CreateAtom(AtomType),
}

impl LevelGoal {
    /// Every goal target is on the play field.
    pub open spec fn wf(self) -> bool {
        self matches LevelGoal::ReachPositions(targets) ==> forall|i: int|
            0 <= i < targets@.len() ==> (#[trigger] targets@[i]).wf()
    }
}

/// A fully resolved level description, owned by the level-loading caller;
/// the core only reads it.
#[derive(Clone, Debug, PartialEq, Eq)]
pub struct Level {
    pub sidebar_text: String,
    pub level_complete_text: String,
    pub atoms: Vec<LevelAtom>,
    pub goal: LevelGoal,
    pub placeable_atoms: Vec<AtomType>,
}

impl Level {
    /// Every cell the level mentions is on the play field and every
    /// authored velocity is one the simulation models.
    pub open spec fn wf(self) -> bool {
        &&& forall|i: int| 0 <= i < self.atoms@.len() ==> (#[trigger] self.atoms@[i]).wf()
        &&& self.goal.wf()
    }

    /// Removes and returns the first authored atom at the given cell, if
    /// any.
    pub fn remove_atom_at_position(&mut self, position: GridPos) -> (r: Option<LevelAtom>)
        ensures
            match r {
                Some(la) => exists|j: int|
                    {
                        &&& 0 <= j < old(self).atoms@.len()
                        &&& old(self).atoms@[j].position == position
                        &&& (forall|k: int| 0 <= k < j ==> old(self).atoms@[k].position != position)
                        &&& la == old(self).atoms@[j]
                        &&& final(self).atoms@ == old(self).atoms@.remove(j)
                    },
                None => {
                    &&& final(self).atoms@ == old(self).atoms@
                    &&& forall|k: int|
                        0 <= k < old(self).atoms@.len() ==> old(self).atoms@[k].position
                            != position
                },
            },
            final(self).sidebar_text == old(self).sidebar_text,
            final(self).level_complete_text == old(self).level_complete_text,
            final(self).goal == old(self).goal,
            final(self).placeable_atoms == old(self).placeable_atoms,
    {
        let mut i: usize = 0;
        while i < self.atoms.len()
            invariant
                *self == *old(self),
                i <= self.atoms@.len(),
                forall|k: int| 0 <= k < i ==> self.atoms@[k].position != position,
            decreases self.atoms@.len() - i,
        {
            if self.atoms[i].position.x == position.x && self.atoms[i].position.y == position.y {
                let la = self.atoms.remove(i);
                return Some(la);
            }
            i = i + 1;
        }
        None
    }
}

/// Why the current level's data cannot be read.
#[derive(Clone, Copy, Debug, PartialEq, Eq, Structural)]
pub enum GetLevelError {
    /// No level has been set.
    NoLevel,
    /// The active level handle does not resolve to loaded data.
    InvalidHandle,
}

/// The store of decoded levels, indexed by handle; an entry still being
/// loaded is `None`.
#[derive(Clone, Debug, PartialEq, Eq)]
pub struct LevelAssets {
    pub levels: Vec<Option<Level>>,
}

impl LevelAssets {
    /// Every loaded level is well formed.
    pub open spec fn wf(self) -> bool {
        forall|i: int|
            0 <= i < self.levels@.len() ==> ((#[trigger] self.levels@[i]) matches Some(l)
                ==> l.wf())
    }
}

/// Which level is active: none yet, one from the store, or one being
/// edited in the sandbox.
#[derive(Clone, Debug, PartialEq, Eq)]
pub enum CurrentLevel {
    Uninitialised,
    Loaded { level_handle: usize, level_index: usize },
    Editing(Level),
}

impl CurrentLevel {
    /// A level under edit is well formed.
    pub open spec fn wf(self) -> bool {
        self matches CurrentLevel::Editing(l) ==> l.wf()
    }

    /// What reading the current level yields: the store entry behind a
    /// loaded handle, the level under edit, or the error saying why
    /// neither is available.
    pub open spec fn spec_get_level(self, assets: LevelAssets) -> Result<Level, GetLevelError> {
        match self {
            CurrentLevel::Uninitialised => Err(GetLevelError::NoLevel),
            CurrentLevel::Loaded { level_handle, level_index } => if level_handle
                < assets.levels@.len() && assets.levels@[level_handle as int] is Some {
                Ok(assets.levels@[level_handle as int]->Some_0)
            } else {
                Err(GetLevelError::InvalidHandle)
            },
            CurrentLevel::Editing(level) => Ok(level),
        }
    }

    /// A level read from a well-formed store or editor is well formed.
    pub proof fn lemma_get_level_wf(self, assets: LevelAssets)
        requires
            self.wf(),
            assets.wf(),
            self.spec_get_level(assets) is Ok,
        ensures
            self.spec_get_level(assets)->Ok_0.wf(),
    {
    }

    /// Makes the given store entry the active level.
    pub fn set_level(&mut self, handle: usize, index: usize)
        ensures
            *final(self) == (CurrentLevel::Loaded { level_handle: handle, level_index: index }),
    {
        *self = CurrentLevel::Loaded { level_handle: handle, level_index: index };
    }

    /// Reads the active level from the store, or says why it cannot be
    /// read: no level is set, or the handle does not resolve.
    pub fn get_level<'a>(&'a self, level_assets: &'a LevelAssets) -> (r: Result<
        &'a Level,
        GetLevelError,
    >)
        ensures
            match r {
                Ok(l) => self.spec_get_level(*level_assets) == Ok::<Level, GetLevelError>(*l),
                Err(e) => self.spec_get_level(*level_assets) == Err::<Level, GetLevelError>(e),
            },
    {
        match self {
            CurrentLevel::Uninitialised => Err(GetLevelError::NoLevel),
            CurrentLevel::Loaded { level_handle, level_index: _ } => {
                if *level_handle < level_assets.levels.len() {
                    match &level_assets.levels[*level_handle] {
                        Some(l) => Ok(l),
                        None => Err(GetLevelError::InvalidHandle),
                    }
                } else {
                    Err(GetLevelError::InvalidHandle)
                }
            },
            CurrentLevel::Editing(level) => Ok(level),
        }
    }

    /// The index of the active level in the level list, if one is loaded.
    pub fn get_index(&self) -> (r: Option<usize>)
        ensures
            r == match *self {
                CurrentLevel::Loaded { level_handle, level_index } => Some(level_index),
                _ => None::<usize>,
            },
    {
        match self {
            CurrentLevel::Uninitialised => None,
            CurrentLevel::Loaded { level_handle: _, level_index } => Some(*level_index),
            CurrentLevel::Editing(_) => None,
        }
    }

    /// Whether the sandbox editor is active.
    pub fn is_editing(&self) -> (r: bool)
        ensures
            r == (*self matches CurrentLevel::Editing(_)),
    {
        match self {
            CurrentLevel::Editing(_) => true,
            _ => false,
        }
    }
}

/// The atoms the player has placed, as a mapping from grid cell to atom
/// type; cleared on reset.  These are not part of the level's authored
/// data.
#[derive(Clone, Debug, PartialEq, Eq)]
pub struct PlacedLevelAtoms {
    pub entries: Vec<(GridPos, AtomType)>,
}

impl PlacedLevelAtoms {
    /// No cell holds two placed atoms.
    pub open spec fn wf(self) -> bool {
        forall|i: int, j: int|
            0 <= i < self.entries@.len() && 0 <= j < self.entries@.len() && i != j
                ==> self.entries@[i].0 != self.entries@[j].0
    }

    /// A placed atom is recorded at the cell.
    pub open spec fn spec_contains(self, cell: GridPos) -> bool {
        exists|i: int| 0 <= i < self.entries@.len() && (#[trigger] self.entries@[i]).0 == cell
    }

    /// Creates an empty placement record.
    pub fn new() -> (r: PlacedLevelAtoms)
        ensures
            r.entries@ =~= Seq::<(GridPos, AtomType)>::empty(),
            r.wf(),
    {
        PlacedLevelAtoms { entries: Vec::new() }
    }

    /// Forgets every placed atom.
    pub fn clear(&mut self)
        ensures
            final(self).entries@ =~= Seq::<(GridPos, AtomType)>::empty(),
            final(self).wf(),
    {
        self.entries.clear();
    }

    /// Finds the entry index for a cell, if any.
    fn index_of(&self, position: &GridPos) -> (r: Option<usize>)
        ensures
            match r {
                Some(j) => j < self.entries@.len() && self.entries@[j as int].0 == *position,
                None => forall|k: int|
                    0 <= k < self.entries@.len() ==> (#[trigger] self.entries@[k]).0 != *position,
            },
    {
        let mut i: usize = 0;
        while i < self.entries.len()
            invariant
                i <= self.entries@.len(),
                forall|k: int| 0 <= k < i ==> (#[trigger] self.entries@[k]).0 != *position,
            decreases self.entries@.len() - i,
        {
            if self.entries[i].0.x == position.x && self.entries[i].0.y == position.y {
                return Some(i);
            }
            i = i + 1;
        }
        None
    }

    /// Records an atom placed at a cell; placing onto an occupied cell
    /// changes nothing.
    pub fn add(&mut self, atom_type: AtomType, position: GridPos)
        requires
            old(self).wf(),
        ensures
            final(self).wf(),
            final(self).entries@ == if old(self).spec_contains(position) {
                old(self).entries@
            } else {
                old(self).entries@.push((position, atom_type))
            },
    {
        match self.index_of(&position) {
            Some(_) => {
                proof {
                    let j = choose|j: int|
                        0 <= j < self.entries@.len() && self.entries@[j].0 == position;
                }
            },
            None => {
                self.entries.push((position, atom_type));
                proof {
                    assert(!old(self).spec_contains(position));
                }
            },
        }
    }

    /// Forgets the atom placed at a cell; removing from an empty cell
    /// changes nothing.
    pub fn remove(&mut self, position: &GridPos)
        requires
            old(self).wf(),
        ensures
            final(self).wf(),
            !final(self).spec_contains(*position),
            match old(self).spec_contains(*position) {
                true => exists|j: int|
                    {
                        &&& 0 <= j < old(self).entries@.len()
                        &&& old(self).entries@[j].0 == *position
                        &&& final(self).entries@ == old(self).entries@.remove(j)
                    },
                false => final(self).entries@ == old(self).entries@,
            },
    {
        match self.index_of(position) {
            Some(j) => {
                self.entries.remove(j);
                proof {
                    assert(final(self).entries@ == old(self).entries@.remove(j as int));
                    assert forall|i1: int, i2: int|
                        0 <= i1 < self.entries@.len() && 0 <= i2 < self.entries@.len() && i1
                            != i2 implies self.entries@[i1].0 != self.entries@[i2].0 by {
                        let m1 = if i1 < j { i1 } else { i1 + 1 };
                        let m2 = if i2 < j { i2 } else { i2 + 1 };
                        assert(self.entries@[i1] == old(self).entries@[m1]);
                        assert(self.entries@[i2] == old(self).entries@[m2]);
                    }
                    assert(!self.spec_contains(*position)) by {
                        if self.spec_contains(*position) {
                            let k = choose|k: int|
                                0 <= k < self.entries@.len() && self.entries@[k].0 == *position;
                            let m = if k < j { k } else { k + 1 };
                            assert(old(self).entries@[m].0 == *position);
                            assert(old(self).entries@[j as int].0 == *position);
                        }
                    }
                    assert(old(self).spec_contains(*position));
                }
            },
            None => {
                proof {
                    if old(self).spec_contains(*position) {
                        let k = choose|k: int|
                            0 <= k < old(self).entries@.len() && old(self).entries@[k].0
                                == *position;
                    }
                }
            },
        }
    }
}

} // verus!
