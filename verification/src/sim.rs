//! The simulation context: one value owning the whole state of a level in
//! play, with the tick pipeline and the control surface.
//!
//! A tick runs in a fixed order: immunity countdowns first, then movement,
//! then collision detection, then the resolver's despawns and spawns, then
//! the goal tracker over the resulting population.  Everything is gated by
//! the life-cycle state: only a `Running` simulation ticks.

use vstd::prelude::*;

use crate::atom::{Atom, AtomType};
use crate::collision::{
    atom_cooled, colliding_cells, members_at, spec_group_despawns, spec_group_spawns, AtomSeed,
    CollisionCooldown, CollisionEvent, CollisionOutcome, COLLISION_IMMUNITY_MS,
};
use crate::grid::GridPos;
use crate::level::{
    CurrentLevel, GetLevelError, Level, LevelAssets, LevelAtom, LevelGoal, LevelGoalPosition,
    PlacedLevelAtoms,
};
use crate::movement::{moved_atom, Movement};
use crate::placement::OccupiedGridPositions;
use crate::state::GameState;
use crate::win_condition::{spec_win, surviving_atoms, surviving_goals, Goal};

verus! {

/// An outbound notification, queued for the caller to drain once per
/// tick: rendering, audio and UI react to these.
#[derive(Clone, Debug, PartialEq, Eq)]
pub enum SimMessage {
    /// A collision group was resolved: the involved atoms with their
    /// cell, and what resolving them did.
    Collision(CollisionEvent, CollisionOutcome),
    /// The level's goal was met.
    LevelCompleted,
    /// A placement intent was accepted.
    PlacementAccepted { atom_type: AtomType, position: GridPos },
    /// A placement intent was rejected: the cell was occupied or the
    /// simulation was not in the placement phase.
    PlacementRejected { atom_type: AtomType, position: GridPos },
}

/// The simulation: the single owner of the level in play, its atoms and
/// goal markers, the player's placements, and the outbound message queue.
#[derive(Clone, Debug)]
pub struct Simulation {
    pub state: GameState,
    pub atoms: Vec<Atom>,
    pub goals: Vec<Goal>,
    pub next_id: u64,
    pub current_level: CurrentLevel,
    pub level_assets: LevelAssets,
    pub placed_atoms: PlacedLevelAtoms,
    pub occupied: OccupiedGridPositions,
    pub messages: Vec<SimMessage>,
}

/// The atoms after the timer and movement phases of one tick: every
/// immunity countdown shrinks, then every moving atom advances.
pub open spec fn ticked_atoms(atoms: Seq<Atom>, dt: u32) -> Seq<Atom> {
    atoms.map_values(|a: Atom| moved_atom(atom_cooled(a, dt), dt))
}

/// Every identity despawned by resolving the groups at the given cells,
/// in group order.
pub open spec fn all_despawns(atoms: Seq<Atom>, cells: Seq<GridPos>) -> Seq<u64>
    decreases cells.len(),
{
    if cells.len() == 0 {
        Seq::empty()
    } else {
        all_despawns(atoms, cells.drop_last()) + spec_group_despawns(
            members_at(atoms, cells.last()),
        )
    }
}

/// Every product spawned by resolving the groups at the given cells, with
/// the cell it spawns at, in group order.
pub open spec fn all_seeds(atoms: Seq<Atom>, cells: Seq<GridPos>) -> Seq<(AtomSeed, GridPos)>
    decreases cells.len(),
{
    if cells.len() == 0 {
        Seq::empty()
    } else {
        all_seeds(atoms, cells.drop_last()) + spec_group_spawns(
            members_at(atoms, cells.last()),
        ).map_values(|s: AtomSeed| (s, cells.last()))
    }
}

/// The atoms that survive the resolver's despawns.
pub open spec fn despawn_filter(atoms: Seq<Atom>, ids: Seq<u64>) -> Seq<Atom>
    decreases atoms.len(),
{
    if atoms.len() == 0 {
        Seq::empty()
    } else {
        let pre = despawn_filter(atoms.drop_last(), ids);
        if ids.contains(atoms.last().id) {
            pre
        } else {
            pre.push(atoms.last())
        }
    }
}

/// The atom a seed turns into: it spawns at the collision's cell and
/// carries the full immunity window, so that no reaction product is seen
/// by the very next detection pass.
pub open spec fn spawned_atom(seed: AtomSeed, cell: GridPos, id: u64) -> Atom {
    Atom {
        id,
        atom_type: seed.atom_type,
        position: cell.spec_position(),
        movement: seed.movement,
        cooldown: Some(CollisionCooldown { remaining_ms: COLLISION_IMMUNITY_MS }),
    }
}

/// Every atom the resolver spawns starts inside a full immunity window:
/// whatever the seed, the spawned atom is immune and its countdown is the
/// whole window.
pub proof fn lemma_spawned_products_are_immune(seed: AtomSeed, cell: GridPos, id: u64)
    ensures
        spawned_atom(seed, cell, id).is_immune(),
        spawned_atom(seed, cell, id).cooldown == Some(
            CollisionCooldown { remaining_ms: COLLISION_IMMUNITY_MS },
        ),
{
}

/// The atoms spawned from a list of seeds, with identities counted up
/// from `first`.
pub open spec fn spawn_all(seeds: Seq<(AtomSeed, GridPos)>, first: u64) -> Seq<Atom> {
    Seq::new(seeds.len(), |i: int| spawned_atom(seeds[i].0, seeds[i].1, (first + i) as u64))
}

/// The atoms after the collision phase of one tick: the moved population
/// minus everything the resolver despawns, plus everything it spawns.
pub open spec fn resolved_atoms(atoms2: Seq<Atom>, first: u64) -> Seq<Atom> {
    despawn_filter(atoms2, all_despawns(atoms2, colliding_cells(atoms2))) + spawn_all(
        all_seeds(atoms2, colliding_cells(atoms2)),
        first,
    )
}

/// The velocity a level atom spawns with: walls never move, whatever the
/// level data says.
pub open spec fn level_atom_movement(la: LevelAtom) -> Option<Movement> {
    if la.atom_type == AtomType::Wall {
        None
    } else {
        la.velocity
    }
}

/// The atoms a level's authored list spawns, with identities counted up
/// from `first` and no immunity window.
pub open spec fn atoms_from_level(level_atoms: Seq<LevelAtom>, first: u64) -> Seq<Atom> {
    Seq::new(
        level_atoms.len(),
        |i: int|
            Atom {
                id: (first + i) as u64,
                atom_type: level_atoms[i].atom_type,
                position: level_atoms[i].position.spec_position(),
                movement: level_atom_movement(level_atoms[i]),
                cooldown: None,
            },
    )
}

/// The stationary atoms the player's placements spawn, with identities
/// counted up from `first`.
pub open spec fn atoms_from_placed(entries: Seq<(GridPos, AtomType)>, first: u64) -> Seq<Atom> {
    Seq::new(
        entries.len(),
        |i: int|
            Atom {
                id: (first + i) as u64,
                atom_type: entries[i].1,
                position: entries[i].0.spec_position(),
                movement: None,
                cooldown: None,
            },
    )
}

/// The goal markers a level's goal spawns: one per target of a
/// reach-positions goal, none otherwise.
pub open spec fn goals_of_level(goal: LevelGoal) -> Seq<Goal> {
    match goal {
        LevelGoal::ReachPositions(targets) => targets@.map_values(
            |t: LevelGoalPosition| Goal { atom_type: t.atom_type, position: t.position.spec_position() },
        ),
        _ => Seq::empty(),
    }
}

/// A cell recorded into the occupancy registry: recording an occupied
/// cell changes nothing.
pub open spec fn insert_cell(s: Seq<GridPos>, c: GridPos) -> Seq<GridPos> {
    if s.contains(c) {
        s
    } else {
        s.push(c)
    }
}

/// The cells recorded one after the other into the occupancy registry.
pub open spec fn insert_cells(s: Seq<GridPos>, cells: Seq<GridPos>) -> Seq<GridPos>
    decreases cells.len(),
{
    if cells.len() == 0 {
        s
    } else {
        insert_cell(insert_cells(s, cells.drop_last()), cells.last())
    }
}

/// Recording a concatenation records the two parts one after the other.
proof fn lemma_insert_cells_app(s: Seq<GridPos>, a: Seq<GridPos>, b: Seq<GridPos>)
    ensures
        insert_cells(s, a + b) == insert_cells(insert_cells(s, a), b),
    decreases b.len(),
{
    if b.len() == 0 {
        assert(a + b =~= a);
    } else {
        lemma_insert_cells_app(s, a, b.drop_last());
        assert((a + b).drop_last() =~= a + b.drop_last());
        assert((a + b).last() == b.last());
    }
}

/// The cells a level initialisation occupies, in spawn order: the
/// authored atoms' cells, then the placed atoms' cells, then the goal
/// markers' cells.
pub open spec fn init_cells(l: Level, placed: Seq<(GridPos, AtomType)>) -> Seq<GridPos> {
    l.atoms@.map_values(|la: LevelAtom| la.position) + placed.map_values(
        |e: (GridPos, AtomType)| e.0,
    ) + goal_cells(l.goal)
}

/// The cells a goal's markers stand on.
pub open spec fn goal_cells(goal: LevelGoal) -> Seq<GridPos> {
    match goal {
        LevelGoal::ReachPositions(targets) => targets@.map_values(
            |t: LevelGoalPosition| t.position,
        ),
        _ => Seq::empty(),
    }
}

/// Duplicates a resolution outcome, so that one copy can be reported to
/// the caller while the other is applied to the population.
fn duplicate_outcome(o: &CollisionOutcome) -> (r: CollisionOutcome)
    ensures
        r.despawned@ == o.despawned@,
        r.spawned@ == o.spawned@,
{
    let mut despawned: Vec<u64> = Vec::new();
    let mut i: usize = 0;
    while i < o.despawned.len()
        invariant
            i <= o.despawned@.len(),
            despawned@ == o.despawned@.take(i as int),
        decreases o.despawned@.len() - i,
    {
        despawned.push(o.despawned[i]);
        proof {
            assert(o.despawned@.take(i as int + 1) =~= o.despawned@.take(i as int).push(
                o.despawned@[i as int],
            ));
        }
        i = i + 1;
    }
    let mut spawned: Vec<AtomSeed> = Vec::new();
    let mut i: usize = 0;
    while i < o.spawned.len()
        invariant
            i <= o.spawned@.len(),
            spawned@ == o.spawned@.take(i as int),
        decreases o.spawned@.len() - i,
    {
        spawned.push(o.spawned[i]);
        proof {
            assert(o.spawned@.take(i as int + 1) =~= o.spawned@.take(i as int).push(
                o.spawned@[i as int],
            ));
        }
        i = i + 1;
    }
    proof {
        assert(o.despawned@.take(o.despawned@.len() as int) =~= o.despawned@);
        assert(o.spawned@.take(o.spawned@.len() as int) =~= o.spawned@);
    }
    CollisionOutcome { despawned, spawned }
}

/// Decides whether an identity is on the despawn list.
fn contains_id(ids: &Vec<u64>, id: u64) -> (r: bool)
    ensures
        r == ids@.contains(id),
{
    let mut i: usize = 0;
    while i < ids.len()
        invariant
            i <= ids@.len(),
            forall|k: int| 0 <= k < i ==> ids@[k] != id,
        decreases ids@.len() - i,
    {
        if ids[i] == id {
            proof {
                assert(ids@[i as int] == id);
            }
            return true;
        }
        i = i + 1;
    }
    false
}

/// Resolution spawns at most two products per group.
proof fn lemma_all_seeds_len(atoms: Seq<Atom>, cells: Seq<GridPos>)
    ensures
        all_seeds(atoms, cells).len() <= 2 * cells.len(),
    decreases cells.len(),
{
    if cells.len() > 0 {
        lemma_all_seeds_len(atoms, cells.drop_last());
        crate::collision::lemma_group_spawns_len(members_at(atoms, cells.last()));
    }
}

/// Over a well-formed population, every product spawns at a cell on the
/// play field, with a well-formed velocity, and a spawned wall never
/// moves.
proof fn lemma_all_seeds_wf(atoms: Seq<Atom>, cells: Seq<GridPos>)
    requires
        forall|i: int| 0 <= i < atoms.len() ==> (#[trigger] atoms[i]).wf(),
    ensures
        forall|k: int|
            0 <= k < all_seeds(atoms, cells).len() ==> {
                let sc = #[trigger] all_seeds(atoms, cells)[k];
                &&& sc.1.in_field()
                &&& (sc.0.movement matches Some(m) ==> m.wf())
                &&& (sc.0.atom_type == AtomType::Wall ==> sc.0.movement is None)
            },
    decreases cells.len(),
{
    if cells.len() > 0 {
        lemma_all_seeds_wf(atoms, cells.drop_last());
        let c = cells.last();
        let members = members_at(atoms, c);
        crate::collision::lemma_members_at_membership(atoms, c);
        assert forall|i: int| 0 <= i < members.len() implies (#[trigger] members[i]).wf() by {
            assert(atoms.contains(members[i]));
            let j = choose|j: int| 0 <= j < atoms.len() && atoms[j] == members[i];
        }
        crate::collision::lemma_group_seeds_wf(members);
        crate::collision::lemma_group_spawns_len(members);
        let pre = all_seeds(atoms, cells.drop_last());
        let tail = spec_group_spawns(members).map_values(|s: AtomSeed| (s, c));
        if tail.len() > 0 {
            crate::collision::lemma_members_cell_in_field(atoms, c);
        }
        assert forall|k: int| 0 <= k < all_seeds(atoms, cells).len() implies {
            let sc = #[trigger] all_seeds(atoms, cells)[k];
            &&& sc.1.in_field()
            &&& (sc.0.movement matches Some(m) ==> m.wf())
            &&& (sc.0.atom_type == AtomType::Wall ==> sc.0.movement is None)
        } by {
            if k < pre.len() {
                assert(all_seeds(atoms, cells)[k] == pre[k]);
            } else {
                assert(all_seeds(atoms, cells)[k] == tail[k - pre.len()]);
                assert(tail[k - pre.len()].0 == spec_group_spawns(members)[k - pre.len()]);
            }
        }
    }
}

/// Every atom surviving the resolver's despawns is one of the input
/// atoms, at an input index no earlier than its own.
proof fn lemma_despawn_filter_membership(atoms: Seq<Atom>, ids: Seq<u64>)
    ensures
        despawn_filter(atoms, ids).len() <= atoms.len(),
        forall|k: int|
            0 <= k < despawn_filter(atoms, ids).len() ==> exists|j: int|
                k <= j < atoms.len() && #[trigger] despawn_filter(atoms, ids)[k] == atoms[j],
    decreases atoms.len(),
{
    if atoms.len() > 0 {
        lemma_despawn_filter_membership(atoms.drop_last(), ids);
        assert forall|k: int| 0 <= k < despawn_filter(atoms, ids).len() implies exists|j: int|
            k <= j < atoms.len() && #[trigger] despawn_filter(atoms, ids)[k] == atoms[j] by {
            let pre = despawn_filter(atoms.drop_last(), ids);
            if k < pre.len() {
                let j = choose|j: int|
                    k <= j < atoms.drop_last().len() && pre[k] == atoms.drop_last()[j];
                assert(despawn_filter(atoms, ids)[k] == atoms[j]);
            } else {
                assert(despawn_filter(atoms, ids)[k] == atoms[atoms.len() - 1]);
            }
        }
    }
}

/// The resolver's despawns keep distinct identities distinct.
proof fn lemma_despawn_filter_distinct(atoms: Seq<Atom>, ids: Seq<u64>)
    requires
        forall|i: int, j: int|
            0 <= i < atoms.len() && 0 <= j < atoms.len() && i != j ==> atoms[i].id != atoms[j].id,
    ensures
        forall|k1: int, k2: int|
            0 <= k1 < despawn_filter(atoms, ids).len() && 0 <= k2 < despawn_filter(
                atoms,
                ids,
            ).len() && k1 != k2 ==> despawn_filter(atoms, ids)[k1].id != despawn_filter(
                atoms,
                ids,
            )[k2].id,
    decreases atoms.len(),
{
    if atoms.len() > 0 {
        lemma_despawn_filter_distinct(atoms.drop_last(), ids);
        lemma_despawn_filter_membership(atoms.drop_last(), ids);
        let pre = despawn_filter(atoms.drop_last(), ids);
        let out = despawn_filter(atoms, ids);
        assert forall|k1: int, k2: int|
            0 <= k1 < out.len() && 0 <= k2 < out.len() && k1 != k2 implies out[k1].id
            != out[k2].id by {
            if k1 < pre.len() && k2 < pre.len() {
                assert(out[k1] == pre[k1] && out[k2] == pre[k2]);
            } else if k1 < pre.len() {
                let j = choose|j: int|
                    k1 <= j < atoms.drop_last().len() && pre[k1] == atoms.drop_last()[j];
                assert(out[k1] == atoms[j] && out[k2] == atoms[atoms.len() - 1]);
            } else {
                let j = choose|j: int|
                    k2 <= j < atoms.drop_last().len() && pre[k2] == atoms.drop_last()[j];
                assert(out[k2] == atoms[j] && out[k1] == atoms[atoms.len() - 1]);
            }
        }
    }
}

/// What a level initialisation leaves on the field, given what reading
/// the level yielded, the first fresh identity, and the placements: the
/// authored atoms, then the placed atoms, then the goal markers, with the
/// occupancy registry recording their cells; or an empty field when no
/// level could be read.
pub open spec fn init_result(
    post: Simulation,
    level_r: Result<Level, GetLevelError>,
    first: u64,
    placed: Seq<(GridPos, AtomType)>,
) -> bool {
    match level_r {
        Ok(l) => {
            &&& post.atoms@ == atoms_from_level(l.atoms@, first) + atoms_from_placed(
                placed,
                (first + l.atoms@.len()) as u64,
            )
            &&& post.goals@ == goals_of_level(l.goal)
            &&& post.next_id == first + l.atoms@.len() + placed.len()
            &&& post.occupied.cells@ == insert_cells(Seq::empty(), init_cells(l, placed))
        },
        Err(_) => {
            &&& post.atoms@ == Seq::<Atom>::empty()
            &&& post.goals@ == Seq::<Goal>::empty()
            &&& post.next_id == first
            &&& post.occupied.cells@ == Seq::<GridPos>::empty()
        },
    }
}

impl Simulation {
    /// The simulation's data invariant: every atom and goal marker is
    /// well formed, identities are unique and below the allocator's next
    /// value, and every registry is well formed.
    pub open spec fn wf(self) -> bool {
        &&& forall|i: int| 0 <= i < self.atoms@.len() ==> (#[trigger] self.atoms@[i]).wf()
        &&& forall|i: int, j: int|
            0 <= i < self.atoms@.len() && 0 <= j < self.atoms@.len() && i != j
                ==> self.atoms@[i].id != self.atoms@[j].id
        &&& forall|i: int| 0 <= i < self.atoms@.len() ==> (#[trigger] self.atoms@[i]).id < self.next_id
        &&& forall|i: int| 0 <= i < self.goals@.len() ==> (#[trigger] self.goals@[i]).wf()
        &&& forall|i: int|
            0 <= i < self.placed_atoms.entries@.len() ==> (#[trigger] self.placed_atoms.entries@[i]).0.in_field()
        &&& self.current_level.wf()
        &&& self.level_assets.wf()
        &&& self.placed_atoms.wf()
        &&& self.occupied.wf()
    }

    /// There is identity headroom for one level initialisation.
    pub open spec fn init_headroom(self) -> bool {
        match self.current_level.spec_get_level(self.level_assets) {
            Ok(l) => self.next_id + l.atoms@.len() + self.placed_atoms.entries@.len()
                <= u64::MAX,
            Err(_) => true,
        }
    }

    /// There is identity headroom for one tick's spawns.
    pub open spec fn spawn_headroom(self) -> bool {
        self.next_id + 2 * self.atoms@.len() <= u64::MAX
    }

    /// Creates an idle simulation over a store of decoded levels: in the
    /// placement phase, with no level set and nothing on the field.
    pub fn new(level_assets: LevelAssets) -> (r: Simulation)
        requires
            level_assets.wf(),
        ensures
            r.state == GameState::Placement,
            r.atoms@ =~= Seq::<Atom>::empty(),
            r.goals@ =~= Seq::<Goal>::empty(),
            r.next_id == 0,
            r.current_level == CurrentLevel::Uninitialised,
            r.level_assets == level_assets,
            r.placed_atoms.entries@ =~= Seq::<(GridPos, AtomType)>::empty(),
            r.occupied.cells@ =~= Seq::<GridPos>::empty(),
            r.messages@ =~= Seq::<SimMessage>::empty(),
            r.wf(),
    {
        Simulation {
            state: GameState::Placement,
            atoms: Vec::new(),
            goals: Vec::new(),
            next_id: 0,
            current_level: CurrentLevel::Uninitialised,
            level_assets,
            placed_atoms: PlacedLevelAtoms::new(),
            occupied: OccupiedGridPositions::new(),
            messages: Vec::new(),
        }
    }

    /// Re-populates the play field for the placement phase: everything on
    /// the field is despawned, then the active level's authored atoms,
    /// the player's placed atoms and the goal markers are spawned, and
    /// the occupancy registry records their cells.  If no level can be
    /// read the simulation is left idle, with an empty field.
    pub fn initialise_level(&mut self)
        requires
            old(self).wf(),
            old(self).init_headroom(),
        ensures
            final(self).wf(),
            final(self).state == old(self).state,
            final(self).messages@ == old(self).messages@,
            final(self).current_level == old(self).current_level,
            final(self).level_assets == old(self).level_assets,
            final(self).placed_atoms == old(self).placed_atoms,
            init_result(
                *final(self),
                old(self).current_level.spec_get_level(old(self).level_assets),
                old(self).next_id,
                old(self).placed_atoms.entries@,
            ),
    {
        self.atoms.clear();
        self.goals.clear();
        self.occupied.clear();
        proof {
            assert(self.atoms@ =~= Seq::<Atom>::empty());
            assert(self.goals@ =~= Seq::<Goal>::empty());
            assert(self.occupied.cells@ =~= Seq::<GridPos>::empty());
        }
        let level = match self.current_level.get_level(&self.level_assets) {
            Ok(l) => l,
            Err(_) => {
                return;
            },
        };
        let ghost l = old(self).current_level.spec_get_level(old(self).level_assets)->Ok_0;
        proof {
            old(self).current_level.lemma_get_level_wf(old(self).level_assets);
            assert(*level == l);
            assert(l.wf());
        }
        let ghost first = old(self).next_id;
        let ghost placed0 = old(self).placed_atoms.entries@;
        let ghost level_cells = l.atoms@.map_values(|la: LevelAtom| la.position);
        let ghost placed_cells = placed0.map_values(|e: (GridPos, AtomType)| e.0);

        // Spawn the level's authored atoms, walls always stationary.
        let n_level = level.atoms.len();
        let mut i: usize = 0;
        while i < n_level
            invariant
                old(self).wf(),
                *level == l,
                l.wf(),
                n_level == l.atoms@.len(),
                i <= n_level,
                level_cells == l.atoms@.map_values(|la: LevelAtom| la.position),
                first + l.atoms@.len() + placed0.len() <= u64::MAX,
                self.next_id == first + i,
                self.atoms@.len() == i as int,
                forall|k: int|
                    0 <= k < i ==> self.atoms@[k] == atoms_from_level(l.atoms@, first)[k],
                self.occupied.cells@ == insert_cells(
                    Seq::empty(),
                    level_cells.take(i as int),
                ),
                self.occupied.wf(),
                self.goals@ == Seq::<Goal>::empty(),
                self.state == old(self).state,
                self.messages@ == old(self).messages@,
                self.current_level == old(self).current_level,
                self.level_assets == old(self).level_assets,
                self.placed_atoms == old(self).placed_atoms,
            decreases n_level - i,
        {
            let la = level.atoms[i];
            proof {
                assert(l.atoms@[i as int].wf());
            }
            let movement = match la.atom_type {
                AtomType::Wall => None,
                _ => la.velocity,
            };
            let id = self.next_id;
            self.atoms.push(
                Atom {
                    id,
                    atom_type: la.atom_type,
                    position: la.position.position(),
                    movement,
                    cooldown: None,
                },
            );
            self.next_id = self.next_id + 1;
            let ghost occ_pre = self.occupied.cells@;
            self.occupied.insert(la.position);
            proof {
                assert(level_cells.take(i as int + 1).drop_last() =~= level_cells.take(i as int));
                assert(level_cells.take(i as int + 1).last() == la.position);
                assert(self.occupied.cells@ == insert_cell(occ_pre, la.position));
                assert(self.occupied.cells@ == insert_cells(
                    Seq::empty(),
                    level_cells.take(i as int + 1),
                ));
            }
            i = i + 1;
        }
        proof {
            assert(level_cells.take(level_cells.len() as int) =~= level_cells);
        }

        // Spawn the player's placed atoms, stationary.
        let n_placed = self.placed_atoms.entries.len();
        let ghost occ_after_level = self.occupied.cells@;
        let mut i: usize = 0;
        while i < n_placed
            invariant
                old(self).wf(),
                l.wf(),
                placed0 == old(self).placed_atoms.entries@,
                placed_cells == placed0.map_values(|e: (GridPos, AtomType)| e.0),
                n_placed == placed0.len(),
                i <= n_placed,
                first + l.atoms@.len() + placed0.len() <= u64::MAX,
                self.next_id == first + l.atoms@.len() + i,
                self.atoms@.len() == l.atoms@.len() + i,
                forall|k: int|
                    0 <= k < l.atoms@.len() ==> self.atoms@[k] == atoms_from_level(
                        l.atoms@,
                        first,
                    )[k],
                forall|k: int|
                    0 <= k < i ==> self.atoms@[l.atoms@.len() + k] == (#[trigger] atoms_from_placed(
                        placed0,
                        (first + l.atoms@.len()) as u64,
                    )[k]),
                occ_after_level == insert_cells(Seq::empty(), level_cells),
                self.occupied.cells@ == insert_cells(
                    occ_after_level,
                    placed_cells.take(i as int),
                ),
                self.occupied.wf(),
                self.goals@ == Seq::<Goal>::empty(),
                self.state == old(self).state,
                self.messages@ == old(self).messages@,
                self.current_level == old(self).current_level,
                self.level_assets == old(self).level_assets,
                self.placed_atoms == old(self).placed_atoms,
            decreases n_placed - i,
        {
            let entry = self.placed_atoms.entries[i];
            proof {
                assert(old(self).placed_atoms.entries@[i as int].0.in_field());
            }
            let id = self.next_id;
            self.atoms.push(
                Atom {
                    id,
                    atom_type: entry.1,
                    position: entry.0.position(),
                    movement: None,
                    cooldown: None,
                },
            );
            self.next_id = self.next_id + 1;
            let ghost occ_pre = self.occupied.cells@;
            self.occupied.insert(entry.0);
            proof {
                assert(placed_cells.take(i as int + 1).drop_last() =~= placed_cells.take(i as int));
                assert(placed_cells.take(i as int + 1).last() == entry.0);
                assert(self.occupied.cells@ == insert_cell(occ_pre, entry.0));
            }
            i = i + 1;
        }
        proof {
            assert(placed_cells.take(placed_cells.len() as int) =~= placed_cells);
            assert(self.atoms@ =~= atoms_from_level(l.atoms@, first) + atoms_from_placed(
                placed0,
                (first + l.atoms@.len()) as u64,
            ));
        }

        // Spawn the goal markers.
        let ghost occ_after_placed = self.occupied.cells@;
        if let LevelGoal::ReachPositions(targets) = &level.goal {
            let ghost tcells = goal_cells(l.goal);
            let n_targets = targets.len();
            let mut i: usize = 0;
            while i < n_targets
                invariant
                    l.wf(),
                    l.goal matches LevelGoal::ReachPositions(ts) && ts@ == targets@,
                    tcells == goal_cells(l.goal),
                    n_targets == targets@.len(),
                    i <= n_targets,
                    self.goals@.len() == i as int,
                    forall|k: int| 0 <= k < i ==> self.goals@[k] == goals_of_level(l.goal)[k],
                    self.occupied.cells@ == insert_cells(occ_after_placed, tcells.take(i as int)),
                    self.occupied.wf(),
                    self.atoms@ == atoms_from_level(l.atoms@, first) + atoms_from_placed(
                        placed0,
                        (first + l.atoms@.len()) as u64,
                    ),
                    self.next_id == first + l.atoms@.len() + placed0.len(),
                    self.state == old(self).state,
                    self.messages@ == old(self).messages@,
                    self.current_level == old(self).current_level,
                    self.level_assets == old(self).level_assets,
                    self.placed_atoms == old(self).placed_atoms,
                decreases n_targets - i,
            {
                let t = targets[i];
                proof {
                    assert(targets@[i as int].wf());
                }
                self.goals.push(
                    Goal { atom_type: t.atom_type, position: t.position.position() },
                );
                let ghost occ_pre = self.occupied.cells@;
                self.occupied.insert(t.position);
                proof {
                    assert(tcells.take(i as int + 1).drop_last() =~= tcells.take(i as int));
                    assert(tcells.take(i as int + 1).last() == t.position);
                    assert(self.occupied.cells@ == insert_cell(occ_pre, t.position));
                }
                i = i + 1;
            }
            proof {
                assert(tcells.take(tcells.len() as int) =~= tcells);
                assert(self.goals@ =~= goals_of_level(l.goal));
            }
        } else {
            proof {
                assert(goal_cells(l.goal) =~= Seq::<GridPos>::empty());
                assert(insert_cells(occ_after_placed, goal_cells(l.goal)) == occ_after_placed);
                assert(self.goals@ =~= goals_of_level(l.goal));
            }
        }
        proof {
            lemma_insert_cells_app(Seq::empty(), level_cells, placed_cells);
            lemma_insert_cells_app(Seq::empty(), level_cells + placed_cells, goal_cells(l.goal));
            assert(level_cells + placed_cells + goal_cells(l.goal) == init_cells(l, placed0));
            assert(self.occupied.cells@ == insert_cells(
                Seq::empty(),
                init_cells(l, placed0),
            ));
        }
    }

    /// Handles a placement intent: an atom of the given type at the given
    /// cell.  Accepted exactly when the simulation is in the placement
    /// phase and the cell is free; an accepted placement spawns the atom,
    /// records it as placed and occupies the cell.  Either way a
    /// notification is queued.
    pub fn place_atom(&mut self, atom_type: AtomType, position: GridPos) -> (accepted: bool)
        requires
            old(self).wf(),
            position.in_field(),
            old(self).next_id < u64::MAX,
        ensures
            final(self).wf(),
            accepted == (old(self).state == GameState::Placement && !old(
                self,
            ).occupied.spec_contains(position)),
            final(self).state == old(self).state,
            final(self).goals@ == old(self).goals@,
            final(self).current_level == old(self).current_level,
            final(self).level_assets == old(self).level_assets,
            if accepted {
                &&& final(self).atoms@ == old(self).atoms@.push(
                    Atom {
                        id: old(self).next_id,
                        atom_type,
                        position: position.spec_position(),
                        movement: None,
                        cooldown: None,
                    },
                )
                &&& final(self).next_id == old(self).next_id + 1
                &&& final(self).occupied.cells@ == old(self).occupied.cells@.push(position)
                &&& final(self).placed_atoms.entries@ == if old(self).placed_atoms.spec_contains(
                    position,
                ) {
                    old(self).placed_atoms.entries@
                } else {
                    old(self).placed_atoms.entries@.push((position, atom_type))
                }
                &&& final(self).messages@ == old(self).messages@.push(
                    SimMessage::PlacementAccepted { atom_type, position },
                )
            } else {
                &&& final(self).atoms@ == old(self).atoms@
                &&& final(self).next_id == old(self).next_id
                &&& final(self).occupied == old(self).occupied
                &&& final(self).placed_atoms == old(self).placed_atoms
                &&& final(self).messages@ == old(self).messages@.push(
                    SimMessage::PlacementRejected { atom_type, position },
                )
            },
    {
        let in_placement = matches!(self.state, GameState::Placement);
        if in_placement && !self.occupied.contains(&position) {
            let id = self.next_id;
            self.atoms.push(crate::atom::atom(id, atom_type, position));
            self.next_id = self.next_id + 1;
            self.occupied.insert(position);
            self.placed_atoms.add(atom_type, position);
            self.messages.push(SimMessage::PlacementAccepted { atom_type, position });
            true
        } else {
            self.messages.push(SimMessage::PlacementRejected { atom_type, position });
            false
        }
    }

    /// Applies the external start/stop toggle: starting leaves the field
    /// as placed; stopping settles back into the placement phase and
    /// re-initialises the level.  In any other state the toggle does
    /// nothing.
    pub fn toggle_start_stop(&mut self)
        requires
            old(self).wf(),
            old(self).state == GameState::Running ==> old(self).init_headroom(),
        ensures
            final(self).wf(),
            final(self).state == old(self).state.spec_toggled(),
            final(self).messages@ == old(self).messages@,
            final(self).current_level == old(self).current_level,
            final(self).level_assets == old(self).level_assets,
            final(self).placed_atoms == old(self).placed_atoms,
            old(self).state == GameState::Running ==> init_result(
                *final(self),
                old(self).current_level.spec_get_level(old(self).level_assets),
                old(self).next_id,
                old(self).placed_atoms.entries@,
            ),
            old(self).state != GameState::Running ==> {
                &&& final(self).atoms@ == old(self).atoms@
                &&& final(self).goals@ == old(self).goals@
                &&& final(self).next_id == old(self).next_id
                &&& final(self).occupied == old(self).occupied
            },
    {
        let was_running = matches!(self.state, GameState::Running);
        self.state = self.state.toggled();
        if was_running {
            self.initialise_level();
        }
    }

    /// Handles an external reset request: the player's placements are
    /// forgotten and the simulation enters the reset state, from which
    /// the next tick settles back into the placement phase.
    pub fn request_reset(&mut self)
        requires
            old(self).wf(),
        ensures
            final(self).wf(),
            final(self).state == GameState::RestartLevel,
            final(self).placed_atoms.entries@ =~= Seq::<(GridPos, AtomType)>::empty(),
            final(self).atoms@ == old(self).atoms@,
            final(self).goals@ == old(self).goals@,
            final(self).next_id == old(self).next_id,
            final(self).current_level == old(self).current_level,
            final(self).level_assets == old(self).level_assets,
            final(self).occupied == old(self).occupied,
            final(self).messages@ == old(self).messages@,
    {
        self.placed_atoms.clear();
        self.state = GameState::RestartLevel;
    }

    /// Handles the continue signal after a completed level: forgets the
    /// placements and advances to the next level of the store, entering
    /// the placement phase on it.  With no further level, nothing but the
    /// placements changes and the failure is reported to the caller.
    pub fn goto_next_level(&mut self) -> (advanced: bool)
        requires
            old(self).wf(),
            old(self).current_level matches CurrentLevel::Loaded { level_handle, level_index }
                && level_index < usize::MAX,
            ({
                let ni = (old(self).current_level->Loaded_level_index + 1) as usize;
                (CurrentLevel::Loaded { level_handle: ni, level_index: ni }).spec_get_level(
                    old(self).level_assets,
                ) matches Ok(l) ==> old(self).next_id + l.atoms@.len() <= u64::MAX
            }),
        ensures
            final(self).wf(),
            final(self).placed_atoms.entries@ =~= Seq::<(GridPos, AtomType)>::empty(),
            final(self).messages@ == old(self).messages@,
            final(self).level_assets == old(self).level_assets,
            ({
                let ni = (old(self).current_level->Loaded_level_index + 1) as usize;
                if ni < old(self).level_assets.levels@.len() {
                    &&& advanced
                    &&& final(self).state == GameState::Placement
                    &&& final(self).current_level == (CurrentLevel::Loaded {
                        level_handle: ni,
                        level_index: ni,
                    })
                    &&& init_result(
                        *final(self),
                        (CurrentLevel::Loaded {
                            level_handle: ni,
                            level_index: ni,
                        }).spec_get_level(old(self).level_assets),
                        old(self).next_id,
                        Seq::empty(),
                    )
                } else {
                    &&& !advanced
                    &&& final(self).state == old(self).state
                    &&& final(self).current_level == old(self).current_level
                    &&& final(self).atoms@ == old(self).atoms@
                    &&& final(self).goals@ == old(self).goals@
                    &&& final(self).next_id == old(self).next_id
                    &&& final(self).occupied == old(self).occupied
                }
            }),
    {
        self.placed_atoms.clear();
        let idx = if let CurrentLevel::Loaded { level_handle: _, level_index } =
            &self.current_level {
            *level_index
        } else {
            proof {
                assert(false);
            }
            0
        };
        let ni = idx + 1;
        if ni >= self.level_assets.levels.len() {
            return false;
        }
        self.current_level.set_level(ni, ni);
        self.state = GameState::Placement;
        self.initialise_level();
        true
    }

    /// Advances the simulation by one tick of `dt` milliseconds.
    ///
    /// Only a `Running` simulation ticks, in fixed order: immunity
    /// countdowns shrink, moving atoms advance, collision groups are
    /// detected and resolved (despawns applied, products spawned with the
    /// immunity window), then the goal tracker consumes satisfied markers
    /// and evaluates the win condition over the resulting population; on
    /// a win the state settles into `LevelComplete`.  A `RestartLevel`
    /// simulation settles into `Placement` and re-initialises the level.
    /// Any other state leaves everything untouched.  One notification is
    /// queued per collision group, and one more on a win.
    pub fn tick(&mut self, dt: u32)
        requires
            old(self).wf(),
            dt <= crate::movement::DT_LIMIT_MS,
            old(self).state == GameState::Running ==> old(self).spawn_headroom(),
            old(self).state == GameState::RestartLevel ==> old(self).init_headroom(),
        ensures
            final(self).wf(),
            final(self).current_level == old(self).current_level,
            final(self).level_assets == old(self).level_assets,
            final(self).placed_atoms == old(self).placed_atoms,
            (old(self).state == GameState::Placement || old(self).state
                == GameState::LevelComplete) ==> *final(self) == *old(self),
            old(self).state == GameState::RestartLevel ==> {
                &&& final(self).state == GameState::Placement
                &&& final(self).messages@ == old(self).messages@
                &&& init_result(
                    *final(self),
                    old(self).current_level.spec_get_level(old(self).level_assets),
                    old(self).next_id,
                    old(self).placed_atoms.entries@,
                )
            },
            old(self).state == GameState::Running ==> ({
                let a2 = ticked_atoms(old(self).atoms@, dt);
                let cells = colliding_cells(a2);
                let seeds = all_seeds(a2, cells);
                let atoms4 = resolved_atoms(a2, old(self).next_id);
                let goals5 = surviving_goals(old(self).goals@, atoms4);
                let atoms5 = surviving_atoms(atoms4, old(self).goals@);
                let win = match old(self).current_level.spec_get_level(old(self).level_assets) {
                    Ok(l) => spec_win(l.goal, goals5, atoms5),
                    Err(_) => false,
                };
                &&& final(self).atoms@ == atoms5
                &&& final(self).goals@ == goals5
                &&& final(self).next_id == old(self).next_id + seeds.len()
                &&& final(self).state == if win {
                    GameState::LevelComplete
                } else {
                    GameState::Running
                }
                &&& final(self).occupied == old(self).occupied
                &&& final(self).messages@.len() == old(self).messages@.len() + cells.len() + (
                if win {
                    1int
                } else {
                    0int
                })
                &&& final(self).messages@.take(old(self).messages@.len() as int) == old(
                    self,
                ).messages@
                &&& forall|k: int|
                    0 <= k < cells.len() ==> ((#[trigger] final(self).messages@[old(
                        self,
                    ).messages@.len() + k]) matches SimMessage::Collision(ev, out)
                        && ev.position == cells[k] && ev.entities@ == members_at(
                        a2,
                        cells[k],
                    ).map_values(|a: Atom| a.id) && out.despawned@ == spec_group_despawns(
                        members_at(a2, cells[k]),
                    ) && out.spawned@ == spec_group_spawns(members_at(a2, cells[k])))
                &&& win ==> final(self).messages@.last() == SimMessage::LevelCompleted
            }),
    {
        match self.state {
            GameState::Placement => {
                return;
            },
            GameState::LevelComplete => {
                return;
            },
            GameState::RestartLevel => {
                self.state = GameState::Placement;
                self.initialise_level();
                return;
            },
            GameState::Running => {},
        }

        let ghost a0 = old(self).atoms@;
        let ghost first = old(self).next_id;
        let ghost msg0 = old(self).messages@;

        // Timers first, then movement.
        crate::collision::tick_collision_cooldown(&mut self.atoms, dt);
        proof {
            assert forall|i: int| 0 <= i < self.atoms@.len() implies (
            #[trigger] self.atoms@[i]).wf() by {
                assert(self.atoms@[i] == atom_cooled(a0[i], dt));
                assert(a0[i].wf());
            }
        }
        crate::movement::move_atoms(&mut self.atoms, dt);
        proof {
            assert(self.atoms@ =~= ticked_atoms(a0, dt));
        }
        let ghost a2 = self.atoms@;
        let ghost cells = colliding_cells(a2);
        proof {
            assert(forall|i: int| 0 <= i < a2.len() ==> (#[trigger] a2[i]).wf());
            assert forall|i: int| 0 <= i < a2.len() implies (#[trigger] a2[i]).id == a0[i].id by {
                assert(a2[i] == moved_atom(atom_cooled(a0[i], dt), dt));
            }
        }

        // Detect this tick's collision groups and resolve each one.
        let groups = crate::collision::detect_atom_collisions(&self.atoms);
        let mut despawn_ids: Vec<u64> = Vec::new();
        let mut seeds: Vec<(AtomSeed, GridPos)> = Vec::new();
        let mut gi: usize = 0;
        while gi < groups.len()
            invariant
                gi <= groups@.len(),
                self.atoms@ == a2,
                cells == colliding_cells(a2),
                groups@.len() == cells.len(),
                forall|j: int|
                    0 <= j < groups@.len() ==> (#[trigger] groups@[j]).position == cells[j]
                        && groups@[j].members@ == members_at(a2, cells[j]),
                despawn_ids@ == all_despawns(a2, cells.take(gi as int)),
                seeds@ == all_seeds(a2, cells.take(gi as int)),
                self.messages@.len() == msg0.len() + gi,
                self.messages@.take(msg0.len() as int) == msg0,
                forall|k: int|
                    0 <= k < gi ==> ((#[trigger] self.messages@[msg0.len() + k]) matches SimMessage::Collision(ev, out)
                        && ev.position == cells[k] && ev.entities@ == members_at(
                        a2,
                        cells[k],
                    ).map_values(|a: Atom| a.id) && out.despawned@ == spec_group_despawns(
                        members_at(a2, cells[k]),
                    ) && out.spawned@ == spec_group_spawns(members_at(a2, cells[k]))),
                self.state == GameState::Running,
                self.goals@ == old(self).goals@,
                self.next_id == first,
                self.current_level == old(self).current_level,
                self.level_assets == old(self).level_assets,
                self.placed_atoms == old(self).placed_atoms,
                self.occupied == old(self).occupied,
            decreases groups@.len() - gi,
        {
            proof {
                assert(cells.take(gi as int + 1).drop_last() =~= cells.take(gi as int));
                assert(cells.take(gi as int + 1).last() == cells[gi as int]);
            }
            let g = &groups[gi];
            let mut outcome = crate::collision::handle_collision(g);

            // Queue the collision notification.
            let mut entities: Vec<u64> = Vec::new();
            let mut mi: usize = 0;
            while mi < g.members.len()
                invariant
                    mi <= g.members@.len(),
                    entities@ == g.members@.take(mi as int).map_values(|a: Atom| a.id),
                decreases g.members@.len() - mi,
            {
                entities.push(g.members[mi].id);
                proof {
                    assert(g.members@.take(mi as int + 1).map_values(|a: Atom| a.id)
                        =~= g.members@.take(mi as int).map_values(|a: Atom| a.id).push(
                        g.members@[mi as int].id,
                    ));
                }
                mi = mi + 1;
            }
            proof {
                assert(g.members@.take(g.members@.len() as int) =~= g.members@);
            }
            let position = g.position;
            let reported = duplicate_outcome(&outcome);
            self.messages.push(
                SimMessage::Collision(CollisionEvent { entities, position }, reported),
            );

            // Collect the group's despawns and spawns.
            despawn_ids.append(&mut outcome.despawned);
            let mut si: usize = 0;
            while si < outcome.spawned.len()
                invariant
                    si <= outcome.spawned@.len(),
                    outcome.spawned@ == spec_group_spawns(members_at(a2, cells[gi as int])),
                    gi < cells.len(),
                    seeds@ == all_seeds(a2, cells.take(gi as int)) + outcome.spawned@.take(
                        si as int,
                    ).map_values(|s: AtomSeed| (s, cells[gi as int])),
                    position == cells[gi as int],
                decreases outcome.spawned@.len() - si,
            {
                let s = outcome.spawned[si];
                seeds.push((s, position));
                proof {
                    assert(outcome.spawned@.take(si as int + 1).map_values(
                        |s: AtomSeed| (s, cells[gi as int]),
                    ) =~= outcome.spawned@.take(si as int).map_values(
                        |s: AtomSeed| (s, cells[gi as int]),
                    ).push((outcome.spawned@[si as int], cells[gi as int])));
                }
                si = si + 1;
            }
            proof {
                assert(outcome.spawned@.take(outcome.spawned@.len() as int)
                    =~= outcome.spawned@);
                assert(seeds@ =~= all_seeds(a2, cells.take(gi as int + 1)));
                assert(despawn_ids@ =~= all_despawns(a2, cells.take(gi as int + 1)));
            }
            gi = gi + 1;
        }
        proof {
            assert(cells.take(cells.len() as int) =~= cells);
        }
        let ghost desp = despawn_ids@;
        let ghost seeds_spec = seeds@;

        // Apply the despawns.
        let mut kept: Vec<Atom> = Vec::new();
        let mut i: usize = 0;
        while i < self.atoms.len()
            invariant
                i <= a2.len(),
                self.atoms@ == a2,
                desp == despawn_ids@,
                kept@ == despawn_filter(a2.take(i as int), desp),
            decreases a2.len() - i,
        {
            proof {
                assert(a2.take(i as int + 1).drop_last() =~= a2.take(i as int));
                assert(a2.take(i as int + 1).last() == a2[i as int]);
            }
            let a = self.atoms[i];
            if !contains_id(&despawn_ids, a.id) {
                kept.push(a);
            }
            i = i + 1;
        }
        proof {
            assert(a2.take(a2.len() as int) =~= a2);
        }
        self.atoms = kept;

        // Spawn the reaction products, counting identities up.
        proof {
            lemma_all_seeds_len(a2, cells);
            crate::collision::lemma_candidate_cells_len(a2);
            crate::collision::lemma_colliding_cells_from_len(
                a2,
                crate::collision::candidate_cells(a2),
            );
            assert(seeds_spec.len() <= 2 * a0.len());
        }
        let mut i: usize = 0;
        let total = seeds.len();
        while i < total
            invariant
                i <= total,
                total == seeds_spec.len(),
                seeds@ == seeds_spec,
                seeds_spec == all_seeds(a2, cells),
                cells == colliding_cells(a2),
                forall|k: int| 0 <= k < a2.len() ==> (#[trigger] a2[k]).wf(),
                first + seeds_spec.len() <= u64::MAX,
                self.next_id == first + i,
                self.atoms@ == despawn_filter(a2, desp) + spawn_all(
                    seeds_spec.take(i as int),
                    first,
                ),
                self.state == GameState::Running,
                self.goals@ == old(self).goals@,
                self.messages@.len() == msg0.len() + cells.len(),
                self.messages@.take(msg0.len() as int) == msg0,
                forall|k: int|
                    0 <= k < cells.len() ==> ((#[trigger] self.messages@[msg0.len() + k]) matches SimMessage::Collision(ev, out)
                        && ev.position == cells[k] && ev.entities@ == members_at(
                        a2,
                        cells[k],
                    ).map_values(|a: Atom| a.id) && out.despawned@ == spec_group_despawns(
                        members_at(a2, cells[k]),
                    ) && out.spawned@ == spec_group_spawns(members_at(a2, cells[k]))),
                self.current_level == old(self).current_level,
                self.level_assets == old(self).level_assets,
                self.placed_atoms == old(self).placed_atoms,
                self.occupied == old(self).occupied,
            decreases total - i,
        {
            proof {
                lemma_all_seeds_wf(a2, cells);
                assert(seeds_spec.take(i as int + 1).drop_last() =~= seeds_spec.take(i as int));
            }
            let (s, cell) = seeds[i];
            let id = self.next_id;
            let cooldown = Some(CollisionCooldown { remaining_ms: COLLISION_IMMUNITY_MS });
            self.atoms.push(
                Atom { id, atom_type: s.atom_type, position: cell.position(), movement: s.movement, cooldown },
            );
            self.next_id = self.next_id + 1;
            proof {
                assert(spawn_all(seeds_spec.take(i as int + 1), first) =~= spawn_all(
                    seeds_spec.take(i as int),
                    first,
                ).push(spawned_atom(seeds_spec[i as int].0, seeds_spec[i as int].1, (first
                    + i) as u64)));
            }
            i = i + 1;
        }
        proof {
            assert(seeds_spec.take(seeds_spec.len() as int) =~= seeds_spec);
        }
        let ghost atoms4 = self.atoms@;

        // The collision phase keeps the population well formed.
        proof {
            lemma_despawn_filter_membership(a2, desp);
            lemma_despawn_filter_distinct(a2, desp);
            lemma_all_seeds_wf(a2, cells);
            let filt = despawn_filter(a2, desp);
            assert forall|k: int| 0 <= k < atoms4.len() implies (#[trigger] atoms4[k]).wf()
                && atoms4[k].id < self.next_id by {
                if k < filt.len() {
                    assert(atoms4[k] == filt[k]);
                    let j = choose|j: int| k <= j < a2.len() && filt[k] == a2[j];
                    assert(a2[j].wf());
                    assert(a2[j].id == a0[j].id);
                } else {
                    assert(atoms4[k] == spawn_all(seeds_spec, first)[k - filt.len()]);
                }
            }
            assert forall|k1: int, k2: int|
                0 <= k1 < atoms4.len() && 0 <= k2 < atoms4.len() && k1 != k2 implies atoms4[k1].id
                != atoms4[k2].id by {
                let filt = despawn_filter(a2, desp);
                if k1 < filt.len() && k2 < filt.len() {
                } else if k1 < filt.len() {
                    let j = choose|j: int| k1 <= j < a2.len() && filt[k1] == a2[j];
                    assert(a2[j].id == a0[j].id);
                    assert(atoms4[k2] == spawn_all(seeds_spec, first)[k2 - filt.len()]);
                } else if k2 < filt.len() {
                    let j = choose|j: int| k2 <= j < a2.len() && filt[k2] == a2[j];
                    assert(a2[j].id == a0[j].id);
                    assert(atoms4[k1] == spawn_all(seeds_spec, first)[k1 - filt.len()]);
                } else {
                    assert(atoms4[k1] == spawn_all(seeds_spec, first)[k1 - filt.len()]);
                    assert(atoms4[k2] == spawn_all(seeds_spec, first)[k2 - filt.len()]);
                }
            }
        }

        // Goal consumption over the resulting population, then the win
        // check.
        proof {
            assert(forall|i2: int|
                0 <= i2 < self.goals@.len() ==> (#[trigger] self.goals@[i2]).wf());
        }
        crate::win_condition::check_goal_collisions(&mut self.atoms, &mut self.goals);
        proof {
            crate::win_condition::lemma_surviving_atoms_membership(atoms4, old(self).goals@);
            crate::win_condition::lemma_surviving_atoms_distinct(atoms4, old(self).goals@);
            crate::win_condition::lemma_surviving_goals_membership(old(self).goals@, atoms4);
            assert forall|k: int| 0 <= k < self.atoms@.len() implies (
            #[trigger] self.atoms@[k]).wf() && self.atoms@[k].id < self.next_id by {
                let j = choose|j: int|
                    k <= j < atoms4.len() && self.atoms@[k] == atoms4[j];
            }
            assert forall|k: int| 0 <= k < self.goals@.len() implies (
            #[trigger] self.goals@[k]).wf() by {
                let j = choose|j: int|
                    0 <= j < old(self).goals@.len() && self.goals@[k] == old(self).goals@[j];
            }
        }
        let win = match self.current_level.get_level(&self.level_assets) {
            Ok(l) => crate::win_condition::check_win_condition(&l.goal, &self.goals, &self.atoms),
            Err(_) => false,
        };
        if win {
            self.state = GameState::LevelComplete;
            self.messages.push(SimMessage::LevelCompleted);
        }
    }

    /// Hands the queued outbound messages to the caller and empties the
    /// queue.
    pub fn drain_messages(&mut self) -> (r: Vec<SimMessage>)
        ensures
            r@ == old(self).messages@,
            final(self).messages@ =~= Seq::<SimMessage>::empty(),
            final(self).state == old(self).state,
            final(self).atoms@ == old(self).atoms@,
            final(self).goals@ == old(self).goals@,
            final(self).next_id == old(self).next_id,
            final(self).current_level == old(self).current_level,
            final(self).level_assets == old(self).level_assets,
            final(self).placed_atoms == old(self).placed_atoms,
            final(self).occupied == old(self).occupied,
    {
        let mut out: Vec<SimMessage> = Vec::new();
        core::mem::swap(&mut out, &mut self.messages);
        out
    }
}

} // verus!
