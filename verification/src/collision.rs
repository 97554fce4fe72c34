//! Collision detection and the reaction rule table.
//!
//! Each tick, atoms standing within a small tolerance of a grid
//! intersection are bucketed by that intersection's cell; every bucket
//! with at least two members becomes one collision group, which the
//! resolver consumes.

use vstd::pervasive::VecAdditionalExecFns;
use vstd::prelude::*;

use crate::atom::{Atom, AtomType};
use crate::grid::GridPos;
use crate::movement::{CardinalDirection, Movement, DEFAULT_SPEED_MILLI};

verus! {

/// How long a freshly spawned reaction product is excluded from collision
/// detection, in milliseconds: 0.5 simulated seconds.
pub const COLLISION_IMMUNITY_MS: u32 = 500;

/// The immunity countdown attached to freshly spawned reaction products,
/// in milliseconds.  While it is present the atom is invisible to the
/// collision detector.
#[derive(Clone, Copy, Debug, PartialEq, Eq, Structural)]
pub struct CollisionCooldown {
    pub remaining_ms: u32,
}

impl Default for CollisionCooldown {
    /// Returns a full immunity window.
    fn default() -> (r: CollisionCooldown)
        ensures
            r.remaining_ms == COLLISION_IMMUNITY_MS,
    {
        CollisionCooldown { remaining_ms: COLLISION_IMMUNITY_MS }
    }
}

/// The atom after one tick of its immunity countdown: the remaining time
/// shrinks by the tick's duration and the window is shed when it runs
/// out.  An atom without a countdown is unchanged.
pub open spec fn atom_cooled(a: Atom, dt: u32) -> Atom {
    match a.cooldown {
        Some(c) => if c.remaining_ms > dt {
            Atom {
                id: a.id,
                atom_type: a.atom_type,
                position: a.position,
                movement: a.movement,
                cooldown: Some(CollisionCooldown { remaining_ms: (c.remaining_ms - dt) as u32 }),
            }
        } else {
            Atom {
                id: a.id,
                atom_type: a.atom_type,
                position: a.position,
                movement: a.movement,
                cooldown: None,
            }
        },
        None => a,
    }
}

/// Ticks every atom's immunity countdown by the tick's duration.
pub fn tick_collision_cooldown(atoms: &mut Vec<Atom>, dt: u32)
    ensures
        final(atoms)@ == old(atoms)@.map_values(|a: Atom| atom_cooled(a, dt)),
{
    let ghost orig = atoms@;
    let mut i: usize = 0;
    while i < atoms.len()
        invariant
            i <= orig.len(),
            atoms@.len() == orig.len(),
            forall|k: int| 0 <= k < i ==> atoms@[k] == atom_cooled(orig[k], dt),
            forall|k: int| i <= k < orig.len() ==> atoms@[k] == orig[k],
        decreases orig.len() - i,
    {
        let a = atoms[i];
        if let Some(c) = a.cooldown {
            if c.remaining_ms > dt {
                atoms.set(
                    i,
                    Atom {
                        id: a.id,
                        atom_type: a.atom_type,
                        position: a.position,
                        movement: a.movement,
                        cooldown: Some(CollisionCooldown { remaining_ms: c.remaining_ms - dt }),
                    },
                );
            } else {
                atoms.set(
                    i,
                    Atom {
                        id: a.id,
                        atom_type: a.atom_type,
                        position: a.position,
                        movement: a.movement,
                        cooldown: None,
                    },
                );
            }
        }
        i = i + 1;
    }
    proof {
        assert(atoms@ =~= orig.map_values(|a: Atom| atom_cooled(a, dt)));
    }
}

/// An atom whose immunity window has more time left than the tick lasts
/// is still immune after the tick, with the remaining time reduced.
pub proof fn lemma_cooldown_keeps_immunity(a: Atom, dt: u32)
    requires
        a.cooldown matches Some(c) && c.remaining_ms > dt,
    ensures
        atom_cooled(a, dt).is_immune(),
        atom_cooled(a, dt).cooldown matches Some(c2) && c2.remaining_ms == a.cooldown->Some_0.remaining_ms
            - dt,
{
}

/// A collision group: the atoms found together at one grid cell in one
/// detection pass, with that cell.  Ephemeral: regenerated every tick.
#[derive(Clone, Debug, PartialEq, Eq)]
pub struct CollisionGroup {
    pub position: GridPos,
    pub members: Vec<Atom>,
}

/// The outbound notification of one collision: the identities of the
/// involved atoms and the cell they met at.
#[derive(Clone, Debug, PartialEq, Eq)]
pub struct CollisionEvent {
    pub entities: Vec<u64>,
    pub position: GridPos,
}

/// An atom the detector files under a cell as a mover: it is outside its
/// immunity window, carries a velocity, and stands within the tolerance of
/// a grid intersection.
pub open spec fn eligible_mover(a: Atom) -> bool {
    !a.is_immune() && a.is_moving() && a.position.spec_near_intersection()
}

/// An atom the detector can merge into an existing bucket: stationary and
/// outside its immunity window.  Stationary atoms are taken to rest on
/// their nearest cell.
pub open spec fn eligible_stationary(a: Atom) -> bool {
    !a.is_immune() && !a.is_moving()
}

/// The cell an atom is filed under: its nearest grid intersection.
pub open spec fn atom_cell(a: Atom) -> GridPos {
    a.position.spec_nearest_cell()
}

/// The eligible movers filed under `cell`, in their order in `atoms`.
pub open spec fn movers_at(atoms: Seq<Atom>, cell: GridPos) -> Seq<Atom>
    decreases atoms.len(),
{
    if atoms.len() == 0 {
        Seq::empty()
    } else {
        let pre = movers_at(atoms.drop_last(), cell);
        let a = atoms.last();
        if eligible_mover(a) && atom_cell(a) == cell {
            pre.push(a)
        } else {
            pre
        }
    }
}

/// The eligible stationary atoms resting on `cell`, in their order in
/// `atoms`.
pub open spec fn stationary_at(atoms: Seq<Atom>, cell: GridPos) -> Seq<Atom>
    decreases atoms.len(),
{
    if atoms.len() == 0 {
        Seq::empty()
    } else {
        let pre = stationary_at(atoms.drop_last(), cell);
        let a = atoms.last();
        if eligible_stationary(a) && atom_cell(a) == cell {
            pre.push(a)
        } else {
            pre
        }
    }
}

/// Everything found at `cell`: the movers filed there, then the stationary
/// atoms resting there.
pub open spec fn members_at(atoms: Seq<Atom>, cell: GridPos) -> Seq<Atom> {
    movers_at(atoms, cell) + stationary_at(atoms, cell)
}

/// The distinct cells under which at least one eligible mover is filed, in
/// order of their first mover.
pub open spec fn candidate_cells(atoms: Seq<Atom>) -> Seq<GridPos>
    decreases atoms.len(),
{
    if atoms.len() == 0 {
        Seq::empty()
    } else {
        let pre = candidate_cells(atoms.drop_last());
        let a = atoms.last();
        if eligible_mover(a) && !pre.contains(atom_cell(a)) {
            pre.push(atom_cell(a))
        } else {
            pre
        }
    }
}

/// The candidate cells whose bucket holds two or more atoms: the cells
/// that produce a collision group, in detection order.
pub open spec fn colliding_cells_from(atoms: Seq<Atom>, cells: Seq<GridPos>) -> Seq<GridPos>
    decreases cells.len(),
{
    if cells.len() == 0 {
        Seq::empty()
    } else {
        let pre = colliding_cells_from(atoms, cells.drop_last());
        let c = cells.last();
        if members_at(atoms, c).len() >= 2 {
            pre.push(c)
        } else {
            pre
        }
    }
}

/// The cells at which this tick's collisions happen, in detection order.
pub open spec fn colliding_cells(atoms: Seq<Atom>) -> Seq<GridPos> {
    colliding_cells_from(atoms, candidate_cells(atoms))
}

/// Every atom filed as a mover under `cell` is an eligible mover from
/// `atoms` whose nearest cell is `cell`.
pub proof fn lemma_movers_at_props(atoms: Seq<Atom>, cell: GridPos)
    ensures
        forall|i: int|
            0 <= i < movers_at(atoms, cell).len() ==> {
                let a = #[trigger] movers_at(atoms, cell)[i];
                eligible_mover(a) && atom_cell(a) == cell && atoms.contains(a)
            },
    decreases atoms.len(),
{
    if atoms.len() > 0 {
        lemma_movers_at_props(atoms.drop_last(), cell);
        assert(forall|a: Atom| atoms.drop_last().contains(a) ==> atoms.contains(a));
        assert(atoms.contains(atoms.last()));
    }
}

/// Every stationary atom resting on `cell` is eligible, stationary, from
/// `atoms`, and rests on `cell`.
pub proof fn lemma_stationary_at_props(atoms: Seq<Atom>, cell: GridPos)
    ensures
        forall|i: int|
            0 <= i < stationary_at(atoms, cell).len() ==> {
                let a = #[trigger] stationary_at(atoms, cell)[i];
                eligible_stationary(a) && atom_cell(a) == cell && atoms.contains(a)
            },
    decreases atoms.len(),
{
    if atoms.len() > 0 {
        lemma_stationary_at_props(atoms.drop_last(), cell);
        assert(forall|a: Atom| atoms.drop_last().contains(a) ==> atoms.contains(a));
        assert(atoms.contains(atoms.last()));
    }
}

/// No atom inside its immunity window is ever a member of a collision
/// bucket, whatever other atoms stand at or move into its cell: every
/// member of every bucket is outside its window.
pub proof fn lemma_detection_excludes_immune(atoms: Seq<Atom>, cell: GridPos)
    ensures
        forall|k: int|
            0 <= k < members_at(atoms, cell).len() ==> !(#[trigger] members_at(atoms, cell)[k]).is_immune(),
{
    lemma_movers_at_props(atoms, cell);
    lemma_stationary_at_props(atoms, cell);
    assert forall|k: int| 0 <= k < members_at(atoms, cell).len() implies !(#[trigger] members_at(
        atoms,
        cell,
    )[k]).is_immune() by {
        let m = movers_at(atoms, cell);
        let s = stationary_at(atoms, cell);
        if k < m.len() {
            assert(members_at(atoms, cell)[k] == m[k]);
        } else {
            assert(members_at(atoms, cell)[k] == s[k - m.len()]);
        }
    }
}

/// A bucket with a member stands at a cell on the play field: members
/// rest on or round to their bucket's cell, which their own position
/// keeps in range.
pub proof fn lemma_members_cell_in_field(atoms: Seq<Atom>, cell: GridPos)
    requires
        forall|i: int| 0 <= i < atoms.len() ==> (#[trigger] atoms[i]).wf(),
        members_at(atoms, cell).len() > 0,
    ensures
        cell.in_field(),
{
    lemma_movers_at_props(atoms, cell);
    lemma_stationary_at_props(atoms, cell);
    let m = movers_at(atoms, cell);
    let s = stationary_at(atoms, cell);
    let a = if m.len() > 0 {
        m[0]
    } else {
        s[0]
    };
    assert(atoms.contains(a));
    assert(a.wf());
    assert(atom_cell(a) == cell);
    crate::grid::lemma_round_coord_in_field(a.position.x as int);
    crate::grid::lemma_round_coord_in_field(a.position.y as int);
}

/// Members of a bucket are atoms of the population.
pub proof fn lemma_members_at_membership(atoms: Seq<Atom>, cell: GridPos)
    ensures
        forall|k: int|
            0 <= k < members_at(atoms, cell).len() ==> atoms.contains(
                #[trigger] members_at(atoms, cell)[k],
            ),
{
    lemma_movers_at_props(atoms, cell);
    lemma_stationary_at_props(atoms, cell);
    let m = movers_at(atoms, cell);
    let s = stationary_at(atoms, cell);
    assert forall|k: int| 0 <= k < members_at(atoms, cell).len() implies atoms.contains(
        #[trigger] members_at(atoms, cell)[k],
    ) by {
        if k < m.len() {
            assert(members_at(atoms, cell)[k] == m[k]);
        } else {
            assert(members_at(atoms, cell)[k] == s[k - m.len()]);
        }
    }
}

/// An atom inside its immunity window is a member of no bucket at all,
/// whatever moves onto its cell: resolver products stay invisible to the
/// detector for as long as their window lasts.
pub proof fn lemma_immune_atom_in_no_bucket(atoms: Seq<Atom>, i: int, cell: GridPos)
    requires
        0 <= i < atoms.len(),
        atoms[i].is_immune(),
    ensures
        !members_at(atoms, cell).contains(atoms[i]),
{
    lemma_detection_excludes_immune(atoms, cell);
    if members_at(atoms, cell).contains(atoms[i]) {
        let k = choose|k: int|
            0 <= k < members_at(atoms, cell).len() && members_at(atoms, cell)[k] == atoms[i];
    }
}

/// A cell without an eligible mover has no movers filed under it.
pub proof fn lemma_no_candidate_no_movers(atoms: Seq<Atom>, cell: GridPos)
    requires
        !candidate_cells(atoms).contains(cell),
    ensures
        movers_at(atoms, cell) == Seq::<Atom>::empty(),
    decreases atoms.len(),
{
    if atoms.len() > 0 {
        let pre = candidate_cells(atoms.drop_last());
        assert(forall|c: GridPos| pre.contains(c) ==> candidate_cells(atoms).contains(c)) by {
            assert forall|c: GridPos| pre.contains(c) implies candidate_cells(
                atoms,
            ).contains(c) by {
                let i = choose|i: int| 0 <= i < pre.len() && pre[i] == c;
                if candidate_cells(atoms) == pre.push(atom_cell(atoms.last())) {
                    assert(candidate_cells(atoms)[i] == c);
                } else {
                    assert(candidate_cells(atoms)[i] == c);
                }
            }
        }
        lemma_no_candidate_no_movers(atoms.drop_last(), cell);
        if eligible_mover(atoms.last()) && atom_cell(atoms.last()) == cell {
            if pre.contains(cell) {
            } else {
                let full = candidate_cells(atoms);
                assert(full == pre.push(cell));
                assert(full[full.len() - 1] == cell);
                assert(full.contains(cell));
            }
        }
    }
}

/// The candidate cells are distinct: each cell opens at most one bucket.
pub proof fn lemma_candidate_cells_distinct(atoms: Seq<Atom>)
    ensures
        forall|i: int, j: int|
            0 <= i < candidate_cells(atoms).len() && 0 <= j < candidate_cells(atoms).len() && i
                != j ==> candidate_cells(atoms)[i] != candidate_cells(atoms)[j],
    decreases atoms.len(),
{
    if atoms.len() > 0 {
        lemma_candidate_cells_distinct(atoms.drop_last());
        let pre = candidate_cells(atoms.drop_last());
        let out = candidate_cells(atoms);
        if out != pre {
            assert forall|i: int, j: int|
                0 <= i < out.len() && 0 <= j < out.len() && i != j implies out[i] != out[j] by {
                if i < pre.len() && j < pre.len() {
                } else if i < pre.len() {
                    assert(!pre.contains(out[j]));
                    assert(pre[i] == out[i]);
                } else {
                    assert(!pre.contains(out[i]));
                    assert(pre[j] == out[j]);
                }
            }
        }
    }
}

/// Buckets at different cells share no member: together with the
/// distinctness of the cells, an atom is emitted into at most one
/// collision group per tick.
pub proof fn lemma_groups_share_no_member(atoms: Seq<Atom>, c1: GridPos, c2: GridPos)
    requires
        c1 != c2,
    ensures
        forall|a: Atom|
            members_at(atoms, c1).contains(a) ==> !members_at(atoms, c2).contains(a),
{
    lemma_movers_at_props(atoms, c1);
    lemma_stationary_at_props(atoms, c1);
    lemma_movers_at_props(atoms, c2);
    lemma_stationary_at_props(atoms, c2);
    assert forall|a: Atom| members_at(atoms, c1).contains(a) implies !members_at(
        atoms,
        c2,
    ).contains(a) by {
        let k = choose|k: int|
            0 <= k < members_at(atoms, c1).len() && members_at(atoms, c1)[k] == a;
        let m1 = movers_at(atoms, c1);
        let s1 = stationary_at(atoms, c1);
        if k < m1.len() {
            assert(members_at(atoms, c1)[k] == m1[k]);
        } else {
            assert(members_at(atoms, c1)[k] == s1[k - m1.len()]);
        }
        assert(atom_cell(a) == c1);
        if members_at(atoms, c2).contains(a) {
            let k2 = choose|k2: int|
                0 <= k2 < members_at(atoms, c2).len() && members_at(atoms, c2)[k2] == a;
            let m2 = movers_at(atoms, c2);
            let s2 = stationary_at(atoms, c2);
            if k2 < m2.len() {
                assert(members_at(atoms, c2)[k2] == m2[k2]);
            } else {
                assert(members_at(atoms, c2)[k2] == s2[k2 - m2.len()]);
            }
            assert(atom_cell(a) == c2);
        }
    }
}

/// The cells that produce a collision group are drawn from the candidate
/// cells without duplication: together with the buckets' disjointness, no
/// atom appears in two of this tick's collision groups.
pub proof fn lemma_colliding_cells_distinct(atoms: Seq<Atom>)
    ensures
        forall|i: int, j: int|
            0 <= i < colliding_cells(atoms).len() && 0 <= j < colliding_cells(atoms).len() && i
                != j ==> colliding_cells(atoms)[i] != colliding_cells(atoms)[j],
{
    lemma_candidate_cells_distinct(atoms);
    lemma_colliding_cells_from_distinct(atoms, candidate_cells(atoms));
}

/// Filtering a duplicate-free cell list keeps it duplicate-free.
proof fn lemma_colliding_cells_from_distinct(atoms: Seq<Atom>, cells: Seq<GridPos>)
    requires
        forall|i: int, j: int|
            0 <= i < cells.len() && 0 <= j < cells.len() && i != j ==> cells[i] != cells[j],
    ensures
        forall|i: int, j: int|
            0 <= i < colliding_cells_from(atoms, cells).len() && 0 <= j < colliding_cells_from(
                atoms,
                cells,
            ).len() && i != j ==> colliding_cells_from(atoms, cells)[i] != colliding_cells_from(
                atoms,
                cells,
            )[j],
        forall|k: int|
            0 <= k < colliding_cells_from(atoms, cells).len() ==> cells.contains(
                #[trigger] colliding_cells_from(atoms, cells)[k],
            ),
    decreases cells.len(),
{
    if cells.len() > 0 {
        lemma_colliding_cells_from_distinct(atoms, cells.drop_last());
        let pre = colliding_cells_from(atoms, cells.drop_last());
        let out = colliding_cells_from(atoms, cells);
        assert forall|k: int| 0 <= k < out.len() implies cells.contains(#[trigger] out[k]) by {
            if k < pre.len() {
                let c = pre[k];
                let i = choose|i: int| 0 <= i < cells.drop_last().len() && cells.drop_last()[i] == c;
                assert(cells[i] == c);
            } else {
                assert(out[k] == cells[cells.len() - 1]);
            }
        }
        if out != pre {
            assert forall|i: int, j: int|
                0 <= i < out.len() && 0 <= j < out.len() && i != j implies out[i] != out[j] by {
                if i < pre.len() && j < pre.len() {
                } else if i < pre.len() {
                    let c = pre[i];
                    let k = choose|k: int|
                        0 <= k < cells.drop_last().len() && cells.drop_last()[k] == c;
                    assert(out[i] == cells[k] && out[j] == cells[cells.len() - 1]);
                } else {
                    let c = pre[j];
                    let k = choose|k: int|
                        0 <= k < cells.drop_last().len() && cells.drop_last()[k] == c;
                    assert(out[j] == cells[k] && out[i] == cells[cells.len() - 1]);
                }
            }
        }
    }
}

/// There are no more candidate cells than atoms.
pub proof fn lemma_candidate_cells_len(atoms: Seq<Atom>)
    ensures
        candidate_cells(atoms).len() <= atoms.len(),
    decreases atoms.len(),
{
    if atoms.len() > 0 {
        lemma_candidate_cells_len(atoms.drop_last());
    }
}

/// Filtering the candidate cells cannot grow the list.
pub proof fn lemma_colliding_cells_from_len(atoms: Seq<Atom>, cells: Seq<GridPos>)
    ensures
        colliding_cells_from(atoms, cells).len() <= cells.len(),
    decreases cells.len(),
{
    if cells.len() > 0 {
        lemma_colliding_cells_from_len(atoms, cells.drop_last());
    }
}

/// A strictly longer prefix drops back to the shorter one.
proof fn lemma_take_succ_drop_last<T>(s: Seq<T>, i: int)
    requires
        0 <= i < s.len(),
    ensures
        s.take(i + 1).drop_last() =~= s.take(i),
        s.take(i + 1).last() == s[i],
{
}

/// Finds the bucket already filed under `cell`, if any.
fn find_group(groups: &Vec<CollisionGroup>, cell: GridPos) -> (r: Option<usize>)
    ensures
        match r {
            Some(j) => j < groups@.len() && groups@[j as int].position == cell,
            None => forall|j: int| 0 <= j < groups@.len() ==> groups@[j].position != cell,
        },
{
    let mut j: usize = 0;
    while j < groups.len()
        invariant
            j <= groups@.len(),
            forall|k: int| 0 <= k < j ==> groups@[k].position != cell,
        decreases groups@.len() - j,
    {
        if groups[j].position.x == cell.x && groups[j].position.y == cell.y {
            return Some(j);
        }
        j = j + 1;
    }
    None
}

/// Partitions the atoms into collision groups: every atom outside its
/// immunity window that stands within the tolerance of a grid intersection
/// and moves is filed under that intersection's cell; stationary atoms
/// outside their immunity window are merged into the bucket of the cell
/// they rest on, if a mover opened one; every bucket with two or more
/// members is one collision group.  An atom appears in at most one group.
pub fn detect_atom_collisions(atoms: &Vec<Atom>) -> (r: Vec<CollisionGroup>)
    requires
        forall|i: int| 0 <= i < atoms@.len() ==> (#[trigger] atoms@[i]).wf(),
    ensures
        r@.len() == colliding_cells(atoms@).len(),
        forall|i: int|
            0 <= i < r@.len() ==> (#[trigger] r@[i]).position == colliding_cells(atoms@)[i]
                && r@[i].members@ == members_at(atoms@, colliding_cells(atoms@)[i]),
{
    let ghost all = atoms@;
    let mut buckets: Vec<CollisionGroup> = Vec::new();

    // First pass: file each eligible mover under its nearest cell, opening
    // a bucket at the first mover seen there.
    let mut i: usize = 0;
    while i < atoms.len()
        invariant
            i <= all.len(),
            all == atoms@,
            forall|k: int| 0 <= k < all.len() ==> (#[trigger] all[k]).wf(),
            buckets@.len() == candidate_cells(all.take(i as int)).len(),
            forall|j: int|
                0 <= j < buckets@.len() ==> (#[trigger] buckets@[j]).position == candidate_cells(
                    all.take(i as int),
                )[j],
            forall|j: int|
                0 <= j < buckets@.len() ==> (#[trigger] buckets@[j]).members@ == movers_at(
                    all.take(i as int),
                    buckets@[j].position,
                ),
            forall|j1: int, j2: int|
                0 <= j1 < buckets@.len() && 0 <= j2 < buckets@.len() && j1 != j2 ==> (
                #[trigger] buckets@[j1]).position != (#[trigger] buckets@[j2]).position,
        decreases all.len() - i,
    {
        let a = atoms[i];
        proof {
            lemma_take_succ_drop_last(all, i as int);
        }
        if a.cooldown.is_none() && a.movement.is_some() && a.position.near_intersection() {
            let cell = a.position.nearest_cell();
            let ghost pre_cells = candidate_cells(all.take(i as int));
            let ghost pre_buckets = buckets@;
            match find_group(&buckets, cell) {
                Some(j) => {
                    proof {
                        assert(pre_cells[j as int] == cell);
                        assert(pre_cells.contains(cell));
                        assert(candidate_cells(all.take(i as int + 1)) == pre_cells);
                    }
                    let mut g = buckets.remove(j);
                    g.members.push(a);
                    let ghost gnew = g;
                    buckets.insert(j, g);
                    proof {
                        assert(buckets@ =~= pre_buckets.update(j as int, gnew));
                        assert(gnew.members@ == movers_at(all.take(i as int), cell).push(a));
                        assert(forall|c: GridPos|
                            c != cell ==> movers_at(all.take(i as int + 1), c) == movers_at(
                                all.take(i as int),
                                c,
                            ));
                        assert(movers_at(all.take(i as int + 1), cell) == movers_at(
                            all.take(i as int),
                            cell,
                        ).push(a));
                    }
                },
                None => {
                    proof {
                        assert(!pre_cells.contains(cell)) by {
                            if pre_cells.contains(cell) {
                                let k = choose|k: int|
                                    0 <= k < pre_cells.len() && pre_cells[k] == cell;
                                assert(buckets@[k].position == cell);
                            }
                        }
                        lemma_no_candidate_no_movers(all.take(i as int), cell);
                        assert(candidate_cells(all.take(i as int + 1)) == pre_cells.push(cell));
                    }
                    let mut members: Vec<Atom> = Vec::new();
                    members.push(a);
                    buckets.push(CollisionGroup { position: cell, members });
                    proof {
                        assert(movers_at(all.take(i as int), cell) =~= Seq::<Atom>::empty());
                        assert(movers_at(all.take(i as int + 1), cell) =~= movers_at(
                            all.take(i as int),
                            cell,
                        ).push(a));
                        assert(forall|c: GridPos|
                            c != cell ==> movers_at(all.take(i as int + 1), c) == movers_at(
                                all.take(i as int),
                                c,
                            ));
                    }
                },
            }
        }
        i = i + 1;
    }
    proof {
        assert(all.take(all.len() as int) =~= all);
    }

    // Second pass: merge each eligible stationary atom into the bucket of
    // the cell it rests on, if one was opened.
    let mut i: usize = 0;
    while i < atoms.len()
        invariant
            i <= all.len(),
            all == atoms@,
            forall|k: int| 0 <= k < all.len() ==> (#[trigger] all[k]).wf(),
            buckets@.len() == candidate_cells(all).len(),
            forall|j: int|
                0 <= j < buckets@.len() ==> (#[trigger] buckets@[j]).position == candidate_cells(
                    all,
                )[j],
            forall|j: int|
                0 <= j < buckets@.len() ==> (#[trigger] buckets@[j]).members@ == movers_at(
                    all,
                    buckets@[j].position,
                ) + stationary_at(all.take(i as int), buckets@[j].position),
            forall|j1: int, j2: int|
                0 <= j1 < buckets@.len() && 0 <= j2 < buckets@.len() && j1 != j2 ==> (
                #[trigger] buckets@[j1]).position != (#[trigger] buckets@[j2]).position,
        decreases all.len() - i,
    {
        let a = atoms[i];
        proof {
            lemma_take_succ_drop_last(all, i as int);
        }
        if a.cooldown.is_none() && a.movement.is_none() {
            let cell = a.position.nearest_cell();
            let ghost pre_buckets = buckets@;
            if let Some(j) = find_group(&buckets, cell) {
                let mut g = buckets.remove(j);
                g.members.push(a);
                let ghost gnew = g;
                buckets.insert(j, g);
                proof {
                    assert(buckets@ =~= pre_buckets.update(j as int, gnew));
                    assert(forall|c: GridPos|
                        c != cell ==> stationary_at(all.take(i as int + 1), c) == stationary_at(
                            all.take(i as int),
                            c,
                        ));
                    assert(stationary_at(all.take(i as int + 1), cell) == stationary_at(
                        all.take(i as int),
                        cell,
                    ).push(a));
                    assert(gnew.members@ =~= movers_at(all, cell) + stationary_at(
                        all.take(i as int + 1),
                        cell,
                    ));
                }
            } else {
                proof {
                    assert(forall|c: GridPos|
                        c != cell ==> stationary_at(all.take(i as int + 1), c) == stationary_at(
                            all.take(i as int),
                            c,
                        ));
                }
            }
        }
        i = i + 1;
    }
    proof {
        assert(all.take(all.len() as int) =~= all);
        assert(forall|j: int|
            0 <= j < buckets@.len() ==> (#[trigger] buckets@[j]).members@ == members_at(
                all,
                buckets@[j].position,
            ));
    }

    // Third pass: keep the buckets that hold an actual collision.
    let ghost cells = candidate_cells(all);
    let ghost whole = buckets@;
    let mut out: Vec<CollisionGroup> = Vec::new();
    let mut processed: usize = 0;
    let total_buckets: usize = buckets.len();
    while buckets.len() > 0
        invariant
            all == atoms@,
            whole.len() == total_buckets,
            whole.len() == cells.len(),
            cells == candidate_cells(all),
            processed + buckets@.len() == whole.len(),
            buckets@ == whole.skip(processed as int),
            forall|j: int| 0 <= j < whole.len() ==> (#[trigger] whole[j]).position == cells[j],
            forall|j: int|
                0 <= j < whole.len() ==> (#[trigger] whole[j]).members@ == members_at(
                    all,
                    whole[j].position,
                ),
            out@.len() == colliding_cells_from(all, cells.take(processed as int)).len(),
            forall|j: int|
                0 <= j < out@.len() ==> (#[trigger] out@[j]).position == colliding_cells_from(
                    all,
                    cells.take(processed as int),
                )[j],
            forall|j: int|
                0 <= j < out@.len() ==> (#[trigger] out@[j]).members@ == members_at(
                    all,
                    out@[j].position,
                ),
        decreases buckets@.len(),
    {
        proof {
            lemma_take_succ_drop_last(cells, processed as int);
            assert(buckets@[0] == whole[processed as int]);
        }
        let g = buckets.remove(0);
        if g.members.len() >= 2 {
            out.push(g);
        }
        processed = processed + 1;
        proof {
            assert(buckets@ =~= whole.skip(processed as int));
        }
    }
    proof {
        assert(cells.take(cells.len() as int) =~= cells);
    }
    out
}

/// The two directions a split scatters along, each offset 45 degrees from
/// the direction it is derived from.
pub open spec fn spec_split_directions(direction: CardinalDirection) -> (
    CardinalDirection,
    CardinalDirection,
) {
    match direction {
        CardinalDirection::N => (CardinalDirection::NE, CardinalDirection::NW),
        CardinalDirection::E => (CardinalDirection::NE, CardinalDirection::SE),
        CardinalDirection::S => (CardinalDirection::SE, CardinalDirection::SW),
        CardinalDirection::W => (CardinalDirection::SW, CardinalDirection::NW),
        CardinalDirection::NE => (CardinalDirection::N, CardinalDirection::E),
        CardinalDirection::SE => (CardinalDirection::E, CardinalDirection::S),
        CardinalDirection::SW => (CardinalDirection::S, CardinalDirection::W),
        CardinalDirection::NW => (CardinalDirection::W, CardinalDirection::N),
    }
}

/// Returns the two directions for splitting at 45 degree angles from the
/// given direction.
pub fn get_split_directions(direction: CardinalDirection) -> (r: (
    CardinalDirection,
    CardinalDirection,
))
    ensures
        r == spec_split_directions(direction),
{
    match direction {
        CardinalDirection::N => (CardinalDirection::NE, CardinalDirection::NW),
        CardinalDirection::E => (CardinalDirection::NE, CardinalDirection::SE),
        CardinalDirection::S => (CardinalDirection::SE, CardinalDirection::SW),
        CardinalDirection::W => (CardinalDirection::SW, CardinalDirection::NW),
        CardinalDirection::NE => (CardinalDirection::N, CardinalDirection::E),
        CardinalDirection::SE => (CardinalDirection::E, CardinalDirection::S),
        CardinalDirection::SW => (CardinalDirection::S, CardinalDirection::W),
        CardinalDirection::NW => (CardinalDirection::W, CardinalDirection::N),
    }
}

/// A reaction product to be spawned at the collision's cell: its type and
/// its velocity, if any.  Every product receives the immunity window when
/// it spawns, so it is excluded from the very next detection pass.
#[derive(Clone, Copy, Debug, PartialEq, Eq, Structural)]
pub struct AtomSeed {
    pub atom_type: AtomType,
    pub movement: Option<Movement>,
}

/// What resolving one collision group does: the identities to despawn and
/// the products to spawn at the group's cell, in order.
#[derive(Clone, Debug, PartialEq, Eq)]
pub struct CollisionOutcome {
    pub despawned: Vec<u64>,
    pub spawned: Vec<AtomSeed>,
}

/// The movement a fusion or split works with: the first member's velocity
/// takes priority, else the second member's.
pub open spec fn first_movement(a: Atom, b: Atom) -> Option<Movement> {
    if a.movement is Some {
        a.movement
    } else {
        b.movement
    }
}

/// What colliding with a wall does to the other atom: a moving atom is
/// despawned and respawned with its direction reversed and its speed
/// kept; a stationary atom is just despawned.  The wall survives.
pub open spec fn spec_wall_outcome(other: Atom) -> (Seq<u64>, Seq<AtomSeed>) {
    match other.movement {
        Some(m) => (
            seq![other.id],
            seq![
                AtomSeed {
                    atom_type: other.atom_type,
                    movement: Some(
                        Movement { direction: m.direction.spec_opposite(), speed: m.speed },
                    ),
                },
            ],
        ),
        None => (seq![other.id], Seq::empty()),
    }
}

/// The products of a split: with a movement to derive from, two Basic
/// atoms scatter at default speed along the two 45-degree offsets of that
/// movement's direction (reversed first when `reversed` is set); without
/// one, the defensive fallback is a single stationary Basic atom.
pub open spec fn spec_split_spawns(m: Option<Movement>, reversed: bool) -> Seq<AtomSeed> {
    match m {
        Some(mv) => {
            let dir = if reversed {
                mv.direction.spec_opposite()
            } else {
                mv.direction
            };
            let (d1, d2) = spec_split_directions(dir);
            seq![
                AtomSeed {
                    atom_type: AtomType::Basic,
                    movement: Some(Movement { direction: d1, speed: DEFAULT_SPEED_MILLI }),
                },
                AtomSeed {
                    atom_type: AtomType::Basic,
                    movement: Some(Movement { direction: d2, speed: DEFAULT_SPEED_MILLI }),
                },
            ]
        },
        None => seq![AtomSeed { atom_type: AtomType::Basic, movement: None }],
    }
}

/// The pairwise reaction table, evaluated on the two members in group
/// order; earlier rows win.
pub open spec fn spec_pair_outcome(a: Atom, b: Atom) -> (Seq<u64>, Seq<AtomSeed>) {
    match (a.atom_type, b.atom_type) {
        (AtomType::Wall, AtomType::Antimatter) | (AtomType::Antimatter, AtomType::Wall) => (
            seq![a.id, b.id],
            Seq::empty(),
        ),
        (AtomType::Wall, _) => spec_wall_outcome(b),
        (_, AtomType::Wall) => spec_wall_outcome(a),
        (AtomType::Basic, AtomType::Basic) => (
            seq![a.id, b.id],
            seq![
                AtomSeed { atom_type: AtomType::Splitting, movement: first_movement(a, b) },
            ],
        ),
        (AtomType::Reactive, AtomType::Splitting) | (AtomType::Splitting, AtomType::Reactive) => (
            seq![a.id, b.id],
            seq![AtomSeed { atom_type: AtomType::Antimatter, movement: None }],
        ),
        (AtomType::Basic, AtomType::Antimatter) | (AtomType::Antimatter, AtomType::Basic) => (
            seq![a.id, b.id],
            spec_split_spawns(first_movement(a, b), true),
        ),
        (AtomType::Splitting, _) | (_, AtomType::Splitting) => (
            seq![a.id, b.id],
            spec_split_spawns(first_movement(a, b), false),
        ),
        (AtomType::Antimatter, _) | (_, AtomType::Antimatter) => (Seq::empty(), Seq::empty()),
        _ => (seq![a.id, b.id], Seq::empty()),
    }
}

/// The identities a group's resolution despawns: everything for a group of
/// three or more, the pairwise table's row for a pair, nothing for a
/// degenerate group.
pub open spec fn spec_group_despawns(members: Seq<Atom>) -> Seq<u64> {
    if members.len() < 2 {
        Seq::empty()
    } else if members.len() >= 3 {
        members.map_values(|a: Atom| a.id)
    } else {
        spec_pair_outcome(members[0], members[1]).0
    }
}

/// The products a group's resolution spawns at the group's cell: one
/// stationary Reactive atom for a group of three or more, the pairwise
/// table's row for a pair, nothing for a degenerate group.
pub open spec fn spec_group_spawns(members: Seq<Atom>) -> Seq<AtomSeed> {
    if members.len() < 2 {
        Seq::empty()
    } else if members.len() >= 3 {
        seq![AtomSeed { atom_type: AtomType::Reactive, movement: None }]
    } else {
        spec_pair_outcome(members[0], members[1]).1
    }
}

/// Resolving a group never spawns more than two products, and a group of
/// fewer than two members spawns none.
pub proof fn lemma_group_spawns_len(members: Seq<Atom>)
    ensures
        spec_group_spawns(members).len() <= 2,
        members.len() < 2 ==> spec_group_spawns(members).len() == 0,
{
}

/// Products of a well-formed group are well formed: their velocity, if
/// any, is one the simulation models, and a spawned wall never moves.
pub proof fn lemma_group_seeds_wf(members: Seq<Atom>)
    requires
        forall|i: int| 0 <= i < members.len() ==> (#[trigger] members[i]).wf(),
    ensures
        forall|k: int|
            0 <= k < spec_group_spawns(members).len() ==> {
                let s = #[trigger] spec_group_spawns(members)[k];
                &&& (s.movement matches Some(m) ==> m.wf())
                &&& (s.atom_type == AtomType::Wall ==> s.movement is None)
            },
{
    if members.len() == 2 {
        assert(members[0].wf());
        assert(members[1].wf());
    }
}

/// A wall bounces any moving atom other than antimatter, in either member
/// order: the wall itself is untouched (its identity is never despawned),
/// while the moving atom is despawned and exactly one atom of its type is
/// spawned with the direction reversed and the speed kept.  Like every
/// reaction product, the bounced atom receives the immunity window when
/// it spawns.
pub proof fn lemma_wall_bounces_moving_atom(a: Atom, w: Atom)
    requires
        w.atom_type == AtomType::Wall,
        a.atom_type != AtomType::Wall,
        a.atom_type != AtomType::Antimatter,
        a.movement matches Some(m),
    ensures
        spec_pair_outcome(w, a) == spec_pair_outcome(a, w),
        spec_pair_outcome(w, a).0 =~= seq![a.id],
        a.id != w.id ==> !spec_pair_outcome(w, a).0.contains(w.id),
        spec_pair_outcome(w, a).1 =~= seq![
            AtomSeed {
                atom_type: a.atom_type,
                movement: Some(
                    Movement {
                        direction: a.movement->Some_0.direction.spec_opposite(),
                        speed: a.movement->Some_0.speed,
                    },
                ),
            },
        ],
{
}

/// A wall destroys any stationary atom other than antimatter, in either
/// member order: the stationary atom alone is despawned, nothing is
/// spawned, and the wall is untouched.
pub proof fn lemma_wall_destroys_stationary_atom(a: Atom, w: Atom)
    requires
        w.atom_type == AtomType::Wall,
        a.atom_type != AtomType::Wall,
        a.atom_type != AtomType::Antimatter,
        a.movement is None,
    ensures
        spec_pair_outcome(w, a) == spec_pair_outcome(a, w),
        spec_pair_outcome(w, a).0 =~= seq![a.id],
        a.id != w.id ==> !spec_pair_outcome(w, a).0.contains(w.id),
        spec_pair_outcome(w, a).1 =~= Seq::<AtomSeed>::empty(),
{
}

/// Resolving a group of three or more members, whatever their types,
/// despawns every member and spawns exactly one stationary Reactive atom:
/// no member survives.
pub proof fn lemma_group_of_three_or_more(members: Seq<Atom>)
    requires
        members.len() >= 3,
    ensures
        spec_group_despawns(members).len() == members.len(),
        forall|i: int|
            0 <= i < members.len() ==> spec_group_despawns(members)[i] == members[i].id,
        spec_group_spawns(members).len() == 1,
        spec_group_spawns(members)[0].atom_type == AtomType::Reactive,
        spec_group_spawns(members)[0].movement is None,
{
}

/// Builds the outcome that despawns exactly the two given identities.
fn despawn_both(a_id: u64, b_id: u64) -> (r: CollisionOutcome)
    ensures
        r.despawned@ =~= seq![a_id, b_id],
        r.spawned@ =~= Seq::<AtomSeed>::empty(),
{
    let mut despawned: Vec<u64> = Vec::new();
    despawned.push(a_id);
    despawned.push(b_id);
    CollisionOutcome { despawned, spawned: Vec::new() }
}

/// Resolves a collision with a wall for the non-wall member.
fn handle_wall_collision(other: &Atom) -> (r: CollisionOutcome)
    ensures
        r.despawned@ == spec_wall_outcome(*other).0,
        r.spawned@ == spec_wall_outcome(*other).1,
{
    let mut despawned: Vec<u64> = Vec::new();
    despawned.push(other.id);
    let mut spawned: Vec<AtomSeed> = Vec::new();
    match &other.movement {
        Some(m) => {
            let bounced = Movement { direction: m.direction.opposite(), speed: m.speed };
            spawned.push(AtomSeed { atom_type: other.atom_type, movement: Some(bounced) });
            proof {
                assert(despawned@ =~= spec_wall_outcome(*other).0);
                assert(spawned@ =~= spec_wall_outcome(*other).1);
            }
        },
        None => {
            proof {
                assert(despawned@ =~= spec_wall_outcome(*other).0);
                assert(spawned@ =~= spec_wall_outcome(*other).1);
            }
        },
    }
    CollisionOutcome { despawned, spawned }
}

/// Builds the two scattered Basic atoms of a split, or the defensive
/// fallback when no movement is available.
fn split_spawns(m: Option<Movement>, reversed: bool) -> (r: Vec<AtomSeed>)
    ensures
        r@ == spec_split_spawns(m, reversed),
{
    let mut spawned: Vec<AtomSeed> = Vec::new();
    match m {
        Some(mv) => {
            let dir = if reversed {
                mv.direction.opposite()
            } else {
                mv.direction
            };
            let (d1, d2) = get_split_directions(dir);
            spawned.push(AtomSeed { atom_type: AtomType::Basic, movement: Some(Movement::new(d1)) });
            spawned.push(AtomSeed { atom_type: AtomType::Basic, movement: Some(Movement::new(d2)) });
            proof {
                assert(spawned@ =~= spec_split_spawns(m, reversed));
            }
        },
        None => {
            spawned.push(AtomSeed { atom_type: AtomType::Basic, movement: None });
            proof {
                assert(spawned@ =~= spec_split_spawns(m, reversed));
            }
        },
    }
    spawned
}

/// Resolves one collision group against the reaction rule table.
///
/// A group of three or more members, whatever their types, despawns them
/// all and spawns one stationary Reactive atom.  A degenerate group of
/// fewer than two members is a no-op.  A pair follows the pairwise table:
/// wall and antimatter destroy each other; a wall bounces a moving atom
/// and destroys a stationary one; two Basic atoms fuse into a Splitting
/// atom inheriting the first available velocity; Reactive and Splitting
/// fuse into Antimatter; Basic and Antimatter split into two Basic atoms
/// scattered from the reversed direction; a Splitting atom in any other
/// pair splits from the direction itself; Antimatter passes through
/// anything else; any unmodeled pair is defensively despawned.  Every
/// product, the defensive fallback included, receives the immunity
/// window when it spawns, so it is excluded from the very next detection
/// pass.
pub fn handle_collision(group: &CollisionGroup) -> (r: CollisionOutcome)
    ensures
        r.despawned@ == spec_group_despawns(group.members@),
        r.spawned@ == spec_group_spawns(group.members@),
{
    let n = group.members.len();
    if n < 2 {
        let r = CollisionOutcome { despawned: Vec::new(), spawned: Vec::new() };
        proof {
            assert(r.despawned@ =~= spec_group_despawns(group.members@));
            assert(r.spawned@ =~= spec_group_spawns(group.members@));
        }
        return r;
    }
    if n >= 3 {
        let mut despawned: Vec<u64> = Vec::new();
        let mut i: usize = 0;
        while i < group.members.len()
            invariant
                i <= group.members@.len(),
                despawned@ =~= group.members@.take(i as int).map_values(|a: Atom| a.id),
            decreases group.members@.len() - i,
        {
            despawned.push(group.members[i].id);
            proof {
                lemma_take_succ_drop_last(group.members@, i as int);
                assert(group.members@.take(i as int + 1).map_values(|a: Atom| a.id)
                    =~= group.members@.take(i as int).map_values(|a: Atom| a.id).push(
                    group.members@[i as int].id,
                ));
            }
            i = i + 1;
        }
        let mut spawned: Vec<AtomSeed> = Vec::new();
        spawned.push(AtomSeed { atom_type: AtomType::Reactive, movement: None });
        proof {
            assert(group.members@.take(group.members@.len() as int) =~= group.members@);
            assert(spawned@ =~= spec_group_spawns(group.members@));
        }
        return CollisionOutcome { despawned, spawned };
    }

    let a = group.members[0];
    let b = group.members[1];
    match (a.atom_type, b.atom_type) {
        (AtomType::Wall, AtomType::Antimatter) | (AtomType::Antimatter, AtomType::Wall) => {
            despawn_both(a.id, b.id)
        },
        (AtomType::Wall, _) => handle_wall_collision(&b),
        (_, AtomType::Wall) => handle_wall_collision(&a),
        (AtomType::Basic, AtomType::Basic) => {
            let mut r = despawn_both(a.id, b.id);
            let movement = if a.movement.is_some() {
                a.movement
            } else {
                b.movement
            };
            r.spawned.push(AtomSeed { atom_type: AtomType::Splitting, movement });
            proof {
                assert(r.spawned@ =~= spec_group_spawns(group.members@));
            }
            r
        },
        (AtomType::Reactive, AtomType::Splitting) | (AtomType::Splitting, AtomType::Reactive) => {
            let mut r = despawn_both(a.id, b.id);
            r.spawned.push(AtomSeed { atom_type: AtomType::Antimatter, movement: None });
            proof {
                assert(r.spawned@ =~= spec_group_spawns(group.members@));
            }
            r
        },
        (AtomType::Basic, AtomType::Antimatter) | (AtomType::Antimatter, AtomType::Basic) => {
            let mut r = despawn_both(a.id, b.id);
            let movement = if a.movement.is_some() {
                a.movement
            } else {
                b.movement
            };
            r.spawned = split_spawns(movement, true);
            r
        },
        (AtomType::Splitting, _) | (_, AtomType::Splitting) => {
            let mut r = despawn_both(a.id, b.id);
            let movement = if a.movement.is_some() {
                a.movement
            } else {
                b.movement
            };
            r.spawned = split_spawns(movement, false);
            r
        },
        (AtomType::Antimatter, _) | (_, AtomType::Antimatter) => {
            let r = CollisionOutcome { despawned: Vec::new(), spawned: Vec::new() };
            proof {
                assert(r.despawned@ =~= spec_group_despawns(group.members@));
                assert(r.spawned@ =~= spec_group_spawns(group.members@));
            }
            r
        },
        _ => despawn_both(a.id, b.id),
    }
}

/// Splitting along the opposite direction scatters along the opposites of
/// the directions the original split scatters along, as an unordered pair:
/// the split pair of the reversed direction is the original pair rotated
/// by 180 degrees.
pub proof fn lemma_split_directions_of_opposite(direction: CardinalDirection)
    ensures
        ({
            let (a, b) = spec_split_directions(direction);
            let (c, d) = spec_split_directions(direction.spec_opposite());
            (c, d) == (a.spec_opposite(), b.spec_opposite()) || (c, d) == (
                b.spec_opposite(),
                a.spec_opposite(),
            )
        }),
{
}

} // verus!
