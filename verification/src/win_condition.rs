//! Goal markers, goal consumption and the win check.

use vstd::prelude::*;

use crate::atom::{Atom, AtomType};
use crate::grid::{dist_squared, GridPos, Position, GOAL_THRESHOLD_MILLI};
use crate::level::LevelGoal;

verus! {

/// A goal marker: a target position a matching atom must reach.  Not an
/// atom; it neither moves nor collides.
#[derive(Clone, Copy, Debug, PartialEq, Eq, Structural)]
pub struct Goal {
    pub atom_type: AtomType,
    pub position: Position,
}

impl Goal {
    /// The marker stands on the play field.
    pub open spec fn wf(self) -> bool {
        self.position.in_field()
    }
}

/// Creates a goal marker of the given type at a grid cell.
pub fn goal(atom_type: AtomType, position: GridPos) -> (r: Goal)
    requires
        position.in_field(),
    ensures
        r == (Goal { atom_type, position: position.spec_position() }),
        r.wf(),
{
    Goal { atom_type, position: position.position() }
}

/// The atom satisfies the goal marker: same type, and strictly within the
/// goal threshold of the marker's position.
pub open spec fn atom_matches_goal(a: Atom, g: Goal) -> bool {
    a.atom_type == g.atom_type && dist_squared(a.position, g.position) < GOAL_THRESHOLD_MILLI
        * GOAL_THRESHOLD_MILLI
}

/// Some atom in the population satisfies the marker, so the marker is
/// consumed this tick.
pub open spec fn goal_consumed(g: Goal, atoms: Seq<Atom>) -> bool {
    exists|i: int| 0 <= i < atoms.len() && atom_matches_goal(#[trigger] atoms[i], g)
}

/// Some marker is satisfied by the atom, so the atom is consumed this
/// tick.
pub open spec fn atom_consumed(a: Atom, goals: Seq<Goal>) -> bool {
    exists|i: int| 0 <= i < goals.len() && atom_matches_goal(a, #[trigger] goals[i])
}

/// The goal markers that survive the tick: those no atom of the
/// population satisfies.
pub open spec fn surviving_goals(goals: Seq<Goal>, atoms: Seq<Atom>) -> Seq<Goal>
    decreases goals.len(),
{
    if goals.len() == 0 {
        Seq::empty()
    } else {
        let pre = surviving_goals(goals.drop_last(), atoms);
        if goal_consumed(goals.last(), atoms) {
            pre
        } else {
            pre.push(goals.last())
        }
    }
}

/// The atoms that survive goal consumption: those that satisfy no marker.
pub open spec fn surviving_atoms(atoms: Seq<Atom>, goals: Seq<Goal>) -> Seq<Atom>
    decreases atoms.len(),
{
    if atoms.len() == 0 {
        Seq::empty()
    } else {
        let pre = surviving_atoms(atoms.drop_last(), goals);
        if atom_consumed(atoms.last(), goals) {
            pre
        } else {
            pre.push(atoms.last())
        }
    }
}

/// Every surviving goal marker is one of the input markers.
pub proof fn lemma_surviving_goals_membership(goals: Seq<Goal>, atoms: Seq<Atom>)
    ensures
        forall|k: int|
            0 <= k < surviving_goals(goals, atoms).len() ==> exists|j: int|
                0 <= j < goals.len() && #[trigger] surviving_goals(goals, atoms)[k] == goals[j],
    decreases goals.len(),
{
    if goals.len() > 0 {
        lemma_surviving_goals_membership(goals.drop_last(), atoms);
        assert forall|k: int| 0 <= k < surviving_goals(goals, atoms).len() implies exists|j: int|
            0 <= j < goals.len() && #[trigger] surviving_goals(goals, atoms)[k] == goals[j] by {
            let pre = surviving_goals(goals.drop_last(), atoms);
            if k < pre.len() {
                let j = choose|j: int|
                    0 <= j < goals.drop_last().len() && pre[k] == goals.drop_last()[j];
                assert(surviving_goals(goals, atoms)[k] == goals[j]);
            } else {
                assert(surviving_goals(goals, atoms)[k] == goals[goals.len() - 1]);
            }
        }
    }
}

/// Every atom surviving goal consumption is one of the input atoms, at an
/// input index no later than its own.
pub proof fn lemma_surviving_atoms_membership(atoms: Seq<Atom>, goals: Seq<Goal>)
    ensures
        surviving_atoms(atoms, goals).len() <= atoms.len(),
        forall|k: int|
            0 <= k < surviving_atoms(atoms, goals).len() ==> exists|j: int|
                k <= j < atoms.len() && #[trigger] surviving_atoms(atoms, goals)[k] == atoms[j],
    decreases atoms.len(),
{
    if atoms.len() > 0 {
        lemma_surviving_atoms_membership(atoms.drop_last(), goals);
        assert forall|k: int| 0 <= k < surviving_atoms(atoms, goals).len() implies exists|j: int|
            k <= j < atoms.len() && #[trigger] surviving_atoms(atoms, goals)[k] == atoms[j] by {
            let pre = surviving_atoms(atoms.drop_last(), goals);
            if k < pre.len() {
                let j = choose|j: int|
                    k <= j < atoms.drop_last().len() && pre[k] == atoms.drop_last()[j];
                assert(surviving_atoms(atoms, goals)[k] == atoms[j]);
            } else {
                assert(surviving_atoms(atoms, goals)[k] == atoms[atoms.len() - 1]);
            }
        }
    }
}

/// Goal consumption keeps distinct identities distinct.
pub proof fn lemma_surviving_atoms_distinct(atoms: Seq<Atom>, goals: Seq<Goal>)
    requires
        forall|i: int, j: int|
            0 <= i < atoms.len() && 0 <= j < atoms.len() && i != j ==> atoms[i].id != atoms[j].id,
    ensures
        forall|k1: int, k2: int|
            0 <= k1 < surviving_atoms(atoms, goals).len() && 0 <= k2 < surviving_atoms(
                atoms,
                goals,
            ).len() && k1 != k2 ==> surviving_atoms(atoms, goals)[k1].id != surviving_atoms(
                atoms,
                goals,
            )[k2].id,
    decreases atoms.len(),
{
    if atoms.len() > 0 {
        lemma_surviving_atoms_distinct(atoms.drop_last(), goals);
        lemma_surviving_atoms_membership(atoms.drop_last(), goals);
        let pre = surviving_atoms(atoms.drop_last(), goals);
        let out = surviving_atoms(atoms, goals);
        assert forall|k1: int, k2: int|
            0 <= k1 < out.len() && 0 <= k2 < out.len() && k1 != k2 implies out[k1].id
            != out[k2].id by {
            if k1 < pre.len() && k2 < pre.len() {
                assert(out[k1] == pre[k1] && out[k2] == pre[k2]);
            } else if k1 < pre.len() {
                let j = choose|j: int|
                    k1 <= j < atoms.drop_last().len() && pre[k1] == atoms.drop_last()[j];
                assert(out[k1] == atoms[j] && out[k2] == atoms[atoms.len() - 1]);
            } else {
                let j = choose|j: int|
                    k2 <= j < atoms.drop_last().len() && pre[k2] == atoms.drop_last()[j];
                assert(out[k2] == atoms[j] && out[k1] == atoms[atoms.len() - 1]);
            }
        }
    }
}

/// A strictly longer prefix drops back to the shorter one.
proof fn lemma_take_succ_drop_last<T>(s: Seq<T>, i: int)
    requires
        0 <= i < s.len(),
    ensures
        s.take(i + 1).drop_last() =~= s.take(i),
        s.take(i + 1).last() == s[i],
{
}

/// Decides whether some atom satisfies the marker.
fn some_atom_matches(g: &Goal, atoms: &Vec<Atom>) -> (r: bool)
    requires
        g.wf(),
        forall|i: int| 0 <= i < atoms@.len() ==> (#[trigger] atoms@[i]).wf(),
    ensures
        r == goal_consumed(*g, atoms@),
{
    let mut i: usize = 0;
    while i < atoms.len()
        invariant
            i <= atoms@.len(),
            g.wf(),
            forall|k: int| 0 <= k < atoms@.len() ==> (#[trigger] atoms@[k]).wf(),
            forall|k: int| 0 <= k < i ==> !atom_matches_goal(#[trigger] atoms@[k], *g),
        decreases atoms@.len() - i,
    {
        let a = atoms[i];
        if a.atom_type == g.atom_type
            && crate::grid::within_goal_threshold(&a.position, &g.position) {
            return true;
        }
        i = i + 1;
    }
    false
}

/// Decides whether the atom satisfies some marker.
fn some_goal_matches(a: &Atom, goals: &Vec<Goal>) -> (r: bool)
    requires
        a.wf(),
        forall|i: int| 0 <= i < goals@.len() ==> (#[trigger] goals@[i]).wf(),
    ensures
        r == atom_consumed(*a, goals@),
{
    let mut i: usize = 0;
    while i < goals.len()
        invariant
            i <= goals@.len(),
            a.wf(),
            forall|k: int| 0 <= k < goals@.len() ==> (#[trigger] goals@[k]).wf(),
            forall|k: int| 0 <= k < i ==> !atom_matches_goal(*a, #[trigger] goals@[k]),
        decreases goals@.len() - i,
    {
        let g = goals[i];
        if a.atom_type == g.atom_type
            && crate::grid::within_goal_threshold(&a.position, &g.position) {
            return true;
        }
        i = i + 1;
    }
    false
}

/// The goal-consumption check: over one snapshot of the population, every
/// marker some matching atom stands within the threshold of is despawned,
/// and so is every atom that satisfies some marker.
pub fn check_goal_collisions(atoms: &mut Vec<Atom>, goals: &mut Vec<Goal>)
    requires
        forall|i: int| 0 <= i < old(atoms)@.len() ==> (#[trigger] old(atoms)@[i]).wf(),
        forall|i: int| 0 <= i < old(goals)@.len() ==> (#[trigger] old(goals)@[i]).wf(),
    ensures
        final(goals)@ == surviving_goals(old(goals)@, old(atoms)@),
        final(atoms)@ == surviving_atoms(old(atoms)@, old(goals)@),
{
    let mut new_goals: Vec<Goal> = Vec::new();
    let mut i: usize = 0;
    while i < goals.len()
        invariant
            i <= goals@.len(),
            goals@ == old(goals)@,
            atoms@ == old(atoms)@,
            forall|k: int| 0 <= k < atoms@.len() ==> (#[trigger] atoms@[k]).wf(),
            forall|k: int| 0 <= k < goals@.len() ==> (#[trigger] goals@[k]).wf(),
            new_goals@ == surviving_goals(goals@.take(i as int), atoms@),
        decreases goals@.len() - i,
    {
        proof {
            lemma_take_succ_drop_last(goals@, i as int);
        }
        let g = goals[i];
        if !some_atom_matches(&g, atoms) {
            new_goals.push(g);
        }
        i = i + 1;
    }
    proof {
        assert(goals@.take(goals@.len() as int) =~= goals@);
    }

    let mut new_atoms: Vec<Atom> = Vec::new();
    let mut i: usize = 0;
    while i < atoms.len()
        invariant
            i <= atoms@.len(),
            goals@ == old(goals)@,
            atoms@ == old(atoms)@,
            forall|k: int| 0 <= k < atoms@.len() ==> (#[trigger] atoms@[k]).wf(),
            forall|k: int| 0 <= k < goals@.len() ==> (#[trigger] goals@[k]).wf(),
            new_atoms@ == surviving_atoms(atoms@.take(i as int), goals@),
        decreases atoms@.len() - i,
    {
        proof {
            lemma_take_succ_drop_last(atoms@, i as int);
        }
        let a = atoms[i];
        if !some_goal_matches(&a, goals) {
            new_atoms.push(a);
        }
        i = i + 1;
    }
    proof {
        assert(atoms@.take(atoms@.len() as int) =~= atoms@);
    }

    *goals = new_goals;
    *atoms = new_atoms;
}

/// Whether the level is won, dispatched on its goal: a sandbox never
/// auto-wins; a reach-positions goal is won when no marker remains; a
/// create-atom goal is won as soon as an atom of the required type exists
/// anywhere, without consuming it.
pub open spec fn spec_win(goal: LevelGoal, goals: Seq<Goal>, atoms: Seq<Atom>) -> bool {
    match goal {
        LevelGoal::NoGoal => false,
        LevelGoal::ReachPositions(_) => goals.len() == 0,
        LevelGoal::CreateAtom(t) => exists|i: int|
            0 <= i < atoms.len() && (#[trigger] atoms[i]).atom_type == t,
    }
}

/// Evaluates the win check against the current population.  Reads only;
/// in particular a `CreateAtom` win leaves the witnessing atom alive.
pub fn check_win_condition(goal: &LevelGoal, goals: &Vec<Goal>, atoms: &Vec<Atom>) -> (r: bool)
    ensures
        r == spec_win(*goal, goals@, atoms@),
{
    match goal {
        LevelGoal::NoGoal => false,
        LevelGoal::ReachPositions(_) => goals.len() == 0,
        LevelGoal::CreateAtom(t) => {
            let mut i: usize = 0;
            while i < atoms.len()
                invariant
                    i <= atoms@.len(),
                    *goal == LevelGoal::CreateAtom(*t),
                    forall|k: int| 0 <= k < i ==> (#[trigger] atoms@[k]).atom_type != *t,
                decreases atoms@.len() - i,
            {
                if atoms[i].atom_type == *t {
                    proof {
                        assert((atoms@[i as int]).atom_type == *t);
                    }
                    return true;
                }
                i = i + 1;
            }
            false
        },
    }
}

} // verus!
