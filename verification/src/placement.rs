//! The grid occupancy registry.
//!
//! During the placement phase it tracks which cells already carry a
//! stationary atom or a goal marker, so that overlapping placements are
//! rejected.

use vstd::prelude::*;

use crate::grid::GridPos;

verus! {

/// The set of grid cells already occupied by a placed or level-authored
/// atom or by a goal marker.
#[derive(Clone, Debug, PartialEq, Eq)]
pub struct OccupiedGridPositions {
    pub cells: Vec<GridPos>,
}

/// The sequence with the first occurrence of `cell` removed, if any.
pub open spec fn remove_first_cell(s: Seq<GridPos>, cell: GridPos) -> Seq<GridPos>
    decreases s.len(),
{
    if s.len() == 0 {
        Seq::empty()
    } else if s[0] == cell {
        s.drop_first()
    } else {
        seq![s[0]] + remove_first_cell(s.drop_first(), cell)
    }
}

impl OccupiedGridPositions {
    /// No cell is recorded twice.
    pub open spec fn wf(self) -> bool {
        forall|i: int, j: int|
            0 <= i < self.cells@.len() && 0 <= j < self.cells@.len() && i != j ==> self.cells@[i]
                != self.cells@[j]
    }

    /// The cell is recorded as occupied.
    pub open spec fn spec_contains(self, cell: GridPos) -> bool {
        self.cells@.contains(cell)
    }

    /// Creates an empty registry.
    pub fn new() -> (r: OccupiedGridPositions)
        ensures
            r.cells@ =~= Seq::<GridPos>::empty(),
            r.wf(),
    {
        OccupiedGridPositions { cells: Vec::new() }
    }

    /// Forgets every recorded cell.
    pub fn clear(&mut self)
        ensures
            final(self).cells@ =~= Seq::<GridPos>::empty(),
            final(self).wf(),
    {
        self.cells.clear();
    }

    /// Decides whether the cell is occupied.
    pub fn contains(&self, cell: &GridPos) -> (r: bool)
        ensures
            r == self.spec_contains(*cell),
    {
        let mut i: usize = 0;
        while i < self.cells.len()
            invariant
                i <= self.cells@.len(),
                forall|k: int| 0 <= k < i ==> self.cells@[k] != *cell,
            decreases self.cells@.len() - i,
        {
            if self.cells[i].x == cell.x && self.cells[i].y == cell.y {
                return true;
            }
            i = i + 1;
        }
        false
    }

    /// Records the cell as occupied; recording an already-occupied cell
    /// changes nothing.
    pub fn insert(&mut self, cell: GridPos)
        requires
            old(self).wf(),
        ensures
            final(self).wf(),
            final(self).cells@ == if old(self).spec_contains(cell) {
                old(self).cells@
            } else {
                old(self).cells@.push(cell)
            },
            final(self).spec_contains(cell),
            forall|c: GridPos| c != cell ==> final(self).spec_contains(c) == old(
                self,
            ).spec_contains(c),
    {
        if !self.contains(&cell) {
            self.cells.push(cell);
            proof {
                assert(self.cells@.last() == cell);
                assert(self.cells@.contains(cell));
                assert(forall|c: GridPos|
                    c != cell && self.cells@.contains(c) ==> old(self).cells@.contains(c)) by {
                    assert forall|c: GridPos|
                        c != cell && self.cells@.contains(c) implies old(self).cells@.contains(
                        c,
                    ) by {
                        let i = choose|i: int|
                            0 <= i < self.cells@.len() && self.cells@[i] == c;
                        assert(old(self).cells@[i] == c);
                    }
                }
                assert(forall|c: GridPos|
                    old(self).cells@.contains(c) ==> self.cells@.contains(c)) by {
                    assert forall|c: GridPos| old(self).cells@.contains(c) implies self.cells@
                        .contains(c) by {
                        let i = choose|i: int|
                            0 <= i < old(self).cells@.len() && old(self).cells@[i] == c;
                        assert(self.cells@[i] == c);
                    }
                }
            }
        }
    }

    /// Frees the cell; freeing an unoccupied cell changes nothing.
    pub fn remove(&mut self, cell: &GridPos)
        requires
            old(self).wf(),
        ensures
            final(self).wf(),
            final(self).cells@ == remove_first_cell(old(self).cells@, *cell),
            !final(self).spec_contains(*cell),
            forall|c: GridPos| c != *cell ==> final(self).spec_contains(c) == old(
                self,
            ).spec_contains(c),
    {
        let ghost orig = self.cells@;
        let mut i: usize = 0;
        while i < self.cells.len()
            invariant
                old(self).wf(),
                *self == *old(self),
                i <= orig.len(),
                self.cells@ == orig,
                forall|k: int| 0 <= k < i ==> orig[k] != *cell,
            decreases orig.len() - i,
        {
            if self.cells[i].x == cell.x && self.cells[i].y == cell.y {
                self.cells.remove(i);
                proof {
                    lemma_remove_first_cell(orig, *cell, i as int);
                    assert(self.cells@ == remove_first_cell(orig, *cell));
                    assert forall|j1: int, j2: int|
                        0 <= j1 < self.cells@.len() && 0 <= j2 < self.cells@.len() && j1
                            != j2 implies self.cells@[j1] != self.cells@[j2] by {
                        let m1 = if j1 < i { j1 } else { j1 + 1 };
                        let m2 = if j2 < i { j2 } else { j2 + 1 };
                        assert(self.cells@[j1] == orig[m1]);
                        assert(self.cells@[j2] == orig[m2]);
                    }
                    assert(!self.cells@.contains(*cell)) by {
                        if self.cells@.contains(*cell) {
                            let j = choose|j: int|
                                0 <= j < self.cells@.len() && self.cells@[j] == *cell;
                            let m = if j < i { j } else { j + 1 };
                            assert(orig[m] == *cell);
                            assert(orig[i as int] == *cell);
                        }
                    }
                    assert forall|c: GridPos| c != *cell implies self.cells@.contains(c) == orig
                        .contains(c) by {
                        if self.cells@.contains(c) {
                            let j = choose|j: int|
                                0 <= j < self.cells@.len() && self.cells@[j] == c;
                            let m = if j < i { j } else { j + 1 };
                            assert(orig[m] == c);
                            assert(orig.contains(c));
                        }
                        if orig.contains(c) {
                            let j = choose|j: int| 0 <= j < orig.len() && orig[j] == c;
                            if j < i {
                                assert(self.cells@[j] == c);
                            } else {
                                assert(j != i);
                                assert(self.cells@[j - 1] == c);
                            }
                            assert(self.cells@.contains(c));
                        }
                    }
                }
                return;
            }
            i = i + 1;
        }
        proof {
            lemma_remove_first_cell(orig, *cell, orig.len() as int);
            assert(!self.cells@.contains(*cell)) by {
                if self.cells@.contains(*cell) {
                    let j = choose|j: int|
                        0 <= j < self.cells@.len() && self.cells@[j] == *cell;
                }
            }
        }
    }
}

/// `remove_first_cell` removes exactly the first occurrence: with no
/// occurrence before `i`, and `i` either the first occurrence or the
/// length when there is none, the result drops index `i` and keeps the
/// rest in order.
proof fn lemma_remove_first_cell(s: Seq<GridPos>, cell: GridPos, i: int)
    requires
        0 <= i <= s.len(),
        forall|k: int| 0 <= k < i ==> s[k] != cell,
        i < s.len() ==> s[i] == cell,
    ensures
        i < s.len() ==> remove_first_cell(s, cell) =~= s.remove(i),
        i == s.len() ==> remove_first_cell(s, cell) =~= s,
    decreases s.len(),
{
    if s.len() > 0 {
        if s[0] == cell {
            assert(i == 0);
            assert(s.drop_first() =~= s.remove(0));
        } else {
            lemma_remove_first_cell(s.drop_first(), cell, i - 1);
            if i < s.len() {
                assert(seq![s[0]] + remove_first_cell(s.drop_first(), cell) =~= s.remove(i)) by {
                    assert(remove_first_cell(s.drop_first(), cell) =~= s.drop_first().remove(
                        i - 1,
                    ));
                }
            }
        }
    }
}

} // verus!
