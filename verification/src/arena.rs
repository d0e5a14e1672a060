//! Shared stage cells.
//!
//! Every stage of a family lives in exactly one cell of a `StageArena`, and
//! pipelines refer to cells by handle. Because pipelines store handles rather
//! than copies, mutating the stage held by a cell is visible through every
//! pipeline that references that cell.

use vstd::prelude::*;

verus! {

/// Handle to one stage cell inside a `StageArena`.
///
/// A handle is valid for an arena when its index lies below the arena's
/// length; cells are never removed, so a valid handle stays valid.
#[derive(Clone, Copy, Debug, PartialEq, Eq, Structural)]
pub struct StageCell {
    index: usize,
}

impl View for StageCell {
    type V = int;

    closed spec fn view(&self) -> int {
        self.index as int
    }
}

/// Arena owning every stage cell of one family.
///
/// The arena is viewed as the sequence of the stages its cells hold, in
/// allocation order; a `StageCell` is viewed as its position in that sequence.
pub struct StageArena<T> {
    cells: Vec<T>,
}

impl<T: View> View for StageArena<T> {
    type V = Seq<T::V>;

    closed spec fn view(&self) -> Seq<T::V> {
        Seq::new(self.cells@.len(), |i: int| self.cells@[i]@)
    }
}

impl<T: View> StageArena<T> {
    /// An arena with no cells.
    pub fn new() -> (a: Self)
        ensures
            a@ == Seq::<T::V>::empty(),
    {
        let a = StageArena { cells: Vec::new() };
        proof {
            assert(a@ =~= Seq::<T::V>::empty());
        }
        a
    }

    /// How many cells the arena holds.
    pub fn len(&self) -> (n: usize)
        ensures
            n == self@.len(),
    {
        self.cells.len()
    }

    /// Wrap a stage into a fresh cell and hand back its handle.
    pub fn insert(&mut self, stage: T) -> (h: StageCell)
        ensures
            final(self)@ == old(self)@.push(stage@),
            h@ == old(self)@.len(),
    {
        let index = self.cells.len();
        self.cells.push(stage);
        proof {
            assert(self@ =~= old(self)@.push(stage@));
        }
        StageCell { index }
    }

    /// Shared, read-only access to the stage held by a cell.
    pub fn read(&self, h: StageCell) -> (s: &T)
        requires
            h@ < self@.len(),
        ensures
            s@ == self@[h@],
    {
        &self.cells[h.index]
    }

    /// Exclusive access: replace the stage held by a cell.
    pub fn write(&mut self, h: StageCell, stage: T)
        requires
            h@ < old(self)@.len(),
        ensures
            final(self)@ == old(self)@.update(h@, stage@),
    {
        self.cells.set(h.index, stage);
        proof {
            assert(self@ =~= old(self)@.update(h@, stage@));
        }
    }
}

} // verus!
