//! Slots: the maximal runs of contiguous cells words are written into.

use crate::pos::Pos;
use vstd::prelude::*;

verus! {

/// The minimal length of a slot.
pub const MIN_LEN: usize = 2;

/// The definition of a group of contiguous cells.
#[derive(Clone, Copy, Debug, PartialEq, Eq, Structural)]
pub struct Slot {
    /// The start of the varying coordinate.
    pub start: usize,
    /// The end (exclusive) of the varying coordinate.
    pub end: usize,
    /// The fixed coordinate.
    pub offset: usize,
    /// Whether this is a down slot.
    pub is_down: bool,
}

impl Slot {
    /// A slot is well formed when its varying coordinate spans at least [MIN_LEN] cells.
    pub open spec fn wf(&self) -> bool {
        self.start + MIN_LEN <= self.end
    }

    /// The length of this slot.
    pub open spec fn spec_len(&self) -> int {
        self.end - self.start
    }

    /// The position of the `i`-th cell of this slot.
    pub open spec fn spec_position(&self, i: int) -> Pos {
        if self.is_down {
            Pos { column: self.offset, row: (self.start + i) as usize }
        } else {
            Pos { column: (self.start + i) as usize, row: self.offset }
        }
    }

    /// Creates a new across slot.
    pub fn across(start_column: usize, end_column: usize, row: usize) -> (slot: Self)
        ensures
            slot == (Slot { start: start_column, end: end_column, offset: row, is_down: false }),
    {
        Slot { start: start_column, end: end_column, offset: row, is_down: false }
    }

    /// Creates a new down slot.
    pub fn down(start_row: usize, end_row: usize, column: usize) -> (slot: Self)
        ensures
            slot == (Slot { start: start_row, end: end_row, offset: column, is_down: true }),
    {
        Slot { start: start_row, end: end_row, offset: column, is_down: true }
    }

    /// Returns the length of this slot.
    pub fn len(&self) -> (length: usize)
        requires
            self.wf(),
        ensures
            length == self.spec_len(),
    {
        self.end - self.start
    }

    /// Returns the positions of the cells of this slot, in order.
    pub fn positions(&self) -> (positions: Vec<Pos>)
        requires
            self.wf(),
        ensures
            positions@.len() == self.spec_len(),
            forall|i: int| 0 <= i < positions@.len() ==> positions@[i] == self.spec_position(i),
    {
        let mut positions: Vec<Pos> = Vec::new();
        let mut i: usize = self.start;
        while i < self.end
            invariant
                self.start <= i <= self.end,
                self.wf(),
                positions@.len() == i - self.start,
                forall|k: int| 0 <= k < positions@.len() ==> positions@[k] == self.spec_position(k),
            decreases self.end - i,
        {
            if self.is_down {
                positions.push(Pos::new(self.offset, i));
            } else {
                positions.push(Pos::new(i, self.offset));
            }
            i += 1;
        }
        positions
    }
}

} // verus!
