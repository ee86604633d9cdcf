//! Cell positions.

use vstd::prelude::*;

verus! {

/// A cell position in the grid.
#[derive(Clone, Copy, Debug, PartialEq, Eq, Structural)]
pub struct Pos {
    /// The column of the cell.
    pub column: usize,
    /// The row of the cell.
    pub row: usize,
}

impl Pos {
    /// Creates a new position from its column and row.
    pub fn new(column: usize, row: usize) -> (pos: Self)
        ensures
            pos == (Pos { column, row }),
    {
        Pos { column, row }
    }

    /// Returns the row of this position.
    pub fn row(&self) -> (row: usize)
        ensures
            row == self.row,
    {
        self.row
    }

    /// Returns the column of this position.
    pub fn column(&self) -> (column: usize)
        ensures
            column == self.column,
    {
        self.column
    }
}

} // verus!
