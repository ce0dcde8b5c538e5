//! Places on the board and steps between them.

use vstd::prelude::*;

use crate::board::on_board;

verus! {

/// A row and a column: the place of a cell, or the step from one cell to
/// another.
#[allow(non_camel_case_types)]
#[derive(Clone, Copy, Debug, PartialEq, Eq, Structural)]
pub struct v2 {
    pub row: i32,
    pub column: i32,
}

impl v2 {
    /// The place names a cell of the board.
    pub open spec fn on_board(self) -> bool {
        on_board(self.row as int, self.column as int)
    }

    pub fn new(row: i32, column: i32) -> (place: v2)
        ensures
            place.row == row,
            place.column == column,
    {
        v2 { row: row, column: column }
    }
}

} // verus!
