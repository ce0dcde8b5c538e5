//! The marks of a move: which tiles have come out of a merge.

use vstd::prelude::*;

use crate::board::GRID_SIZE;
use crate::board::is_board;
use crate::board::on_board;
use crate::board::with_cell;
use crate::place::v2;

verus! {

/// For every cell, whether its tile has come out of a merge in the move that
/// is under way.
pub struct MergeMarks {
    marks: [[bool; GRID_SIZE]; GRID_SIZE],
}

impl View for MergeMarks {
    type V = Seq<Seq<bool>>;

    closed spec fn view(&self) -> Seq<Seq<bool>> {
        Seq::new(GRID_SIZE as nat, |r: int| self.marks@[r]@)
    }
}

impl MergeMarks {
    /// The view of the marks has the shape of a board.
    pub proof fn lemma_shape(&self)
        ensures
            is_board(self@),
    {
    }

    /// The marks at the start of a move: no tile has merged.
    pub fn new() -> (marks: MergeMarks)
        ensures
            is_board(marks@),
            forall|r: int, c: int| on_board(r, c) ==> !marks@[r][c],
    {
        MergeMarks { marks: [[false; GRID_SIZE]; GRID_SIZE] }
    }

    /// Whether the tile at `place` has come out of a merge.
    pub fn at(&self, place: &v2) -> (merged: bool)
        requires
            place.on_board(),
        ensures
            merged == self@[place.row as int][place.column as int],
    {
        self.marks[place.row as usize][place.column as usize]
    }

    /// Sets the mark of the cell at `place`.
    pub fn set(&mut self, place: &v2, merged: bool)
        requires
            place.on_board(),
        ensures
            final(self)@ == with_cell(old(self)@, place.row as int, place.column as int, merged),
    {
        self.marks[place.row as usize][place.column as usize] = merged;
        assert(self@ =~~= with_cell(old(self)@, place.row as int, place.column as int, merged));
    }
}

} // verus!
