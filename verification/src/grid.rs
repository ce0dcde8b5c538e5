//! The grid of the game and the access to its cells.

use vstd::prelude::*;

use crate::board::blank_board;
use crate::board::board_full;
use crate::board::board_total;
use crate::board::GRID_SIZE;
use crate::board::is_board;
use crate::board::is_tile;
use crate::board::lemma_blank_total;
use crate::board::lemma_board_total_update;
use crate::board::lemma_cell_keeps_tiles;
use crate::board::on_board;
use crate::board::rows_total;
use crate::board::tiles_valid;
use crate::board::with_cell;
use crate::line::lemma_total_push;
use crate::line::line_total;
use crate::place::v2;

verus! {

/// The whole state of a game: the value of every cell, 0 for an empty one.
#[derive(Clone, Copy, Debug)]
pub struct Grid {
    grid: [[u64; GRID_SIZE]; GRID_SIZE],
}

impl View for Grid {
    type V = Seq<Seq<nat>>;

    closed spec fn view(&self) -> Seq<Seq<nat>> {
        Seq::new(
            GRID_SIZE as nat,
            |r: int| Seq::new(GRID_SIZE as nat, |c: int| self.grid@[r]@[c] as nat),
        )
    }
}

impl Grid {
    /// Every cell holds nothing or a tile.
    pub open spec fn well_formed(&self) -> bool {
        tiles_valid(self@)
    }

    /// The sum of the values of all tiles.
    pub open spec fn total(&self) -> nat {
        board_total(self@)
    }

    /// The view of a grid is a board, and every cell of it fits a `u64`.
    pub proof fn lemma_shape(&self)
        ensures
            is_board(self@),
            forall|r: int, c: int| on_board(r, c) ==> self@[r][c] <= u64::MAX,
    {
    }

    /// The grid at the start of a game.
    pub fn empty() -> (g: Grid)
        ensures
            g@ == blank_board(),
            g.well_formed(),
            g.total() == 0,
    {
        let g = Grid { grid: [[0; GRID_SIZE]; GRID_SIZE] };
        proof {
            assert(g@ =~~= blank_board());
            lemma_blank_total();
        }
        g
    }

    /// The value of the cell at `place`.
    pub fn at(&self, place: &v2) -> (value: u64)
        requires
            place.on_board(),
        ensures
            value == self@[place.row as int][place.column as int],
    {
        self.grid[place.row as usize][place.column as usize]
    }

    /// Puts `value` into the cell at `place`. The grid stays well formed where
    /// `value` is 0 or the value of a tile.
    pub fn set(&mut self, place: &v2, value: u64)
        requires
            place.on_board(),
        ensures
            final(self)@ == with_cell(
                old(self)@,
                place.row as int,
                place.column as int,
                value as nat,
            ),
            final(self).total() == old(self).total() - old(self)@[place.row as int][place.column as int]
                + value,
            old(self).well_formed() && (value == 0 || is_tile(value as nat)) ==> final(self).well_formed(),
    {
        proof {
            lemma_board_total_update(
                self@,
                place.row as int,
                place.column as int,
                value as nat,
            );
            if self.well_formed() && (value == 0 || is_tile(value as nat)) {
                lemma_cell_keeps_tiles(
                    self@,
                    place.row as int,
                    place.column as int,
                    value as nat,
                );
            }
        }
        self.grid[place.row as usize][place.column as usize] = value;
        assert(self@ =~~= with_cell(
            old(self)@,
            place.row as int,
            place.column as int,
            value as nat,
        ));
    }

    /// The sum of the values of all tiles, or nothing where that sum is more
    /// than a `u64` holds.
    pub fn checked_total(&self) -> (total: Option<u64>)
        ensures
            match total {
                Some(t) => t == self.total(),
                None => self.total() > u64::MAX,
            },
    {
        let mut sum: u128 = 0;
        for row in 0..GRID_SIZE
            invariant
                sum == rows_total(self@, row as int),
                sum <= row * GRID_SIZE * u64::MAX,
        {
            let ghost above = sum;
            for column in 0..GRID_SIZE
                invariant
                    row < GRID_SIZE,
                    above == rows_total(self@, row as int),
                    sum == above + line_total(self@[row as int].take(column as int)),
                    sum <= (row * GRID_SIZE + column) * u64::MAX,
            {
                proof {
                    let line = self@[row as int];
                    assert(line.take(column + 1) =~= line.take(column as int).push(
                        line[column as int],
                    ));
                    lemma_total_push(line.take(column as int), line[column as int]);
                }
                sum = sum + self.at(&v2::new(row as i32, column as i32)) as u128;
            }
            proof {
                let line = self@[row as int];
                assert(line.take(GRID_SIZE as int) =~= line);
            }
        }
        if sum <= u64::MAX as u128 {
            Some(sum as u64)
        } else {
            None
        }
    }

    /// Whether no cell is empty.
    pub fn is_full(&self) -> (full: bool)
        ensures
            full == board_full(self@),
    {
        for row in 0..GRID_SIZE
            invariant
                forall|r: int, c: int| 0 <= r < row && 0 <= c < GRID_SIZE ==> self@[r][c] != 0,
        {
            for column in 0..GRID_SIZE
                invariant
                    row < GRID_SIZE,
                    forall|r: int, c: int| 0 <= r < row && 0 <= c < GRID_SIZE ==> self@[r][c] != 0,
                    forall|c: int| 0 <= c < column ==> self@[row as int][c] != 0,
            {
                if self.at(&v2::new(row as i32, column as i32)) == 0 {
                    assert(on_board(row as int, column as int));
                    return false;
                }
            }
        }
        true
    }
}

} // verus!
