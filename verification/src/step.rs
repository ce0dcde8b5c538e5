//! One step of one tile: into an empty cell, or into a tile of its value.

use vstd::prelude::*;

use crate::board::board_total;
use crate::board::is_board;
use crate::board::lemma_board_total_update;
use crate::board::on_board;
use crate::board::with_cell;
use crate::direction::Direction;
use crate::marked::can_merge;
use crate::place::v2;

verus! {

/// The board after the tile at `row` and `column`, if there is one, has tried
/// to step to the cell at `to_row` and `to_column`: it moves into an empty
/// cell, merges into a tile of its own value, and stays where it is otherwise.
pub open spec fn block_step(
    g: Seq<Seq<nat>>,
    row: int,
    column: int,
    to_row: int,
    to_column: int,
) -> Seq<Seq<nat>> {
    let tile = g[row][column];
    let target = g[to_row][to_column];
    if tile != 0 && target == 0 {
        with_cell(with_cell(g, to_row, to_column, tile), row, column, 0)
    } else if tile != 0 && target == tile {
        with_cell(with_cell(g, to_row, to_column, (2 * tile) as nat), row, column, 0)
    } else {
        g
    }
}

/// Whether the tile at `row` and `column` can step to the cell at `to_row`
/// and `to_column`.
pub open spec fn block_moves(
    g: Seq<Seq<nat>>,
    row: int,
    column: int,
    to_row: int,
    to_column: int,
) -> bool {
    g[row][column] != 0 && (g[to_row][to_column] == 0 || g[to_row][to_column] == g[row][column])
}

/// The step of one cell in the direction `dir`, as a change of row and of
/// column.
pub open spec fn step_of(dir: Direction) -> (int, int) {
    match dir {
        Direction::North => (-1, 0),
        Direction::West => (0, -1),
        Direction::South => (1, 0),
        Direction::East => (0, 1),
    }
}

/// The step of one cell in the direction `dir`.
pub fn step_for(dir: Direction) -> (step: v2)
    ensures
        step.row == step_of(dir).0,
        step.column == step_of(dir).1,
{
    match dir {
        Direction::North => v2::new(-1, 0),
        Direction::West => v2::new(0, -1),
        Direction::South => v2::new(1, 0),
        Direction::East => v2::new(0, 1),
    }
}

/// The tile at `row` and `column` can take a step in the direction `dir`: the
/// next cell lies on the board and is empty or holds a tile of its value.
pub open spec fn tile_steps(g: Seq<Seq<nat>>, dir: Direction, row: int, column: int) -> bool {
    &&& on_board(row, column)
    &&& on_board(row + step_of(dir).0, column + step_of(dir).1)
    &&& block_moves(g, row, column, row + step_of(dir).0, column + step_of(dir).1)
}

/// Some tile can take a step in the direction `dir`.
pub open spec fn can_step(g: Seq<Seq<nat>>, dir: Direction) -> bool {
    exists|row: int, column: int| #[trigger] tile_steps(g, dir, row, column)
}

/// The same step in the middle of a move, where `m` marks the tiles that have
/// come out of a merge: such a tile still moves into an empty cell and takes
/// its mark along, but it merges no more.
pub open spec fn settle_step(
    g: Seq<Seq<nat>>,
    m: Seq<Seq<bool>>,
    row: int,
    column: int,
    to_row: int,
    to_column: int,
) -> (Seq<Seq<nat>>, Seq<Seq<bool>>) {
    let tile = g[row][column];
    let target = g[to_row][to_column];
    if tile != 0 && target == 0 {
        (
            with_cell(with_cell(g, to_row, to_column, tile), row, column, 0),
            with_cell(with_cell(m, to_row, to_column, m[row][column]), row, column, false),
        )
    } else if can_merge(target, m[to_row][to_column], tile, m[row][column]) {
        (
            with_cell(with_cell(g, to_row, to_column, (2 * tile) as nat), row, column, 0),
            with_cell(m, to_row, to_column, true),
        )
    } else {
        (g, m)
    }
}

/// Whether `settle_step` changes anything.
pub open spec fn settle_moves(
    g: Seq<Seq<nat>>,
    m: Seq<Seq<bool>>,
    row: int,
    column: int,
    to_row: int,
    to_column: int,
) -> bool {
    g[row][column] != 0 && (g[to_row][to_column] == 0 || can_merge(
        g[to_row][to_column],
        m[to_row][to_column],
        g[row][column],
        m[row][column],
    ))
}

/// A step between two different cells keeps the total of the board.
pub proof fn lemma_step_total(g: Seq<Seq<nat>>, row: int, column: int, to_row: int, to_column: int)
    requires
        is_board(g),
        on_board(row, column),
        on_board(to_row, to_column),
    ensures
        row != to_row || column != to_column ==> board_total(
            block_step(g, row, column, to_row, to_column),
        ) == board_total(g),
{
    let tile = g[row][column];
    let target = g[to_row][to_column];
    if row != to_row || column != to_column {
        if tile != 0 && target == 0 {
            let g1 = with_cell(g, to_row, to_column, tile);
            lemma_board_total_update(g, to_row, to_column, tile);
            lemma_board_total_update(g1, row, column, 0);
        } else if tile != 0 && target == tile {
            let g1 = with_cell(g, to_row, to_column, (2 * tile) as nat);
            lemma_board_total_update(g, to_row, to_column, (2 * tile) as nat);
            lemma_board_total_update(g1, row, column, 0);
        }
    }
}

} // verus!
