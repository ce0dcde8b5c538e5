//! The board as a mathematical value: four rows of four cell values, 0 for
//! the empty cell.

use vstd::arithmetic::power2::lemma_pow2_unfold;
use vstd::arithmetic::power2::pow2;
use vstd::prelude::*;

use crate::line::lemma_total_update;
use crate::line::line_total;

verus! {

/// The number of rows of the board, and of its columns.
pub const GRID_SIZE: usize = 4;

/// `g` has the shape of a board.
pub open spec fn is_board<T>(g: Seq<Seq<T>>) -> bool {
    &&& g.len() == GRID_SIZE
    &&& forall|r: int| 0 <= r < GRID_SIZE ==> (#[trigger] g[r]).len() == GRID_SIZE
}

/// `row` and `column` name a cell of the board.
pub open spec fn on_board(row: int, column: int) -> bool {
    0 <= row < GRID_SIZE && 0 <= column < GRID_SIZE
}

/// `g` with the value `v` in the cell at `row` and `column`.
pub open spec fn with_cell<T>(g: Seq<Seq<T>>, row: int, column: int, v: T) -> Seq<Seq<T>> {
    g.update(row, g[row].update(column, v))
}

/// The board without a tile.
pub open spec fn blank_board() -> Seq<Seq<nat>> {
    Seq::new(GRID_SIZE as nat, |r: int| Seq::new(GRID_SIZE as nat, |c: int| 0nat))
}

/// No cell of the board is empty.
pub open spec fn board_full(g: Seq<Seq<nat>>) -> bool {
    forall|r: int, c: int| on_board(r, c) ==> g[r][c] != 0
}

/// A tile holds a power of two, 2 at the least.
pub open spec fn is_tile(v: nat) -> bool {
    exists|k: nat| k >= 1 && v == pow2(k)
}

/// Every cell of the board is empty or holds a tile.
pub open spec fn tiles_valid(g: Seq<Seq<nat>>) -> bool {
    forall|r: int, c: int| on_board(r, c) ==> g[r][c] == 0 || is_tile(#[trigger] g[r][c])
}

/// The sum of the values of the first `rows` rows.
pub open spec fn rows_total(g: Seq<Seq<nat>>, rows: int) -> nat
    decreases rows,
{
    if rows <= 0 {
        0
    } else {
        rows_total(g, rows - 1) + line_total(g[rows - 1])
    }
}

/// The sum of the values of all cells.
pub open spec fn board_total(g: Seq<Seq<nat>>) -> nat {
    rows_total(g, g.len() as int)
}

/// Two merged tiles make a tile.
pub proof fn lemma_double_tile(v: nat)
    requires
        is_tile(v),
    ensures
        is_tile(2 * v),
{
    let k = choose|k: nat| k >= 1 && v == pow2(k);
    lemma_pow2_unfold(k + 1);
}

proof fn lemma_rows_total_update(g: Seq<Seq<nat>>, rows: int, row: int, column: int, v: nat)
    requires
        0 <= rows <= g.len(),
        0 <= row < g.len(),
        0 <= column < g[row].len(),
    ensures
        rows_total(with_cell(g, row, column, v), rows) == if row < rows {
            rows_total(g, rows) - g[row][column] + v
        } else {
            rows_total(g, rows) as int
        },
    decreases rows,
{
    if rows > 0 {
        lemma_rows_total_update(g, rows - 1, row, column, v);
        if row == rows - 1 {
            lemma_total_update(g[row], column, v);
        }
    }
}

/// What a change of one cell does to the total of the board.
pub proof fn lemma_board_total_update(g: Seq<Seq<nat>>, row: int, column: int, v: nat)
    requires
        0 <= row < g.len(),
        0 <= column < g[row].len(),
    ensures
        board_total(with_cell(g, row, column, v)) == board_total(g) - g[row][column] + v,
{
    lemma_rows_total_update(g, g.len() as int, row, column, v);
}

/// Two cells together hold no more than the whole board.
pub proof fn lemma_two_cells_bound(g: Seq<Seq<nat>>, r1: int, c1: int, r2: int, c2: int)
    requires
        is_board(g),
        on_board(r1, c1),
        on_board(r2, c2),
        r1 != r2 || c1 != c2,
    ensures
        g[r1][c1] + g[r2][c2] <= board_total(g),
{
    let g1 = with_cell(g, r1, c1, 0nat);
    lemma_board_total_update(g, r1, c1, 0);
    lemma_board_total_update(g1, r2, c2, 0);
}

/// The board without a tile holds nothing.
pub proof fn lemma_blank_total()
    ensures
        board_total(blank_board()) == 0,
        tiles_valid(blank_board()),
{
    reveal_with_fuel(rows_total, 5);
    reveal_with_fuel(line_total, 5);
}

/// A board of tiles stays one where a cell is emptied or gets a tile.
pub proof fn lemma_cell_keeps_tiles(g: Seq<Seq<nat>>, row: int, column: int, v: nat)
    requires
        is_board(g),
        on_board(row, column),
        tiles_valid(g),
        v == 0 || is_tile(v),
    ensures
        tiles_valid(with_cell(g, row, column, v)),
{
    let after = with_cell(g, row, column, v);
    assert forall|r: int, c: int| on_board(r, c) implies after[r][c] == 0 || is_tile(
        #[trigger] after[r][c],
    ) by {}
}

} // verus!
