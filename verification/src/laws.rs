//! What holds of every move, stated over the boards and proved once.

use vstd::prelude::*;

use crate::board::board_total;
use crate::board::GRID_SIZE;
use crate::board::is_board;
use crate::board::is_tile;
use crate::board::on_board;
use crate::board::rows_total;
use crate::board::tiles_valid;
use crate::board::with_cell;
use crate::direction::Direction;
use crate::game::board_stuck;
use crate::game::game_over;
use crate::board::board_full;
use crate::line::lemma_line_at_rest;
use crate::line::lemma_lone_tile_line;
use crate::line::lemma_slide_keeps_total;
use crate::line::lemma_slide_keeps_valid;
use crate::line::lemma_slide_merges_once;
use crate::line::lemma_total_of_four;
use crate::line::lemma_unchanged_line_is_at_rest;
use crate::line::line_total;
use crate::line::merged_once;
use crate::line::slide_line;
use crate::line::tile_can_step;
use crate::line::tiles;
use crate::step::block_step;
use crate::step::can_step;
use crate::step::lemma_step_total;
use crate::step::tile_steps;
use crate::sweep::lane;
use crate::sweep::resolve;
use crate::sweep::resolve_sweep;
use crate::sweep::Sweep;
use crate::sweep::sweep_of;

verus! {

/// The cell at the edge that a tile at `row` and `column` moves to when
/// nothing stands in its way.
pub open spec fn edge_cell(dir: Direction, row: int, column: int) -> (int, int) {
    match dir {
        Direction::North => (0, column),
        Direction::West => (row, 0),
        Direction::South => (GRID_SIZE - 1, column),
        Direction::East => (row, GRID_SIZE - 1),
    }
}

/// A merge doubles: where a tile steps into a tile of its value, the cell
/// that it steps into holds twice that value afterwards, the cell that it
/// leaves is empty, no other cell changes, and the total of the board is what
/// it was.
pub proof fn lemma_merge_event(g: Seq<Seq<nat>>, row: int, column: int, to_row: int, to_column: int)
    requires
        is_board(g),
        on_board(row, column),
        on_board(to_row, to_column),
        row != to_row || column != to_column,
        g[row][column] != 0,
        g[to_row][to_column] == g[row][column],
    ensures
        ({
            let after = block_step(g, row, column, to_row, to_column);
            &&& after[to_row][to_column] == 2 * g[row][column]
            &&& after[row][column] == 0
            &&& forall|r: int, c: int|
                on_board(r, c) && !(r == row && c == column) && !(r == to_row && c == to_column)
                    ==> after[r][c] == g[r][c]
            &&& board_total(after) == board_total(g)
        }),
{
    lemma_step_total(g, row, column, to_row, to_column);
}

/// A slide moves: where a tile steps into an empty cell, that cell holds its
/// value afterwards, the cell that it leaves is empty, no other cell changes,
/// and the total of the board is what it was.
pub proof fn lemma_slide_event(g: Seq<Seq<nat>>, row: int, column: int, to_row: int, to_column: int)
    requires
        is_board(g),
        on_board(row, column),
        on_board(to_row, to_column),
        g[row][column] != 0,
        g[to_row][to_column] == 0,
    ensures
        ({
            let after = block_step(g, row, column, to_row, to_column);
            &&& after[to_row][to_column] == g[row][column]
            &&& after[row][column] == 0
            &&& forall|r: int, c: int|
                on_board(r, c) && !(r == row && c == column) && !(r == to_row && c == to_column)
                    ==> after[r][c] == g[r][c]
            &&& board_total(after) == board_total(g)
        }),
{
    lemma_step_total(g, row, column, to_row, to_column);
}

/// After a move every lane holds what `slide_line` makes of it.
pub proof fn lemma_resolved_lane(g: Seq<Seq<nat>>, sweep: Sweep, k: int)
    requires
        is_board(g),
        sweep.valid(),
        0 <= k < GRID_SIZE,
    ensures
        lane(resolve_sweep(g, sweep), sweep, k) == slide_line(lane(g, sweep, k)),
{
}

/// At most one merge for each tile in a move: in every lane the tiles after
/// the move are the tiles before it, but for disjoint pairs of equal
/// neighbours that have become one tile of twice the value.
pub proof fn lemma_move_merges_once(g: Seq<Seq<nat>>, dir: Direction, k: int)
    requires
        is_board(g),
        0 <= k < GRID_SIZE,
    ensures
        merged_once(
            tiles(lane(g, sweep_of(dir), k)),
            tiles(lane(resolve(g, dir), sweep_of(dir), k)),
        ),
{
    lemma_resolved_lane(g, sweep_of(dir), k);
    lemma_slide_merges_once(lane(g, sweep_of(dir), k));
}

/// A move changes the board exactly when some tile can slide or merge in its
/// direction: where none can, the board after the move is the board before
/// it, cell for cell.
pub proof fn lemma_move_changes_iff_can_step(g: Seq<Seq<nat>>, dir: Direction)
    requires
        is_board(g),
    ensures
        resolve(g, dir) != g <==> can_step(g, dir),
{
    let sweep = sweep_of(dir);
    if can_step(g, dir) {
        let (row, column) = choose|row: int, column: int| #[trigger]
            tile_steps(g, dir, row, column);
        let k = sweep.lane_of(row, column);
        let i = sweep.steps_of(row, column);
        assert(tile_can_step(lane(g, sweep, k), i));
        if resolve(g, dir) == g {
            lemma_resolved_lane(g, sweep, k);
            lemma_unchanged_line_is_at_rest(lane(g, sweep, k));
        }
    } else {
        assert forall|r: int, c: int| on_board(r, c) implies #[trigger] resolve(g, dir)[r][c]
            == g[r][c] by {
            let k = sweep.lane_of(r, c);
            let line = lane(g, sweep, k);
            assert forall|i: int| 1 <= i < line.len() implies !#[trigger] tile_can_step(
                line,
                i,
            ) by {
                assert(!tile_steps(g, dir, sweep.row(k, i), sweep.column(k, i)));
            }
            lemma_line_at_rest(line);
        }
        assert(resolve(g, dir) =~~= g);
    }
}

/// A tile that is alone on the board slides to the edge that the move names
/// and keeps its value.
pub proof fn lemma_lone_tile(g: Seq<Seq<nat>>, dir: Direction, row: int, column: int)
    requires
        is_board(g),
        on_board(row, column),
        g[row][column] != 0,
        forall|r: int, c: int| on_board(r, c) && !(r == row && c == column) ==> g[r][c] == 0,
    ensures
        resolve(g, dir) == with_cell(
            with_cell(g, row, column, 0),
            edge_cell(dir, row, column).0,
            edge_cell(dir, row, column).1,
            g[row][column],
        ),
{
    let sweep = sweep_of(dir);
    let to_row = edge_cell(dir, row, column).0;
    let to_column = edge_cell(dir, row, column).1;
    let cleared = with_cell(g, row, column, 0);
    let after = with_cell(cleared, to_row, to_column, g[row][column]);
    assert forall|r: int, c: int| on_board(r, c) implies #[trigger] resolve(g, dir)[r][c]
        == after[r][c] by {
        let k = sweep.lane_of(r, c);
        let line = lane(g, sweep, k);
        if k == sweep.lane_of(row, column) {
            let i = sweep.steps_of(row, column);
            assert forall|j: int| 0 <= j < line.len() && j != i implies line[j] == 0 by {
                assert(on_board(sweep.row(k, j), sweep.column(k, j)));
            }
            lemma_lone_tile_line(line, i);
        } else {
            assert forall|i: int| 1 <= i < line.len() implies !#[trigger] tile_can_step(
                line,
                i,
            ) by {
                assert(on_board(sweep.row(k, i), sweep.column(k, i)));
            }
            lemma_line_at_rest(line);
        }
    }
    assert(resolve(g, dir) =~~= after);
}

/// The total of the board, added up lane by lane.
pub proof fn lemma_total_by_lanes(g: Seq<Seq<nat>>, dir: Direction)
    requires
        is_board(g),
    ensures
        board_total(g) == line_total(lane(g, sweep_of(dir), 0)) + line_total(
            lane(g, sweep_of(dir), 1),
        ) + line_total(lane(g, sweep_of(dir), 2)) + line_total(lane(g, sweep_of(dir), 3)),
{
    reveal_with_fuel(rows_total, 5);
    lemma_total_of_four(g[0]);
    lemma_total_of_four(g[1]);
    lemma_total_of_four(g[2]);
    lemma_total_of_four(g[3]);
    lemma_total_of_four(lane(g, sweep_of(dir), 0));
    lemma_total_of_four(lane(g, sweep_of(dir), 1));
    lemma_total_of_four(lane(g, sweep_of(dir), 2));
    lemma_total_of_four(lane(g, sweep_of(dir), 3));
}

/// A move keeps the total of the board: a slide moves a value, and a merge
/// puts the values of two tiles into one.
pub proof fn lemma_move_keeps_total(g: Seq<Seq<nat>>, dir: Direction)
    requires
        is_board(g),
    ensures
        board_total(resolve(g, dir)) == board_total(g),
{
    let after = resolve(g, dir);
    let sweep = sweep_of(dir);
    lemma_total_by_lanes(g, dir);
    lemma_total_by_lanes(after, dir);
    assert forall|k: int| 0 <= k < GRID_SIZE implies line_total(#[trigger] lane(after, sweep, k))
        == line_total(lane(g, sweep, k)) by {
        lemma_resolved_lane(g, sweep, k);
        lemma_slide_keeps_total(lane(g, sweep, k));
    }
}

/// A move on a board of tiles leaves a board of tiles: every cell is empty or
/// holds a power of two, 2 at the least.
pub proof fn lemma_move_keeps_tiles(g: Seq<Seq<nat>>, dir: Direction)
    requires
        is_board(g),
        tiles_valid(g),
    ensures
        is_board(resolve(g, dir)),
        tiles_valid(resolve(g, dir)),
{
    let after = resolve(g, dir);
    let sweep = sweep_of(dir);
    assert forall|r: int, c: int| on_board(r, c) implies after[r][c] == 0 || is_tile(
        #[trigger] after[r][c],
    ) by {
        let k = sweep.lane_of(r, c);
        let line = lane(g, sweep, k);
        assert forall|j: int| 0 <= j < line.len() implies line[j] == 0 || is_tile(
            #[trigger] line[j],
        ) by {}
        lemma_slide_keeps_valid(line);
    }
}

/// The game is over exactly when the board is full and no tile can take a
/// step in any direction: no two neighbours hold the same value.
pub proof fn lemma_game_over_iff_no_step(g: Seq<Seq<nat>>)
    requires
        is_board(g),
    ensures
        game_over(g) <==> board_full(g) && forall|dir: Direction| !#[trigger] can_step(g, dir),
{
    if board_stuck(g) {
        assert forall|dir: Direction| !#[trigger] can_step(g, dir) by {
            lemma_move_changes_iff_can_step(g, dir);
        }
    }
    if forall|dir: Direction| !#[trigger] can_step(g, dir) {
        assert forall|dir: Direction| #[trigger] resolve(g, dir) == g by {
            lemma_move_changes_iff_can_step(g, dir);
        }
    }
}

} // verus!
