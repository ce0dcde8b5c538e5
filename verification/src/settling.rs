//! Why the settle passes of a move end in the board that the move is said to
//! make: what every step keeps, and what a pass without a step shows.

use vstd::prelude::*;

use crate::board::board_total;
use crate::board::GRID_SIZE;
use crate::board::is_board;
use crate::board::is_tile;
use crate::board::lemma_double_tile;
use crate::board::lemma_two_cells_bound;
use crate::board::on_board;
use crate::board::tiles_valid;
use crate::board::with_cell;
use crate::marked::can_merge;
use crate::marked::lemma_fresh_line;
use crate::marked::lemma_merge_keeps_outcome;
use crate::marked::lemma_slide_keeps_outcome;
use crate::marked::lemma_stuck_line_is_settled;
use crate::marked::lemma_weight_update;
use crate::marked::packed_upto;
use crate::marked::stuck_at;
use crate::marked::unmarked;
use crate::resolver::after_pass;
use crate::resolver::pass_upto;
use crate::step::lemma_step_total;
use crate::step::settle_moves;
use crate::step::settle_step;
use crate::sweep::lane;
use crate::sweep::lemma_lanes_after_step;
use crate::sweep::lemma_settles_alike;
use crate::sweep::lemma_weight_follows_lane;
use crate::sweep::resolve_sweep;
use crate::sweep::settles_to;
use crate::sweep::Sweep;
use crate::sweep::sweep_weight;

verus! {

/// Lane `k` is ready for the tile `i` steps from its wall to move: where a
/// tile stands before it, the lane is packed up to that tile.
pub(crate) open spec fn lane_ready(
    g: Seq<Seq<nat>>,
    m: Seq<Seq<bool>>,
    sweep: Sweep,
    k: int,
    i: int,
) -> bool {
    lane(g, sweep, k)[i - 1] != 0 ==> packed_upto(lane(g, sweep, k), lane(m, sweep, k), i - 1)
}

/// The tile of lane `k` that stands `i` steps from the wall has had its turn:
/// the lane is ready for the next one.
pub(crate) open spec fn lane_passed(
    g: Seq<Seq<nat>>,
    m: Seq<Seq<bool>>,
    sweep: Sweep,
    k: int,
    i: int,
) -> bool {
    lane_ready(g, m, sweep, k, i + 1)
}

/// None of the tiles of lane `k` that stand less than `upto` steps from the
/// wall can take a step.
pub(crate) open spec fn lane_rested(
    g: Seq<Seq<nat>>,
    m: Seq<Seq<bool>>,
    sweep: Sweep,
    k: int,
    upto: int,
) -> bool {
    forall|j: int| 1 <= j < upto ==> stuck_at(lane(g, sweep, k), lane(m, sweep, k), j)
}

/// A board whose lanes are all at rest is the board that it settles into.
pub(crate) proof fn lemma_rested_board(g: Seq<Seq<nat>>, m: Seq<Seq<bool>>, sweep: Sweep)
    requires
        is_board(g),
        sweep.valid(),
        forall|k: int| 0 <= k < GRID_SIZE ==> lane_rested(g, m, sweep, k, sweep.len),
    ensures
        settles_to(g, m, sweep) == g,
{
    assert forall|r: int, c: int| on_board(r, c) implies #[trigger] settles_to(g, m, sweep)[r][c]
        == g[r][c] by {
        if sweep.covers(r, c) {
            let k = sweep.lane_of(r, c);
            assert(lane_rested(g, m, sweep, k, sweep.len));
            lemma_stuck_line_is_settled(lane(g, sweep, k), lane(m, sweep, k));
        }
    }
    assert(settles_to(g, m, sweep) =~~= g);
}

/// Before the first step of a move the board settles into what the move
/// makes of it.
pub(crate) proof fn lemma_fresh_board(g: Seq<Seq<nat>>, m: Seq<Seq<bool>>, sweep: Sweep)
    requires
        is_board(g),
        is_board(m),
        sweep.valid(),
        forall|r: int, c: int| on_board(r, c) ==> !m[r][c],
    ensures
        settles_to(g, m, sweep) == resolve_sweep(g, sweep),
{
    assert forall|r: int, c: int| on_board(r, c) implies #[trigger] settles_to(g, m, sweep)[r][c]
        == resolve_sweep(g, sweep)[r][c] by {
        if sweep.covers(r, c) {
            let k = sweep.lane_of(r, c);
            assert(unmarked(lane(m, sweep, k))) by {
                assert forall|i: int| 0 <= i < lane(m, sweep, k).len() implies !#[trigger] lane(
                    m,
                    sweep,
                    k,
                )[i] by {
                    assert(on_board(sweep.row(k, i), sweep.column(k, i)));
                }
            }
            lemma_fresh_line(lane(g, sweep, k), lane(m, sweep, k));
        }
    }
    assert(settles_to(g, m, sweep) =~~= resolve_sweep(g, sweep));
}

/// What one step of a settle pass does: the tile of lane `k` that stands `i`
/// steps from the wall tries to move one step nearer.
pub(crate) proof fn lemma_pass_step(g: Seq<Seq<nat>>, m: Seq<Seq<bool>>, sweep: Sweep, k: int, i: int)
    requires
        is_board(g),
        is_board(m),
        sweep.valid(),
        0 <= k < GRID_SIZE,
        1 <= i < sweep.len,
        lane_ready(g, m, sweep, k, i),
    ensures
        ({
            let row = sweep.row(k, i);
            let column = sweep.column(k, i);
            let to_row = sweep.row(k, i - 1);
            let to_column = sweep.column(k, i - 1);
            let (g2, m2) = settle_step(g, m, row, column, to_row, to_column);
            let moved = settle_moves(g, m, row, column, to_row, to_column);
            &&& is_board(g2)
            &&& is_board(m2)
            &&& settles_to(g2, m2, sweep) == settles_to(g, m, sweep)
            &&& board_total(g2) == board_total(g)
            &&& moved ==> sweep_weight(g2, sweep) < sweep_weight(g, sweep)
            &&& !moved ==> g2 == g && m2 == m && stuck_at(
                lane(g, sweep, k),
                lane(m, sweep, k),
                i,
            )
            &&& forall|k2: int|
                0 <= k2 < GRID_SIZE && k2 != k ==> #[trigger] lane(g2, sweep, k2) == lane(
                    g,
                    sweep,
                    k2,
                )
            &&& forall|k2: int|
                0 <= k2 < GRID_SIZE && k2 != k ==> #[trigger] lane(m2, sweep, k2) == lane(
                    m,
                    sweep,
                    k2,
                )
            &&& lane_ready(g2, m2, sweep, k, i + 1)
            &&& tiles_valid(g) ==> tiles_valid(g2)
        }),
{
    let row = sweep.row(k, i);
    let column = sweep.column(k, i);
    let to_row = sweep.row(k, i - 1);
    let to_column = sweep.column(k, i - 1);
    let (g2, m2) = settle_step(g, m, row, column, to_row, to_column);
    let cells = lane(g, sweep, k);
    let marks = lane(m, sweep, k);
    let tile = g[row][column];
    let target = g[to_row][to_column];
    if tile != 0 && target == 0 {
        lemma_lanes_after_step(g, sweep, k, i, tile, 0nat);
        lemma_lanes_after_step(m, sweep, k, i, m[row][column], false);
        lemma_slide_keeps_outcome(cells, marks, i, None);
        lemma_settles_alike(g, m, g2, m2, sweep);
        lemma_step_total(g, row, column, to_row, to_column);
        lemma_weight_update(cells, i - 1, tile);
        lemma_weight_update(cells.update(i - 1, tile), i, 0);
        lemma_weight_follows_lane(g, g2, sweep, k, GRID_SIZE as int);
        assert(tiles_valid(g) ==> tiles_valid(g2)) by {
            if tiles_valid(g) {
                assert forall|r: int, c: int| on_board(r, c) implies g2[r][c] == 0 || is_tile(
                    #[trigger] g2[r][c],
                ) by {}
            }
        }
    } else if can_merge(target, m[to_row][to_column], tile, m[row][column]) {
        let doubled = (2 * tile) as nat;
        lemma_lanes_after_step(g, sweep, k, i, doubled, 0nat);
        lemma_lanes_after_step(m, sweep, k, i, true, false);
        assert(m2 =~~= with_cell(with_cell(m, to_row, to_column, true), row, column, false));
        assert(lane(m2, sweep, k) =~= marks.update(i - 1, true));
        lemma_merge_keeps_outcome(cells, marks, i, None);
        lemma_settles_alike(g, m, g2, m2, sweep);
        lemma_step_total(g, row, column, to_row, to_column);
        lemma_weight_update(cells, i - 1, doubled);
        lemma_weight_update(cells.update(i - 1, doubled), i, 0);
        lemma_weight_follows_lane(g, g2, sweep, k, GRID_SIZE as int);
        assert(tiles_valid(g) ==> tiles_valid(g2)) by {
            if tiles_valid(g) {
                lemma_double_tile(tile);
                assert forall|r: int, c: int| on_board(r, c) implies g2[r][c] == 0 || is_tile(
                    #[trigger] g2[r][c],
                ) by {}
            }
        }
    }
}

/// What holds in the middle of a settle pass that began in the state `g0`,
/// `m0`: the tiles less than `i` steps from their walls have had their turn,
/// and so have those `i` steps from it in the lanes before `k`; `changed`
/// tells whether any of them took a step.
#[verifier::opaque]
pub(crate) open spec fn pass_state(
    g0: Seq<Seq<nat>>,
    m0: Seq<Seq<bool>>,
    g: Seq<Seq<nat>>,
    m: Seq<Seq<bool>>,
    sweep: Sweep,
    i: int,
    k: int,
    changed: bool,
) -> bool {
    &&& is_board(g)
    &&& is_board(m)
    &&& (g, m) == pass_upto(g0, m0, sweep, i, k)
    &&& forall|k2: int| k <= k2 < GRID_SIZE ==> lane_ready(g, m, sweep, k2, i)
    &&& forall|k2: int| 0 <= k2 < k ==> lane_passed(g, m, sweep, k2, i)
    &&& !changed ==> {
        &&& g == g0
        &&& m == m0
        &&& forall|k2: int| 0 <= k2 < GRID_SIZE ==> lane_rested(g, m, sweep, k2, i)
        &&& forall|k2: int|
            0 <= k2 < k ==> stuck_at(#[trigger] lane(g, sweep, k2), lane(m, sweep, k2), i)
    }
    &&& settles_to(g, m, sweep) == settles_to(g0, m0, sweep)
    &&& board_total(g) == board_total(g0)
    &&& sweep_weight(g, sweep) <= sweep_weight(g0, sweep)
    &&& changed ==> sweep_weight(g, sweep) < sweep_weight(g0, sweep)
    &&& tiles_valid(g0) ==> tiles_valid(g)
}

/// A settle pass begins.
pub(crate) proof fn lemma_pass_begin(g0: Seq<Seq<nat>>, m0: Seq<Seq<bool>>, sweep: Sweep)
    requires
        is_board(g0),
        is_board(m0),
        sweep.valid(),
    ensures
        pass_state(g0, m0, g0, m0, sweep, 1, 0, false),
{
    reveal(pass_state);
}

/// The tile of lane `k` that stands `i` steps from the wall has its turn.
pub(crate) proof fn lemma_pass_advance(
    g0: Seq<Seq<nat>>,
    m0: Seq<Seq<bool>>,
    g: Seq<Seq<nat>>,
    m: Seq<Seq<bool>>,
    sweep: Sweep,
    i: int,
    k: int,
    changed: bool,
)
    requires
        sweep.valid(),
        0 <= k < GRID_SIZE,
        1 <= i < sweep.len,
        pass_state(g0, m0, g, m, sweep, i, k, changed),
    ensures
        ({
            let row = sweep.row(k, i);
            let column = sweep.column(k, i);
            let to_row = sweep.row(k, i - 1);
            let to_column = sweep.column(k, i - 1);
            let (g2, m2) = settle_step(g, m, row, column, to_row, to_column);
            let moved = settle_moves(g, m, row, column, to_row, to_column);
            &&& pass_state(g0, m0, g2, m2, sweep, i, k + 1, changed || moved)
            &&& g[row][column] + g[to_row][to_column] <= board_total(g0)
        }),
{
    reveal(pass_state);
    let row = sweep.row(k, i);
    let column = sweep.column(k, i);
    let to_row = sweep.row(k, i - 1);
    let to_column = sweep.column(k, i - 1);
    let (g2, m2) = settle_step(g, m, row, column, to_row, to_column);
    lemma_two_cells_bound(g, row, column, to_row, to_column);
    lemma_pass_step(g, m, sweep, k, i);
    assert forall|k2: int| k + 1 <= k2 < GRID_SIZE implies lane_ready(g2, m2, sweep, k2, i) by {
        assert(lane_ready(g, m, sweep, k2, i));
    }
    assert forall|k2: int| 0 <= k2 < k + 1 implies lane_passed(g2, m2, sweep, k2, i) by {
        if k2 < k {
            assert(lane_passed(g, m, sweep, k2, i));
        }
    }
}

/// All lanes have had the turn of their tile `i` steps from the wall.
pub(crate) proof fn lemma_pass_next(
    g0: Seq<Seq<nat>>,
    m0: Seq<Seq<bool>>,
    g: Seq<Seq<nat>>,
    m: Seq<Seq<bool>>,
    sweep: Sweep,
    i: int,
    changed: bool,
)
    requires
        1 <= i,
        pass_state(g0, m0, g, m, sweep, i, GRID_SIZE as int, changed),
    ensures
        pass_state(g0, m0, g, m, sweep, i + 1, 0, changed),
{
    reveal(pass_state);
    let after = i + 1;
    assert forall|k2: int| 0 <= k2 < GRID_SIZE implies lane_ready(g, m, sweep, k2, after) by {
        assert(lane_passed(g, m, sweep, k2, i));
    }
    if !changed {
        assert forall|k2: int| 0 <= k2 < GRID_SIZE implies lane_rested(g, m, sweep, k2, after) by {
            assert(lane_rested(g, m, sweep, k2, i));
        }
    }
}

/// A settle pass ends.
pub(crate) proof fn lemma_pass_end(
    g0: Seq<Seq<nat>>,
    m0: Seq<Seq<bool>>,
    g: Seq<Seq<nat>>,
    m: Seq<Seq<bool>>,
    sweep: Sweep,
    changed: bool,
)
    requires
        sweep.valid(),
        sweep.len >= 2,
        pass_state(g0, m0, g, m, sweep, sweep.len, 0, changed),
    ensures
        (g, m) == after_pass(g0, m0, sweep),
        changed == (g != g0),
        settles_to(g, m, sweep) == settles_to(g0, m0, sweep),
        board_total(g) == board_total(g0),
        changed ==> sweep_weight(g, sweep) < sweep_weight(g0, sweep),
        !changed ==> g == g0 && m == m0 && settles_to(g0, m0, sweep) == g0,
        tiles_valid(g0) ==> tiles_valid(g),
{
    reveal(pass_state);
    if !changed {
        lemma_rested_board(g, m, sweep);
    }
}

} // verus!
