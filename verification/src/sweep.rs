//! A move as a set of lanes: the lines of cells along which the tiles travel,
//! each read from its wall outward.

use vstd::prelude::*;

use crate::board::GRID_SIZE;
use crate::board::is_board;
use crate::board::on_board;
use crate::board::with_cell;
use crate::direction::Direction;
use crate::line::slide_line;
use crate::marked::line_weight;
use crate::marked::settled_line;

verus! {

/// The lanes of a move. With `by_columns` the tiles travel along the rows and
/// lane `k` is a stretch of row `k`; without it they travel along the columns.
/// A lane starts in the cell with index `wall` and runs for `len` cells, to
/// higher indices when `away` is 1 and to lower ones when it is -1.
pub struct Sweep {
    pub by_columns: bool,
    pub wall: int,
    pub away: int,
    pub len: int,
}

impl Sweep {
    /// The lanes lie on the board.
    pub open spec fn valid(self) -> bool {
        &&& (self.away == 1 || self.away == -1)
        &&& self.len >= 1
        &&& 0 <= self.wall < GRID_SIZE
        &&& 0 <= self.reach(self.len - 1) < GRID_SIZE
    }

    /// The index, along the lane, of the cell `i` steps from the wall.
    pub open spec fn reach(self, i: int) -> int {
        if self.away > 0 {
            self.wall + i
        } else {
            self.wall - i
        }
    }

    /// The row of cell `i` of lane `k`.
    pub open spec fn row(self, k: int, i: int) -> int {
        if self.by_columns {
            k
        } else {
            self.reach(i)
        }
    }

    /// The column of cell `i` of lane `k`.
    pub open spec fn column(self, k: int, i: int) -> int {
        if self.by_columns {
            self.reach(i)
        } else {
            k
        }
    }

    /// The lane through the cell at `row` and `column`.
    pub open spec fn lane_of(self, row: int, column: int) -> int {
        if self.by_columns {
            row
        } else {
            column
        }
    }

    /// How many steps the cell at `row` and `column` lies from the wall.
    pub open spec fn steps_of(self, row: int, column: int) -> int {
        let index = if self.by_columns {
            column
        } else {
            row
        };
        if self.away > 0 {
            index - self.wall
        } else {
            self.wall - index
        }
    }

    /// The cell at `row` and `column` belongs to a lane.
    pub open spec fn covers(self, row: int, column: int) -> bool {
        0 <= self.steps_of(row, column) < self.len
    }
}

/// The lanes of a whole move in the direction `dir`: every cell belongs to one,
/// and the wall is the edge that `dir` names.
pub open spec fn sweep_of(dir: Direction) -> Sweep {
    match dir {
        Direction::West => Sweep { by_columns: true, wall: 0, away: 1, len: GRID_SIZE as int },
        Direction::East => Sweep {
            by_columns: true,
            wall: GRID_SIZE - 1,
            away: -1,
            len: GRID_SIZE as int,
        },
        Direction::North => Sweep { by_columns: false, wall: 0, away: 1, len: GRID_SIZE as int },
        Direction::South => Sweep {
            by_columns: false,
            wall: GRID_SIZE - 1,
            away: -1,
            len: GRID_SIZE as int,
        },
    }
}

/// Lane `k` of the board, its cell at the wall first.
pub open spec fn lane<T>(g: Seq<Seq<T>>, sweep: Sweep, k: int) -> Seq<T> {
    Seq::new(sweep.len as nat, |i: int| g[sweep.row(k, i)][sweep.column(k, i)])
}

/// The board after every lane has moved to its wall; cells outside the lanes
/// stay as they are.
pub open spec fn resolve_sweep(g: Seq<Seq<nat>>, sweep: Sweep) -> Seq<Seq<nat>> {
    Seq::new(
        GRID_SIZE as nat,
        |r: int|
            Seq::new(
                GRID_SIZE as nat,
                |c: int|
                    if sweep.covers(r, c) {
                        slide_line(lane(g, sweep, sweep.lane_of(r, c)))[sweep.steps_of(r, c)]
                    } else {
                        g[r][c]
                    },
            ),
    )
}

/// The board after a move in the direction `dir`.
pub open spec fn resolve(g: Seq<Seq<nat>>, dir: Direction) -> Seq<Seq<nat>> {
    resolve_sweep(g, sweep_of(dir))
}

/// The board that a move under way comes to rest in; `m` marks the tiles that
/// have come out of a merge.
pub open spec fn settles_to(g: Seq<Seq<nat>>, m: Seq<Seq<bool>>, sweep: Sweep) -> Seq<Seq<nat>> {
    Seq::new(
        GRID_SIZE as nat,
        |r: int|
            Seq::new(
                GRID_SIZE as nat,
                |c: int|
                    if sweep.covers(r, c) {
                        settled_line(
                            lane(g, sweep, sweep.lane_of(r, c)),
                            lane(m, sweep, sweep.lane_of(r, c)),
                        )[sweep.steps_of(r, c)]
                    } else {
                        g[r][c]
                    },
            ),
    )
}

/// The weight of the first `lanes` lanes.
pub open spec fn lanes_weight(g: Seq<Seq<nat>>, sweep: Sweep, lanes: int) -> nat
    decreases lanes,
{
    if lanes <= 0 {
        0
    } else {
        lanes_weight(g, sweep, lanes - 1) + line_weight(lane(g, sweep, lanes - 1))
    }
}

/// How far the tiles stand from their walls, summed over the board. Every
/// step of a tile makes it less.
pub open spec fn sweep_weight(g: Seq<Seq<nat>>, sweep: Sweep) -> nat {
    lanes_weight(g, sweep, GRID_SIZE as int)
}

/// What a change of two neighbouring cells of lane `k` does to the lanes.
pub(crate) proof fn lemma_lanes_after_step<T>(g: Seq<Seq<T>>, sweep: Sweep, k: int, i: int, x: T, y: T)
    requires
        is_board(g),
        sweep.valid(),
        0 <= k < GRID_SIZE,
        1 <= i < sweep.len,
    ensures
        ({
            let g2 = with_cell(
                with_cell(g, sweep.row(k, i - 1), sweep.column(k, i - 1), x),
                sweep.row(k, i),
                sweep.column(k, i),
                y,
            );
            &&& is_board(g2)
            &&& lane(g2, sweep, k) == lane(g, sweep, k).update(i - 1, x).update(i, y)
            &&& forall|k2: int|
                0 <= k2 < GRID_SIZE && k2 != k ==> #[trigger] lane(g2, sweep, k2) == lane(
                    g,
                    sweep,
                    k2,
                )
            &&& forall|r: int, c: int|
                on_board(r, c) && !sweep.covers(r, c) ==> g2[r][c] == g[r][c]
        }),
{
    let g2 = with_cell(
        with_cell(g, sweep.row(k, i - 1), sweep.column(k, i - 1), x),
        sweep.row(k, i),
        sweep.column(k, i),
        y,
    );
    assert forall|k2: int| 0 <= k2 < GRID_SIZE && k2 != k implies #[trigger] lane(g2, sweep, k2)
        == lane(g, sweep, k2) by {}
}

/// The weight of the board follows the weight of the one lane that changed.
pub(crate) proof fn lemma_weight_follows_lane(
    g: Seq<Seq<nat>>,
    g2: Seq<Seq<nat>>,
    sweep: Sweep,
    k: int,
    lanes: int,
)
    requires
        0 <= k < GRID_SIZE,
        0 <= lanes <= GRID_SIZE,
        forall|k2: int|
            0 <= k2 < GRID_SIZE && k2 != k ==> #[trigger] lane(g2, sweep, k2) == lane(g, sweep, k2),
    ensures
        lanes_weight(g2, sweep, lanes) == if k < lanes {
            lanes_weight(g, sweep, lanes) - line_weight(lane(g, sweep, k)) + line_weight(
                lane(g2, sweep, k),
            )
        } else {
            lanes_weight(g, sweep, lanes) as int
        },
    decreases lanes,
{
    if lanes > 0 {
        lemma_weight_follows_lane(g, g2, sweep, k, lanes - 1);
    }
}

/// Two states whose lanes settle alike, and that agree outside the lanes,
/// come to rest in the same board.
pub(crate) proof fn lemma_settles_alike(
    g: Seq<Seq<nat>>,
    m: Seq<Seq<bool>>,
    g2: Seq<Seq<nat>>,
    m2: Seq<Seq<bool>>,
    sweep: Sweep,
)
    requires
        sweep.valid(),
        forall|k: int|
            0 <= k < GRID_SIZE ==> settled_line(#[trigger] lane(g2, sweep, k), lane(m2, sweep, k))
                == settled_line(lane(g, sweep, k), lane(m, sweep, k)),
        forall|r: int, c: int| on_board(r, c) && !sweep.covers(r, c) ==> g2[r][c] == g[r][c],
    ensures
        settles_to(g2, m2, sweep) == settles_to(g, m, sweep),
{
    assert forall|r: int, c: int| on_board(r, c) implies #[trigger] settles_to(g2, m2, sweep)[r][c]
        == settles_to(g, m, sweep)[r][c] by {
        if sweep.covers(r, c) {
            let k = sweep.lane_of(r, c);
        }
    }
    assert(settles_to(g2, m2, sweep) =~~= settles_to(g, m, sweep));
}

} // verus!
