//! The run of a game: moves taken off the queue one by one, each followed by
//! a spawn where it changed the grid, and the test for the end of the game.

use rand::rngs::StdRng;
use std::collections::VecDeque;
use vstd::prelude::*;

use crate::board::board_full;
use crate::board::board_total;
use crate::board::GRID_SIZE;
use crate::board::tiles_valid;
use crate::direction::Direction;
use crate::grid::Grid;
use crate::laws::lemma_move_changes_iff_can_step;
use crate::place::v2;
use crate::spawn::spawned;
use crate::spawn::SpawnPolicy;
use crate::step::can_step;
use crate::step::step_for;
use crate::step::step_of;
use crate::step::tile_steps;
use crate::sweep::resolve;

verus! {

/// What one turn may make of the board `before`: the move in the direction
/// `dir`, and after it a spawn, unless the move left every cell as it was.
pub open spec fn turn(
    before: Seq<Seq<nat>>,
    dir: Direction,
    after: Seq<Seq<nat>>,
    policy: SpawnPolicy,
) -> bool {
    if resolve(before, dir) == before {
        after == before
    } else {
        spawned(resolve(before, dir), after, policy)
    }
}

/// What the turns `dirs`, taken in their order, may make of the board
/// `before`.
pub open spec fn played(
    before: Seq<Seq<nat>>,
    dirs: Seq<Direction>,
    after: Seq<Seq<nat>>,
    policy: SpawnPolicy,
) -> bool
    decreases dirs.len(),
{
    if dirs.len() == 0 {
        after == before
    } else {
        exists|mid: Seq<Seq<nat>>|
            played(before, dirs.drop_last(), mid, policy) && #[trigger] turn(
                mid,
                dirs.last(),
                after,
                policy,
            )
    }
}

/// A turn after the turns played so far is one more turn played.
pub proof fn lemma_one_more_turn(
    before: Seq<Seq<nat>>,
    dirs: Seq<Direction>,
    mid: Seq<Seq<nat>>,
    after: Seq<Seq<nat>>,
    policy: SpawnPolicy,
)
    requires
        dirs.len() > 0,
        played(before, dirs.drop_last(), mid, policy),
        turn(mid, dirs.last(), after, policy),
    ensures
        played(before, dirs, after, policy),
{
}

/// No move changes the board.
pub open spec fn board_stuck(g: Seq<Seq<nat>>) -> bool {
    forall|dir: Direction| #[trigger] resolve(g, dir) == g
}

/// The game is over on a board that is full and that no move changes.
pub open spec fn game_over(g: Seq<Seq<nat>>) -> bool {
    board_full(g) && board_stuck(g)
}

impl Grid {
    /// One turn of the game: the move in the direction `dir`, and a spawn
    /// after it where the move changed the grid. A move that changes nothing
    /// brings no new tile. Tells whether the move changed the grid.
    pub fn play_turn(&mut self, dir: Direction, rng: &mut StdRng, policy: &SpawnPolicy) -> (moved:
        bool)
        requires
            old(self).total() <= u64::MAX,
        ensures
            turn(old(self)@, dir, final(self)@, *policy),
            moved == (resolve(old(self)@, dir) != old(self)@),
            final(self).total() <= old(self).total() + 4,
            !moved ==> final(self)@ == old(self)@,
            old(self).well_formed() ==> final(self).well_formed(),
    {
        let moved = self.shift(dir);
        if moved {
            self.insert_random_tile(rng, policy);
        }
        moved
    }

    /// Whether a move in the direction `dir` would change the grid: whether
    /// some tile has, one step on in that direction, an empty cell or a tile of
    /// its own value.
    pub fn can_move(&self, dir: Direction) -> (moves: bool)
        ensures
            moves == can_step(self@, dir),
            moves == (resolve(self@, dir) != self@),
    {
        proof {
            self.lemma_shape();
            lemma_move_changes_iff_can_step(self@, dir);
        }
        let step = step_for(dir);
        for row in 0..GRID_SIZE
            invariant
                step.row == step_of(dir).0,
                step.column == step_of(dir).1,
                forall|r: int, c: int|
                    0 <= r < row && 0 <= c < GRID_SIZE ==> !#[trigger] tile_steps(self@, dir, r, c),
        {
            for column in 0..GRID_SIZE
                invariant
                    row < GRID_SIZE,
                    step.row == step_of(dir).0,
                    step.column == step_of(dir).1,
                    forall|r: int, c: int|
                        0 <= r < row && 0 <= c < GRID_SIZE ==> !#[trigger] tile_steps(
                            self@,
                            dir,
                            r,
                            c,
                        ),
                    forall|c: int|
                        0 <= c < column ==> !#[trigger] tile_steps(self@, dir, row as int, c),
            {
                let place = v2::new(row as i32, column as i32);
                let peek = v2::new(place.row + step.row, place.column + step.column);
                if 0 <= peek.row && peek.row < GRID_SIZE as i32 && 0 <= peek.column && peek.column
                    < GRID_SIZE as i32 {
                    let tile: u64 = self.at(&place);
                    let target: u64 = self.at(&peek);
                    if tile != 0 && (target == 0 || target == tile) {
                        proof {
                            self.lemma_shape();
                            lemma_move_changes_iff_can_step(self@, dir);
                            assert(tile_steps(self@, dir, row as int, column as int));
                        }
                        return true;
                    }
                }
            }
        }
        assert forall|r: int, c: int| !#[trigger] tile_steps(self@, dir, r, c) by {}
        false
    }

    /// Whether the game is over: the grid is full, and none of the four moves
    /// would change it.
    pub fn is_game_over(&self) -> (over: bool)
        ensures
            over == game_over(self@),
    {
        if !self.is_full() {
            return false;
        }
        if self.can_move(Direction::North) || self.can_move(Direction::West) || self.can_move(
            Direction::South,
        ) || self.can_move(Direction::East) {
            return false;
        }
        proof {
            assert forall|dir: Direction| #[trigger] resolve(self@, dir) == self@ by {
                match dir {
                    Direction::North => {},
                    Direction::West => {},
                    Direction::South => {},
                    Direction::East => {},
                }
            }
        }
        true
    }
}

/// Takes the moves off the queue, the oldest first, and plays a turn for
/// each, until the queue is empty.
pub fn make_moves(
    grid: &mut Grid,
    move_queue: &mut VecDeque<Direction>,
    rng: &mut StdRng,
    policy: &SpawnPolicy,
)
    requires
        old(grid).total() + 4 * old(move_queue)@.len() <= u64::MAX,
    ensures
        final(move_queue)@.len() == 0,
        played(old(grid)@, old(move_queue)@, final(grid)@, *policy),
        final(grid).total() <= old(grid).total() + 4 * old(move_queue)@.len(),
        old(grid).well_formed() ==> final(grid).well_formed(),
{
    let ghost dirs = move_queue@;
    let ghost begin = grid@;
    let ghost mut done: int = 0;
    while move_queue.len() > 0
        invariant
            0 <= done <= dirs.len(),
            move_queue@ == dirs.skip(done),
            played(begin, dirs.take(done), grid@, *policy),
            grid.total() <= board_total(begin) + 4 * done,
            board_total(begin) + 4 * dirs.len() <= u64::MAX,
            tiles_valid(begin) ==> grid.well_formed(),
        decreases move_queue@.len(),
    {
        let ghost before = grid@;
        let direction = move_queue.pop_front().unwrap();
        grid.play_turn(direction, rng, policy);
        proof {
            let upto = dirs.take(done + 1);
            assert(upto.drop_last() =~= dirs.take(done));
            lemma_one_more_turn(begin, upto, before, grid@, *policy);
            done = done + 1;
        }
    }
}

} // verus!
