//! The tile spawner: after a move that changed the grid, one empty cell gets
//! a new tile of value 2 or 4.

use rand::Rng;
use rand::rngs::StdRng;
use vstd::arithmetic::power2::lemma2_to64;
use vstd::prelude::*;

use crate::board::board_full;
use crate::board::GRID_SIZE;
use crate::board::is_board;
use crate::board::is_tile;
use crate::board::lemma_board_total_update;
use crate::board::on_board;
use crate::board::with_cell;
use crate::grid::Grid;
use crate::place::v2;

verus! {

/// The number of cells of the board.
pub const CELL_COUNT: usize = GRID_SIZE * GRID_SIZE;

/// How many of the first `cells` cells are empty, the cells counted row by
/// row.
pub open spec fn empties_before(g: Seq<Seq<nat>>, cells: int) -> nat
    decreases cells,
{
    if cells <= 0 {
        0
    } else {
        empties_before(g, cells - 1) + if g[(cells - 1) / (GRID_SIZE as int)][(cells - 1) % (
        GRID_SIZE as int)] == 0 {
            1nat
        } else {
            0nat
        }
    }
}

/// How many cells of the board are empty.
pub open spec fn empty_count(g: Seq<Seq<nat>>) -> nat {
    empties_before(g, CELL_COUNT as int)
}

/// The cell at `row` and `column` of `before` was empty, `after` has a tile
/// there, and the two boards agree everywhere else.
pub open spec fn tile_added(
    before: Seq<Seq<nat>>,
    after: Seq<Seq<nat>>,
    row: int,
    column: int,
) -> bool {
    &&& on_board(row, column)
    &&& before[row][column] == 0
    &&& after[row][column] != 0
    &&& after == with_cell(before, row, column, after[row][column])
}

/// How often a new tile is a 4: `fours` times out of `out_of`, and a 2 the
/// other times. At least one time is counted, and no more fours than times.
pub struct SpawnPolicy {
    fours: usize,
    out_of: usize,
}

impl SpawnPolicy {
    #[verifier::type_invariant]
    spec fn chances_count(&self) -> bool {
        0 < self.out_of && self.fours <= self.out_of
    }

    /// The times out of `out_of_spec` that bring a 4.
    pub closed spec fn fours_spec(&self) -> nat {
        self.fours as nat
    }

    /// The times that are counted.
    pub closed spec fn out_of_spec(&self) -> nat {
        self.out_of as nat
    }

    /// The value of the tile that the policy gives for the roll `roll`.
    pub open spec fn tile_spec(&self, roll: nat) -> nat {
        if roll < self.fours_spec() {
            4
        } else {
            2
        }
    }

    /// The policy may give a tile of the value `v`.
    pub open spec fn may_spawn(&self, v: nat) -> bool {
        (v == 4 && self.fours_spec() > 0) || (v == 2 && self.fours_spec() < self.out_of_spec())
    }

    /// The policy under which `fours` new tiles out of `out_of` are a 4, or
    /// nothing where `out_of` is 0 or less than `fours`.
    pub fn new(fours: usize, out_of: usize) -> (policy: Option<SpawnPolicy>)
        ensures
            policy is Some <==> 0 < out_of && fours <= out_of,
            policy matches Some(p) ==> p.fours_spec() == fours && p.out_of_spec() == out_of,
    {
        if out_of == 0 || fours > out_of {
            None
        } else {
            Some(SpawnPolicy { fours: fours, out_of: out_of })
        }
    }

    /// The policy under which a new tile is as often a 4 as a 2.
    pub fn even() -> (policy: SpawnPolicy)
        ensures
            policy.fours_spec() == 1,
            policy.out_of_spec() == 2,
    {
        SpawnPolicy { fours: 1, out_of: 2 }
    }

    /// The times out of `out_of` that bring a 4.
    pub fn fours(&self) -> (fours: usize)
        ensures
            fours == self.fours_spec(),
    {
        self.fours
    }

    /// The times that are counted.
    pub fn out_of(&self) -> (out_of: usize)
        ensures
            out_of == self.out_of_spec(),
            out_of > 0,
    {
        proof {
            use_type_invariant(self);
        }
        self.out_of
    }

    /// The value of the new tile for a roll below `out_of`: a 4 for the
    /// first `fours` rolls, a 2 for the others.
    pub fn tile_for(&self, roll: usize) -> (value: u64)
        ensures
            value == self.tile_spec(roll as nat),
            roll < self.out_of_spec() ==> self.may_spawn(value as nat),
    {
        proof {
            use_type_invariant(self);
        }
        if roll < self.fours {
            4
        } else {
            2
        }
    }
}

/// What a spawn may make of the board `before`: on a full board nothing, and
/// otherwise one cell that was empty holds a tile that the policy may give,
/// while all other cells are as they were.
pub open spec fn spawned(before: Seq<Seq<nat>>, after: Seq<Seq<nat>>, policy: SpawnPolicy) -> bool {
    if board_full(before) {
        after == before
    } else {
        exists|row: int, column: int|
            #[trigger] tile_added(before, after, row, column) && policy.may_spawn(
                after[row][column],
            )
    }
}

#[verifier::external_type_specification]
#[verifier::external_body]
pub struct ExStdRng(StdRng);

/// A number below `bound`, drawn from `rng` by `rand::Rng::gen_range` with the
/// lower end 0. The call fails on an empty range, so `bound` is not 0; all
/// that is claimed of the number is that it lies below `bound`.
#[verifier::external_body]
fn random_below(rng: &mut StdRng, bound: usize) -> (index: usize)
    requires
        bound > 0,
    ensures
        index < bound,
{
    rng.gen_range(0, bound)
}

/// The count of empty cells grows with the count of cells looked at.
pub proof fn lemma_empties_grow(g: Seq<Seq<nat>>, fewer: int, more: int)
    requires
        fewer <= more,
    ensures
        empties_before(g, fewer) <= empties_before(g, more),
    decreases more - fewer,
{
    if fewer < more {
        lemma_empties_grow(g, fewer, more - 1);
    }
}

/// The count of empty cells before a cell tells the empty cells apart: an
/// empty cell has fewer empty cells before it than any cell after it.
pub proof fn lemma_empties_tell_apart(g: Seq<Seq<nat>>, cell: int, later: int)
    requires
        0 <= cell < later,
        g[cell / (GRID_SIZE as int)][cell % (GRID_SIZE as int)] == 0,
    ensures
        empties_before(g, cell) < empties_before(g, later),
{
    lemma_empties_grow(g, cell + 1, later);
}

/// A board without an empty cell is a full board.
pub proof fn lemma_no_empties_is_full(g: Seq<Seq<nat>>)
    requires
        is_board(g),
    ensures
        empty_count(g) == 0 <==> board_full(g),
{
    if board_full(g) {
        lemma_full_has_no_empties(g, CELL_COUNT as int);
    } else {
        let (r, c) = choose|r: int, c: int| on_board(r, c) && g[r][c] == 0;
        let cell = r * (GRID_SIZE as int) + c;
        lemma_empties_grow(g, cell + 1, CELL_COUNT as int);
    }
}

proof fn lemma_full_has_no_empties(g: Seq<Seq<nat>>, cells: int)
    requires
        board_full(g),
        0 <= cells <= CELL_COUNT,
    ensures
        empties_before(g, cells) == 0,
    decreases cells,
{
    if cells > 0 {
        lemma_full_has_no_empties(g, cells - 1);
        assert(on_board((cells - 1) / (GRID_SIZE as int), (cells - 1) % (GRID_SIZE as int)));
    }
}

impl Grid {
    /// The number of empty cells.
    pub fn empty_count(&self) -> (count: usize)
        ensures
            count == empty_count(self@),
            count <= CELL_COUNT,
    {
        let mut count: usize = 0;
        for row in 0..GRID_SIZE
            invariant
                count == empties_before(self@, row * GRID_SIZE),
                count <= row * GRID_SIZE,
        {
            for column in 0..GRID_SIZE
                invariant
                    row < GRID_SIZE,
                    count == empties_before(self@, row * GRID_SIZE + column),
                    count <= row * GRID_SIZE + column,
            {
                if self.at(&v2::new(row as i32, column as i32)) == 0 {
                    count = count + 1;
                }
            }
        }
        count
    }

    /// Puts a tile of the value `value` into the empty cell that has `nth`
    /// empty cells before it, the cells counted row by row, and tells which
    /// cell that is. Where the grid has no more than `nth` empty cells,
    /// nothing changes.
    pub fn place_tile(&mut self, nth: usize, value: u64) -> (placed: Option<v2>)
        ensures
            placed is Some <==> nth < empty_count(old(self)@),
            match placed {
                Some(place) => {
                    &&& place.on_board()
                    &&& old(self)@[place.row as int][place.column as int] == 0
                    &&& empties_before(old(self)@, place.row * GRID_SIZE + place.column) == nth
                    &&& final(self)@ == with_cell(
                        old(self)@,
                        place.row as int,
                        place.column as int,
                        value as nat,
                    )
                },
                None => final(self)@ == old(self)@,
            },
            old(self).well_formed() && (value == 0 || is_tile(value as nat)) ==> final(self).well_formed(),
    {
        let mut seen: usize = 0;
        for row in 0..GRID_SIZE
            invariant
                self@ == old(self)@,
                seen == empties_before(self@, row * GRID_SIZE),
                seen <= row * GRID_SIZE,
                seen <= nth,
        {
            for column in 0..GRID_SIZE
                invariant
                    row < GRID_SIZE,
                    self@ == old(self)@,
                    seen == empties_before(self@, row * GRID_SIZE + column),
                    seen <= row * GRID_SIZE + column,
                    seen <= nth,
            {
                let place = v2::new(row as i32, column as i32);
                if self.at(&place) == 0 {
                    if seen == nth {
                        proof {
                            lemma_empties_grow(
                                self@,
                                row * GRID_SIZE + column + 1,
                                CELL_COUNT as int,
                            );
                        }
                        self.set(&place, value);
                        return Some(place);
                    }
                    seen = seen + 1;
                }
            }
        }
        None
    }

    /// Spawns a tile: where the grid is full nothing changes, and otherwise
    /// one of the empty cells, each as likely as the others, gets a 2 or a 4 as
    /// the policy says.
    pub fn insert_random_tile(&mut self, rng: &mut StdRng, policy: &SpawnPolicy)
        ensures
            spawned(old(self)@, final(self)@, *policy),
            final(self).total() <= old(self).total() + 4,
            old(self).well_formed() ==> final(self).well_formed(),
    {
        proof {
            self.lemma_shape();
            lemma_no_empties_is_full(self@);
        }
        if self.is_full() {
            return ;
        }
        let free: usize = self.empty_count();
        let nth: usize = random_below(rng, free);
        let roll: usize = random_below(rng, policy.out_of());
        let value: u64 = policy.tile_for(roll);
        proof {
            lemma2_to64();
            assert(is_tile(2) && is_tile(4));
        }
        let placed = self.place_tile(nth, value);
        proof {
            let place = placed->0;
            assert(tile_added(old(self)@, self@, place.row as int, place.column as int));
            lemma_board_total_update(
                old(self)@,
                place.row as int,
                place.column as int,
                value as nat,
            );
        }
    }
}

} // verus!
