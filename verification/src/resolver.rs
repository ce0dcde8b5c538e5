//! The move resolver: single steps of a tile, settle passes over the lanes,
//! and whole moves.

use vstd::prelude::*;

use crate::board::board_total;
use crate::board::GRID_SIZE;
use crate::board::on_board;
use crate::board::tiles_valid;
use crate::direction::Direction;
use crate::grid::Grid;
use crate::marks::MergeMarks;
use crate::place::v2;
use crate::range::BetterRange;
use crate::settling::lemma_fresh_board;
use crate::settling::lemma_pass_advance;
use crate::settling::lemma_pass_begin;
use crate::settling::lemma_pass_end;
use crate::settling::lemma_pass_next;
use crate::settling::pass_state;
use crate::step::block_moves;
use crate::step::block_step;
use crate::step::lemma_step_total;
use crate::step::settle_moves;
use crate::step::settle_step;
use crate::sweep::resolve;
use crate::sweep::resolve_sweep;
use crate::sweep::settles_to;
use crate::sweep::Sweep;
use crate::sweep::sweep_weight;

verus! {

/// The scan of a move: the indices from `start` to `end` are walked in that
/// order, and every tile met tries a step by `dir`. The step is one cell, the
/// scan begins next to the wall that the tiles move to and runs away from it,
/// and no step leaves the board.
pub open spec fn scan_valid(start: int, end: int, dir: int) -> bool {
    &&& (dir == 1 || dir == -1)
    &&& 0 <= start < GRID_SIZE
    &&& 0 <= end < GRID_SIZE
    &&& 0 <= start + dir < GRID_SIZE
    &&& (dir == -1 ==> start < end)
    &&& (dir == 1 ==> start > end)
}

/// The lanes that such a scan covers: from the cell before `start`, which is
/// the wall, to `end`.
pub open spec fn sweep_between(by_columns: bool, start: int, end: int, dir: int) -> Sweep {
    Sweep {
        by_columns: by_columns,
        wall: start + dir,
        away: -dir,
        len: if end > start {
            end - start + 2
        } else {
            start - end + 2
        },
    }
}

/// The state of a move in the middle of a settle pass over the state `g`,
/// `m`: the tiles up to `i - 1` steps from their walls have taken their turn,
/// lane by lane, and of those `i` steps from it the ones in the lanes before
/// `k`.
pub open spec fn pass_upto(
    g: Seq<Seq<nat>>,
    m: Seq<Seq<bool>>,
    sweep: Sweep,
    i: int,
    k: int,
) -> (Seq<Seq<nat>>, Seq<Seq<bool>>)
    decreases i, k,
{
    if k > 0 {
        let before = pass_upto(g, m, sweep, i, k - 1);
        settle_step(
            before.0,
            before.1,
            sweep.row(k - 1, i),
            sweep.column(k - 1, i),
            sweep.row(k - 1, i - 1),
            sweep.column(k - 1, i - 1),
        )
    } else if i > 1 {
        pass_upto(g, m, sweep, i - 1, GRID_SIZE as int)
    } else {
        (g, m)
    }
}

/// The state of a move after one settle pass: every tile that does not stand
/// at its wall has tried one step towards it, the tiles nearest the wall
/// first, and among tiles as near the ones in the first lanes first.
pub open spec fn after_pass(g: Seq<Seq<nat>>, m: Seq<Seq<bool>>, sweep: Sweep) -> (
    Seq<Seq<nat>>,
    Seq<Seq<bool>>,
) {
    pass_upto(g, m, sweep, sweep.len - 1, GRID_SIZE as int)
}

impl Grid {
    /// Lets the tile at `place`, if there is one, try one step by `dir`: into
    /// an empty cell it moves, with a tile of its own value it merges, and
    /// the merged tile holds twice that value. Tells whether it did either.
    pub fn shift_block(&mut self, place: v2, dir: v2) -> (moved: bool)
        requires
            place.on_board(),
            on_board(place.row + dir.row, place.column + dir.column),
            ({
                let tile = old(self)@[place.row as int][place.column as int];
                let target = old(self)@[place.row + dir.row][place.column + dir.column];
                tile != 0 && tile == target ==> 2 * tile <= u64::MAX
            }),
        ensures
            final(self)@ == block_step(
                old(self)@,
                place.row as int,
                place.column as int,
                place.row + dir.row,
                place.column + dir.column,
            ),
            moved == block_moves(
                old(self)@,
                place.row as int,
                place.column as int,
                place.row + dir.row,
                place.column + dir.column,
            ),
            moved == (final(self)@ != old(self)@),
            dir.row != 0 || dir.column != 0 ==> board_total(final(self)@) == board_total(
                old(self)@,
            ),
    {
        proof {
            old(self).lemma_shape();
        }
        let peek = v2::new(place.row + dir.row, place.column + dir.column);
        let tile: u64 = self.at(&place);
        if tile != 0 {
            let target: u64 = self.at(&peek);
            if target == 0 {
                self.set(&peek, tile);
                self.set(&place, 0);
                proof {
                    lemma_step_total(
                        old(self)@,
                        place.row as int,
                        place.column as int,
                        peek.row as int,
                        peek.column as int,
                    );
                }
                true
            } else if target == tile {
                self.set(&peek, tile * 2);
                self.set(&place, 0);
                proof {
                    lemma_step_total(
                        old(self)@,
                        place.row as int,
                        place.column as int,
                        peek.row as int,
                        peek.column as int,
                    );
                }
                true
            } else {
                false
            }
        } else {
            false
        }
    }

    /// One step of a tile in the middle of a move. It is `shift_block`, but
    /// for a tile that has come out of a merge, or that stands before one: such
    /// a pair does not merge again.
    pub fn settle_block(&mut self, place: v2, dir: v2, merged: &mut MergeMarks) -> (moved: bool)
        requires
            place.on_board(),
            on_board(place.row + dir.row, place.column + dir.column),
            dir.row != 0 || dir.column != 0,
            ({
                let tile = old(self)@[place.row as int][place.column as int];
                let target = old(self)@[place.row + dir.row][place.column + dir.column];
                tile != 0 && tile == target ==> 2 * tile <= u64::MAX
            }),
        ensures
            (final(self)@, final(merged)@) == settle_step(
                old(self)@,
                old(merged)@,
                place.row as int,
                place.column as int,
                place.row + dir.row,
                place.column + dir.column,
            ),
            moved == settle_moves(
                old(self)@,
                old(merged)@,
                place.row as int,
                place.column as int,
                place.row + dir.row,
                place.column + dir.column,
            ),
    {
        let peek = v2::new(place.row + dir.row, place.column + dir.column);
        let landing: bool = self.at(&peek) == 0;
        if !landing && (merged.at(&place) || merged.at(&peek)) {
            false
        } else if self.shift_block(place, dir) {
            if landing {
                let carried: bool = merged.at(&place);
                merged.set(&peek, carried);
                merged.set(&place, false);
            } else {
                merged.set(&peek, true);
            }
            true
        } else {
            false
        }
    }
}

impl Grid {
    /// One settle pass: every tile of every lane, the ones next to the wall
    /// first, tries one step towards the wall. Tells whether any of them took
    /// it; where none did, the board has come to rest. A pass keeps the total
    /// of the board and the board that the move settles into, and every step
    /// of a tile brings the tiles nearer to their walls.
    pub fn settle_pass(
        &mut self,
        by_columns: bool,
        start: usize,
        end: usize,
        dir: i32,
        merged: &mut MergeMarks,
    ) -> (changes_made: bool)
        requires
            scan_valid(start as int, end as int, dir as int),
            board_total(old(self)@) <= u64::MAX,
        ensures
            ({
                let sweep = sweep_between(by_columns, start as int, end as int, dir as int);
                &&& (final(self)@, final(merged)@) == after_pass(old(self)@, old(merged)@, sweep)
                &&& changes_made == (final(self)@ != old(self)@)
                &&& settles_to(final(self)@, final(merged)@, sweep) == settles_to(
                    old(self)@,
                    old(merged)@,
                    sweep,
                )
                &&& board_total(final(self)@) == board_total(old(self)@)
                &&& changes_made ==> sweep_weight(final(self)@, sweep) < sweep_weight(
                    old(self)@,
                    sweep,
                )
                &&& !changes_made ==> final(merged)@ == old(merged)@ && final(self)@ == settles_to(
                    old(self)@,
                    old(merged)@,
                    sweep,
                )
                &&& tiles_valid(old(self)@) ==> tiles_valid(final(self)@)
            }),
    {
        let ghost sweep = sweep_between(by_columns, start as int, end as int, dir as int);
        let ghost g0 = self@;
        let ghost m0 = merged@;
        proof {
            self.lemma_shape();
            merged.lemma_shape();
            lemma_pass_begin(g0, m0, sweep);
        }
        let mut changes_made = false;
        let mut range = BetterRange::new(start as i32, end as i32);
        let ghost mut i: int = 1;
        loop
            invariant
                scan_valid(start as int, end as int, dir as int),
                sweep == sweep_between(by_columns, start as int, end as int, dir as int),
                1 <= i <= sweep.len,
                range.well_formed(),
                range.start == sweep.reach(i),
                range.end == sweep.reach(sweep.len - 1),
                range.step == sweep.away,
                board_total(g0) <= u64::MAX,
                pass_state(g0, m0, self@, merged@, sweep, i, 0, changes_made),
            ensures
                i == sweep.len,
            decreases sweep.len - i,
        {
            match range.next() {
                None => {
                    break ;
                },
                Some(index) => {
                    for k in 0..GRID_SIZE
                        invariant
                            scan_valid(start as int, end as int, dir as int),
                            sweep == sweep_between(
                                by_columns,
                                start as int,
                                end as int,
                                dir as int,
                            ),
                            1 <= i < sweep.len,
                            index == sweep.reach(i),
                            board_total(g0) <= u64::MAX,
                            pass_state(g0, m0, self@, merged@, sweep, i, k as int, changes_made),
                    {
                        let place = if by_columns {
                            v2::new(k as i32, index)
                        } else {
                            v2::new(index, k as i32)
                        };
                        let step = if by_columns {
                            v2::new(0, dir)
                        } else {
                            v2::new(dir, 0)
                        };
                        proof {
                            lemma_pass_advance(
                                g0,
                                m0,
                                self@,
                                merged@,
                                sweep,
                                i,
                                k as int,
                                changes_made,
                            );
                        }
                        if self.settle_block(place, step, merged) {
                            changes_made = true;
                        }
                    }
                    proof {
                        lemma_pass_next(g0, m0, self@, merged@, sweep, i, changes_made);
                        i = i + 1;
                    }
                },
            }
        }
        proof {
            lemma_pass_end(g0, m0, self@, merged@, sweep, changes_made);
        }
        changes_made
    }
}

impl Grid {
    /// Moves the tiles along their rows, by `dir` columns a step, until none
    /// can take a step: the columns from `start` to `end` are scanned in that
    /// order, pass after pass. A tile that has come out of a merge does not
    /// merge again in the same call. Tells whether any cell changed.
    pub fn shift_columns(&mut self, start: usize, end: usize, dir: i32) -> (changed: bool)
        requires
            scan_valid(start as int, end as int, dir as int),
            old(self).total() <= u64::MAX,
        ensures
            final(self)@ == resolve_sweep(
                old(self)@,
                sweep_between(true, start as int, end as int, dir as int),
            ),
            changed == (final(self)@ != old(self)@),
            final(self).total() == old(self).total(),
            old(self).well_formed() ==> final(self).well_formed(),
    {
        let ghost sweep = sweep_between(true, start as int, end as int, dir as int);
        let ghost g0 = self@;
        let mut merged = MergeMarks::new();
        let mut changed = false;
        proof {
            self.lemma_shape();
            lemma_fresh_board(g0, merged@, sweep);
        }
        loop
            invariant
                scan_valid(start as int, end as int, dir as int),
                sweep == sweep_between(true, start as int, end as int, dir as int),
                settles_to(self@, merged@, sweep) == resolve_sweep(g0, sweep),
                board_total(self@) == board_total(g0),
                board_total(g0) <= u64::MAX,
                sweep_weight(self@, sweep) <= sweep_weight(g0, sweep),
                changed ==> sweep_weight(self@, sweep) < sweep_weight(g0, sweep),
                !changed ==> self@ == g0,
                tiles_valid(g0) ==> tiles_valid(self@),
            ensures
                self@ == resolve_sweep(g0, sweep),
            decreases sweep_weight(self@, sweep),
        {
            let changes_made = self.settle_pass(true, start, end, dir, &mut merged);
            if !changes_made {
                break ;
            }
            changed = true;
        }
        changed
    }

    /// Moves the tiles along their columns, by `dir` rows a step, until none
    /// can take a step: the rows from `start` to `end` are scanned in that
    /// order, pass after pass. A tile that has come out of a merge does not
    /// merge again in the same call. Tells whether any cell changed.
    pub fn shift_rows(&mut self, start: usize, end: usize, dir: i32) -> (changed: bool)
        requires
            scan_valid(start as int, end as int, dir as int),
            old(self).total() <= u64::MAX,
        ensures
            final(self)@ == resolve_sweep(
                old(self)@,
                sweep_between(false, start as int, end as int, dir as int),
            ),
            changed == (final(self)@ != old(self)@),
            final(self).total() == old(self).total(),
            old(self).well_formed() ==> final(self).well_formed(),
    {
        let ghost sweep = sweep_between(false, start as int, end as int, dir as int);
        let ghost g0 = self@;
        let mut merged = MergeMarks::new();
        let mut changed = false;
        proof {
            self.lemma_shape();
            lemma_fresh_board(g0, merged@, sweep);
        }
        loop
            invariant
                scan_valid(start as int, end as int, dir as int),
                sweep == sweep_between(false, start as int, end as int, dir as int),
                settles_to(self@, merged@, sweep) == resolve_sweep(g0, sweep),
                board_total(self@) == board_total(g0),
                board_total(g0) <= u64::MAX,
                sweep_weight(self@, sweep) <= sweep_weight(g0, sweep),
                changed ==> sweep_weight(self@, sweep) < sweep_weight(g0, sweep),
                !changed ==> self@ == g0,
                tiles_valid(g0) ==> tiles_valid(self@),
            ensures
                self@ == resolve_sweep(g0, sweep),
            decreases sweep_weight(self@, sweep),
        {
            let changes_made = self.settle_pass(false, start, end, dir, &mut merged);
            if !changes_made {
                break ;
            }
            changed = true;
        }
        changed
    }

    /// Makes one move: all tiles slide to the edge that `dir` names, and equal
    /// neighbours along the way merge once. Tells whether any cell changed.
    pub fn shift(&mut self, dir: Direction) -> (changed: bool)
        requires
            old(self).total() <= u64::MAX,
        ensures
            final(self)@ == resolve(old(self)@, dir),
            changed == (final(self)@ != old(self)@),
            final(self).total() == old(self).total(),
            old(self).well_formed() ==> final(self).well_formed(),
    {
        match dir {
            Direction::West => self.shift_columns(1, GRID_SIZE - 1, -1),
            Direction::East => self.shift_columns(GRID_SIZE - 2, 0, 1),
            Direction::North => self.shift_rows(1, GRID_SIZE - 1, -1),
            Direction::South => self.shift_rows(GRID_SIZE - 2, 0, 1),
        }
    }
}

} // verus!
