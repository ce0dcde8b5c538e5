//! One line of the board, read from the wall that the tiles move to.
//!
//! A line is a sequence of cell values; index 0 is the cell at the wall and 0
//! is the empty cell. What a move does to a line is stated here once, without
//! any reference to how the board walks its cells.

use vstd::prelude::*;

use crate::board::is_tile;
use crate::board::lemma_double_tile;
use crate::marked::lemma_fresh_line;
use crate::marked::lemma_stuck_line_is_settled;
use crate::marked::stuck_at;

verus! {

/// The tiles of a line in order, gaps left out.
pub open spec fn tiles(line: Seq<nat>) -> Seq<nat>
    decreases line.len(),
{
    if line.len() == 0 {
        Seq::empty()
    } else if line[0] == 0 {
        tiles(line.skip(1))
    } else {
        seq![line[0]] + tiles(line.skip(1))
    }
}

/// Equal neighbours merged pairwise, the pair nearest the wall first. The
/// doubled tile is put out at once, so it takes no part in a second merge.
pub open spec fn merge_pairs(t: Seq<nat>) -> Seq<nat>
    decreases t.len(),
{
    if t.len() == 0 {
        Seq::empty()
    } else if t.len() >= 2 && t[0] == t[1] {
        seq![(2 * t[0]) as nat] + merge_pairs(t.skip(2))
    } else {
        seq![t[0]] + merge_pairs(t.skip(1))
    }
}

/// `t` followed by empty cells, `len` cells in all.
pub open spec fn fill(t: Seq<nat>, len: nat) -> Seq<nat> {
    Seq::new(len, |i: int| if i < t.len() { t[i] } else { 0 })
}

/// The line after a move towards its wall: gaps closed, equal neighbours
/// merged once, the rest empty.
pub open spec fn slide_line(line: Seq<nat>) -> Seq<nat> {
    fill(merge_pairs(tiles(line)), line.len())
}

/// The sum of the values of a line.
pub open spec fn line_total(line: Seq<nat>) -> nat
    decreases line.len(),
{
    if line.len() == 0 {
        0
    } else {
        line[0] + line_total(line.skip(1))
    }
}

/// The tile at `i`, if there is one, can take a step: the cell before it is
/// empty or holds a tile of its value.
pub open spec fn tile_can_step(line: Seq<nat>, i: int) -> bool {
    line[i] != 0 && (line[i - 1] == 0 || line[i - 1] == line[i])
}

/// No tile of the line can take a step: every tile stands at the wall or
/// behind a tile of another value.
pub open spec fn line_at_rest(line: Seq<nat>) -> bool {
    forall|i: int| 1 <= i < line.len() ==> !#[trigger] tile_can_step(line, i)
}

/// All values of `t` are tiles rather than gaps.
pub open spec fn all_tiles(t: Seq<nat>) -> bool {
    forall|j: int| 0 <= j < t.len() ==> #[trigger] t[j] != 0
}

/// `out` arises from the tiles `t` by merging disjoint pairs of equal
/// neighbours: every tile of `out` is one tile of `t`, or the double of two
/// equal neighbours of `t`, and every tile of `t` is used exactly once.
pub open spec fn merged_once(t: Seq<nat>, out: Seq<nat>) -> bool
    decreases t.len(),
{
    if t.len() == 0 {
        out.len() == 0
    } else {
        out.len() > 0 && ((out[0] == t[0] && merged_once(t.skip(1), out.skip(1))) || (t.len() >= 2
            && t[0] == t[1] && out[0] == 2 * t[0] && merged_once(t.skip(2), out.skip(1))))
    }
}

/// Every cell of the line is empty or holds a power of two, 2 at the least.
pub open spec fn line_valid(line: Seq<nat>) -> bool {
    forall|j: int| 0 <= j < line.len() ==> line[j] == 0 || is_tile(#[trigger] line[j])
}

/// The tiles of a line are tiles, and no more than the line has cells.
pub proof fn lemma_tiles_shape(line: Seq<nat>)
    ensures
        all_tiles(tiles(line)),
        tiles(line).len() <= line.len(),
    decreases line.len(),
{
    if line.len() > 0 {
        lemma_tiles_shape(line.skip(1));
    }
}

/// Merging never makes more tiles.
pub proof fn lemma_merge_pairs_len(t: Seq<nat>)
    ensures
        merge_pairs(t).len() <= t.len(),
    decreases t.len(),
{
    if t.len() == 0 {
    } else if t.len() >= 2 && t[0] == t[1] {
        lemma_merge_pairs_len(t.skip(2));
    } else {
        lemma_merge_pairs_len(t.skip(1));
    }
}

/// Merging makes tiles of tiles, and no more of them.
pub proof fn lemma_merge_pairs_shape(t: Seq<nat>)
    requires
        all_tiles(t),
    ensures
        all_tiles(merge_pairs(t)),
        merge_pairs(t).len() <= t.len(),
    decreases t.len(),
{
    if t.len() == 0 {
    } else if t.len() >= 2 && t[0] == t[1] {
        lemma_merge_pairs_shape(t.skip(2));
    } else {
        lemma_merge_pairs_shape(t.skip(1));
    }
}

/// The tiles of a filled-up line are the tiles that it was filled up from.
pub proof fn lemma_tiles_of_fill(t: Seq<nat>, len: nat)
    requires
        all_tiles(t),
        t.len() <= len,
    ensures
        tiles(fill(t, len)) == t,
    decreases len,
{
    let line = fill(t, len);
    if len == 0 {
    } else if t.len() == 0 {
        assert(line.skip(1) =~= fill(t, (len - 1) as nat));
        lemma_tiles_of_fill(t, (len - 1) as nat);
    } else {
        assert(line.skip(1) =~= fill(t.skip(1), (len - 1) as nat));
        lemma_tiles_of_fill(t.skip(1), (len - 1) as nat);
    }
}

/// In `merge_pairs` no tile takes part in two merges.
pub proof fn lemma_merge_pairs_once(t: Seq<nat>)
    ensures
        merged_once(t, merge_pairs(t)),
    decreases t.len(),
{
    if t.len() == 0 {
    } else if t.len() >= 2 && t[0] == t[1] {
        lemma_merge_pairs_once(t.skip(2));
        assert(merge_pairs(t).skip(1) =~= merge_pairs(t.skip(2)));
    } else {
        lemma_merge_pairs_once(t.skip(1));
        assert(merge_pairs(t).skip(1) =~= merge_pairs(t.skip(1)));
    }
}

/// At most one merge for each tile in a move: the tiles of the line after
/// the move are the tiles before it, but for disjoint pairs of equal neighbours
/// that have become one tile of twice the value. A tile that has come out of
/// a merge is no part of another one.
pub proof fn lemma_slide_merges_once(line: Seq<nat>)
    ensures
        merged_once(tiles(line), tiles(slide_line(line))),
{
    lemma_tiles_shape(line);
    lemma_merge_pairs_shape(tiles(line));
    lemma_tiles_of_fill(merge_pairs(tiles(line)), line.len());
    lemma_merge_pairs_once(tiles(line));
}

/// A line none of whose tiles can take a step is left as it is by a move.
pub proof fn lemma_line_at_rest(line: Seq<nat>)
    requires
        line_at_rest(line),
    ensures
        slide_line(line) == line,
{
    let marks = Seq::new(line.len(), |i: int| false);
    assert forall|j: int| 1 <= j < line.len() implies stuck_at(line, marks, j) by {
        assert(!tile_can_step(line, j));
    }
    lemma_stuck_line_is_settled(line, marks);
    lemma_fresh_line(line, marks);
}

/// Tiles that merging leaves as they are hold no two equal neighbours.
pub proof fn lemma_unmerged_differ(t: Seq<nat>)
    requires
        merge_pairs(t) == t,
    ensures
        forall|j: int| 1 <= j < t.len() ==> t[j - 1] != #[trigger] t[j],
    decreases t.len(),
{
    if t.len() == 0 {
    } else if t.len() >= 2 && t[0] == t[1] {
        lemma_merge_pairs_len(t.skip(2));
    } else {
        let rest = t.skip(1);
        assert(merge_pairs(rest) =~= merge_pairs(t).skip(1));
        lemma_unmerged_differ(rest);
        assert forall|j: int| 1 <= j < t.len() implies t[j - 1] != #[trigger] t[j] by {}
    }
}

/// A line that a move leaves as it is holds no tile that can take a step.
pub proof fn lemma_unchanged_line_is_at_rest(line: Seq<nat>)
    requires
        slide_line(line) == line,
    ensures
        line_at_rest(line),
{
    let t = tiles(line);
    let out = merge_pairs(t);
    lemma_tiles_shape(line);
    lemma_merge_pairs_shape(t);
    lemma_tiles_of_fill(out, line.len());
    lemma_unmerged_differ(t);
    assert forall|i: int| 1 <= i < line.len() implies !#[trigger] tile_can_step(line, i) by {}
}

proof fn lemma_lone_tile_tiles(line: Seq<nat>, i: int)
    requires
        0 <= i < line.len(),
        forall|j: int| 0 <= j < line.len() && j != i ==> line[j] == 0,
    ensures
        tiles(line) == if line[i] != 0 {
            seq![line[i]]
        } else {
            Seq::<nat>::empty()
        },
    decreases line.len(),
{
    let rest = line.skip(1);
    if i == 0 {
        if rest.len() > 0 {
            lemma_lone_tile_tiles(rest.update(0, 0), 0);
            assert(rest.update(0, 0) =~= rest);
        } else {
            assert(tiles(rest) =~= Seq::<nat>::empty());
        }
    } else {
        lemma_lone_tile_tiles(rest, i - 1);
    }
}

/// A lone tile slides to the wall and keeps its value.
pub proof fn lemma_lone_tile_line(line: Seq<nat>, i: int)
    requires
        0 <= i < line.len(),
        line[i] != 0,
        forall|j: int| 0 <= j < line.len() && j != i ==> line[j] == 0,
    ensures
        slide_line(line) == line.update(i, 0).update(0, line[i]),
{
    lemma_lone_tile_tiles(line, i);
    let t = seq![line[i]];
    assert(merge_pairs(t.skip(1)) =~= Seq::<nat>::empty());
}

/// What a change of one cell does to the total of a line.
pub(crate) proof fn lemma_total_update(line: Seq<nat>, i: int, v: nat)
    requires
        0 <= i < line.len(),
    ensures
        line_total(line.update(i, v)) == line_total(line) - line[i] + v,
    decreases line.len(),
{
    let changed = line.update(i, v);
    if i == 0 {
        assert(changed.skip(1) =~= line.skip(1));
    } else {
        assert(changed.skip(1) =~= line.skip(1).update(i - 1, v));
        lemma_total_update(line.skip(1), i - 1, v);
    }
}

/// The total of a line that has one more cell at its end.
pub(crate) proof fn lemma_total_push(line: Seq<nat>, v: nat)
    ensures
        line_total(line.push(v)) == line_total(line) + v,
    decreases line.len(),
{
    let longer = line.push(v);
    if line.len() == 0 {
        assert(line_total(longer.skip(1)) == 0);
    } else {
        assert(longer.skip(1) =~= line.skip(1).push(v));
        lemma_total_push(line.skip(1), v);
    }
}

/// The total of a line of four cells.
pub(crate) proof fn lemma_total_of_four(line: Seq<nat>)
    requires
        line.len() == 4,
    ensures
        line_total(line) == line[0] + line[1] + line[2] + line[3],
{
    reveal_with_fuel(line_total, 5);
}

/// The total of a line is the total of its tiles.
pub proof fn lemma_tiles_total(line: Seq<nat>)
    ensures
        line_total(tiles(line)) == line_total(line),
    decreases line.len(),
{
    if line.len() > 0 {
        lemma_tiles_total(line.skip(1));
        if line[0] != 0 {
            assert(tiles(line).skip(1) =~= tiles(line.skip(1)));
        }
    }
}

/// Merging keeps the total: the merged tile holds what the two tiles held.
pub proof fn lemma_merge_pairs_total(t: Seq<nat>)
    ensures
        line_total(merge_pairs(t)) == line_total(t),
    decreases t.len(),
{
    if t.len() == 0 {
    } else if t.len() >= 2 && t[0] == t[1] {
        lemma_merge_pairs_total(t.skip(2));
        assert(merge_pairs(t).skip(1) =~= merge_pairs(t.skip(2)));
        assert(t.skip(1).skip(1) =~= t.skip(2));
        assert(line_total(t.skip(1)) == t[1] + line_total(t.skip(2)));
    } else {
        lemma_merge_pairs_total(t.skip(1));
        assert(merge_pairs(t).skip(1) =~= merge_pairs(t.skip(1)));
    }
}

/// Empty cells add nothing to the total.
pub proof fn lemma_fill_total(t: Seq<nat>, len: nat)
    requires
        t.len() <= len,
    ensures
        line_total(fill(t, len)) == line_total(t),
    decreases len,
{
    if len > 0 {
        if t.len() == 0 {
            assert(fill(t, len).skip(1) =~= fill(t, (len - 1) as nat));
            lemma_fill_total(t, (len - 1) as nat);
        } else {
            assert(fill(t, len).skip(1) =~= fill(t.skip(1), (len - 1) as nat));
            lemma_fill_total(t.skip(1), (len - 1) as nat);
        }
    }
}

/// A move keeps the total of a line.
pub proof fn lemma_slide_keeps_total(line: Seq<nat>)
    ensures
        line_total(slide_line(line)) == line_total(line),
{
    lemma_tiles_shape(line);
    lemma_merge_pairs_len(tiles(line));
    lemma_fill_total(merge_pairs(tiles(line)), line.len());
    lemma_merge_pairs_total(tiles(line));
    lemma_tiles_total(line);
}

proof fn lemma_tiles_valid(line: Seq<nat>)
    requires
        line_valid(line),
    ensures
        line_valid(tiles(line)),
    decreases line.len(),
{
    if line.len() > 0 {
        let rest = line.skip(1);
        assert forall|j: int| 0 <= j < rest.len() implies rest[j] == 0 || is_tile(
            #[trigger] rest[j],
        ) by {}
        lemma_tiles_valid(rest);
    }
}

proof fn lemma_merge_pairs_valid(t: Seq<nat>)
    requires
        line_valid(t),
    ensures
        line_valid(merge_pairs(t)),
    decreases t.len(),
{
    if t.len() == 0 {
    } else {
        let rest = if t.len() >= 2 && t[0] == t[1] {
            t.skip(2)
        } else {
            t.skip(1)
        };
        assert forall|j: int| 0 <= j < rest.len() implies rest[j] == 0 || is_tile(
            #[trigger] rest[j],
        ) by {}
        lemma_merge_pairs_valid(rest);
        if t[0] != 0 {
            lemma_double_tile(t[0]);
        }
    }
}

/// A move makes powers of two of powers of two.
pub proof fn lemma_slide_keeps_valid(line: Seq<nat>)
    requires
        line_valid(line),
    ensures
        line_valid(slide_line(line)),
{
    lemma_tiles_valid(line);
    lemma_merge_pairs_valid(tiles(line));
}

} // verus!
