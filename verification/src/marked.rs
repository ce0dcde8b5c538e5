//! A line in the middle of a move, where some tiles have come out of a merge
//! and merge no more: what such a line settles into, and which steps keep
//! that outcome.

use vstd::prelude::*;

use crate::line::fill;
use crate::line::merge_pairs;
use crate::line::slide_line;
use crate::line::tiles;

verus! {

/// Two neighbouring tiles merge when they are equal and neither of them has
/// come out of a merge in the move that is under way.
pub open spec fn can_merge(a: nat, a_merged: bool, b: nat, b_merged: bool) -> bool {
    a != 0 && a == b && !a_merged && !b_merged
}

/// The tiles that a line will hold once it has come to rest, for a line in the
/// middle of a move: `marks` tells which tiles have come out of a merge, and
/// `held` is the last tile met, which the next one may still merge into.
pub open spec fn settled_tiles(cells: Seq<nat>, marks: Seq<bool>, held: Option<(nat, bool)>) -> Seq<
    nat,
>
    decreases cells.len(),
{
    if cells.len() == 0 {
        match held {
            Some(h) => seq![h.0],
            None => Seq::empty(),
        }
    } else if cells[0] == 0 {
        settled_tiles(cells.skip(1), marks.skip(1), held)
    } else {
        match held {
            None => settled_tiles(cells.skip(1), marks.skip(1), Some((cells[0], marks[0]))),
            Some(h) => if can_merge(h.0, h.1, cells[0], marks[0]) {
                seq![(2 * h.0) as nat] + settled_tiles(cells.skip(1), marks.skip(1), None)
            } else {
                seq![h.0] + settled_tiles(
                    cells.skip(1),
                    marks.skip(1),
                    Some((cells[0], marks[0])),
                )
            },
        }
    }
}

/// The state that a line in the middle of a move settles into.
pub open spec fn settled_line(cells: Seq<nat>, marks: Seq<bool>) -> Seq<nat> {
    fill(settled_tiles(cells, marks, None), cells.len())
}

/// The tile at `i` cannot take a step: it is missing, or it stands behind a
/// tile that it cannot merge into.
pub(crate) open spec fn stuck_at(cells: Seq<nat>, marks: Seq<bool>, i: int) -> bool {
    cells[i] == 0 || (cells[i - 1] != 0 && !can_merge(
        cells[i - 1],
        marks[i - 1],
        cells[i],
        marks[i],
    ))
}

/// The cells up to `last` are all taken, and none of their tiles can merge
/// into the one before it.
pub(crate) open spec fn packed_upto(cells: Seq<nat>, marks: Seq<bool>, last: int) -> bool {
    &&& forall|j: int| 0 <= j <= last ==> #[trigger] cells[j] != 0
    &&& forall|j: int| 1 <= j <= last ==> #[trigger] stuck_at(cells, marks, j)
}

/// No tile has come out of a merge.
pub(crate) open spec fn unmarked(marks: Seq<bool>) -> bool {
    forall|i: int| 0 <= i < marks.len() ==> !#[trigger] marks[i]
}

/// How far the tiles of a line stand from the wall, summed over the tiles.
pub open spec fn line_weight(line: Seq<nat>) -> nat
    decreases line.len(),
{
    if line.len() == 0 {
        0
    } else {
        line_weight(line.drop_last()) + if line.last() != 0 {
            (line.len() - 1) as nat
        } else {
            0
        }
    }
}

proof fn lemma_unmarked_outcome(cells: Seq<nat>, marks: Seq<bool>, held: Option<nat>)
    requires
        cells.len() == marks.len(),
        unmarked(marks),
        held matches Some(h) ==> h != 0,
    ensures
        settled_tiles(
            cells,
            marks,
            match held {
                Some(h) => Some((h, false)),
                None => None,
            },
        ) == merge_pairs(
            match held {
                Some(h) => seq![h],
                None => Seq::empty(),
            } + tiles(cells),
        ),
    decreases cells.len(),
{
    let front: Seq<nat> = match held {
        Some(h) => seq![h],
        None => Seq::empty(),
    };
    if cells.len() == 0 {
        if held is Some {
            assert(merge_pairs(front.skip(1)) =~= Seq::<nat>::empty());
        }
    } else {
        let rest = cells.skip(1);
        let rest_marks = marks.skip(1);
        if cells[0] == 0 {
            lemma_unmarked_outcome(rest, rest_marks, held);
        } else {
            let c = cells[0];
            match held {
                None => {
                    lemma_unmarked_outcome(rest, rest_marks, Some(c));
                },
                Some(h) => {
                    let all = front + tiles(cells);
                    if h == c {
                        lemma_unmarked_outcome(rest, rest_marks, None);
                        assert(all.skip(2) =~= Seq::<nat>::empty() + tiles(rest));
                    } else {
                        lemma_unmarked_outcome(rest, rest_marks, Some(c));
                        assert(all.skip(1) =~= seq![c] + tiles(rest));
                    }
                },
            }
        }
    }
}

/// Before any merge of a move the line settles into what `slide_line` says.
pub(crate) proof fn lemma_fresh_line(cells: Seq<nat>, marks: Seq<bool>)
    requires
        cells.len() == marks.len(),
        unmarked(marks),
    ensures
        settled_line(cells, marks) == slide_line(cells),
{
    lemma_unmarked_outcome(cells, marks, None);
}

/// A tile that has come out of a merge is put out as it is, whatever follows.
proof fn lemma_merged_held(cells: Seq<nat>, marks: Seq<bool>, x: nat)
    ensures
        settled_tiles(cells, marks, Some((x, true))) == seq![x] + settled_tiles(cells, marks, None),
    decreases cells.len(),
{
    if cells.len() > 0 && cells[0] == 0 {
        lemma_merged_held(cells.skip(1), marks.skip(1), x);
    }
}

/// A tile that steps into the empty cell before it leaves the outcome of the
/// line as it was.
pub(crate) proof fn lemma_slide_keeps_outcome(
    cells: Seq<nat>,
    marks: Seq<bool>,
    i: int,
    held: Option<(nat, bool)>,
)
    requires
        cells.len() == marks.len(),
        1 <= i < cells.len(),
        cells[i - 1] == 0,
        cells[i] != 0,
    ensures
        settled_tiles(
            cells.update(i - 1, cells[i]).update(i, 0),
            marks.update(i - 1, marks[i]).update(i, false),
            held,
        ) == settled_tiles(cells, marks, held),
    decreases i,
{
    let cells2 = cells.update(i - 1, cells[i]).update(i, 0);
    let marks2 = marks.update(i - 1, marks[i]).update(i, false);
    if i == 1 {
        let tail = cells.skip(1).skip(1);
        let tail_marks = marks.skip(1).skip(1);
        let moved = Some((cells[1], marks[1]));
        assert(cells2.skip(1).skip(1) =~= tail);
        assert(marks2.skip(1).skip(1) =~= tail_marks);
        assert(settled_tiles(cells2.skip(1), marks2.skip(1), moved) == settled_tiles(
            tail,
            tail_marks,
            moved,
        ));
        assert(settled_tiles(cells2.skip(1), marks2.skip(1), None) == settled_tiles(
            tail,
            tail_marks,
            None,
        ));
        assert(settled_tiles(cells, marks, held) == settled_tiles(
            cells.skip(1),
            marks.skip(1),
            held,
        ));
    } else {
        let rest = cells.skip(1);
        let rest_marks = marks.skip(1);
        assert(cells2.skip(1) =~= rest.update(i - 2, rest[i - 1]).update(i - 1, 0));
        assert(marks2.skip(1) =~= rest_marks.update(i - 2, rest_marks[i - 1]).update(i - 1, false));
        lemma_slide_keeps_outcome(rest, rest_marks, i - 1, held);
        lemma_slide_keeps_outcome(rest, rest_marks, i - 1, None);
        lemma_slide_keeps_outcome(rest, rest_marks, i - 1, Some((cells[0], marks[0])));
    }
}

/// A merge behind a packed run of tiles leaves the outcome of the line as it
/// was: the tiles before the pair stay, and the doubled tile merges no more.
pub(crate) proof fn lemma_merge_keeps_outcome(
    cells: Seq<nat>,
    marks: Seq<bool>,
    i: int,
    held: Option<(nat, bool)>,
)
    requires
        cells.len() == marks.len(),
        1 <= i < cells.len(),
        packed_upto(cells, marks, i - 1),
        held matches Some(h) ==> !can_merge(h.0, h.1, cells[0], marks[0]),
        can_merge(cells[i - 1], marks[i - 1], cells[i], marks[i]),
    ensures
        settled_tiles(
            cells.update(i - 1, (2 * cells[i]) as nat).update(i, 0),
            marks.update(i - 1, true),
            held,
        ) == settled_tiles(cells, marks, held),
    decreases i,
{
    let cells2 = cells.update(i - 1, (2 * cells[i]) as nat).update(i, 0);
    let marks2 = marks.update(i - 1, true);
    let rest = cells.skip(1);
    let rest_marks = marks.skip(1);
    if i == 1 {
        assert(cells2.skip(1).skip(1) =~= rest.skip(1));
        assert(marks2.skip(1).skip(1) =~= rest_marks.skip(1));
        let tail = rest.skip(1);
        let tail_marks = rest_marks.skip(1);
        let doubled = Some((((2 * cells[1]) as nat), true));
        let first = Some((cells[0], marks[0]));
        lemma_merged_held(tail, tail_marks, (2 * cells[1]) as nat);
        assert(settled_tiles(cells2.skip(1), marks2.skip(1), doubled) == settled_tiles(
            tail,
            tail_marks,
            doubled,
        ));
        assert(settled_tiles(rest, rest_marks, first) == seq![(2 * cells[1]) as nat]
            + settled_tiles(tail, tail_marks, None));
    } else {
        assert(cells2.skip(1) =~= rest.update(i - 2, (2 * rest[i - 1]) as nat).update(i - 1, 0));
        assert(marks2.skip(1) =~= rest_marks.update(i - 2, true));
        assert(packed_upto(rest, rest_marks, i - 2)) by {
            assert forall|j: int| 1 <= j <= i - 2 implies #[trigger] stuck_at(
                rest,
                rest_marks,
                j,
            ) by {
                assert(stuck_at(cells, marks, j + 1));
            }
        }
        assert(stuck_at(cells, marks, 1));
        lemma_merge_keeps_outcome(rest, rest_marks, i - 1, Some((cells[0], marks[0])));
    }
}

proof fn lemma_empty_cells_outcome(cells: Seq<nat>, marks: Seq<bool>, held: Option<(nat, bool)>)
    requires
        forall|j: int| 0 <= j < cells.len() ==> cells[j] == 0,
    ensures
        settled_tiles(cells, marks, held) == match held {
            Some(h) => seq![h.0],
            None => Seq::<nat>::empty(),
        },
    decreases cells.len(),
{
    if cells.len() > 0 {
        lemma_empty_cells_outcome(cells.skip(1), marks.skip(1), held);
    }
}

proof fn lemma_gap_is_tail(cells: Seq<nat>, marks: Seq<bool>, j: int)
    requires
        cells.len() == marks.len(),
        cells.len() > 0,
        cells[0] == 0,
        forall|k: int| 1 <= k < cells.len() ==> stuck_at(cells, marks, k),
        0 <= j < cells.len(),
    ensures
        cells[j] == 0,
    decreases j,
{
    if j > 0 {
        lemma_gap_is_tail(cells, marks, j - 1);
        assert(stuck_at(cells, marks, j));
    }
}

proof fn lemma_rest_outcome(cells: Seq<nat>, marks: Seq<bool>, held: Option<(nat, bool)>)
    requires
        cells.len() == marks.len(),
        forall|j: int| 1 <= j < cells.len() ==> stuck_at(cells, marks, j),
        held matches Some(h) ==> h.0 != 0 && (cells.len() > 0 && cells[0] != 0 ==> !can_merge(
            h.0,
            h.1,
            cells[0],
            marks[0],
        )),
    ensures
        fill(
            settled_tiles(cells, marks, held),
            match held {
                Some(h) => cells.len() + 1,
                None => cells.len(),
            },
        ) == match held {
            Some(h) => seq![h.0],
            None => Seq::<nat>::empty(),
        } + cells,
    decreases cells.len(),
{
    let front: Seq<nat> = match held {
        Some(h) => seq![h.0],
        None => Seq::empty(),
    };
    let width: nat = match held {
        Some(h) => cells.len() + 1,
        None => cells.len(),
    };
    if cells.len() == 0 {
    } else if cells[0] == 0 {
        assert forall|j: int| 0 <= j < cells.len() implies cells[j] == 0 by {
            lemma_gap_is_tail(cells, marks, j);
        }
        lemma_empty_cells_outcome(cells, marks, held);
    } else {
        let rest = cells.skip(1);
        let rest_marks = marks.skip(1);
        let next = Some((cells[0], marks[0]));
        assert forall|j: int| 1 <= j < rest.len() implies stuck_at(rest, rest_marks, j) by {
            assert(stuck_at(cells, marks, j + 1));
        }
        if rest.len() > 0 {
            assert(stuck_at(cells, marks, 1));
        }
        lemma_rest_outcome(rest, rest_marks, next);
        let inner = settled_tiles(rest, rest_marks, next);
        assert(seq![cells[0]] + rest =~= cells);
        if let Some(h) = held {
            assert forall|k: int| 0 <= k < width implies fill(seq![h.0] + inner, width)[k] == (front
                + cells)[k] by {}
        }
    }
}

/// A line none of whose tiles can take a step has settled.
pub(crate) proof fn lemma_stuck_line_is_settled(cells: Seq<nat>, marks: Seq<bool>)
    requires
        cells.len() == marks.len(),
        forall|j: int| 1 <= j < cells.len() ==> stuck_at(cells, marks, j),
    ensures
        settled_line(cells, marks) == cells,
{
    lemma_rest_outcome(cells, marks, None);
}

/// What a change of one cell does to the weight of a line.
pub(crate) proof fn lemma_weight_update(line: Seq<nat>, i: int, v: nat)
    requires
        0 <= i < line.len(),
    ensures
        line_weight(line.update(i, v)) == line_weight(line) - (if line[i] != 0 {
            i
        } else {
            0
        }) + (if v != 0 {
            i
        } else {
            0
        }),
    decreases line.len(),
{
    let changed = line.update(i, v);
    if i == line.len() - 1 {
        assert(changed.drop_last() =~= line.drop_last());
    } else {
        assert(changed.drop_last() =~= line.drop_last().update(i, v));
        lemma_weight_update(line.drop_last(), i, v);
    }
}

} // verus!
