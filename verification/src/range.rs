//! A range of indices walked in either direction, both ends included.

use vstd::prelude::*;

verus! {

/// The indices from `start` to `end`, both included, in steps of `step`.
/// Taking an index out moves `start` one step on.
#[derive(Clone, Copy, Debug)]
pub struct BetterRange {
    pub start: i32,
    pub end: i32,
    pub step: i32,
}

impl View for BetterRange {
    type V = Seq<int>;

    /// The indices still to come, in the order in which they come.
    open spec fn view(&self) -> Seq<int> {
        Seq::new(
            self.remaining(),
            |t: int|
                if self.step > 0 {
                    self.start + t
                } else {
                    self.start - t
                },
        )
    }
}

impl BetterRange {
    /// The step is one cell up or down, `start` has not passed the index
    /// after `end`, and that index is an `i32`.
    pub open spec fn well_formed(&self) -> bool {
        &&& (self.step == 1 || self.step == -1)
        &&& i32::MIN <= self.end + self.step <= i32::MAX
        &&& (self.step == 1 ==> self.start <= self.end + 1)
        &&& (self.step == -1 ==> self.start >= self.end - 1)
    }

    /// How many indices are still to come.
    pub open spec fn remaining(&self) -> nat {
        if self.step > 0 {
            (self.end + 1 - self.start) as nat
        } else {
            (self.start - (self.end - 1)) as nat
        }
    }

    /// The range from `start` to `end`, which must differ: the step leads from
    /// the first to the second.
    pub fn new(start: i32, end: i32) -> (range: BetterRange)
        requires
            start != end,
            i32::MIN < end - start <= i32::MAX,
        ensures
            range.start == start,
            range.end == end,
            range.step == if end > start {
                1int
            } else {
                -1int
            },
    {
        BetterRange {
            start: start,
            end: end,
            step: if end > start {
                1
            } else {
                -1
            },
        }
    }

    /// Takes the next index out of the range, if one is left.
    pub fn next(&mut self) -> (item: Option<i32>)
        requires
            old(self).well_formed(),
        ensures
            final(self).well_formed(),
            final(self).end == old(self).end,
            final(self).step == old(self).step,
            match item {
                Some(index) => old(self)@.len() > 0 && index == old(self)@[0] && final(self)@
                    == old(self)@.skip(1) && final(self).start == old(self).start + old(
                    self,
                ).step,
                None => old(self)@.len() == 0 && *final(self) == *old(self),
            },
    {
        if self.start == self.end + self.step {
            None
        } else {
            let ret: i32 = self.start;
            self.start += self.step;
            Some(ret)
        }
    }
}

} // verus!
