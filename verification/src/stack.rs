//! A vector read as a stack.

use vstd::prelude::*;

verus! {

/// A stack, of which only the top can be seen.
pub trait Stack<T> {
    /// The items of the stack, the top one last.
    spec fn items(&self) -> Seq<T>;

    /// The item on top, if the stack holds any.
    fn top(&self) -> (item: Option<&T>)
        ensures
            match item {
                Some(t) => self.items().len() > 0 && *t == self.items().last(),
                None => self.items().len() == 0,
            },
    ;
}

impl<T> Stack<T> for Vec<T> {
    open spec fn items(&self) -> Seq<T> {
        self@
    }

    fn top(&self) -> (item: Option<&T>) {
        if self.len() == 0 {
            None
        } else {
            Some(&self[self.len() - 1])
        }
    }
}

} // verus!
