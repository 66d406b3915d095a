//! The review-progress bar.

use vstd::prelude::*;

verus! {

/// How many of a range's changed lines are ticked seen.
#[derive(Clone, Copy, Debug, PartialEq, Eq, Structural)]
pub struct SeenBar {
    pub seen: usize,
    pub total: usize,
}

impl SeenBar {
    /// Points the bar at a tally; says whether it is to be drawn again.
    pub fn set_progress(&mut self, seen: usize, total: usize) -> (changed: bool)
        ensures
            changed == (*old(self) != SeenBar { seen, total }),
            *final(self) == (SeenBar { seen, total }),
    {
        if self.seen == seen && self.total == total {
            return false;
        }
        self.seen = seen;
        self.total = total;
        true
    }

    /// The filled share of the bar, as a numerator and a denominator. Nothing
    /// to review leaves it empty rather than full: nothing was reviewed.
    pub fn share(&self) -> (share: (usize, usize))
        ensures
            share == (if self.total == 0 {
                (0usize, 1usize)
            } else {
                (self.seen, self.total)
            }),
    {
        if self.total == 0 {
            (0, 1)
        } else {
            (self.seen, self.total)
        }
    }
}

} // verus!
