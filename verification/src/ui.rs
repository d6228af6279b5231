//! The row-progress counter: counts rows and says when a report is due
//! (every hundredth row, and once at the end for a partial hundred).

use vstd::prelude::*;

verus! {

/// A row counter for progress reporting.
pub struct Progress {
    pub n: usize,
}

impl Progress {
    /// A fresh counter.
    pub fn new() -> (r: Progress)
        ensures
            r.n == 0,
    {
        Progress { n: 0 }
    }

    /// Counts one row; a report is due on every hundredth.
    pub fn progress(&mut self) -> (due: bool)
        requires
            old(self).n < usize::MAX,
        ensures
            final(self).n == old(self).n + 1,
            due == (final(self).n % 100 == 0),
    {
        self.n = self.n + 1;
        self.n % 100 == 0
    }

    /// Ends the count; a final report is due unless the last row already
    /// reported.
    pub fn complete(&self) -> (due: bool)
        ensures
            due == (self.n % 100 != 0),
    {
        self.n % 100 != 0
    }
}

} // verus!
