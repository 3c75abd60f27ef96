use vstd::prelude::*;

verus! {

/// Counts of parse runs over a set of files.
#[derive(Debug, Default, Clone, Copy)]
pub struct Stats {
    pub successful_parses: usize,
    pub total_parses: usize,
}

impl Stats {
    /// The parses that did not succeed.
    pub fn failed_parses(&self) -> (r: usize)
        requires
            self.successful_parses <= self.total_parses,
        ensures
            r == self.total_parses - self.successful_parses,
    {
        self.total_parses - self.successful_parses
    }
}

} // verus!
