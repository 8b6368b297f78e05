//! When lines of the signal log are written out.

use vstd::prelude::*;

verus! {

/// After how many lines they are written out.
pub const FLUSH_EVERY: usize = 32;

/// Counts the lines that are not written out yet.
#[derive(Debug, Clone, Copy)]
pub struct FlushCounter {
    pending: usize,
}

impl FlushCounter {
    #[verifier::type_invariant]
    spec fn well_formed(self) -> bool {
        self.pending < FLUSH_EVERY
    }

    /// How many lines are not written out yet.
    pub closed spec fn pending_lines(self) -> nat {
        self.pending as nat
    }

    /// All lines are written out.
    pub fn new() -> (r: FlushCounter)
        ensures
            r.pending_lines() == 0,
    {
        FlushCounter { pending: 0 }
    }

    /// Counts a line, and says whether the lines are to be written out now.
    pub fn line_written(&mut self) -> (r: bool)
        ensures
            r == (old(self).pending_lines() + 1 >= FLUSH_EVERY),
            final(self).pending_lines() == if r {
                0
            } else {
                old(self).pending_lines() + 1
            },
            final(self).pending_lines() < FLUSH_EVERY,
    {
        proof {
            use_type_invariant(&*self);
        }
        let lines: usize = self.pending + 1;
        if lines >= FLUSH_EVERY {
            self.pending = 0;
            true
        } else {
            self.pending = lines;
            false
        }
    }
}

} // verus!
