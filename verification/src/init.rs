//! The initial fuzzing mode.

use vstd::prelude::*;

verus! {

/// The initial fuzzing mode.
#[derive(Clone, Copy, Debug, PartialEq, Eq, Structural)]
pub enum Init {
    /// Fuzzing starts from a clean storage.
    ///
    /// All invariants are checked.
    Clean,
    /// Fuzzing starts from a dirty storage.
    ///
    /// Only crashing is checked.
    Dirty,
    /// Fuzzing starts from a simulated old storage.
    ///
    /// All invariants are checked.
    Used {
        /// Number of simulated used cycles.
        cycle: usize,
    },
}

impl Init {
    /// The number of used cycles.
    pub open spec fn cycles(self) -> usize {
        match self {
            Init::Used { cycle } => cycle,
            _ => 0,
        }
    }

    /// Returns whether fuzzing is in dirty mode.
    pub fn is_dirty(&self) -> (result: bool)
        ensures
            result == (*self is Dirty),
    {
        match self {
            Init::Dirty => true,
            _ => false,
        }
    }

    /// Returns the number of used cycles.
    ///
    /// This is zero if the storage was not artificially aged.
    pub fn used_cycles(&self) -> (result: usize)
        ensures
            result == self.cycles(),
            *self matches Init::Used { cycle } ==> result == cycle,
            !(*self is Used) ==> result == 0,
    {
        match self {
            Init::Used { cycle } => *cycle,
            _ => 0,
        }
    }
}

} // verus!
