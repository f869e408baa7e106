//! How a learner advances between lessons.
use vstd::prelude::*;

verus! {

/// Progression rule for how the agent moves between lessons.
#[derive(Debug, Clone, Copy, PartialEq, Eq, Structural)]
pub enum ProgressionRule {
    /// Advance after passing once.
    PassOnce,
    /// Advance after achieving `n` consecutive passes.
    ConsecutivePasses(usize),
    /// Advance when the average score over all attempts reaches the threshold.
    AverageScore,
}

impl Default for ProgressionRule {
    fn default() -> (r: Self)
        ensures
            r == ProgressionRule::PassOnce,
    {
        ProgressionRule::PassOnce
    }
}

} // verus!
