//! The running state of a lesson while it is being trained.
use vstd::prelude::*;
use crate::fixed::{max_int, mean_of, sum_values, Mean};

verus! {

/// Mutable state for a lesson being trained. Scores are fixed-point.
#[derive(Debug, Clone)]
pub struct LessonState {
    /// Current attempt number (0-indexed).
    pub attempt: usize,
    /// Scores from each attempt.
    pub scores: Vec<i64>,
    /// Whether this lesson has been passed: the progression rule let the agent advance.
    pub passed: bool,
}

/// The largest score, or `0` when it is larger than every score.
pub open spec fn best_of(s: Seq<i64>) -> int
    decreases s.len(),
{
    if s.len() == 0 {
        0
    } else {
        max_int(best_of(s.drop_last()), s.last() as int)
    }
}

/// The number of scores at the end of `s` that reach `threshold`, counted
/// back from the last one up to the first that does not.
pub open spec fn trailing_passes(s: Seq<i64>, threshold: i64) -> nat
    decreases s.len(),
{
    if s.len() == 0 {
        0
    } else if s.last() >= threshold {
        trailing_passes(s.drop_last(), threshold) + 1
    } else {
        0
    }
}

pub(crate) proof fn lemma_best_of_bounds(s: Seq<i64>)
    ensures
        0 <= best_of(s) <= i64::MAX,
    decreases s.len(),
{
    if s.len() > 0 {
        lemma_best_of_bounds(s.drop_last());
    }
}

proof fn lemma_trailing_bounded(s: Seq<i64>, threshold: i64)
    ensures
        trailing_passes(s, threshold) <= s.len(),
    decreases s.len(),
{
    if s.len() > 0 {
        lemma_trailing_bounded(s.drop_last(), threshold);
    }
}

impl LessonState {
    /// Create a fresh state for a lesson.
    pub fn new() -> (r: Self)
        ensures
            r.attempt == 0,
            r.scores@.len() == 0,
            !r.passed,
    {
        LessonState { attempt: 0, scores: Vec::new(), passed: false }
    }

    /// Record an attempt score.
    pub fn record(&mut self, score: i64)
        requires
            old(self).attempt < usize::MAX,
        ensures
            final(self).scores@ == old(self).scores@.push(score),
            final(self).attempt == old(self).attempt + 1,
            final(self).passed == old(self).passed,
    {
        self.scores.push(score);
        self.attempt = self.attempt + 1;
    }

    /// Best score so far; never below `0`.
    pub fn best_score(&self) -> (r: i64)
        ensures
            r == best_of(self.scores@),
    {
        let n = self.scores.len();
        let mut best: i64 = 0;
        let mut i: usize = 0;
        while i < n
            invariant
                n == self.scores@.len(),
                i <= n,
                best == best_of(self.scores@.take(i as int)),
            decreases n - i,
        {
            proof {
                assert(self.scores@.take(i + 1).drop_last() =~= self.scores@.take(i as int));
            }
            if self.scores[i] > best {
                best = self.scores[i];
            }
            i = i + 1;
        }
        proof {
            assert(self.scores@.take(n as int) =~= self.scores@);
        }
        best
    }

    /// Average score so far: the exact mean of the scores (zero with none).
    pub fn average_score(&self) -> (r: Mean)
        ensures
            r.total == sum_values(self.scores@),
            r.count == self.scores@.len(),
    {
        mean_of(self.scores.as_slice())
    }

    /// The number of consecutive passes at the end: the trailing scores that
    /// reach `threshold`.
    pub fn consecutive_passes(&self, threshold: i64) -> (r: usize)
        ensures
            r == trailing_passes(self.scores@, threshold),
    {
        let n = self.scores.len();
        let mut count: usize = 0;
        let mut i: usize = n;
        proof {
            assert(self.scores@.take(n as int) =~= self.scores@);
        }
        while i > 0
            invariant
                n == self.scores@.len(),
                i <= n,
                count == n - i,
                trailing_passes(self.scores@, threshold) == trailing_passes(
                    self.scores@.take(i as int),
                    threshold,
                ) + count,
            decreases i,
        {
            proof {
                assert(self.scores@.take(i as int).drop_last() =~= self.scores@.take(i - 1));
            }
            if self.scores[i - 1] >= threshold {
                count = count + 1;
                i = i - 1;
            } else {
                return count;
            }
        }
        count
    }
}

/// The best score never falls below zero and is at least every recorded score.
pub proof fn lemma_best_score_dominates(s: Seq<i64>, j: int)
    requires
        0 <= j < s.len(),
    ensures
        best_of(s) >= 0,
        best_of(s) >= s[j],
    decreases s.len(),
{
    lemma_best_of_bounds(s);
    if j < s.len() - 1 {
        lemma_best_score_dominates(s.drop_last(), j);
    }
}

/// Recording a passing score extends the run of consecutive passes by one;
/// recording a failing score ends it.
pub proof fn lemma_passes_after_record(s: Seq<i64>, score: i64, threshold: i64)
    ensures
        score >= threshold ==> trailing_passes(s.push(score), threshold) == trailing_passes(s, threshold) + 1,
        score < threshold ==> trailing_passes(s.push(score), threshold) == 0,
        trailing_passes(s, threshold) <= s.len(),
{
    assert(s.push(score).drop_last() =~= s);
    lemma_trailing_bounded(s, threshold);
}

} // verus!
