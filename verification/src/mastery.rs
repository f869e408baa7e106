//! Mastery tracking: the status of every lesson of a curriculum.
use vstd::prelude::*;
use crate::fixed::{mean_of, sum_values, max_int, Fraction, Mean};
use crate::lesson::Lesson;

verus! {

/// Status of a single lesson in the mastery tracker. Scores are fixed-point.
#[derive(Debug, Clone, Copy, PartialEq, Eq, Structural)]
pub enum LessonStatus {
    /// Not yet attempted.
    NotStarted,
    /// Currently being worked on.
    InProgress { attempts: usize, best_score: i64 },
    /// Mastered (passed the success criteria); `score` is the best score achieved.
    Mastered { attempts: usize, score: i64 },
    /// Failed (exhausted max attempts without mastery).
    Failed { attempts: usize, best_score: i64 },
}

impl LessonStatus {
    /// Number of attempts so far.
    pub open spec fn spec_attempts(self) -> usize {
        match self {
            LessonStatus::NotStarted => 0,
            LessonStatus::InProgress { attempts, .. } => attempts,
            LessonStatus::Mastered { attempts, .. } => attempts,
            LessonStatus::Failed { attempts, .. } => attempts,
        }
    }

    /// Best score achieved; the score that mastered a mastered lesson.
    pub open spec fn spec_best_score(self) -> i64 {
        match self {
            LessonStatus::NotStarted => 0,
            LessonStatus::InProgress { best_score, .. } => best_score,
            LessonStatus::Mastered { score, .. } => score,
            LessonStatus::Failed { best_score, .. } => best_score,
        }
    }

    /// Is this lesson mastered?
    pub fn is_mastered(&self) -> (r: bool)
        ensures
            r == (*self is Mastered),
    {
        match self {
            LessonStatus::Mastered { .. } => true,
            _ => false,
        }
    }

    /// Is this lesson failed?
    pub fn is_failed(&self) -> (r: bool)
        ensures
            r == (*self is Failed),
    {
        match self {
            LessonStatus::Failed { .. } => true,
            _ => false,
        }
    }

    /// Number of attempts so far.
    pub fn attempts(&self) -> (r: usize)
        ensures
            r == self.spec_attempts(),
    {
        match *self {
            LessonStatus::NotStarted => 0,
            LessonStatus::InProgress { attempts, .. } => attempts,
            LessonStatus::Mastered { attempts, .. } => attempts,
            LessonStatus::Failed { attempts, .. } => attempts,
        }
    }

    /// Best score achieved.
    pub fn best_score(&self) -> (r: i64)
        ensures
            r == self.spec_best_score(),
    {
        match *self {
            LessonStatus::NotStarted => 0,
            LessonStatus::InProgress { best_score, .. } => best_score,
            LessonStatus::Mastered { score, .. } => score,
            LessonStatus::Failed { best_score, .. } => best_score,
        }
    }
}

/// The status of a lesson after one more attempt with `score`, for a lesson
/// passed at `threshold` that allows `max_attempts` attempts.
pub open spec fn status_after(st: LessonStatus, score: i64, threshold: i64, max_attempts: usize) -> LessonStatus {
    let attempts = (st.spec_attempts() + 1) as usize;
    let best = max_int(score as int, st.spec_best_score() as int) as i64;
    if score >= threshold && attempts <= max_attempts {
        LessonStatus::Mastered { attempts, score: best }
    } else if attempts >= max_attempts {
        LessonStatus::Failed { attempts, best_score: best }
    } else {
        LessonStatus::InProgress { attempts, best_score: best }
    }
}

/// The number of mastered lessons.
pub open spec fn count_mastered(s: Seq<LessonStatus>) -> nat
    decreases s.len(),
{
    if s.len() == 0 {
        0
    } else {
        count_mastered(s.drop_last()) + if s.last() is Mastered { 1nat } else { 0nat }
    }
}

/// The number of failed lessons.
pub open spec fn count_failed(s: Seq<LessonStatus>) -> nat
    decreases s.len(),
{
    if s.len() == 0 {
        0
    } else {
        count_failed(s.drop_last()) + if s.last() is Failed { 1nat } else { 0nat }
    }
}

/// The attempts over all lessons.
pub open spec fn sum_attempts(s: Seq<LessonStatus>) -> nat
    decreases s.len(),
{
    if s.len() == 0 {
        0
    } else {
        sum_attempts(s.drop_last()) + s.last().spec_attempts() as nat
    }
}

/// Whether a lesson needs review: mastered with a score below
/// `threshold + 0.1`, or failed.
pub open spec fn needs_review(st: LessonStatus, threshold: i64) -> bool {
    match st {
        LessonStatus::Mastered { score, .. } => score < threshold + 100_000_000_000,
        LessonStatus::Failed { .. } => true,
        _ => false,
    }
}

/// The indices, in order, of the lessons that need review.
pub open spec fn review_indices(s: Seq<LessonStatus>, threshold: i64) -> Seq<usize>
    decreases s.len(),
{
    if s.len() == 0 {
        Seq::empty()
    } else if needs_review(s.last(), threshold) {
        review_indices(s.drop_last(), threshold).push((s.len() - 1) as usize)
    } else {
        review_indices(s.drop_last(), threshold)
    }
}

/// The mastery rate of a curriculum: mastered lessons over all lessons, or
/// `0 / 1` for no lessons.
pub open spec fn mastery_fraction(s: Seq<LessonStatus>) -> Fraction {
    Fraction {
        numerator: count_mastered(s) as usize,
        denominator: if s.len() == 0 { 1 } else { s.len() as usize },
    }
}

/// Tracks mastery status for all lessons in a curriculum.
#[derive(Debug, Clone)]
pub struct MasteryTracker {
    statuses: Vec<LessonStatus>,
}

impl View for MasteryTracker {
    type V = Seq<LessonStatus>;

    closed spec fn view(&self) -> Seq<LessonStatus> {
        self.statuses@
    }
}

proof fn lemma_counts_bounded(s: Seq<LessonStatus>)
    ensures
        count_mastered(s) + count_failed(s) <= s.len(),
    decreases s.len(),
{
    if s.len() > 0 {
        lemma_counts_bounded(s.drop_last());
    }
}

impl MasteryTracker {
    /// Create a new tracker for `n` lessons.
    pub fn new(n: usize) -> (r: Self)
        ensures
            r@ == Seq::new(n as nat, |i: int| LessonStatus::NotStarted),
    {
        let mut statuses: Vec<LessonStatus> = Vec::new();
        let mut i: usize = 0;
        while i < n
            invariant
                i <= n,
                statuses@ == Seq::new(i as nat, |j: int| LessonStatus::NotStarted),
            decreases n - i,
        {
            statuses.push(LessonStatus::NotStarted);
            i = i + 1;
        }
        MasteryTracker { statuses }
    }

    /// Get the status of lesson `index`.
    pub fn status(&self, index: usize) -> (r: &LessonStatus)
        requires
            index < self@.len(),
        ensures
            *r == self@[index as int],
    {
        &self.statuses[index]
    }

    /// Record an attempt on lesson `index` with the given score.
    /// Returns `true` if the lesson is now mastered.
    pub fn record_attempt(&mut self, index: usize, score: i64, lesson: &Lesson) -> (r: bool)
        requires
            index < old(self)@.len(),
            old(self)@[index as int].spec_attempts() < usize::MAX,
        ensures
            final(self)@ == old(self)@.update(
                index as int,
                status_after(old(self)@[index as int], score, lesson.success_threshold, lesson.max_attempts),
            ),
            r == (score >= lesson.success_threshold && old(self)@[index as int].spec_attempts() + 1
                <= lesson.max_attempts),
            r == final(self)@[index as int] is Mastered,
            sum_attempts(final(self)@) == sum_attempts(old(self)@) + 1,
    {
        proof {
            lemma_sum_attempts_update(
                self@,
                index as int,
                status_after(self@[index as int], score, lesson.success_threshold, lesson.max_attempts),
            );
        }
        let current = self.statuses[index];
        let attempts = current.attempts() + 1;
        let previous_best = current.best_score();
        let best_score = if score >= previous_best {
            score
        } else {
            previous_best
        };
        let mastered = lesson.is_passed(score) && attempts <= lesson.max_attempts;
        let next = if mastered {
            LessonStatus::Mastered { attempts, score: best_score }
        } else if attempts >= lesson.max_attempts {
            LessonStatus::Failed { attempts, best_score }
        } else {
            LessonStatus::InProgress { attempts, best_score }
        };
        self.statuses.set(index, next);
        mastered
    }

    /// Number of mastered lessons.
    pub fn mastered_count(&self) -> (r: usize)
        ensures
            r == count_mastered(self@),
    {
        let n = self.statuses.len();
        let mut count: usize = 0;
        let mut i: usize = 0;
        while i < n
            invariant
                n == self@.len(),
                i <= n,
                count == count_mastered(self@.take(i as int)),
            decreases n - i,
        {
            proof {
                assert(self@.take(i + 1).drop_last() =~= self@.take(i as int));
                lemma_counts_bounded(self@.take(i + 1));
            }
            if self.statuses[i].is_mastered() {
                count = count + 1;
            }
            i = i + 1;
        }
        proof {
            assert(self@.take(n as int) =~= self@);
        }
        count
    }

    /// Number of failed lessons.
    pub fn failed_count(&self) -> (r: usize)
        ensures
            r == count_failed(self@),
    {
        let n = self.statuses.len();
        let mut count: usize = 0;
        let mut i: usize = 0;
        while i < n
            invariant
                n == self@.len(),
                i <= n,
                count == count_failed(self@.take(i as int)),
            decreases n - i,
        {
            proof {
                assert(self@.take(i + 1).drop_last() =~= self@.take(i as int));
                lemma_counts_bounded(self@.take(i + 1));
            }
            if self.statuses[i].is_failed() {
                count = count + 1;
            }
            i = i + 1;
        }
        proof {
            assert(self@.take(n as int) =~= self@);
        }
        count
    }

    /// Mastery rate: mastered lessons over all lessons (`0 / 1` when there are
    /// no lessons).
    pub fn mastery_rate(&self) -> (r: Fraction)
        ensures
            r == mastery_fraction(self@),
    {
        let mastered = self.mastered_count();
        if self.statuses.len() == 0 {
            return Fraction { numerator: 0, denominator: 1 };
        }
        Fraction { numerator: mastered, denominator: self.statuses.len() }
    }

    /// Lessons that need review (mastered but with low scores, or failed).
    pub fn lessons_for_review(&self, threshold: i64) -> (r: Vec<usize>)
        ensures
            r@ == review_indices(self@, threshold),
    {
        let n = self.statuses.len();
        let mut out: Vec<usize> = Vec::new();
        let mut i: usize = 0;
        while i < n
            invariant
                n == self@.len(),
                i <= n,
                out@ == review_indices(self@.take(i as int), threshold),
            decreases n - i,
        {
            proof {
                assert(self@.take(i + 1).drop_last() =~= self@.take(i as int));
                assert(self@.take(i + 1).last() == self@[i as int]);
            }
            let wanted = match self.statuses[i] {
                LessonStatus::Mastered { score, .. } => (score as i128) < threshold as i128 + 100_000_000_000,
                LessonStatus::Failed { .. } => true,
                _ => false,
            };
            if wanted {
                out.push(i);
            }
            i = i + 1;
        }
        proof {
            assert(self@.take(n as int) =~= self@);
        }
        out
    }

    /// Total attempts across all lessons.
    pub fn total_attempts(&self) -> (r: usize)
        requires
            sum_attempts(self@) <= usize::MAX,
        ensures
            r == sum_attempts(self@),
    {
        let n = self.statuses.len();
        let mut total: usize = 0;
        let mut i: usize = 0;
        while i < n
            invariant
                n == self@.len(),
                i <= n,
                sum_attempts(self@) <= usize::MAX,
                total == sum_attempts(self@.take(i as int)),
            decreases n - i,
        {
            proof {
                assert(self@.take(i + 1).drop_last() =~= self@.take(i as int));
                lemma_sum_attempts_prefix(self@, i + 1);
            }
            total = total + self.statuses[i].attempts();
            i = i + 1;
        }
        proof {
            assert(self@.take(n as int) =~= self@);
        }
        total
    }

    /// Best scores across all lessons.
    pub fn best_scores(&self) -> (r: Vec<i64>)
        ensures
            r@ == self@.map_values(|st: LessonStatus| st.spec_best_score()),
    {
        let n = self.statuses.len();
        let mut out: Vec<i64> = Vec::new();
        let mut i: usize = 0;
        while i < n
            invariant
                n == self@.len(),
                i <= n,
                out@ == self@.take(i as int).map_values(|st: LessonStatus| st.spec_best_score()),
            decreases n - i,
        {
            out.push(self.statuses[i].best_score());
            proof {
                assert(self@.take(i + 1).map_values(|st: LessonStatus| st.spec_best_score())
                    =~= self@.take(i as int).map_values(|st: LessonStatus| st.spec_best_score()).push(
                    self@[i as int].spec_best_score()));
            }
            i = i + 1;
        }
        proof {
            assert(self@.take(n as int) =~= self@);
        }
        out
    }

    /// Average best score across all lessons: the exact mean of the best
    /// scores (zero with no lessons).
    pub fn average_score(&self) -> (r: Mean)
        ensures
            r.total == sum_values(self@.map_values(|st: LessonStatus| st.spec_best_score())),
            r.count == self@.len(),
    {
        let scores = self.best_scores();
        mean_of(scores.as_slice())
    }

    /// All lesson statuses.
    pub fn statuses(&self) -> (r: &[LessonStatus])
        ensures
            r@ == self@,
    {
        self.statuses.as_slice()
    }
}

/// Replacing one status changes the total attempts by the difference of the
/// two statuses' attempts.
pub proof fn lemma_sum_attempts_update(s: Seq<LessonStatus>, i: int, x: LessonStatus)
    requires
        0 <= i < s.len(),
    ensures
        sum_attempts(s.update(i, x)) + s[i].spec_attempts() == sum_attempts(s) + x.spec_attempts(),
    decreases s.len(),
{
    if i < s.len() - 1 {
        assert(s.update(i, x).drop_last() =~= s.drop_last().update(i, x));
        lemma_sum_attempts_update(s.drop_last(), i, x);
    } else {
        assert(s.update(i, x).drop_last() =~= s.drop_last());
    }
}

proof fn lemma_sum_attempts_prefix(s: Seq<LessonStatus>, k: int)
    requires
        0 <= k <= s.len(),
    ensures
        sum_attempts(s.take(k)) <= sum_attempts(s),
    decreases s.len() - k,
{
    if k < s.len() {
        lemma_sum_attempts_prefix(s, k + 1);
        assert(s.take(k + 1).drop_last() =~= s.take(k));
    } else {
        assert(s.take(k) =~= s);
    }
}

/// No lesson is both mastered and failed: together they are at most all lessons.
pub proof fn lemma_mastered_and_failed_bounded(s: Seq<LessonStatus>)
    ensures
        count_mastered(s) + count_failed(s) <= s.len(),
{
    lemma_counts_bounded(s);
}

/// An attempt raises the lesson's attempt count by one and leaves the best
/// score at least the attempt's score and at least the best score before.
pub proof fn lemma_attempt_counts(st: LessonStatus, score: i64, threshold: i64, max_attempts: usize)
    requires
        st.spec_attempts() < usize::MAX,
    ensures
        status_after(st, score, threshold, max_attempts).spec_attempts() == st.spec_attempts() + 1,
        status_after(st, score, threshold, max_attempts).spec_best_score() >= score,
        status_after(st, score, threshold, max_attempts).spec_best_score() >= st.spec_best_score(),
        status_after(st, score, threshold, max_attempts) is Mastered <==> (score >= threshold
            && st.spec_attempts() + 1 <= max_attempts),
        !(status_after(st, score, threshold, max_attempts) is NotStarted),
{
}


/// The status table: after an attempt a lesson is mastered only with a score
/// reaching the threshold within the allowed attempts, failed only once the
/// attempts are used up without mastery, and otherwise in progress with
/// attempts left.
pub proof fn lemma_status_table(st: LessonStatus, score: i64, threshold: i64, max_attempts: usize)
    requires
        st.spec_attempts() < usize::MAX,
    ensures
        ({
            let next = status_after(st, score, threshold, max_attempts);
            &&& next is Mastered ==> score >= threshold && next.spec_attempts() <= max_attempts
            &&& next is Failed ==> next.spec_attempts() >= max_attempts && !(score >= threshold
                && next.spec_attempts() <= max_attempts)
            &&& next is InProgress ==> next.spec_attempts() < max_attempts && score < threshold
        }),
{
}


/// The failed count is the number of failed lessons: the length of the
/// statuses filtered to `Failed`; in-progress, not started and mastered
/// lessons add nothing.
pub proof fn lemma_failed_count_counts_failed(s: Seq<LessonStatus>)
    ensures
        count_failed(s) == s.filter(|st: LessonStatus| st is Failed).len(),
    decreases s.len(),
{
    reveal(Seq::filter);
    if s.len() > 0 {
        lemma_failed_count_counts_failed(s.drop_last());
    }
}

/// The mastered count is the number of mastered lessons: the length of the
/// statuses filtered to `Mastered`.
pub proof fn lemma_mastered_count_counts_mastered(s: Seq<LessonStatus>)
    ensures
        count_mastered(s) == s.filter(|st: LessonStatus| st is Mastered).len(),
    decreases s.len(),
{
    reveal(Seq::filter);
    if s.len() > 0 {
        lemma_mastered_count_counts_mastered(s.drop_last());
    }
}

/// A lesson is listed for review exactly when it is mastered with a score
/// below `threshold + 0.1` or failed (never when in progress or not started);
/// the list holds valid indices in increasing order, each once.
pub proof fn lemma_review_lists_exactly(s: Seq<LessonStatus>, threshold: i64)
    requires
        s.len() <= usize::MAX,
    ensures
        forall|i: int|
            0 <= i < s.len() ==> (review_indices(s, threshold).contains(i as usize) <==> (match #[trigger] s[i] {
                LessonStatus::Mastered { score, .. } => score < threshold + 100_000_000_000,
                LessonStatus::Failed { .. } => true,
                LessonStatus::InProgress { .. } => false,
                LessonStatus::NotStarted => false,
            })),
        forall|j: int|
            0 <= j < review_indices(s, threshold).len() ==> #[trigger] review_indices(s, threshold)[j] < s.len(),
        forall|j: int, k: int|
            0 <= j < k < review_indices(s, threshold).len() ==> review_indices(s, threshold)[j]
                < review_indices(s, threshold)[k],
    decreases s.len(),
{
    if s.len() > 0 {
        let init = s.drop_last();
        lemma_review_lists_exactly(init, threshold);
        let r0 = review_indices(init, threshold);
        let r = review_indices(s, threshold);
        let last = (s.len() - 1) as usize;
        assert forall|i: int| 0 <= i < s.len() implies (r.contains(i as usize) <==> (match #[trigger] s[i] {
            LessonStatus::Mastered { score, .. } => score < threshold + 100_000_000_000,
            LessonStatus::Failed { .. } => true,
            LessonStatus::InProgress { .. } => false,
            LessonStatus::NotStarted => false,
        })) by {
            if i < s.len() - 1 {
                assert(init[i] == s[i]);
                if needs_review(s.last(), threshold) {
                    assert(r == r0.push(last));
                    if r.contains(i as usize) {
                        let j = choose|j: int| 0 <= j < r.len() && r[j] == i as usize;
                        if j < r0.len() {
                            assert(r0[j] == r[j]);
                        }
                    }
                    if r0.contains(i as usize) {
                        let j = choose|j: int| 0 <= j < r0.len() && r0[j] == i as usize;
                        assert(r[j] == r0[j]);
                    }
                }
            } else {
                assert(s[i] == s.last());
                if needs_review(s.last(), threshold) {
                    assert(r[r.len() - 1] == last);
                } else {
                    if r0.contains(i as usize) {
                        let j = choose|j: int| 0 <= j < r0.len() && r0[j] == i as usize;
                        assert(r0[j] < init.len());
                    }
                }
            }
        }
        if needs_review(s.last(), threshold) {
            assert(r == r0.push(last));
            assert forall|j: int| 0 <= j < r.len() implies #[trigger] r[j] < s.len() by {
                if j < r0.len() {
                    assert(r[j] == r0[j]);
                }
            }
            assert forall|j: int, k: int| 0 <= j < k < r.len() implies r[j] < r[k] by {
                assert(r[j] == r0[j]);
                if k < r0.len() {
                    assert(r[k] == r0[k]);
                } else {
                    assert(r0[j] < init.len());
                }
            }
        }
    }
}

} // verus!
