//! The structured result of a training run, and the clock that times it.
use vstd::prelude::*;
use crate::fixed::{mean_of, reaches_one, sum_values, Fraction, Mean};
use crate::mastery::MasteryTracker;
use crate::state::{best_of, LessonState};
use crate::text::{decimal, percent_text, push_decimal, push_percent};
use std::time::Instant;

verus! {

/// A span of time: whole seconds and the nanoseconds beyond them.
#[derive(Debug, Clone, Copy, PartialEq, Eq, Structural)]
pub struct Elapsed {
    pub secs: u64,
    /// Below one billion.
    pub nanos: u32,
}

/// Structured result of curriculum training.
#[derive(Debug, Clone)]
pub struct CurriculumResult {
    /// Name of the curriculum.
    pub curriculum_name: String,
    /// Number of lessons completed (passed or failed after max attempts).
    pub lessons_completed: usize,
    /// Total number of lessons.
    pub total_lessons: usize,
    /// Mastery rate.
    pub mastery_rate: Fraction,
    /// Total time spent training.
    pub duration: Elapsed,
    /// Per-lesson states.
    pub lesson_states: Vec<LessonState>,
    /// Mastery tracker snapshot.
    pub mastery: MasteryTracker,
}

/// The best scores of the lessons.
pub open spec fn best_scores_of(states: Seq<LessonState>) -> Seq<i64> {
    states.map_values(|s: LessonState| best_of(s.scores@) as i64)
}

/// The text `Debug` gives a `std::time::Duration` of `secs` seconds and
/// `nanos` nanoseconds.
pub uninterp spec fn duration_debug_text(secs: u64, nanos: u32) -> Seq<char>;

/// The summary line of a result.
pub open spec fn summary_text(r: CurriculumResult) -> Seq<char> {
    "Curriculum '"@ + r.curriculum_name@ + "': "@ + decimal(r.lessons_completed as nat) + "/"@
        + decimal(r.total_lessons as nat) + " lessons completed, "@ + percent_text(
        r.mastery_rate.numerator as nat,
        r.mastery_rate.denominator as nat,
    ) + "% mastery, "@ + duration_debug_text(r.duration.secs, r.duration.nanos) + " spent"@
}

/// `std::time::Instant`, an instant of the monotonic clock, declared opaque:
/// the library only carries one from the start of a run to its end.
#[verifier::external_type_specification]
#[verifier::external_body]
pub struct ExInstant(Instant);

/// Reads the monotonic clock with `std::time::Instant::now`; nothing is
/// claimed of the result.
#[verifier::external_body]
pub(crate) fn clock_now() -> Instant {
    Instant::now()
}

/// The time since `start`, from `std::time::Instant::elapsed`, split into
/// seconds (`Duration::as_secs`) and nanoseconds (`Duration::subsec_nanos`).
/// Claimed: the nanoseconds are below one billion, as `subsec_nanos`
/// documents. The length of the span depends on the clock and is not stated.
#[verifier::external_body]
pub(crate) fn elapsed_since(start: &Instant) -> (r: Elapsed)
    ensures
        r.nanos < 1_000_000_000,
{
    let d = start.elapsed();
    Elapsed { secs: d.as_secs(), nanos: d.subsec_nanos() }
}

/// The `Debug` text of `std::time::Duration::new(secs, nanos)`, by `format!`.
/// Claimed: the text is `duration_debug_text(secs, nanos)`, a function of the
/// two values alone; what that text is, is not stated.
#[verifier::external_body]
fn duration_text(secs: u64, nanos: u32) -> (r: String)
    requires
        nanos < 1_000_000_000,
    ensures
        r@ == duration_debug_text(secs, nanos),
{
    format!("{:?}", std::time::Duration::new(secs, nanos))
}

impl CurriculumResult {
    /// Number of lessons completed.
    pub fn lessons_completed(&self) -> (r: usize)
        ensures
            r == self.lessons_completed,
    {
        self.lessons_completed
    }

    /// Total lessons.
    pub fn total_lessons(&self) -> (r: usize)
        ensures
            r == self.total_lessons,
    {
        self.total_lessons
    }

    /// Mastery rate.
    pub fn mastery_rate(&self) -> (r: Fraction)
        ensures
            r == self.mastery_rate,
    {
        self.mastery_rate
    }

    /// Duration.
    pub fn duration(&self) -> (r: Elapsed)
        ensures
            r == self.duration,
    {
        self.duration
    }

    /// Whether the entire curriculum was mastered: every lesson completed and
    /// a mastery rate of at least one.
    pub fn fully_mastered(&self) -> (r: bool)
        ensures
            r == (self.lessons_completed == self.total_lessons && reaches_one(self.mastery_rate)),
    {
        self.lessons_completed == self.total_lessons && self.mastery_rate.denominator > 0
            && self.mastery_rate.numerator >= self.mastery_rate.denominator
    }

    /// Average best score across all lessons: the exact mean of the lessons'
    /// best scores (zero with no lessons).
    pub fn average_score(&self) -> (r: Mean)
        ensures
            r.total == sum_values(best_scores_of(self.lesson_states@)),
            r.count == self.lesson_states@.len(),
    {
        let n = self.lesson_states.len();
        let mut bests: Vec<i64> = Vec::new();
        let mut i: usize = 0;
        while i < n
            invariant
                n == self.lesson_states@.len(),
                i <= n,
                bests@ == best_scores_of(self.lesson_states@.take(i as int)),
            decreases n - i,
        {
            let b = self.lesson_states[i].best_score();
            bests.push(b);
            proof {
                assert(best_scores_of(self.lesson_states@.take(i + 1)) =~= best_scores_of(
                    self.lesson_states@.take(i as int),
                ).push(b));
            }
            i = i + 1;
        }
        proof {
            assert(self.lesson_states@.take(n as int) =~= self.lesson_states@);
        }
        mean_of(bests.as_slice())
    }

    /// Format a summary string:
    /// `Curriculum '{name}': {completed}/{total} lessons completed, {rate:.1}% mastery, {duration:?} spent`.
    pub fn summary(&self) -> (r: String)
        requires
            self.duration.nanos < 1_000_000_000,
        ensures
            r@ == summary_text(*self),
    {
        let mut s = String::new();
        s.append("Curriculum '");
        s.append(self.curriculum_name.as_str());
        s.append("': ");
        push_decimal(&mut s, self.lessons_completed as u128);
        s.append("/");
        push_decimal(&mut s, self.total_lessons as u128);
        s.append(" lessons completed, ");
        push_percent(&mut s, self.mastery_rate.numerator, self.mastery_rate.denominator);
        s.append("% mastery, ");
        let d = duration_text(self.duration.secs, self.duration.nanos);
        s.append(d.as_str());
        s.append(" spent");
        s
    }
}

} // verus!
