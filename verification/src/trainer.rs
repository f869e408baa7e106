//! The training loop: walks an agent through every lesson of a curriculum.
use vstd::prelude::*;
use crate::curriculum::Curriculum;
use crate::fixed::{div_floor, fraction_units, reaches_one, sum_values, Fraction, SCALE};
use crate::lesson::{is_new_lesson, Lesson, DEFAULT_MAX_ATTEMPTS, DEFAULT_SUCCESS_THRESHOLD};
use crate::mastery::{
    count_mastered, lemma_mastered_and_failed_bounded, mastery_fraction, status_after, LessonStatus,
    MasteryTracker,
};
use crate::progression::ProgressionRule;
use crate::report::{clock_now, elapsed_since, CurriculumResult};
use crate::schedule::{
    is_target, lemma_update_with_never_eases, lemma_update_with_stays_in_bounds, resolve, resolves, total,
    update_allowed,
    DifficultySchedule,
};
use crate::state::{best_of, lemma_best_of_bounds, trailing_passes, LessonState};

verus! {

/// The status a lesson reaches from the scores of its attempts, in order.
pub open spec fn replay(scores: Seq<i64>, threshold: i64, max_attempts: usize) -> LessonStatus
    decreases scores.len(),
{
    if scores.len() == 0 {
        LessonStatus::NotStarted
    } else {
        status_after(replay(scores.drop_last(), threshold, max_attempts), scores.last(), threshold, max_attempts)
    }
}

/// Whether the scores so far let the agent advance past the lesson under
/// `rule`: a last score reaching the threshold (`PassOnce`), at least `n`
/// trailing scores reaching it (`ConsecutivePasses(n)`), or an exact mean
/// score reaching it (`AverageScore`).
pub open spec fn advanced(rule: ProgressionRule, scores: Seq<i64>, threshold: i64) -> bool {
    match rule {
        ProgressionRule::PassOnce => scores.len() > 0 && scores.last() >= threshold,
        ProgressionRule::ConsecutivePasses(n) => trailing_passes(scores, threshold) >= n,
        ProgressionRule::AverageScore => scores.len() > 0 && sum_values(scores) >= threshold * scores.len(),
    }
}

/// Whether `st` is the state of a lesson trained to completion under `rule`,
/// for a lesson passed at `threshold` that allows `max_attempts` attempts: the
/// lesson was attempted until the rule let the agent advance, or until the
/// attempts ran out.
pub open spec fn trained(st: LessonState, rule: ProgressionRule, threshold: i64, max_attempts: usize) -> bool {
    let s = st.scores@;
    let a = st.attempt as int;
    &&& a == s.len()
    &&& a <= max_attempts
    &&& forall|j: int| 1 <= j < a ==> !advanced(rule, #[trigger] s.take(j), threshold)
    &&& st.passed == (a >= 1 && advanced(rule, s, threshold))
    &&& !st.passed ==> a == max_attempts
}

/// Whether `states` and `statuses` are what training the lessons `lessons`
/// under `rule` leaves behind.
pub open spec fn trained_all(
    lessons: Seq<Lesson>,
    rule: ProgressionRule,
    states: Seq<LessonState>,
    statuses: Seq<LessonStatus>,
) -> bool {
    &&& states.len() == lessons.len()
    &&& statuses.len() == lessons.len()
    &&& forall|k: int|
        0 <= k < lessons.len() ==> {
            &&& trained(#[trigger] states[k], rule, lessons[k].success_threshold, lessons[k].max_attempts)
            &&& statuses[k] == replay(states[k].scores@, lessons[k].success_threshold, lessons[k].max_attempts)
        }
}

/// Whether `states` and `statuses` are what training `n` lessons under `rule`,
/// each passed at `threshold` and allowing `max_attempts` attempts, leaves
/// behind.
pub open spec fn trained_uniform(
    states: Seq<LessonState>,
    statuses: Seq<LessonStatus>,
    rule: ProgressionRule,
    n: nat,
    threshold: i64,
    max_attempts: usize,
) -> bool {
    &&& states.len() == n
    &&& statuses.len() == n
    &&& forall|k: int|
        0 <= k < n ==> {
            &&& trained(#[trigger] states[k], rule, threshold, max_attempts)
            &&& statuses[k] == replay(states[k].scores@, threshold, max_attempts)
        }
}

/// Whether the training function `g` may return `score` for `lesson` and `state`.
pub open spec fn returned<F: Fn(&Lesson, &LessonState) -> i64>(g: F, lesson: Lesson, state: LessonState, score: i64) -> bool {
    g.ensures((&lesson, &state), score)
}

/// Whether attempt `j` of `lesson` got its score `scores[j]` from `g`, called
/// with the lesson's state holding the first `j` scores, not yet passed.
pub open spec fn attempt_scored<F: Fn(&Lesson, &LessonState) -> i64>(g: F, lesson: Lesson, scores: Seq<i64>, j: int) -> bool {
    exists|s: LessonState|
        {
            &&& s.attempt == j
            &&& s.scores@ == scores.take(j)
            &&& !s.passed
            &&& #[trigger] returned::<F>(g, lesson, s, scores[j])
        }
}

/// Whether every score of `scores` came from `g`, called with `lesson` and the
/// lesson's state before that attempt.
pub open spec fn scored_by<F: Fn(&Lesson, &LessonState) -> i64>(g: F, lesson: Lesson, scores: Seq<i64>) -> bool {
    forall|j: int| 0 <= j < scores.len() ==> #[trigger] attempt_scored::<F>(g, lesson, scores, j)
}

/// 1 for a mastered status, 0 otherwise.
pub open spec fn mastered_bit(st: LessonStatus) -> nat {
    if st is Mastered {
        1
    } else {
        0
    }
}

/// The number of lessons that end mastered, out of lessons trained to the
/// states `states`, each passed at `threshold` and allowing `max_attempts`.
pub open spec fn mastered_states(states: Seq<LessonState>, threshold: i64, max_attempts: usize) -> nat
    decreases states.len(),
{
    if states.len() == 0 {
        0
    } else {
        mastered_states(states.drop_last(), threshold, max_attempts) + mastered_bit(
            replay(states.last().scores@, threshold, max_attempts),
        )
    }
}

/// The acceleration an adaptive schedule moves towards when `mastered` of the
/// `n` lessons are mastered: the mastery rate `mastered / n` compared exactly
/// with `0.8` and `0.4`.
pub open spec fn fraction_target(mastered: nat, n: nat) -> int {
    if mastered * 10 > n * 8 {
        1_500_000_000_000
    } else if mastered * 10 < n * 4 {
        500_000_000_000
    } else {
        1_000_000_000_000
    }
}

/// The fixed-point mastery rate of `mastered` lessons out of `n`, rounded down.
pub open spec fn rate_units(mastered: nat, n: nat) -> i64 {
    fraction_units(Fraction { numerator: mastered as usize, denominator: n as usize }) as i64
}

/// The schedule after the attempts with `scores` of one lesson, `mastered`
/// of the `n` lessons having ended mastered before it: after every attempt the
/// schedule moves towards the acceleration for the exact mastery rate of that
/// moment and records that rate.
pub open spec fn after_attempts(
    s: DifficultySchedule,
    scores: Seq<i64>,
    mastered: nat,
    n: nat,
    threshold: i64,
    max_attempts: usize,
) -> DifficultySchedule
    decreases scores.len(),
{
    if scores.len() == 0 {
        s
    } else {
        after_attempts(s, scores.drop_last(), mastered, n, threshold, max_attempts).spec_update_with(
            fraction_target(mastered + mastered_bit(replay(scores, threshold, max_attempts)), n),
            rate_units(mastered + mastered_bit(replay(scores, threshold, max_attempts)), n),
        )
    }
}

/// The schedule after training lessons to the states `states`, in order, out
/// of `n` lessons.
pub open spec fn after_lessons(
    s: DifficultySchedule,
    states: Seq<LessonState>,
    n: nat,
    threshold: i64,
    max_attempts: usize,
) -> DifficultySchedule
    decreases states.len(),
{
    if states.len() == 0 {
        s
    } else {
        after_attempts(
            after_lessons(s, states.drop_last(), n, threshold, max_attempts),
            states.last().scores@,
            mastered_states(states.drop_last(), threshold, max_attempts),
            n,
            threshold,
            max_attempts,
        )
    }
}

/// Whether lesson `k` of a scheduled training run was `Lesson::new(k, d)` for
/// the difficulty `d` the schedule gave at step `k` when the lesson started
/// (geometric points evaluated by `geometric`), and got every score of its
/// state from `g`.
pub open spec fn taught<F: Fn(&Lesson, &LessonState) -> i64, G: Fn(i64, i64, usize, usize) -> i64>(
    g: F,
    initial: DifficultySchedule,
    geometric: G,
    states: Seq<LessonState>,
    n: nat,
    k: int,
) -> bool {
    exists|l: Lesson|
        {
            &&& is_new_lesson(l, k as usize, l.difficulty)
            &&& resolves(
                after_lessons(initial, states.take(k), n, DEFAULT_SUCCESS_THRESHOLD, DEFAULT_MAX_ATTEMPTS).spec_level(
                    k as usize,
                ),
                geometric,
                l.difficulty,
            )
            &&& #[trigger] scored_by::<F>(g, l, states[k].scores@)
        }
}

proof fn lemma_replay_attempts(scores: Seq<i64>, threshold: i64, max_attempts: usize)
    requires
        scores.len() <= usize::MAX,
    ensures
        replay(scores, threshold, max_attempts).spec_attempts() == scores.len(),
    decreases scores.len(),
{
    if scores.len() > 0 {
        lemma_replay_attempts(scores.drop_last(), threshold, max_attempts);
    }
}

proof fn lemma_scored_by_push<F: Fn(&Lesson, &LessonState) -> i64>(
    g: F,
    lesson: Lesson,
    scores: Seq<i64>,
    s: LessonState,
    score: i64,
)
    requires
        scored_by::<F>(g, lesson, scores),
        s.attempt == scores.len(),
        s.scores@ == scores,
        !s.passed,
        returned::<F>(g, lesson, s, score),
    ensures
        scored_by::<F>(g, lesson, scores.push(score)),
{
    let t = scores.push(score);
    assert forall|j: int| 0 <= j < t.len() implies #[trigger] attempt_scored::<F>(g, lesson, t, j) by {
        if j < scores.len() {
            assert(attempt_scored::<F>(g, lesson, scores, j));
            assert(t.take(j) =~= scores.take(j));
            assert(t[j] == scores[j]);
            let u = choose|u: LessonState|
                {
                    &&& u.attempt == j
                    &&& u.scores@ == scores.take(j)
                    &&& !u.passed
                    &&& #[trigger] returned::<F>(g, lesson, u, scores[j])
                };
            assert(returned::<F>(g, lesson, u, t[j]));
        } else {
            assert(t.take(j) =~= scores);
            assert(t[j] == score);
            assert(returned::<F>(g, lesson, s, t[j]));
        }
    }
}

proof fn lemma_taught_push<F: Fn(&Lesson, &LessonState) -> i64, G: Fn(i64, i64, usize, usize) -> i64>(
    g: F,
    initial: DifficultySchedule,
    geometric: G,
    states: Seq<LessonState>,
    st: LessonState,
    n: nat,
    k: int,
)
    requires
        0 <= k < states.len(),
        taught::<F, G>(g, initial, geometric, states, n, k),
    ensures
        taught::<F, G>(g, initial, geometric, states.push(st), n, k),
{
    let l = choose|l: Lesson|
        {
            &&& is_new_lesson(l, k as usize, l.difficulty)
            &&& resolves(
                after_lessons(initial, states.take(k), n, DEFAULT_SUCCESS_THRESHOLD, DEFAULT_MAX_ATTEMPTS).spec_level(
                    k as usize,
                ),
                geometric,
                l.difficulty,
            )
            &&& #[trigger] scored_by::<F>(g, l, states[k].scores@)
        };
    assert(states.push(st).take(k) =~= states.take(k));
    assert(states.push(st)[k] == states[k]);
    assert(scored_by::<F>(g, l, states.push(st)[k].scores@));
}

proof fn lemma_count_update(s: Seq<LessonStatus>, i: int, x: LessonStatus)
    requires
        0 <= i < s.len(),
    ensures
        count_mastered(s.update(i, x)) + mastered_bit(s[i]) == count_mastered(s) + mastered_bit(x),
    decreases s.len(),
{
    if i < s.len() - 1 {
        assert(s.update(i, x).drop_last() =~= s.drop_last().update(i, x));
        lemma_count_update(s.drop_last(), i, x);
    } else {
        assert(s.update(i, x).drop_last() =~= s.drop_last());
    }
}

proof fn lemma_count_not_started(s: Seq<LessonStatus>, j: int)
    requires
        0 <= j <= s.len(),
        forall|k: int| j <= k < s.len() ==> #[trigger] s[k] == LessonStatus::NotStarted,
    ensures
        count_mastered(s) == count_mastered(s.take(j)),
    decreases s.len() - j,
{
    if j < s.len() {
        lemma_count_not_started(s, j + 1);
        assert(s.take(j + 1).drop_last() =~= s.take(j));
    } else {
        assert(s.take(j) =~= s);
    }
}

/// Whether the agent may advance past the lesson under `rule` now.
fn advances(rule: ProgressionRule, state: &LessonState, threshold: i64) -> (r: bool)
    ensures
        r == advanced(rule, state.scores@, threshold),
{
    match rule {
        ProgressionRule::PassOnce => {
            let n = state.scores.len();
            n > 0 && state.scores[n - 1] >= threshold
        },
        ProgressionRule::ConsecutivePasses(n) => state.consecutive_passes(threshold) >= n,
        ProgressionRule::AverageScore => {
            let m = state.average_score();
            if m.count == 0 {
                false
            } else {
                let q = div_floor(m.total, m.count as i128);
                proof {
                    lemma_floor_mean_reaches(m.total as int, m.count as int, threshold as int);
                }
                q >= threshold as i128
            }
        },
    }
}

proof fn lemma_floor_mean_reaches(t: int, n: int, thr: int)
    requires
        n > 0,
    ensures
        (t / n >= thr) <==> (t >= thr * n),
{
    vstd::arithmetic::div_mod::lemma_fundamental_div_mod(t, n);
    vstd::arithmetic::div_mod::lemma_mod_bound(t, n);
    assert((t / n >= thr) <==> (t >= thr * n)) by (nonlinear_arith)
        requires
            n > 0,
            t == n * (t / n) + t % n,
            0 <= t % n < n,
    ;
}

/// The acceleration to move towards for the mastery rate `rate`: `1.5` above
/// `0.8`, `0.5` below `0.4`, `1.0` otherwise.
fn target_for(rate: Fraction) -> (t: i64)
    ensures
        t == fraction_target(rate.numerator as nat, rate.denominator as nat),
        rate.numerator * 10 > rate.denominator * 8 ==> t == 1_500_000_000_000,
        rate.numerator * 10 < rate.denominator * 4 ==> t == 500_000_000_000,
        rate.denominator * 4 <= rate.numerator * 10 <= rate.denominator * 8 ==> t == 1_000_000_000_000,
        is_target(t as int),
{
    let m = rate.numerator as u128 * 10;
    if m > rate.denominator as u128 * 8 {
        1_500_000_000_000
    } else if m < rate.denominator as u128 * 4 {
        500_000_000_000
    } else {
        1_000_000_000_000
    }
}

/// Trains an agent through a curriculum, tracking progress.
pub struct CurriculumTrainer {
    curriculum: Curriculum,
}

impl CurriculumTrainer {
    /// The curriculum being trained.
    pub closed spec fn curriculum_view(&self) -> Curriculum {
        self.curriculum
    }

    /// Create a new trainer for the given curriculum.
    pub fn new(curriculum: Curriculum) -> (r: Self)
        ensures
            r.curriculum_view() == curriculum,
    {
        CurriculumTrainer { curriculum }
    }

    /// Get a reference to the curriculum.
    pub fn curriculum(&self) -> (r: &Curriculum)
        ensures
            *r == self.curriculum_view(),
    {
        &self.curriculum
    }

    /// Train through the curriculum using the provided training function.
    ///
    /// The training function receives the current `Lesson` and `LessonState`,
    /// and returns the score for that attempt. Each lesson is attempted until
    /// the curriculum's progression rule lets the agent advance, or until the
    /// lesson's allowed attempts are used up.
    pub fn train<F: Fn(&Lesson, &LessonState) -> i64>(&mut self, train_fn: F) -> (r: CurriculumResult)
        requires
            forall|l: &Lesson, s: &LessonState| #[trigger] train_fn.requires((l, s)),
        ensures
            final(self).curriculum_view() == old(self).curriculum_view(),
            r.curriculum_name@ == old(self).curriculum_view().name_view(),
            r.total_lessons == old(self).curriculum_view().lessons_view().len(),
            r.lessons_completed == r.total_lessons,
            trained_all(
                old(self).curriculum_view().lessons_view(),
                old(self).curriculum_view().progression_view(),
                r.lesson_states@,
                r.mastery@,
            ),
            forall|k: int|
                0 <= k < r.total_lessons ==> scored_by::<F>(
                    train_fn,
                    old(self).curriculum_view().lessons_view()[k],
                    #[trigger] r.lesson_states@[k].scores@,
                ),
            r.mastery_rate == mastery_fraction(r.mastery@),
            r.duration.nanos < 1_000_000_000,
    {
        let start = clock_now();
        let rule = self.curriculum.progression();
        let lessons = self.curriculum.lessons();
        let n = lessons.len();
        let mut tracker = MasteryTracker::new(n);
        let mut lesson_states: Vec<LessonState> = Vec::new();
        let mut completed: usize = 0;
        let mut i: usize = 0;
        while i < n
            invariant
                forall|l: &Lesson, s: &LessonState| #[trigger] train_fn.requires((l, s)),
                n == lessons@.len(),
                i <= n,
                completed == i,
                tracker@.len() == n,
                trained_all(lessons@.take(i as int), rule, lesson_states@, tracker@.take(i as int)),
                forall|k: int| 0 <= k < i ==> scored_by::<F>(train_fn, lessons@[k], #[trigger] lesson_states@[k].scores@),
                forall|k: int| i <= k < n ==> #[trigger] tracker@[k] == LessonStatus::NotStarted,
            decreases n - i,
        {
            let lesson = &lessons[i];
            let ghost before = tracker@;
            let threshold = lesson.success_threshold;
            let mut state = LessonState::new();
            proof {
                assert(state.scores@ =~= Seq::<i64>::empty());
                assert(scored_by::<F>(train_fn, *lesson, state.scores@));
                assert(before =~= before.update(i as int, replay(state.scores@, threshold, lesson.max_attempts)));
            }
            while state.attempt < lesson.max_attempts
                invariant_except_break
                    !state.passed,
                invariant
                    forall|l: &Lesson, s: &LessonState| #[trigger] train_fn.requires((l, s)),
                    i < n,
                    before.len() == n,
                    threshold == lesson.success_threshold,
                    state.attempt == state.scores@.len(),
                    state.attempt <= lesson.max_attempts,
                    forall|j: int| 1 <= j < state.scores@.len() ==> !advanced(rule, #[trigger] state.scores@.take(j), threshold),
                    state.passed ==> state.attempt >= 1 && advanced(rule, state.scores@, threshold),
                    !state.passed && state.attempt >= 1 ==> !advanced(rule, state.scores@, threshold),
                    tracker@ == before.update(i as int, replay(state.scores@, threshold, lesson.max_attempts)),
                    scored_by::<F>(train_fn, *lesson, state.scores@),
                ensures
                    trained(state, rule, lesson.success_threshold, lesson.max_attempts),
                decreases lesson.max_attempts - state.attempt,
            {
                let ghost state0 = state;
                let score = train_fn(lesson, &state);
                proof {
                    assert(returned::<F>(train_fn, *lesson, state0, score));
                    lemma_scored_by_push::<F>(train_fn, *lesson, state.scores@, state0, score);
                    lemma_replay_attempts(state.scores@, threshold, lesson.max_attempts);
                }
                let ghost old_scores = state.scores@;
                state.record(score);
                proof {
                    assert(state.scores@.drop_last() =~= old_scores);
                    assert forall|j: int| 1 <= j < state.scores@.len() implies !advanced(rule, #[trigger] state.scores@.take(j), threshold) by {
                        if j < old_scores.len() {
                            assert(state.scores@.take(j) =~= old_scores.take(j));
                        } else {
                            assert(state.scores@.take(j) =~= old_scores);
                        }
                    }
                }
                tracker.record_attempt(i, score, lesson);
                proof {
                    assert(tracker@ =~= before.update(i as int, replay(state.scores@, threshold, lesson.max_attempts)));
                }
                if advances(rule, &state, threshold) {
                    state.passed = true;
                    break;
                }
            }
            completed = completed + 1;
            lesson_states.push(state);
            proof {
                assert(lessons@.take(i + 1).drop_last() =~= lessons@.take(i as int));
                assert(tracker@.take(i + 1) =~= tracker@.take(i as int).push(tracker@[i as int]));
                assert(tracker@.take(i as int) =~= before.take(i as int));
                assert forall|k: int| 0 <= k < i + 1 implies {
                    &&& trained(#[trigger] lesson_states@[k], rule, lessons@.take(i + 1)[k].success_threshold, lessons@.take(i + 1)[k].max_attempts)
                    &&& tracker@.take(i + 1)[k] == replay(lesson_states@[k].scores@, lessons@.take(i + 1)[k].success_threshold, lessons@.take(i + 1)[k].max_attempts)
                } by {
                    if k < i {
                        assert(lessons@.take(i + 1)[k] == lessons@.take(i as int)[k]);
                        assert(tracker@.take(i + 1)[k] == tracker@.take(i as int)[k]);
                    }
                }
            }
            i = i + 1;
        }
        proof {
            assert(lessons@.take(n as int) =~= lessons@);
            assert(tracker@.take(n as int) =~= tracker@);
        }
        let duration = elapsed_since(&start);
        let mastery_rate = tracker.mastery_rate();
        CurriculumResult {
            curriculum_name: self.curriculum.name().clone(),
            lessons_completed: completed,
            total_lessons: n,
            mastery_rate,
            duration,
            lesson_states,
            mastery: tracker,
        }
    }

    /// Train with a schedule, generating lessons dynamically: lesson `i` is
    /// `Lesson::new(i, d)` for the schedule's difficulty `d` at step `i` when
    /// the lesson starts (geometric points being evaluated by `geometric`),
    /// and after every attempt the schedule is fed the current mastery rate.
    /// Lessons are left as the curriculum's progression rule says.
    pub fn train_with_schedule<F: Fn(&Lesson, &LessonState) -> i64, G: Fn(i64, i64, usize, usize) -> i64>(
        &mut self,
        schedule: &mut DifficultySchedule,
        geometric: G,
        train_fn: F,
    ) -> (r: CurriculumResult)
        requires
            forall|l: &Lesson, s: &LessonState| #[trigger] train_fn.requires((l, s)),
            total(geometric),
            old(schedule).spec_steps() > 0 ==> update_allowed(*old(schedule)),
        ensures
            final(self).curriculum_view() == old(self).curriculum_view(),
            r.curriculum_name@ == old(self).curriculum_view().name_view(),
            r.total_lessons == old(schedule).spec_steps(),
            r.lessons_completed == r.total_lessons,
            trained_uniform(
                r.lesson_states@,
                r.mastery@,
                old(self).curriculum_view().progression_view(),
                r.total_lessons as nat,
                DEFAULT_SUCCESS_THRESHOLD,
                DEFAULT_MAX_ATTEMPTS,
            ),
            forall|k: int|
                0 <= k < r.total_lessons ==> #[trigger] taught::<F, G>(
                    train_fn,
                    *old(schedule),
                    geometric,
                    r.lesson_states@,
                    r.total_lessons as nat,
                    k,
                ),
            r.mastery_rate == mastery_fraction(r.mastery@),
            *final(schedule) == after_lessons(
                *old(schedule),
                r.lesson_states@,
                r.total_lessons as nat,
                DEFAULT_SUCCESS_THRESHOLD,
                DEFAULT_MAX_ATTEMPTS,
            ),
            r.duration.nanos < 1_000_000_000,
    {
        let start = clock_now();
        let rule = self.curriculum.progression();
        let n = schedule.steps();
        let ghost initial = *schedule;
        let mut tracker = MasteryTracker::new(n);
        let mut lesson_states: Vec<LessonState> = Vec::new();
        proof {
            lemma_count_not_started(tracker@, 0);
        }
        let mut completed: usize = 0;
        let mut i: usize = 0;
        while i < n
            invariant
                forall|l: &Lesson, s: &LessonState| #[trigger] train_fn.requires((l, s)),
                total(geometric),
                n > 0 ==> update_allowed(*schedule),
                i <= n,
                completed == i,
                tracker@.len() == n,
                trained_uniform(lesson_states@, tracker@.take(i as int), rule, i as nat, DEFAULT_SUCCESS_THRESHOLD, DEFAULT_MAX_ATTEMPTS),
                forall|k: int| i <= k < n ==> #[trigger] tracker@[k] == LessonStatus::NotStarted,
                count_mastered(tracker@) == mastered_states(lesson_states@, DEFAULT_SUCCESS_THRESHOLD, DEFAULT_MAX_ATTEMPTS),
                *schedule == after_lessons(initial, lesson_states@, n as nat, DEFAULT_SUCCESS_THRESHOLD, DEFAULT_MAX_ATTEMPTS),
                forall|k: int| 0 <= k < i ==> #[trigger] taught::<F, G>(train_fn, initial, geometric, lesson_states@, n as nat, k),
            decreases n - i,
        {
            let difficulty = resolve(schedule.difficulty_at(i), &geometric);
            let lesson = Lesson::new(i, difficulty);
            let threshold = lesson.success_threshold;
            let ghost before = tracker@;
            let ghost lesson_start = *schedule;
            let ghost mastered_before = mastered_states(lesson_states@, DEFAULT_SUCCESS_THRESHOLD, DEFAULT_MAX_ATTEMPTS);
            let mut state = LessonState::new();
            proof {
                assert(state.scores@ =~= Seq::<i64>::empty());
                assert(scored_by::<F>(train_fn, lesson, state.scores@));
                assert(before =~= before.update(i as int, replay(state.scores@, threshold, lesson.max_attempts)));
            }
            while state.attempt < lesson.max_attempts
                invariant_except_break
                    !state.passed,
                invariant
                    forall|l: &Lesson, s: &LessonState| #[trigger] train_fn.requires((l, s)),
                    is_new_lesson(lesson, i, difficulty),
                    i < n,
                    before.len() == n,
                    threshold == lesson.success_threshold,
                    state.attempt == state.scores@.len(),
                    state.attempt <= lesson.max_attempts,
                    forall|j: int| 1 <= j < state.scores@.len() ==> !advanced(rule, #[trigger] state.scores@.take(j), threshold),
                    state.passed ==> state.attempt >= 1 && advanced(rule, state.scores@, threshold),
                    !state.passed && state.attempt >= 1 ==> !advanced(rule, state.scores@, threshold),
                    tracker@ == before.update(i as int, replay(state.scores@, threshold, lesson.max_attempts)),
                    before[i as int] == LessonStatus::NotStarted,
                    count_mastered(before) == mastered_before,
                    update_allowed(*schedule),
                    *schedule == after_attempts(lesson_start, state.scores@, mastered_before, n as nat, threshold, lesson.max_attempts),
                    scored_by::<F>(train_fn, lesson, state.scores@),
                ensures
                    trained(state, rule, lesson.success_threshold, lesson.max_attempts),
                decreases lesson.max_attempts - state.attempt,
            {
                let ghost state0 = state;
                let score = train_fn(&lesson, &state);
                proof {
                    assert(returned::<F>(train_fn, lesson, state0, score));
                    lemma_scored_by_push::<F>(train_fn, lesson, state.scores@, state0, score);
                    lemma_replay_attempts(state.scores@, threshold, lesson.max_attempts);
                }
                let ghost old_scores = state.scores@;
                state.record(score);
                proof {
                    assert(state.scores@.drop_last() =~= old_scores);
                    assert forall|j: int| 1 <= j < state.scores@.len() implies !advanced(rule, #[trigger] state.scores@.take(j), threshold) by {
                        if j < old_scores.len() {
                            assert(state.scores@.take(j) =~= old_scores.take(j));
                        } else {
                            assert(state.scores@.take(j) =~= old_scores);
                        }
                    }
                }
                tracker.record_attempt(i, score, &lesson);
                proof {
                    assert(tracker@ =~= before.update(i as int, replay(state.scores@, threshold, lesson.max_attempts)));
                    lemma_count_update(before, i as int, replay(state.scores@, threshold, lesson.max_attempts));
                    lemma_mastered_and_failed_bounded(tracker@);
                }
                let rate = tracker.mastery_rate();
                let units = rate.to_units();
                proof {
                    assert(units <= SCALE) by (nonlinear_arith)
                        requires
                            units == rate.numerator * SCALE / rate.denominator as int,
                            rate.numerator <= rate.denominator,
                            rate.denominator > 0,
                    {
                        vstd::arithmetic::div_mod::lemma_div_is_ordered(
                            rate.numerator * SCALE,
                            rate.denominator * SCALE,
                            rate.denominator as int,
                        );
                        vstd::arithmetic::div_mod::lemma_div_multiples_vanish(SCALE as int, rate.denominator as int);
                    }
                    assert(units >= 0) by (nonlinear_arith)
                        requires
                            units == rate.numerator * SCALE / rate.denominator as int,
                            rate.denominator > 0,
                    ;
                    assert(rate_units(mastered_before + mastered_bit(replay(state.scores@, threshold, lesson.max_attempts)), n as nat) == units as i64);
                }
                let target = target_for(rate);
                proof {
                    lemma_update_with_stays_in_bounds(*schedule, target as int, units as i64);
                }
                schedule.update_with(target, units as i64);
                if advances(rule, &state, threshold) {
                    state.passed = true;
                    break;
                }
            }
            completed = completed + 1;
            let ghost states_before = lesson_states@;
            lesson_states.push(state);
            proof {
                assert(lesson_states@.drop_last() =~= states_before);
                assert forall|k: int| 0 <= k < i + 1 implies #[trigger] taught::<F, G>(train_fn, initial, geometric, lesson_states@, n as nat, k) by {
                    if k < i {
                        lemma_taught_push::<F, G>(train_fn, initial, geometric, states_before, state, n as nat, k);
                    } else {
                        assert(lesson_states@.take(k) =~= states_before);
                        assert(lesson_states@[k] == state);
                        assert(scored_by::<F>(train_fn, lesson, lesson_states@[k].scores@));
                    }
                }
                lemma_count_update(before, i as int, tracker@[i as int]);
                assert(tracker@.take(i + 1) =~= tracker@.take(i as int).push(tracker@[i as int]));
                assert(tracker@.take(i as int) =~= before.take(i as int));
                assert forall|k: int| 0 <= k < i + 1 implies {
                    &&& trained(#[trigger] lesson_states@[k], rule, DEFAULT_SUCCESS_THRESHOLD, DEFAULT_MAX_ATTEMPTS)
                    &&& tracker@.take(i + 1)[k] == replay(lesson_states@[k].scores@, DEFAULT_SUCCESS_THRESHOLD, DEFAULT_MAX_ATTEMPTS)
                } by {
                    if k < i {
                        assert(lesson_states@[k] == states_before[k]);
                        assert(tracker@.take(i + 1)[k] == tracker@.take(i as int)[k]);
                    }
                }
            }
            i = i + 1;
        }
        proof {
            assert(tracker@.take(n as int) =~= tracker@);
        }
        let duration = elapsed_since(&start);
        let mastery_rate = tracker.mastery_rate();
        CurriculumResult {
            curriculum_name: self.curriculum.name().clone(),
            lessons_completed: completed,
            total_lessons: n,
            mastery_rate,
            duration,
            lesson_states,
            mastery: tracker,
        }
    }

}


/// Under `PassOnce`, a trained lesson ends mastered exactly when its state is
/// passed.
pub proof fn lemma_replay_mastered_iff_passed(st: LessonState, threshold: i64, max_attempts: usize)
    requires
        trained(st, ProgressionRule::PassOnce, threshold, max_attempts),
    ensures
        replay(st.scores@, threshold, max_attempts) is Mastered <==> st.passed,
        replay(st.scores@, threshold, max_attempts).spec_attempts() == st.attempt,
{
    lemma_replay_attempts(st.scores@, threshold, max_attempts);
    if st.scores@.len() > 0 {
        lemma_replay_attempts(st.scores@.drop_last(), threshold, max_attempts);
    }
}

proof fn lemma_count_passed_bounded(states: Seq<LessonState>)
    ensures
        count_passed(states) <= states.len(),
        count_passed(states) == states.len() <==> forall|k: int| 0 <= k < states.len() ==> #[trigger] states[k].passed,
    decreases states.len(),
{
    if states.len() > 0 {
        let init = states.drop_last();
        lemma_count_passed_bounded(init);
        if forall|k: int| 0 <= k < states.len() ==> #[trigger] states[k].passed {
            assert forall|k: int| 0 <= k < init.len() implies #[trigger] init[k].passed by {
                assert(init[k] == states[k]);
            }
        }
        if count_passed(states) == states.len() {
            assert forall|k: int| 0 <= k < states.len() implies #[trigger] states[k].passed by {
                if k < states.len() - 1 {
                    assert(init[k] == states[k]);
                }
            }
        }
    }
}

/// The number of lessons whose state is passed.
pub open spec fn count_passed(states: Seq<LessonState>) -> nat
    decreases states.len(),
{
    if states.len() == 0 {
        0
    } else {
        count_passed(states.drop_last()) + if states.last().passed { 1nat } else { 0nat }
    }
}

proof fn lemma_trained_all_prefix(
    lessons: Seq<Lesson>,
    rule: ProgressionRule,
    states: Seq<LessonState>,
    statuses: Seq<LessonStatus>,
)
    requires
        trained_all(lessons, rule, states, statuses),
        lessons.len() > 0,
    ensures
        trained_all(lessons.drop_last(), rule, states.drop_last(), statuses.drop_last()),
{
    assert forall|k: int| 0 <= k < lessons.drop_last().len() implies {
        &&& trained(#[trigger] states.drop_last()[k], rule, lessons.drop_last()[k].success_threshold, lessons.drop_last()[k].max_attempts)
        &&& statuses.drop_last()[k] == replay(states.drop_last()[k].scores@, lessons.drop_last()[k].success_threshold, lessons.drop_last()[k].max_attempts)
    } by {
        assert(states.drop_last()[k] == states[k]);
        assert(lessons.drop_last()[k] == lessons[k]);
        assert(statuses.drop_last()[k] == statuses[k]);
    }
}

/// Under `PassOnce`, the mastered lessons are exactly the passed ones: the
/// tracker counts as many mastered lessons as there are passed states.
pub proof fn lemma_mastered_count_is_passed_count(
    lessons: Seq<Lesson>,
    states: Seq<LessonState>,
    statuses: Seq<LessonStatus>,
)
    requires
        trained_all(lessons, ProgressionRule::PassOnce, states, statuses),
    ensures
        count_mastered(statuses) == count_passed(states),
        forall|k: int| 0 <= k < lessons.len() ==> (#[trigger] statuses[k] is Mastered <==> states[k].passed),
    decreases lessons.len(),
{
    assert forall|k: int| 0 <= k < lessons.len() implies (#[trigger] statuses[k] is Mastered <==> states[k].passed) by {
        lemma_replay_mastered_iff_passed(states[k], lessons[k].success_threshold, lessons[k].max_attempts);
    }
    if lessons.len() > 0 {
        lemma_trained_all_prefix(lessons, ProgressionRule::PassOnce, states, statuses);
        lemma_mastered_count_is_passed_count(lessons.drop_last(), states.drop_last(), statuses.drop_last());
    }
}

/// Under `PassOnce`, a curriculum is fully mastered by training exactly when
/// it has lessons and every one of them was passed.
pub proof fn lemma_fully_mastered_iff_all_passed(
    lessons: Seq<Lesson>,
    states: Seq<LessonState>,
    statuses: Seq<LessonStatus>,
)
    requires
        trained_all(lessons, ProgressionRule::PassOnce, states, statuses),
        lessons.len() <= usize::MAX,
    ensures
        reaches_one(mastery_fraction(statuses)) <==> (lessons.len() > 0 && forall|k: int|
            0 <= k < lessons.len() ==> #[trigger] states[k].passed),
{
    lemma_mastered_count_is_passed_count(lessons, states, statuses);
    lemma_count_passed_bounded(states);
}

/// The attempts a perfect learner needs under `rule`.
pub open spec fn attempts_needed(rule: ProgressionRule) -> int {
    match rule {
        ProgressionRule::ConsecutivePasses(n) => if n == 0 { 1 } else { n as int },
        _ => 1,
    }
}

proof fn lemma_all_pass_trailing(s: Seq<i64>, threshold: i64)
    requires
        forall|j: int| 0 <= j < s.len() ==> #[trigger] s[j] >= threshold,
    ensures
        trailing_passes(s, threshold) == s.len(),
    decreases s.len(),
{
    if s.len() > 0 {
        lemma_all_pass_trailing(s.drop_last(), threshold);
    }
}

proof fn lemma_all_fail_mean(s: Seq<i64>, threshold: i64)
    requires
        s.len() > 0,
        forall|j: int| 0 <= j < s.len() ==> #[trigger] s[j] < threshold,
    ensures
        sum_values(s) < threshold * s.len(),
{
    lemma_all_fail_sum(s, threshold);
    assert(s.len() * threshold == threshold * s.len()) by (nonlinear_arith);
}

proof fn lemma_all_fail_sum(s: Seq<i64>, threshold: i64)
    requires
        s.len() > 0,
        forall|j: int| 0 <= j < s.len() ==> #[trigger] s[j] < threshold,
    ensures
        sum_values(s) < s.len() * threshold,
    decreases s.len(),
{
    assert(s.last() == s[s.len() - 1]);
    if s.len() > 1 {
        assert forall|j: int| 0 <= j < s.drop_last().len() implies #[trigger] s.drop_last()[j] < threshold by {
            assert(s.drop_last()[j] == s[j]);
        }
        lemma_all_fail_sum(s.drop_last(), threshold);
        assert(s.len() * threshold == s.drop_last().len() * threshold + threshold) by (nonlinear_arith)
            requires
                s.len() == s.drop_last().len() + 1,
        ;
    } else {
        assert(s.drop_last() =~= Seq::<i64>::empty());
        assert(sum_values(s.drop_last()) == 0);
    }
}

/// A learner whose every attempt reaches the lesson's threshold passes every
/// lesson that allows enough attempts for the rule, using exactly the attempts
/// the rule needs, and masters every lesson.
pub proof fn lemma_perfect_scores_pass_everything(
    lessons: Seq<Lesson>,
    rule: ProgressionRule,
    states: Seq<LessonState>,
    statuses: Seq<LessonStatus>,
)
    requires
        trained_all(lessons, rule, states, statuses),
        forall|k: int| 0 <= k < lessons.len() ==> #[trigger] lessons[k].max_attempts >= attempts_needed(rule),
        forall|k: int, j: int|
            0 <= k < lessons.len() && 0 <= j < states[k].scores@.len() ==> #[trigger] states[k].scores@[j]
                >= lessons[k].success_threshold,
    ensures
        forall|k: int|
            0 <= k < lessons.len() ==> #[trigger] states[k].passed && states[k].attempt == attempts_needed(rule)
                && statuses[k] is Mastered,
        count_mastered(statuses) == lessons.len(),
{
    assert forall|k: int| 0 <= k < lessons.len() implies #[trigger] states[k].passed && states[k].attempt
        == attempts_needed(rule) && statuses[k] is Mastered by {
        let st = states[k];
        let s = st.scores@;
        let thr = lessons[k].success_threshold;
        let max = lessons[k].max_attempts;
        assert(lessons[k].max_attempts >= attempts_needed(rule));
        assert forall|j: int| 0 <= j < s.len() implies #[trigger] s[j] >= thr by {
            assert(states[k].scores@[j] >= lessons[k].success_threshold);
        }
        assert(st.attempt >= 1);
        match rule {
            ProgressionRule::ConsecutivePasses(n) => {
                lemma_all_pass_trailing(s, thr);
                if st.attempt >= 2 && st.attempt > attempts_needed(rule) {
                    let j = attempts_needed(rule);
                    assert forall|i: int| 0 <= i < s.take(j).len() implies #[trigger] s.take(j)[i] >= thr by {
                        assert(s.take(j)[i] == s[i]);
                    }
                    lemma_all_pass_trailing(s.take(j), thr);
                    assert(!advanced(rule, s.take(j), thr));
                }
                if st.attempt >= 2 && st.attempt < attempts_needed(rule) {
                    assert(!st.passed);
                }
            },
            ProgressionRule::PassOnce => {
                if st.attempt >= 2 {
                    assert(s.take(1).last() == s[0]);
                    assert(!advanced(rule, s.take(1), thr));
                }
            },
            ProgressionRule::AverageScore => {
                if st.attempt >= 2 {
                    assert(s.take(1).drop_last() =~= Seq::<i64>::empty());
                    assert(sum_values(s.take(1).drop_last()) == 0);
                    assert(s.take(1).last() == s[0]);
                    assert(sum_values(s.take(1)) == s[0]);
                    assert(!advanced(rule, s.take(1), thr));
                }
                if st.attempt == 1 {
                    assert(s.drop_last() =~= Seq::<i64>::empty());
                    assert(sum_values(s.drop_last()) == 0);
                    assert(s.last() == s[0]);
                    assert(sum_values(s) == s[0]);
                }
            },
        }
        lemma_replay_attempts(s.drop_last(), thr, max);
    }
    assert forall|k: int| 0 <= k < statuses.len() implies #[trigger] statuses[k] is Mastered by {
        assert(states[k].passed);
    }
    lemma_all_mastered(statuses);
}

proof fn lemma_all_mastered(s: Seq<LessonStatus>)
    requires
        forall|k: int| 0 <= k < s.len() ==> #[trigger] s[k] is Mastered,
    ensures
        count_mastered(s) == s.len(),
    decreases s.len(),
{
    if s.len() > 0 {
        assert forall|k: int| 0 <= k < s.drop_last().len() implies #[trigger] s.drop_last()[k] is Mastered by {
            assert(s.drop_last()[k] == s[k]);
        }
        lemma_all_mastered(s.drop_last());
        assert(s.last() == s[s.len() - 1]);
    }
}

proof fn lemma_no_mastered(s: Seq<LessonStatus>)
    requires
        forall|k: int| 0 <= k < s.len() ==> !(#[trigger] s[k] is Mastered),
    ensures
        count_mastered(s) == 0,
    decreases s.len(),
{
    if s.len() > 0 {
        assert forall|k: int| 0 <= k < s.drop_last().len() implies !(#[trigger] s.drop_last()[k] is Mastered) by {
            assert(s.drop_last()[k] == s[k]);
        }
        lemma_no_mastered(s.drop_last());
    }
}

/// A learner whose every attempt falls short of the lesson's threshold, under
/// any rule but `ConsecutivePasses(0)`, passes and masters nothing and uses up
/// every allowed attempt of each lesson.
pub proof fn lemma_failing_scores_pass_nothing(
    lessons: Seq<Lesson>,
    rule: ProgressionRule,
    states: Seq<LessonState>,
    statuses: Seq<LessonStatus>,
)
    requires
        trained_all(lessons, rule, states, statuses),
        rule != ProgressionRule::ConsecutivePasses(0),
        forall|k: int, j: int|
            0 <= k < lessons.len() && 0 <= j < states[k].scores@.len() ==> #[trigger] states[k].scores@[j]
                < lessons[k].success_threshold,
    ensures
        forall|k: int|
            0 <= k < lessons.len() ==> !(#[trigger] states[k].passed) && states[k].attempt == lessons[k].max_attempts
                && !(statuses[k] is Mastered),
        count_mastered(statuses) == 0,
{
    assert forall|k: int| 0 <= k < lessons.len() implies !(#[trigger] states[k].passed) && states[k].attempt
        == lessons[k].max_attempts && !(statuses[k] is Mastered) by {
        let s = states[k].scores@;
        let thr = lessons[k].success_threshold;
        assert forall|j: int| 0 <= j < s.len() implies #[trigger] s[j] < thr by {
            assert(states[k].scores@[j] < lessons[k].success_threshold);
        }
        if s.len() > 0 {
            assert(s.last() < thr);
            match rule {
                ProgressionRule::AverageScore => {
                    lemma_all_fail_mean(s, thr);
                },
                _ => {},
            }
            assert(!advanced(rule, s, thr));
        }
    }
    assert forall|k: int| 0 <= k < statuses.len() implies !(#[trigger] statuses[k] is Mastered) by {
        assert(!(states[k].passed));
    }
    lemma_no_mastered(statuses);
}

/// A scheduled training run is a training run of lessons that all share the
/// threshold and attempt limit: the laws about `trained_all` apply to it.
pub proof fn lemma_uniform_is_trained_all(
    lessons: Seq<Lesson>,
    rule: ProgressionRule,
    states: Seq<LessonState>,
    statuses: Seq<LessonStatus>,
    threshold: i64,
    max_attempts: usize,
)
    requires
        trained_uniform(states, statuses, rule, lessons.len(), threshold, max_attempts),
        forall|k: int|
            0 <= k < lessons.len() ==> #[trigger] lessons[k].success_threshold == threshold
                && lessons[k].max_attempts == max_attempts,
    ensures
        trained_all(lessons, rule, states, statuses),
{
}

/// Whether `t` is `s` changed by mastery updates only: same kind and steps,
/// fixed schedules unchanged, adaptive ones with the same bounds.
pub open spec fn same_frame(s: DifficultySchedule, t: DifficultySchedule) -> bool {
    &&& t.spec_steps() == s.spec_steps()
    &&& update_allowed(t)
    &&& !(s is Adaptive) ==> t == s
    &&& s is Adaptive ==> {
        &&& t is Adaptive
        &&& t->Adaptive_start == s->Adaptive_start
        &&& t->Adaptive_end == s->Adaptive_end
    }
}

/// Whether `s` is an adaptive schedule whose difficulty lies within its bounds
/// and whose acceleration is nonnegative.
pub open spec fn rising(s: DifficultySchedule) -> bool {
    &&& s is Adaptive
    &&& s->Adaptive_start <= s->Adaptive_current <= s->Adaptive_end
    &&& s->Adaptive_acceleration >= 0
}

proof fn lemma_update_frame(s: DifficultySchedule, t: int, rate: i64)
    requires
        update_allowed(s),
        is_target(t),
    ensures
        same_frame(s, s.spec_update_with(t, rate)),
        rising(s) ==> rising(s.spec_update_with(t, rate)) && s.spec_update_with(t, rate)->Adaptive_current
            >= s->Adaptive_current,
{
    lemma_update_with_stays_in_bounds(s, t, rate);
    if rising(s) {
        lemma_update_with_never_eases(s, t, rate);
    }
}

proof fn lemma_attempts_frame(
    s: DifficultySchedule,
    scores: Seq<i64>,
    mastered: nat,
    n: nat,
    threshold: i64,
    max_attempts: usize,
)
    requires
        update_allowed(s),
    ensures
        same_frame(s, after_attempts(s, scores, mastered, n, threshold, max_attempts)),
        rising(s) ==> rising(after_attempts(s, scores, mastered, n, threshold, max_attempts)) && after_attempts(
            s,
            scores,
            mastered,
            n,
            threshold,
            max_attempts,
        )->Adaptive_current >= s->Adaptive_current,
    decreases scores.len(),
{
    if scores.len() > 0 {
        lemma_attempts_frame(s, scores.drop_last(), mastered, n, threshold, max_attempts);
        lemma_update_frame(
            after_attempts(s, scores.drop_last(), mastered, n, threshold, max_attempts),
            fraction_target(mastered + mastered_bit(replay(scores, threshold, max_attempts)), n),
            rate_units(mastered + mastered_bit(replay(scores, threshold, max_attempts)), n),
        );
    }
}

/// Training with a schedule only ever feeds it mastery rates: it keeps the
/// schedule's kind, steps and bounds, leaves linear and exponential schedules
/// as they were, and an adaptive schedule that starts within its bounds with a
/// nonnegative acceleration stays so and never gets easier.
pub proof fn lemma_training_keeps_schedule_frame(
    s: DifficultySchedule,
    states: Seq<LessonState>,
    n: nat,
    threshold: i64,
    max_attempts: usize,
)
    requires
        update_allowed(s),
    ensures
        same_frame(s, after_lessons(s, states, n, threshold, max_attempts)),
        rising(s) ==> rising(after_lessons(s, states, n, threshold, max_attempts)) && after_lessons(
            s,
            states,
            n,
            threshold,
            max_attempts,
        )->Adaptive_current >= s->Adaptive_current,
    decreases states.len(),
{
    if states.len() > 0 {
        lemma_training_keeps_schedule_frame(s, states.drop_last(), n, threshold, max_attempts);
        lemma_attempts_frame(
            after_lessons(s, states.drop_last(), n, threshold, max_attempts),
            states.last().scores@,
            mastered_states(states.drop_last(), threshold, max_attempts),
            n,
            threshold,
            max_attempts,
        );
    }
}


/// The status of a lesson after a run of failing attempts: not started after
/// none, in progress with the best score while attempts remain, failed with
/// the best score once they are used up; a passing attempt while attempts
/// remain masters it, keeping the best score.
pub proof fn lemma_failing_run_then_pass(scores: Seq<i64>, threshold: i64, max_attempts: usize, pass: i64)
    requires
        forall|j: int| 0 <= j < scores.len() ==> #[trigger] scores[j] < threshold,
        scores.len() <= max_attempts,
    ensures
        scores.len() == 0 ==> replay(scores, threshold, max_attempts) == LessonStatus::NotStarted,
        1 <= scores.len() < max_attempts ==> replay(scores, threshold, max_attempts) == (LessonStatus::InProgress {
            attempts: scores.len() as usize,
            best_score: best_of(scores) as i64,
        }),
        1 <= scores.len() == max_attempts ==> replay(scores, threshold, max_attempts) == (LessonStatus::Failed {
            attempts: scores.len() as usize,
            best_score: best_of(scores) as i64,
        }),
        scores.len() < max_attempts && pass >= threshold ==> replay(scores.push(pass), threshold, max_attempts) == (
        LessonStatus::Mastered {
            attempts: (scores.len() + 1) as usize,
            score: best_of(scores.push(pass)) as i64,
        }),
    decreases scores.len(),
{
    lemma_replay_attempts(scores, threshold, max_attempts);
    lemma_best_of_bounds(scores);
    lemma_best_of_bounds(scores.push(pass));
    assert(scores.push(pass).drop_last() =~= scores);
    if scores.len() > 0 {
        let init = scores.drop_last();
        assert forall|j: int| 0 <= j < init.len() implies #[trigger] init[j] < threshold by {
            assert(init[j] == scores[j]);
        }
        lemma_failing_run_then_pass(init, threshold, max_attempts, pass);
        lemma_best_of_bounds(init);
        assert(scores.last() == scores[scores.len() - 1]);
    }
}


/// Each attempt of a scheduled run updates the schedule once: its acceleration
/// moves towards `1.5` exactly when the exact mastery rate `m / n` after the
/// attempt is above `0.8`, towards `0.5` exactly when it is below `0.4`, and
/// towards `1.0` otherwise (so 3 of 4 mastered gives `1.0`); the rate it
/// records is `m / n` rounded down to whole units. When `m / n` is a whole
/// number of units, the update is the one `update_mastery` makes with it.
pub proof fn lemma_scheduled_attempt_update(
    s: DifficultySchedule,
    scores: Seq<i64>,
    mastered: nat,
    n: nat,
    threshold: i64,
    max_attempts: usize,
)
    requires
        scores.len() > 0,
        0 < n <= usize::MAX,
        mastered + mastered_bit(replay(scores, threshold, max_attempts)) <= n,
    ensures
        ({
            let m: int = (mastered + mastered_bit(replay(scores, threshold, max_attempts))) as int;
            let prev = after_attempts(s, scores.drop_last(), mastered, n, threshold, max_attempts);
            let t: int = if m * 10 > n * 8 {
                1_500_000_000_000
            } else if m * 10 < n * 4 {
                500_000_000_000
            } else {
                1_000_000_000_000
            };
            &&& after_attempts(s, scores, mastered, n, threshold, max_attempts) == prev.spec_update_with(
                t,
                rate_units(m as nat, n),
            )
            &&& rate_units(m as nat, n) == m * 1_000_000_000_000 / (n as int)
            &&& (m * 1_000_000_000_000) % (n as int) == 0 ==> after_attempts(
                s,
                scores,
                mastered,
                n,
                threshold,
                max_attempts,
            ) == prev.spec_update(rate_units(m as nat, n))
        }),
{
    let m: int = (mastered + mastered_bit(replay(scores, threshold, max_attempts))) as int;
    let big: int = m * 1_000_000_000_000;
    let q = big / (n as int);
    assert(0 <= q <= 1_000_000_000_000) by (nonlinear_arith)
        requires
            0 <= m <= n,
            n > 0,
            big == m * 1_000_000_000_000,
            q == big / (n as int),
    {
        vstd::arithmetic::div_mod::lemma_div_is_ordered(big, (n as int) * 1_000_000_000_000, n as int);
        vstd::arithmetic::div_mod::lemma_div_multiples_vanish(1_000_000_000_000, n as int);
    }
    if big % (n as int) == 0 {
        vstd::arithmetic::div_mod::lemma_fundamental_div_mod(big, n as int);
        assert(q * n == big);
        assert((q > 800_000_000_000) <==> (m * 10 > n * 8)) by (nonlinear_arith)
            requires
                q * n == m * 1_000_000_000_000,
                n > 0,
        ;
        assert((q < 400_000_000_000) <==> (m * 10 < n * 4)) by (nonlinear_arith)
            requires
                q * n == m * 1_000_000_000_000,
                n > 0,
        ;
    }
}

} // verus!
