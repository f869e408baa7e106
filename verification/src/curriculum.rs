//! An ordered sequence of lessons with progression rules.
use vstd::prelude::*;
use crate::lesson::{is_new_lesson, Lesson};
use crate::progression::ProgressionRule;
use crate::schedule::{resolve, resolves, total, DifficultySchedule};

verus! {

/// The review threshold a new curriculum gets: `0.5`.
pub const DEFAULT_REVIEW_THRESHOLD: i64 = 500_000_000_000;

/// An ordered sequence of lessons with progression rules.
#[derive(Debug, Clone)]
pub struct Curriculum {
    /// Name of this curriculum.
    pub name: String,
    /// Ordered list of lessons.
    lessons: Vec<Lesson>,
    /// How the agent progresses between lessons.
    pub progression: ProgressionRule,
    /// Whether to allow revisiting previous lessons for review.
    pub allow_review: bool,
    /// Review threshold (fixed-point): if mastery drops below this, trigger review.
    pub review_threshold: i64,
}

impl Curriculum {
    /// The lessons, in order.
    pub closed spec fn lessons_view(&self) -> Seq<Lesson> {
        self.lessons@
    }

    /// The name.
    pub closed spec fn name_view(&self) -> Seq<char> {
        self.name@
    }

    /// The progression rule.
    pub closed spec fn progression_view(&self) -> ProgressionRule {
        self.progression
    }

    /// Whether review is allowed.
    pub closed spec fn allow_review_view(&self) -> bool {
        self.allow_review
    }

    /// The review threshold.
    pub closed spec fn review_threshold_view(&self) -> i64 {
        self.review_threshold
    }

    /// Whether two curricula agree on everything but their lessons.
    pub open spec fn same_settings(&self, other: &Curriculum) -> bool {
        &&& self.name_view() == other.name_view()
        &&& self.progression_view() == other.progression_view()
        &&& self.allow_review_view() == other.allow_review_view()
        &&& self.review_threshold_view() == other.review_threshold_view()
    }

    /// Whether `self` is a fresh curriculum called `name`, apart from its lessons.
    pub open spec fn has_new_settings(&self, name: Seq<char>) -> bool {
        &&& self.name_view() == name
        &&& self.progression_view() == ProgressionRule::PassOnce
        &&& self.allow_review_view()
        &&& self.review_threshold_view() == DEFAULT_REVIEW_THRESHOLD
    }

    /// The name of the curriculum.
    pub fn name(&self) -> (r: &String)
        ensures
            r@ == self.name_view(),
    {
        &self.name
    }

    /// How the agent progresses between lessons.
    pub fn progression(&self) -> (r: ProgressionRule)
        ensures
            r == self.progression_view(),
    {
        self.progression
    }

    /// Whether revisiting previous lessons for review is allowed.
    pub fn allow_review(&self) -> (r: bool)
        ensures
            r == self.allow_review_view(),
    {
        self.allow_review
    }

    /// The review threshold.
    pub fn review_threshold(&self) -> (r: i64)
        ensures
            r == self.review_threshold_view(),
    {
        self.review_threshold
    }

    /// Create a new empty curriculum.
    pub fn new(name: &str) -> (r: Self)
        ensures
            r.has_new_settings(name@),
            r.lessons_view().len() == 0,
    {
        Curriculum {
            name: String::from_str(name),
            lessons: Vec::new(),
            progression: ProgressionRule::PassOnce,
            allow_review: true,
            review_threshold: DEFAULT_REVIEW_THRESHOLD,
        }
    }

    /// Add a lesson to the curriculum.
    pub fn add_lesson(&mut self, lesson: Lesson)
        ensures
            final(self).lessons_view() == old(self).lessons_view().push(lesson),
            final(self).same_settings(old(self)),
    {
        self.lessons.push(lesson);
    }

    /// Get the number of lessons.
    pub fn len(&self) -> (r: usize)
        ensures
            r == self.lessons_view().len(),
    {
        self.lessons.len()
    }

    /// Check if the curriculum is empty.
    pub fn is_empty(&self) -> (r: bool)
        ensures
            r == (self.lessons_view().len() == 0),
    {
        self.lessons.len() == 0
    }

    /// Get a lesson by index.
    pub fn lesson(&self, index: usize) -> (r: Option<&Lesson>)
        ensures
            r is Some <==> index < self.lessons_view().len(),
            r matches Some(l) ==> *l == self.lessons_view()[index as int],
    {
        if index < self.lessons.len() {
            Some(&self.lessons[index])
        } else {
            None
        }
    }

    /// Get all lessons.
    pub fn lessons(&self) -> (r: &[Lesson])
        ensures
            r@ == self.lessons_view(),
    {
        self.lessons.as_slice()
    }

    /// Set the progression rule.
    pub fn with_progression(self, rule: ProgressionRule) -> (r: Self)
        ensures
            r.lessons_view() == self.lessons_view(),
            r.name_view() == self.name_view(),
            r.progression_view() == rule,
            r.allow_review_view() == self.allow_review_view(),
            r.review_threshold_view() == self.review_threshold_view(),
    {
        let mut c = self;
        c.progression = rule;
        c
    }

    /// Enable or disable review.
    pub fn with_review(self, allow: bool) -> (r: Self)
        ensures
            r.lessons_view() == self.lessons_view(),
            r.name_view() == self.name_view(),
            r.progression_view() == self.progression_view(),
            r.allow_review_view() == allow,
            r.review_threshold_view() == self.review_threshold_view(),
    {
        let mut c = self;
        c.allow_review = allow;
        c
    }

    /// Build a curriculum from a difficulty schedule, generating one lesson per
    /// step; lesson `i` is `Lesson::new(i, d)` for the schedule's difficulty `d`
    /// at step `i`, geometric points being evaluated by `geometric`.
    pub fn from_schedule<G: Fn(i64, i64, usize, usize) -> i64>(
        name: &str,
        schedule: &DifficultySchedule,
        geometric: G,
    ) -> (r: Self)
        requires
            total(geometric),
        ensures
            r.has_new_settings(name@),
            r.lessons_view().len() == schedule.spec_steps(),
            forall|i: int|
                0 <= i < r.lessons_view().len() ==> {
                    let l = #[trigger] r.lessons_view()[i];
                    &&& is_new_lesson(l, i as usize, l.difficulty)
                    &&& resolves(schedule.spec_level(i as usize), geometric, l.difficulty)
                },
    {
        let mut curriculum = Curriculum::new(name);
        let n = schedule.steps();
        let mut i: usize = 0;
        while i < n
            invariant
                n == schedule.spec_steps(),
                i <= n,
                total(geometric),
                curriculum.has_new_settings(name@),
                curriculum.lessons_view().len() == i,
                forall|j: int|
                    0 <= j < i ==> {
                        let l = #[trigger] curriculum.lessons_view()[j];
                        &&& is_new_lesson(l, j as usize, l.difficulty)
                        &&& resolves(schedule.spec_level(j as usize), geometric, l.difficulty)
                    },
            decreases n - i,
        {
            let difficulty = resolve(schedule.difficulty_at(i), &geometric);
            let lesson = Lesson::new(i, difficulty);
            curriculum.add_lesson(lesson);
            i = i + 1;
        }
        curriculum
    }
}

} // verus!
