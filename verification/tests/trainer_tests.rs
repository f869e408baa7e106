use ternary_curriculum::{
    Mean,
    ProgressionRule,
    Curriculum, CurriculumResult, CurriculumTrainer, DifficultySchedule, Elapsed, Fraction, Lesson,
    LessonState, LessonStatus, MasteryTracker,
};

fn no_geometric(_s: i64, _e: i64, _n: usize, _d: usize) -> i64 {
    panic!("no geometric level expected")
}

#[test]
fn test_trainer_perfect_score() {
    let schedule = DifficultySchedule::linear(100_000_000_000, 1_000_000_000_000, 5);
    let curriculum = Curriculum::from_schedule("perfect", &schedule, no_geometric);
    let mut trainer = CurriculumTrainer::new(curriculum);
    let result = trainer.train(|_lesson, _state| 1_000_000_000_000);
    assert!(result.fully_mastered());
    assert_eq!(result.lessons_completed(), 5);
}

#[test]
fn test_trainer_all_fail() {
    let schedule = DifficultySchedule::linear(100_000_000_000, 1_000_000_000_000, 3);
    let curriculum = Curriculum::from_schedule("fail", &schedule, no_geometric);
    let mut trainer = CurriculumTrainer::new(curriculum);
    let result = trainer.train(|_lesson, _state| 100_000_000_000);
    assert!(!result.fully_mastered());
    assert_eq!(result.lessons_completed(), 3);
}

#[test]
fn test_curriculum_result_summary() {
    let result = CurriculumResult {
        curriculum_name: "test".to_string(),
        lessons_completed: 4,
        total_lessons: 5,
        mastery_rate: Fraction { numerator: 4, denominator: 5 },
        duration: Elapsed { secs: 10, nanos: 0 },
        lesson_states: vec![],
        mastery: MasteryTracker::new(0),
    };
    let summary = result.summary();
    assert!(summary.contains("test"));
    assert!(summary.contains("4/5"));
    assert!(summary.contains("80.0%"));
}

#[test]
fn summary_is_the_full_line() {
    let result = CurriculumResult {
        curriculum_name: "agent-training".to_string(),
        lessons_completed: 3,
        total_lessons: 5,
        mastery_rate: Fraction { numerator: 1, denominator: 3 },
        duration: Elapsed { secs: 1, nanos: 500_000_000 },
        lesson_states: vec![],
        mastery: MasteryTracker::new(0),
    };
    assert_eq!(
        result.summary(),
        "Curriculum 'agent-training': 3/5 lessons completed, 33.3% mastery, 1.5s spent"
    );
    let empty = CurriculumResult {
        curriculum_name: "none".to_string(),
        lessons_completed: 0,
        total_lessons: 0,
        mastery_rate: Fraction { numerator: 0, denominator: 1 },
        duration: Elapsed { secs: 0, nanos: 1_000 },
        lesson_states: vec![],
        mastery: MasteryTracker::new(0),
    };
    assert_eq!(empty.summary(), "Curriculum 'none': 0/0 lessons completed, 0.0% mastery, 1µs spent");
    assert!(!empty.fully_mastered());
}

#[test]
fn result_accessors_and_average() {
    let mut a = LessonState::new();
    a.record(300_000_000_000);
    a.record(900_000_000_000);
    let mut b = LessonState::new();
    b.record(-100_000_000_000);
    let result = CurriculumResult {
        curriculum_name: "avg".to_string(),
        lessons_completed: 2,
        total_lessons: 2,
        mastery_rate: Fraction { numerator: 2, denominator: 2 },
        duration: Elapsed { secs: 2, nanos: 0 },
        lesson_states: vec![a, b],
        mastery: MasteryTracker::new(2),
    };
    assert_eq!(result.lessons_completed(), 2);
    assert_eq!(result.total_lessons(), 2);
    assert_eq!(result.mastery_rate(), Fraction { numerator: 2, denominator: 2 });
    assert_eq!(result.duration(), Elapsed { secs: 2, nanos: 0 });
    assert!(result.fully_mastered());
    // best scores 0.9 and 0.0
    assert_eq!(result.average_score(), Mean { total: 900_000_000_000, count: 2 });
}

#[test]
fn training_follows_each_lesson_rules() {
    let mut c = Curriculum::new("mixed");
    c.add_lesson(Lesson::new(0, 100_000_000_000).with_max_attempts(3));
    c.add_lesson(Lesson::new(1, 500_000_000_000).with_max_attempts(2));
    c.add_lesson(Lesson::new(2, 900_000_000_000).with_max_attempts(0));
    let mut trainer = CurriculumTrainer::new(c);
    let calls = std::cell::Cell::new(0);
    // lesson 0 passes on its second attempt, lesson 1 never, lesson 2 allows no attempt
    let result = trainer.train(|lesson: &Lesson, state: &LessonState| {
        calls.set(calls.get() + 1);
        if lesson.index == 0 && state.attempt == 1 { 800_000_000_000 } else if lesson.index == 2 { 1_000_000_000_000 } else { 200_000_000_000 }
    });
    assert_eq!(calls.get(), 2 + 2);
    assert_eq!(result.lessons_completed(), 3);
    assert_eq!(result.total_lessons(), 3);
    assert_eq!(result.curriculum_name, "mixed");
    assert_eq!(result.lesson_states[0].scores, vec![200_000_000_000, 800_000_000_000]);
    assert!(result.lesson_states[0].passed);
    assert_eq!(result.lesson_states[1].attempt, 2);
    assert!(!result.lesson_states[1].passed);
    assert_eq!(result.lesson_states[2].attempt, 0);
    assert!(result.lesson_states[2].scores.is_empty());
    assert!(!result.lesson_states[2].passed);
    assert_eq!(*result.mastery.status(0), LessonStatus::Mastered { attempts: 2, score: 800_000_000_000 });
    assert_eq!(*result.mastery.status(1), LessonStatus::Failed { attempts: 2, best_score: 200_000_000_000 });
    assert_eq!(*result.mastery.status(2), LessonStatus::NotStarted);
    assert_eq!(result.mastery_rate(), Fraction { numerator: 1, denominator: 3 });
    assert!(!result.fully_mastered());
    assert!(result.duration().nanos < 1_000_000_000);
    assert_eq!(trainer.curriculum().len(), 3);
}

#[test]
fn training_an_empty_curriculum() {
    let mut trainer = CurriculumTrainer::new(Curriculum::new("empty"));
    let result = trainer.train(|_l, _s| 1_000_000_000_000);
    assert_eq!(result.lessons_completed(), 0);
    assert_eq!(result.mastery_rate(), Fraction { numerator: 0, denominator: 1 });
    assert!(!result.fully_mastered());
}

#[test]
fn training_with_a_linear_schedule() {
    let mut trainer = CurriculumTrainer::new(Curriculum::new("scheduled"));
    let mut schedule = DifficultySchedule::linear(0, 1_000_000_000_000, 4);
    let seen = std::cell::RefCell::new(Vec::new());
    let result = trainer.train_with_schedule(&mut schedule, no_geometric, |lesson: &Lesson, _s: &LessonState| {
        seen.borrow_mut().push(lesson.difficulty);
        if lesson.difficulty < 600_000_000_000 { 900_000_000_000 } else { 100_000_000_000 }
    });
    assert_eq!(seen.borrow()[0], 0);
    assert_eq!(seen.borrow()[1], 250_000_000_000);
    assert_eq!(seen.borrow()[2], 500_000_000_000);
    assert!(seen.borrow()[3..].iter().all(|&d| d == 750_000_000_000));
    assert_eq!(seen.borrow().len(), 3 + 10);
    assert_eq!(result.lessons_completed(), 4);
    assert_eq!(result.mastery_rate(), Fraction { numerator: 3, denominator: 4 });
    assert_eq!(result.curriculum_name, "scheduled");
    assert_eq!(schedule, DifficultySchedule::linear(0, 1_000_000_000_000, 4));
}

#[test]
fn training_moves_an_adaptive_schedule() {
    let mut trainer = CurriculumTrainer::new(Curriculum::new("adaptive"));
    let mut schedule = DifficultySchedule::adaptive(0, 1_000_000_000_000, 2);
    let seen = std::cell::RefCell::new(Vec::new());
    let result = trainer.train_with_schedule(&mut schedule, no_geometric, |lesson: &Lesson, _s: &LessonState| {
        seen.borrow_mut().push(lesson.difficulty);
        1_000_000_000_000
    });
    assert_eq!(*seen.borrow(), vec![0, 50_000_000_000]);
    assert!(result.fully_mastered());
    // after lesson 0: rate 0.5, acceleration 0.7 * 1.0 + 0.3 * 1.0 = 1.0, moves 0.05
    // after lesson 1: rate 1.0, acceleration 0.7 * 1.0 + 0.3 * 1.5 = 1.15, moves 0.0575
    assert_eq!(
        schedule,
        DifficultySchedule::Adaptive {
            start: 0,
            end: 1_000_000_000_000,
            steps: 2,
            current: 50_000_000_000 + 57_500_000_000,
            mastery_rate: 1_000_000_000_000,
            acceleration: 1_150_000_000_000,
        }
    );
}

#[test]
fn training_with_an_exponential_schedule() {
    let mut trainer = CurriculumTrainer::new(Curriculum::new("exp"));
    let mut schedule = DifficultySchedule::exponential(1_000_000_000_000, 100_000_000_000_000, 4);
    let seen = std::cell::RefCell::new(Vec::new());
    let geometric = |start: i64, end: i64, num: usize, den: usize| {
        let s = start as f64;
        (s * (end as f64 / s).powf(num as f64 / den as f64)).round() as i64
    };
    let result = trainer.train_with_schedule(&mut schedule, geometric, |lesson: &Lesson, _s: &LessonState| {
        seen.borrow_mut().push(lesson.difficulty);
        800_000_000_000
    });
    assert_eq!(seen.borrow().len(), 4);
    assert_eq!(seen.borrow()[0], 1_000_000_000_000);
    assert_eq!(seen.borrow()[2], 10_000_000_000_000);
    assert!(result.fully_mastered());
}

#[test]
fn quick_start_walkthrough() {
    let schedule = DifficultySchedule::linear(100_000_000_000, 1_000_000_000_000, 5);
    let curriculum = Curriculum::from_schedule("agent-training", &schedule, no_geometric);
    let mut trainer = CurriculumTrainer::new(curriculum);
    let result = trainer.train(|lesson: &Lesson, _state: &LessonState| {
        if lesson.difficulty < 300_000_000_000 {
            1_000_000_000_000
        } else if lesson.difficulty < 700_000_000_000 {
            600_000_000_000
        } else {
            200_000_000_000
        }
    });
    assert_eq!(result.lessons_completed(), 5);
    assert_eq!(result.mastery_rate(), Fraction { numerator: 2, denominator: 5 });
    assert!(result
        .summary()
        .starts_with("Curriculum 'agent-training': 5/5 lessons completed, 40.0% mastery, "));
    assert!(result.summary().ends_with(" spent"));
    // lessons that never pass use all ten attempts
    assert_eq!(result.lesson_states[2].attempt, 10);
    assert_eq!(result.lesson_states[0].attempt, 1);
    assert_eq!(result.mastery.total_attempts(), 1 + 1 + 10 + 10 + 10);
    assert_eq!(
        result.average_score(),
        Mean { total: 1_000_000_000_000 + 1_000_000_000_000 + 600_000_000_000 + 600_000_000_000 + 200_000_000_000, count: 5 }
    );
}

#[test]
fn consecutive_passes_rule_needs_a_run() {
    let schedule = DifficultySchedule::linear(100_000_000_000, 1_000_000_000_000, 2);
    let curriculum = Curriculum::from_schedule("c", &schedule, no_geometric)
        .with_progression(ProgressionRule::ConsecutivePasses(2));
    let mut trainer = CurriculumTrainer::new(curriculum);
    let calls = std::cell::Cell::new(0);
    let result = trainer.train(|_l: &Lesson, _s: &LessonState| {
        calls.set(calls.get() + 1);
        1_000_000_000_000
    });
    assert_eq!(calls.get(), 4);
    assert_eq!(result.lesson_states[0].scores, vec![1_000_000_000_000, 1_000_000_000_000]);
    assert_eq!(result.lesson_states[1].scores, vec![1_000_000_000_000, 1_000_000_000_000]);
    assert!(result.lesson_states.iter().all(|s| s.passed));
    assert!(result.fully_mastered());
}

#[test]
fn consecutive_passes_restart_after_a_miss() {
    let mut c = Curriculum::new("run").with_progression(ProgressionRule::ConsecutivePasses(2));
    c.add_lesson(Lesson::new(0, 0).with_max_attempts(5));
    c.add_lesson(Lesson::new(1, 0).with_max_attempts(3));
    let mut trainer = CurriculumTrainer::new(c);
    let result = trainer.train(|lesson: &Lesson, state: &LessonState| {
        if lesson.index == 0 {
            [900_000_000_000, 100_000_000_000, 900_000_000_000, 900_000_000_000, 0][state.attempt]
        } else {
            [900_000_000_000, 100_000_000_000, 900_000_000_000][state.attempt]
        }
    });
    assert_eq!(result.lesson_states[0].scores, vec![900_000_000_000, 100_000_000_000, 900_000_000_000, 900_000_000_000]);
    assert!(result.lesson_states[0].passed);
    assert_eq!(result.lesson_states[1].attempt, 3);
    assert!(!result.lesson_states[1].passed);
    // the tracker records every attempt: the last attempt of lesson 1 reached the threshold
    assert_eq!(*result.mastery.status(1), LessonStatus::Mastered { attempts: 3, score: 900_000_000_000 });
    assert_eq!(result.lessons_completed(), 2);
}

#[test]
fn average_score_rule_waits_for_the_mean() {
    let mut c = Curriculum::new("avg").with_progression(ProgressionRule::AverageScore);
    c.add_lesson(Lesson::new(0, 0).with_success_threshold(500_000_000_000));
    let mut trainer = CurriculumTrainer::new(c);
    let result = trainer.train(|_l: &Lesson, state: &LessonState| [0, 800_000_000_000, 800_000_000_000, 800_000_000_000][state.attempt]);
    // means: 0, 0.4, 0.5333
    assert_eq!(result.lesson_states[0].scores, vec![0, 800_000_000_000, 800_000_000_000]);
    assert!(result.lesson_states[0].passed);
    assert!(result.fully_mastered());
}

#[test]
fn consecutive_zero_advances_after_one_attempt() {
    let mut c = Curriculum::new("zero").with_progression(ProgressionRule::ConsecutivePasses(0));
    c.add_lesson(Lesson::new(0, 0));
    let mut trainer = CurriculumTrainer::new(c);
    let result = trainer.train(|_l: &Lesson, _s: &LessonState| 0);
    assert_eq!(result.lesson_states[0].attempt, 1);
    assert!(result.lesson_states[0].passed);
    assert!(!result.fully_mastered());
}

#[test]
fn scheduled_run_with_empty_inverted_adaptive_schedule() {
    let mut trainer = CurriculumTrainer::new(Curriculum::new("c"));
    let mut s = DifficultySchedule::adaptive(1_000_000_000_000, 0, 0);
    let result = trainer.train_with_schedule(&mut s, no_geometric, |_l: &Lesson, _s: &LessonState| 0);
    assert_eq!(result.total_lessons(), 0);
    assert_eq!(s, DifficultySchedule::adaptive(1_000_000_000_000, 0, 0));
}

#[test]
fn scheduled_adaptive_run_step_by_step() {
    let mut trainer = CurriculumTrainer::new(Curriculum::new("c"));
    let mut s = DifficultySchedule::adaptive(0, 1_000_000_000_000, 2);
    let seen = std::cell::RefCell::new(Vec::new());
    let result = trainer.train_with_schedule(&mut s, no_geometric, |l: &Lesson, st: &LessonState| {
        seen.borrow_mut().push((l.index, l.difficulty));
        if l.index == 0 && st.attempt == 0 { 0 } else { 1_000_000_000_000 }
    });
    assert_eq!(result.total_lessons(), 2);
    assert_eq!(result.lessons_completed(), 2);
    assert_eq!(result.mastery_rate(), Fraction { numerator: 2, denominator: 2 });
    assert_eq!(result.lesson_states[0].scores, vec![0, 1_000_000_000_000]);
    assert_eq!(result.lesson_states[1].scores, vec![1_000_000_000_000]);
    // rate 0 after the first attempt: acceleration 0.85, moves 0.0425;
    // rate 0.5 after the second: acceleration 0.895, moves 0.04475;
    // rate 1.0 after the third: acceleration 1.0765, moves 0.053825
    assert_eq!(*seen.borrow(), vec![(0, 0), (0, 0), (1, 87_250_000_000)]);
    assert_eq!(
        s,
        DifficultySchedule::Adaptive {
            start: 0,
            end: 1_000_000_000_000,
            steps: 2,
            current: 141_075_000_000,
            mastery_rate: 1_000_000_000_000,
            acceleration: 1_076_500_000_000,
        }
    );
}
