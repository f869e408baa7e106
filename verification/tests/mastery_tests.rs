use ternary_curriculum::{Mean, Fraction, Lesson, LessonState, LessonStatus, MasteryTracker};

#[test]
fn test_tracker_initial_state() {
    let t = MasteryTracker::new(3);
    assert_eq!(t.mastered_count(), 0);
    assert_eq!(t.mastery_rate().numerator, 0);
}

#[test]
fn test_tracker_record_mastered() {
    let mut t = MasteryTracker::new(1);
    let lesson = Lesson::new(0, 500_000_000_000).with_success_threshold(600_000_000_000);
    let mastered = t.record_attempt(0, 800_000_000_000, &lesson);
    assert!(mastered);
    assert!(t.status(0).is_mastered());
}

#[test]
fn test_tracker_record_failed() {
    let mut t = MasteryTracker::new(1);
    let lesson = Lesson::new(0, 500_000_000_000)
        .with_success_threshold(900_000_000_000)
        .with_max_attempts(2);
    t.record_attempt(0, 300_000_000_000, &lesson);
    let mastered = t.record_attempt(0, 400_000_000_000, &lesson);
    assert!(!mastered);
    assert!(t.status(0).is_failed());
}

#[test]
fn test_tracker_mastery_rate() {
    let mut t = MasteryTracker::new(2);
    let lesson = Lesson::new(0, 500_000_000_000).with_success_threshold(500_000_000_000);
    t.record_attempt(0, 800_000_000_000, &lesson);
    assert_eq!(t.mastery_rate(), Fraction { numerator: 1, denominator: 2 });
}

#[test]
fn test_tracker_lessons_for_review() {
    let mut t = MasteryTracker::new(2);
    let lesson = Lesson::new(0, 500_000_000_000)
        .with_success_threshold(600_000_000_000)
        .with_max_attempts(2);
    t.record_attempt(0, 650_000_000_000, &lesson);
    t.record_attempt(1, 300_000_000_000, &lesson);
    t.record_attempt(1, 400_000_000_000, &lesson);
    let review = t.lessons_for_review(600_000_000_000);
    assert!(review.contains(&0));
    assert!(review.contains(&1));
}

#[test]
fn test_lesson_state_best_score() {
    let mut s = LessonState::new();
    s.record(300_000_000_000);
    s.record(700_000_000_000);
    s.record(500_000_000_000);
    assert_eq!(s.best_score(), 700_000_000_000);
}

#[test]
fn test_lesson_state_average() {
    let mut s = LessonState::new();
    s.record(400_000_000_000);
    s.record(600_000_000_000);
    assert_eq!(s.average_score(), Mean { total: 1_000_000_000_000, count: 2 });
}

#[test]
fn test_consecutive_passes() {
    let mut s = LessonState::new();
    s.record(300_000_000_000);
    s.record(800_000_000_000);
    s.record(900_000_000_000);
    s.record(850_000_000_000);
    assert_eq!(s.consecutive_passes(700_000_000_000), 3);
}

#[test]
fn status_accessors() {
    assert_eq!(LessonStatus::NotStarted.attempts(), 0);
    assert_eq!(LessonStatus::NotStarted.best_score(), 0);
    let p = LessonStatus::InProgress { attempts: 2, best_score: 400_000_000_000 };
    assert_eq!((p.attempts(), p.best_score()), (2, 400_000_000_000));
    assert!(!p.is_mastered() && !p.is_failed());
    let m = LessonStatus::Mastered { attempts: 3, score: 900_000_000_000 };
    assert_eq!((m.attempts(), m.best_score()), (3, 900_000_000_000));
    assert!(m.is_mastered() && !m.is_failed());
    let f = LessonStatus::Failed { attempts: 5, best_score: 100_000_000_000 };
    assert_eq!((f.attempts(), f.best_score()), (5, 100_000_000_000));
    assert!(f.is_failed() && !f.is_mastered());
}

#[test]
fn record_attempt_walks_through_the_statuses() {
    let mut t = MasteryTracker::new(2);
    let lesson = Lesson::new(0, 0).with_success_threshold(600_000_000_000).with_max_attempts(3);
    assert!(!t.record_attempt(1, 200_000_000_000, &lesson));
    assert_eq!(*t.status(1), LessonStatus::InProgress { attempts: 1, best_score: 200_000_000_000 });
    assert!(!t.record_attempt(1, 100_000_000_000, &lesson));
    assert_eq!(*t.status(1), LessonStatus::InProgress { attempts: 2, best_score: 200_000_000_000 });
    assert!(t.record_attempt(1, 600_000_000_000, &lesson));
    assert_eq!(*t.status(1), LessonStatus::Mastered { attempts: 3, score: 600_000_000_000 });
    assert_eq!(*t.status(0), LessonStatus::NotStarted);
    assert_eq!(t.total_attempts(), 3);
}

#[test]
fn best_score_starts_from_zero() {
    let mut t = MasteryTracker::new(1);
    let lesson = Lesson::new(0, 0);
    t.record_attempt(0, -300_000_000_000, &lesson);
    assert_eq!(*t.status(0), LessonStatus::InProgress { attempts: 1, best_score: 0 });
}

#[test]
fn mastered_keeps_the_passing_score() {
    let mut t = MasteryTracker::new(1);
    let lesson = Lesson::new(0, 0).with_success_threshold(500_000_000_000);
    t.record_attempt(0, 400_000_000_000, &lesson);
    t.record_attempt(0, 550_000_000_000, &lesson);
    assert_eq!(*t.status(0), LessonStatus::Mastered { attempts: 2, score: 550_000_000_000 });
}

#[test]
fn no_attempts_allowed_means_failed() {
    let mut t = MasteryTracker::new(1);
    let lesson = Lesson::new(0, 0).with_max_attempts(0);
    assert!(!t.record_attempt(0, 1_000_000_000_000, &lesson));
    assert_eq!(*t.status(0), LessonStatus::Failed { attempts: 1, best_score: 1_000_000_000_000 });
}

#[test]
fn passing_after_the_last_attempt_does_not_master() {
    let mut t = MasteryTracker::new(1);
    let lesson = Lesson::new(0, 0).with_max_attempts(1);
    t.record_attempt(0, 0, &lesson);
    assert!(!t.record_attempt(0, 1_000_000_000_000, &lesson));
    assert_eq!(*t.status(0), LessonStatus::Failed { attempts: 2, best_score: 1_000_000_000_000 });
}

#[test]
fn counts_rates_and_review() {
    let mut t = MasteryTracker::new(4);
    let easy = Lesson::new(0, 0).with_success_threshold(500_000_000_000).with_max_attempts(1);
    t.record_attempt(0, 900_000_000_000, &easy);
    t.record_attempt(1, 550_000_000_000, &easy);
    t.record_attempt(2, 100_000_000_000, &easy);
    assert_eq!(t.mastered_count(), 2);
    assert_eq!(t.failed_count(), 1);
    assert_eq!(t.mastery_rate(), Fraction { numerator: 2, denominator: 4 });
    // 0.9 is not below 0.5 + 0.1; 0.55 is
    assert_eq!(t.lessons_for_review(500_000_000_000), vec![1, 2]);
    // exactly threshold + 0.1 needs no review
    assert_eq!(t.lessons_for_review(800_000_000_000), vec![1, 2]);
    assert_eq!(t.lessons_for_review(800_001_000_000), vec![0, 1, 2]);
    assert_eq!(t.best_scores(), vec![900_000_000_000, 550_000_000_000, 100_000_000_000, 0]);
    assert_eq!(t.average_score(), Mean { total: 1_550_000_000_000, count: 4 });
    assert_eq!(t.total_attempts(), 3);
    assert_eq!(t.statuses().len(), 4);
}

#[test]
fn empty_tracker_rates_zero() {
    let t = MasteryTracker::new(0);
    assert_eq!(t.mastery_rate(), Fraction { numerator: 0, denominator: 1 });
    assert_eq!(t.average_score(), Mean { total: 0, count: 0 });
    assert!(t.lessons_for_review(0).is_empty());
}

#[test]
fn averages_are_exact() {
    let mut t = MasteryTracker::new(2);
    let lesson = Lesson::new(0, 0).with_success_threshold(-10);
    t.record_attempt(0, -3, &lesson);
    assert_eq!(*t.status(0), LessonStatus::Mastered { attempts: 1, score: 0 });
    assert_eq!(t.best_scores(), vec![0, 0]);
    assert_eq!(t.average_score(), Mean { total: 0, count: 2 });
    let mut u = MasteryTracker::new(2);
    u.record_attempt(0, 1_000_000, &Lesson::new(0, 0));
    // best scores 0.000001 and 0: mean 5e-7, kept exactly
    assert_eq!(u.average_score(), Mean { total: 1_000_000, count: 2 });
    let mut s = LessonState::new();
    s.record(1);
    s.record(2);
    assert_eq!(s.average_score(), Mean { total: 3, count: 2 });
    s.record(-6);
    assert_eq!(s.average_score(), Mean { total: -3, count: 3 });
}

#[test]
fn lesson_state_basics() {
    let mut s = LessonState::new();
    assert_eq!(s.attempt, 0);
    assert_eq!(s.best_score(), 0);
    assert_eq!(s.average_score(), Mean { total: 0, count: 0 });
    assert_eq!(s.consecutive_passes(0), 0);
    s.record(-200_000_000_000);
    assert_eq!(s.best_score(), 0);
    s.record(800_000_000_000);
    s.record(100_000_000_000);
    assert_eq!(s.attempt, 3);
    assert_eq!(s.scores, vec![-200_000_000_000, 800_000_000_000, 100_000_000_000]);
    assert_eq!(s.consecutive_passes(700_000_000_000), 0);
    assert_eq!(s.consecutive_passes(100_000_000_000), 2);
    assert_eq!(s.consecutive_passes(-200_000_000_000), 3);
    assert!(!s.passed);
}

#[test]
fn mastered_keeps_the_best_score() {
    let mut t = MasteryTracker::new(1);
    let lesson = Lesson::new(0, 500_000_000_000);
    assert!(t.record_attempt(0, 900_000_000_000, &lesson));
    assert!(t.record_attempt(0, 750_000_000_000, &lesson));
    assert!(t.status(0).is_mastered());
    assert_eq!(t.status(0).attempts(), 2);
    assert_eq!(t.status(0).best_score(), 900_000_000_000);
    // a later miss keeps the best score too
    assert!(!t.record_attempt(0, 100_000_000_000, &lesson));
    assert_eq!(*t.status(0), LessonStatus::InProgress { attempts: 3, best_score: 900_000_000_000 });
}

#[test]
fn each_attempt_adds_one_to_the_total() {
    let mut t = MasteryTracker::new(3);
    let lesson = Lesson::new(0, 0).with_max_attempts(2);
    let mut expected = 0;
    for (i, score) in [(0usize, 100_000_000_000i64), (2, 800_000_000_000), (0, 200_000_000_000), (0, 900_000_000_000), (1, 0)] {
        t.record_attempt(i, score, &lesson);
        expected += 1;
        assert_eq!(t.total_attempts(), expected);
    }
}
