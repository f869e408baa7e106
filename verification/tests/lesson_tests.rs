use ternary_curriculum::{Curriculum, DifficultySchedule, Lesson, ProgressionRule};

fn no_geometric(_s: i64, _e: i64, _n: usize, _d: usize) -> i64 {
    panic!("no geometric level expected")
}

fn geometric(start: i64, end: i64, num: usize, den: usize) -> i64 {
    let s = start as f64;
    let e = end as f64;
    (s * (e / s).powf(num as f64 / den as f64)).round() as i64
}

#[test]
fn test_lesson_creation() {
    let l = Lesson::new(3, 500_000_000_000);
    assert_eq!(l.index, 3);
    assert_eq!(l.difficulty, 500_000_000_000);
}

#[test]
fn test_lesson_pass() {
    let l = Lesson::new(0, 500_000_000_000).with_success_threshold(700_000_000_000);
    assert!(l.is_passed(800_000_000_000));
    assert!(!l.is_passed(600_000_000_000));
}

#[test]
fn test_lesson_env_config() {
    let l = Lesson::new(0, 500_000_000_000)
        .with_env_config("noise", "0.1")
        .with_env_config("horizon", "10");
    assert_eq!(l.env("noise"), Some("0.1"));
    assert_eq!(l.env("horizon"), Some("10"));
    assert_eq!(l.env("missing"), None);
}

#[test]
fn test_curriculum_from_schedule() {
    let schedule = DifficultySchedule::linear(100_000_000_000, 1_000_000_000_000, 5);
    let c = Curriculum::from_schedule("test", &schedule, no_geometric);
    assert_eq!(c.len(), 5);
}

#[test]
fn test_curriculum_empty() {
    let c = Curriculum::new("empty");
    assert!(c.is_empty());
    assert_eq!(c.len(), 0);
}

#[test]
fn new_lesson_defaults() {
    let l = Lesson::new(3, 500_000_000_000);
    assert_eq!(l.success_threshold, 700_000_000_000);
    assert_eq!(l.max_attempts, 10);
    assert!(l.env_config.is_empty());
    assert_eq!(l.description, "Lesson 3 (difficulty 0.50)");
}

#[test]
fn description_rounds_to_hundredths() {
    assert_eq!(Lesson::new(0, 125_000_000_000).description, "Lesson 0 (difficulty 0.12)");
    assert_eq!(Lesson::new(1, 135_000_000_000).description, "Lesson 1 (difficulty 0.14)");
    assert_eq!(Lesson::new(2, 1_004_999_000_000).description, "Lesson 2 (difficulty 1.00)");
    assert_eq!(Lesson::new(12, 99_995_000_000_000).description, "Lesson 12 (difficulty 100.00)");
    assert_eq!(Lesson::new(7, -500_000_000_000).description, "Lesson 7 (difficulty -0.50)");
    assert_eq!(Lesson::new(8, -1_000_000_000).description, "Lesson 8 (difficulty -0.00)");
    assert_eq!(Lesson::new(9, 0).description, "Lesson 9 (difficulty 0.00)");
}

#[test]
fn builders_change_one_thing() {
    let l = Lesson::new(4, 250_000_000_000)
        .with_max_attempts(3)
        .with_description("warm-up");
    assert_eq!(l.max_attempts, 3);
    assert_eq!(l.description, "warm-up");
    assert_eq!(l.index, 4);
    assert_eq!(l.difficulty, 250_000_000_000);
    assert_eq!(l.success_threshold, 700_000_000_000);
}

#[test]
fn env_reads_back_and_first_entry_wins() {
    let l = Lesson::new(0, 0).with_env_config("seed", "1");
    assert_eq!(l.env("seed"), Some("1"));
    let l = l.with_env_config("seed", "2").with_env_config("mode", "fast");
    assert_eq!(l.env("seed"), Some("1"));
    assert_eq!(l.env("mode"), Some("fast"));
    assert_eq!(l.env_config.len(), 3);
}

#[test]
fn threshold_is_inclusive() {
    let l = Lesson::new(0, 0);
    assert!(l.is_passed(700_000_000_000));
    assert!(!l.is_passed(699_999_000_000));
}

#[test]
fn curriculum_settings_and_lessons() {
    let mut c = Curriculum::new("course")
        .with_progression(ProgressionRule::ConsecutivePasses(3))
        .with_review(false);
    assert_eq!(c.name, "course");
    assert_eq!(c.progression, ProgressionRule::ConsecutivePasses(3));
    assert!(!c.allow_review);
    assert_eq!(c.review_threshold, 500_000_000_000);
    c.add_lesson(Lesson::new(0, 100_000_000_000));
    c.add_lesson(Lesson::new(1, 200_000_000_000));
    assert_eq!(c.len(), 2);
    assert_eq!(c.lesson(1).map(|l| l.difficulty), Some(200_000_000_000));
    assert!(c.lesson(2).is_none());
    assert_eq!(c.lessons().len(), 2);
    assert_eq!(c.lessons()[0].index, 0);
}

#[test]
fn default_progression_is_pass_once() {
    assert_eq!(ProgressionRule::default(), ProgressionRule::PassOnce);
    assert_eq!(Curriculum::new("x").progression, ProgressionRule::PassOnce);
    assert!(Curriculum::new("x").allow_review);
}

#[test]
fn from_schedule_builds_indexed_lessons() {
    let schedule = DifficultySchedule::linear(100_000_000_000, 1_000_000_000_000, 5);
    let c = Curriculum::from_schedule("ramp", &schedule, no_geometric);
    let difficulties: Vec<i64> = c.lessons().iter().map(|l| l.difficulty).collect();
    assert_eq!(difficulties, vec![100_000_000_000, 280_000_000_000, 460_000_000_000, 640_000_000_000, 820_000_000_000]);
    for (i, l) in c.lessons().iter().enumerate() {
        assert_eq!(l.index, i);
        assert_eq!(l.max_attempts, 10);
    }
    assert_eq!(c.lessons()[1].description, "Lesson 1 (difficulty 0.28)");
}

#[test]
fn from_schedule_evaluates_geometric_points() {
    let schedule = DifficultySchedule::exponential(1_000_000_000_000, 100_000_000_000_000, 4);
    let c = Curriculum::from_schedule("exp", &schedule, geometric);
    let difficulties: Vec<i64> = c.lessons().iter().map(|l| l.difficulty).collect();
    assert_eq!(difficulties[0], 1_000_000_000_000);
    assert_eq!(difficulties[2], 10_000_000_000_000);
    assert!(difficulties[1] > 1_000_000_000_000 && difficulties[1] < difficulties[2]);
    assert!(difficulties[3] > difficulties[2] && difficulties[3] < 100_000_000_000_000);
}

#[test]
fn from_adaptive_schedule_uses_current_level() {
    let schedule = DifficultySchedule::adaptive(200_000_000_000, 900_000_000_000, 3);
    let c = Curriculum::from_schedule("adaptive", &schedule, no_geometric);
    assert_eq!(c.len(), 3);
    assert!(c.lessons().iter().all(|l| l.difficulty == 200_000_000_000));
}
