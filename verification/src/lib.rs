//! Curriculum learning for agents: progressive training through increasingly
//! difficult lessons, with configurable difficulty schedules and mastery
//! tracking.
//!
//! Difficulties, scores and thresholds are fixed-point numbers in trillionths
//! (see [`fixed::SCALE`]); rates are exact fractions.
pub mod curriculum;
pub mod fixed;
pub mod lesson;
pub mod mastery;
pub mod progression;
pub mod report;
pub mod schedule;
pub mod state;
pub mod text;
pub mod trainer;

pub use curriculum::Curriculum;
pub use fixed::{Fraction, Mean, SCALE};
pub use lesson::Lesson;
pub use mastery::{LessonStatus, MasteryTracker};
pub use progression::ProgressionRule;
pub use report::{CurriculumResult, Elapsed};
pub use schedule::{DifficultySchedule, Level};
pub use state::LessonState;
pub use trainer::CurriculumTrainer;
