# ternary_curriculum

Curriculum learning for agents with proved contracts: difficulty schedules
(linear, exponential, adaptive), lessons with success criteria, mastery
tracking, and a training loop that walks an agent through every lesson.

## Numbers

Difficulties, scores and thresholds are fixed-point integers in trillionths
(`SCALE = 1_000_000_000_000` stands for `1.0`). Rates are exact fractions
(`Fraction`) and means are exact (`Mean`, a total over a count); the
schedule's acceleration target is chosen from the exact mastery rate.
Interpolation and the adaptive update land on whole trillionths (rounded
towards the start of the ramp, and down), and the two-decimal text of a
difficulty rounds to the nearest hundredth, ties to even. An exponential
ramp's interior points are irrational in general; the schedule gives them as
`Level::Geometric`, and the functions that need a number for them take an
evaluator.

## Training

Each lesson is attempted at most `max_attempts` times (a lesson allowing no
attempt is completed without one). The curriculum's `ProgressionRule` decides
when the agent advances: after a passing attempt (`PassOnce`), after `n`
consecutive passing attempts (`ConsecutivePasses(n)`), or once the mean score
reaches the threshold (`AverageScore`). The mastery tracker records every
attempt; a mastered lesson keeps the best score achieved.

## Layout

- `src/fixed.rs`: fixed-point helpers, fractions, rounded means.
- `src/text.rs`: decimal text of integers, hundredths and percentages.
- `src/schedule.rs`: `DifficultySchedule`, `Level`, and the laws of the ramps.
- `src/lesson.rs`: `Lesson`, its builders and environment lookup.
- `src/progression.rs`: `ProgressionRule`.
- `src/curriculum.rs`: `Curriculum`.
- `src/mastery.rs`: `LessonStatus`, `MasteryTracker`.
- `src/state.rs`: `LessonState`.
- `src/report.rs`: `CurriculumResult`, `Elapsed`, the clock.
- `src/trainer.rs`: `CurriculumTrainer` and the laws of a training run.
- `app/lib.rs`: the `f64` front end (conversions and `powf` for geometric points).
