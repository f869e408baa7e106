//! Difficulty schedules: how hard each step of a curriculum is.
use vstd::prelude::*;
use crate::fixed::{div_floor, lemma_div_bounds, SCALE};

verus! {

/// Configurable difficulty ramp strategy. All difficulties are fixed-point
/// values (see [`SCALE`]).
#[derive(Debug, Clone, Copy, PartialEq, Eq, Structural)]
pub enum DifficultySchedule {
    /// Linear interpolation from start to end over `steps` increments.
    Linear { start: i64, end: i64, steps: usize },
    /// Exponential interpolation from start to end over `steps` increments.
    Exponential { start: i64, end: i64, steps: usize },
    /// Adaptive schedule that adjusts based on mastery feedback.
    Adaptive {
        start: i64,
        end: i64,
        steps: usize,
        current: i64,
        mastery_rate: i64,
        acceleration: i64,
    },
}

/// A difficulty level as the schedule defines it.
#[derive(Debug, Clone, Copy, PartialEq, Eq, Structural)]
pub enum Level {
    /// A difficulty that is a fixed-point value.
    Exact(i64),
    /// The geometric point `start * (end / start) ^ (num / den)`, with
    /// `0 < num < den`; it is in general irrational.
    Geometric { start: i64, end: i64, num: usize, den: usize },
}

/// Interpolation from `start` towards `end` at the fraction `k / n`, rounded
/// towards `start`.
pub open spec fn lerp(start: int, end: int, k: int, n: int) -> int {
    if end >= start {
        start + (end - start) * k / n
    } else {
        start - (start - end) * k / n
    }
}

/// The acceleration an adaptive schedule moves towards for a mastery rate.
pub open spec fn target_acceleration(rate: int) -> int {
    if rate > 800_000_000_000 {
        1_500_000_000_000
    } else if rate < 400_000_000_000 {
        500_000_000_000
    } else {
        1_000_000_000_000
    }
}

/// Whether `t` is one of the accelerations an adaptive schedule moves towards.
pub open spec fn is_target(t: int) -> bool {
    500_000_000_000 <= t <= 1_500_000_000_000
}

/// `x` clamped to `[lo, hi]`.
pub open spec fn clamp(x: int, lo: int, hi: int) -> int {
    if x < lo {
        lo
    } else if x > hi {
        hi
    } else {
        x
    }
}

/// Whether `update_mastery` can be applied: an adaptive ramp must not run
/// downwards, since its difficulty is clamped to `[start, end]`.
pub open spec fn update_allowed(s: DifficultySchedule) -> bool {
    match s {
        DifficultySchedule::Adaptive { start, end, .. } => start <= end,
        _ => true,
    }
}

impl DifficultySchedule {
    /// Total number of steps in this schedule.
    pub open spec fn spec_steps(self) -> usize {
        match self {
            DifficultySchedule::Linear { steps, .. } => steps,
            DifficultySchedule::Exponential { steps, .. } => steps,
            DifficultySchedule::Adaptive { steps, .. } => steps,
        }
    }

    /// The difficulty level at step `i`.
    pub open spec fn spec_level(self, i: usize) -> Level {
        match self {
            DifficultySchedule::Linear { start, end, steps } => {
                if steps == 0 {
                    Level::Exact(end)
                } else {
                    let k = if i < steps { i } else { steps };
                    Level::Exact(lerp(start as int, end as int, k as int, steps as int) as i64)
                }
            },
            DifficultySchedule::Exponential { start, end, steps } => {
                if steps == 0 {
                    Level::Exact(end)
                } else {
                    let k = if i < steps { i } else { steps };
                    if start == 0 {
                        Level::Exact(lerp(0, end as int, k as int, steps as int) as i64)
                    } else if k == 0 || start == end {
                        Level::Exact(start)
                    } else if k == steps {
                        Level::Exact(end)
                    } else {
                        Level::Geometric { start, end, num: k, den: steps }
                    }
                }
            },
            DifficultySchedule::Adaptive { current, .. } => Level::Exact(current),
        }
    }

    /// The schedule after feeding it the mastery rate `rate`.
    pub open spec fn spec_update(self, rate: i64) -> DifficultySchedule {
        self.spec_update_with(target_acceleration(rate as int), rate)
    }

    /// The schedule after moving its acceleration towards `target` and
    /// recording the mastery rate `rate`.
    pub open spec fn spec_update_with(self, target: int, rate: i64) -> DifficultySchedule {
        match self {
            DifficultySchedule::Adaptive { start, end, steps, current, mastery_rate, acceleration } => {
                let acc = (acceleration * 7 + target * 3) / 10;
                let step = (end - start) / 20;
                let moved = current + step * acc / (SCALE as int);
                DifficultySchedule::Adaptive {
                    start,
                    end,
                    steps,
                    current: clamp(moved, start as int, end as int) as i64,
                    mastery_rate: rate,
                    acceleration: acc as i64,
                }
            },
            _ => self,
        }
    }

    /// Create a linear schedule from `start` to `end` over `steps` increments.
    pub fn linear(start: i64, end: i64, steps: usize) -> (r: Self)
        ensures
            r == (DifficultySchedule::Linear { start, end, steps }),
    {
        DifficultySchedule::Linear { start, end, steps }
    }

    /// Create an exponential schedule from `start` to `end` over `steps` increments.
    pub fn exponential(start: i64, end: i64, steps: usize) -> (r: Self)
        ensures
            r == (DifficultySchedule::Exponential { start, end, steps }),
    {
        DifficultySchedule::Exponential { start, end, steps }
    }

    /// Create an adaptive schedule that speeds up when mastery is high and slows down when low.
    pub fn adaptive(start: i64, end: i64, steps: usize) -> (r: Self)
        ensures
            r == (DifficultySchedule::Adaptive {
                start,
                end,
                steps,
                current: start,
                mastery_rate: 500_000_000_000,
                acceleration: 1_000_000_000_000,
            }),
    {
        DifficultySchedule::Adaptive {
            start,
            end,
            steps,
            current: start,
            mastery_rate: 500_000_000_000,
            acceleration: 1_000_000_000_000,
        }
    }

    /// Total number of steps in this schedule.
    pub fn steps(&self) -> (r: usize)
        ensures
            r == self.spec_steps(),
    {
        match *self {
            DifficultySchedule::Linear { steps, .. } => steps,
            DifficultySchedule::Exponential { steps, .. } => steps,
            DifficultySchedule::Adaptive { steps, .. } => steps,
        }
    }

    /// The difficulty level at step `i`.
    pub fn difficulty_at(&self, i: usize) -> (r: Level)
        ensures
            r == self.spec_level(i),
    {
        match *self {
            DifficultySchedule::Linear { start, end, steps } => {
                if steps == 0 {
                    return Level::Exact(end);
                }
                let k = if i < steps { i } else { steps };
                Level::Exact(lerp_exec(start, end, k, steps))
            },
            DifficultySchedule::Exponential { start, end, steps } => {
                if steps == 0 {
                    return Level::Exact(end);
                }
                let k = if i < steps { i } else { steps };
                if start == 0 {
                    Level::Exact(lerp_exec(0, end, k, steps))
                } else if k == 0 || start == end {
                    Level::Exact(start)
                } else if k == steps {
                    Level::Exact(end)
                } else {
                    Level::Geometric { start, end, num: k, den: steps }
                }
            },
            DifficultySchedule::Adaptive { current, .. } => Level::Exact(current),
        }
    }

    /// Update an adaptive schedule with the latest mastery rate; other
    /// schedules stay as they are.
    pub fn update_mastery(&mut self, mastery_rate: i64)
        requires
            update_allowed(*old(self)),
        ensures
            *final(self) == old(self).spec_update(mastery_rate),
    {
        let target: i64 = if mastery_rate > 800_000_000_000 {
            1_500_000_000_000
        } else if mastery_rate < 400_000_000_000 {
            500_000_000_000
        } else {
            1_000_000_000_000
        };
        self.update_with(target, mastery_rate);
    }

    /// Move an adaptive schedule's acceleration towards `target`, record the
    /// mastery rate, and move its difficulty; other schedules stay as they are.
    pub(crate) fn update_with(&mut self, target: i64, mastery_rate: i64)
        requires
            update_allowed(*old(self)),
            is_target(target as int),
        ensures
            *final(self) == old(self).spec_update_with(target as int, mastery_rate),
    {
        match *self {
            DifficultySchedule::Adaptive { start, end, steps, current, mastery_rate: _, acceleration } => {
                let acc = div_floor(acceleration as i128 * 7 + target as i128 * 3, 10);
                proof {
                    let a = acceleration as int;
                    assert(i64::MIN <= (a * 7 + target * 3) / 10 <= i64::MAX) by (nonlinear_arith)
                        requires
                            i64::MIN <= a <= i64::MAX,
                            is_target(target as int),
                    ;
                }
                let step = div_floor(end as i128 - start as i128, 20);
                proof {
                    lemma_div_bounds(end - start, 20);
                    assert(step <= 0x1000_0000_0000_0000) by (nonlinear_arith)
                        requires
                            step == (end - start) / 20,
                            0 <= end - start <= 0x1_0000_0000_0000_0000,
                    ;
                    assert(-0x1000_0000_0000_0000_0000_0000_0000_0000 <= step * acc <= 0x1000_0000_0000_0000_0000_0000_0000_0000) by (nonlinear_arith)
                        requires
                            0 <= step <= 0x1000_0000_0000_0000,
                            i64::MIN <= acc <= i64::MAX,
                    ;
                }
                let moved = div_floor(step * acc, 1_000_000_000_000);
                proof {
                    lemma_div_bounds(step * acc, 1_000_000_000_000);
                }
                let raw = current as i128 + moved;
                let clamped: i128 = if raw < start as i128 {
                    start as i128
                } else if raw > end as i128 {
                    end as i128
                } else {
                    raw
                };
                *self = DifficultySchedule::Adaptive {
                    start,
                    end,
                    steps,
                    current: clamped as i64,
                    mastery_rate,
                    acceleration: acc as i64,
                };
            },
            _ => {},
        }
    }
}

impl Default for DifficultySchedule {
    /// A linear ramp from `0.1` to `1.0` over ten steps.
    fn default() -> (r: Self)
        ensures
            r == (DifficultySchedule::Linear { start: 100_000_000_000, end: 1_000_000_000_000, steps: 10 }),
    {
        DifficultySchedule::linear(100_000_000_000, 1_000_000_000_000, 10)
    }
}

/// Interpolation from `start` towards `end` at the fraction `k / n`.
fn lerp_exec(start: i64, end: i64, k: usize, n: usize) -> (r: i64)
    requires
        0 < n,
        k <= n,
    ensures
        r == lerp(start as int, end as int, k as int, n as int),
{
    if end >= start {
        let diff: u128 = (end as i128 - start as i128) as u128;
        proof {
            assert(diff * k <= 0xffff_ffff_ffff_ffff_ffff_ffff_ffff_ffffint) by (nonlinear_arith)
                requires
                    diff <= 0xffff_ffff_ffff_ffffint,
                    k <= 0xffff_ffff_ffff_ffffint,
            ;
        }
        let part: u128 = diff * (k as u128) / (n as u128);
        proof {
            lemma_part_le(diff as int, k as int, n as int);
        }
        (start as i128 + part as i128) as i64
    } else {
        let diff: u128 = (start as i128 - end as i128) as u128;
        proof {
            assert(diff * k <= 0xffff_ffff_ffff_ffff_ffff_ffff_ffff_ffffint) by (nonlinear_arith)
                requires
                    diff <= 0xffff_ffff_ffff_ffffint,
                    k <= 0xffff_ffff_ffff_ffffint,
            ;
        }
        let part: u128 = diff * (k as u128) / (n as u128);
        proof {
            lemma_part_le(diff as int, k as int, n as int);
        }
        (start as i128 - part as i128) as i64
    }
}

proof fn lemma_part_le(d: int, k: int, n: int)
    requires
        0 <= d,
        0 <= k <= n,
        0 < n,
    ensures
        0 <= d * k / n <= d,
{
    assert(0 <= d * k / n <= d) by (nonlinear_arith)
        requires
            0 <= d,
            0 <= k <= n,
            0 < n,
    {
        vstd::arithmetic::div_mod::lemma_div_is_ordered(d * k, d * n, n);
        vstd::arithmetic::div_mod::lemma_div_multiples_vanish(d, n);
    }
}

/// A linear schedule starts at `start` and reaches `end` at step `steps`,
/// staying there afterwards.
pub proof fn lemma_linear_endpoints(start: i64, end: i64, steps: usize, i: usize)
    requires
        steps > 0,
    ensures
        (DifficultySchedule::Linear { start, end, steps }).spec_level(0) == Level::Exact(start),
        i >= steps ==> (DifficultySchedule::Linear { start, end, steps }).spec_level(i) == Level::Exact(end),
{
    assert(lerp(start as int, end as int, 0, steps as int) == start as int) by (nonlinear_arith)
        requires steps > 0;
    assert(lerp(start as int, end as int, steps as int, steps as int) == end as int) by (nonlinear_arith)
        requires steps > 0;
}

/// A rising linear schedule never gets easier: later steps are at least as
/// hard as earlier ones, and every step lies between `start` and `end`.
pub proof fn lemma_linear_rises(start: i64, end: i64, steps: usize, i: usize, j: usize)
    requires
        start <= end,
        i <= j,
    ensures
        ({
            let s = DifficultySchedule::Linear { start, end, steps };
            &&& s.spec_level(i) is Exact
            &&& s.spec_level(j) is Exact
            &&& start <= s.spec_level(i)->Exact_0 <= s.spec_level(j)->Exact_0 <= end
        }),
{
    if steps > 0 {
        let ki: int = if i < steps { i as int } else { steps as int };
        let kj: int = if j < steps { j as int } else { steps as int };
        let d = end - start;
        assert(0 <= d * ki / steps as int <= d * kj / steps as int <= d) by (nonlinear_arith)
            requires
                0 <= d,
                0 <= ki <= kj <= steps,
                steps > 0,
        {
            vstd::arithmetic::mul::lemma_mul_inequality(ki, kj, d);
            vstd::arithmetic::div_mod::lemma_div_is_ordered(d * ki, d * kj, steps as int);
            vstd::arithmetic::div_mod::lemma_div_is_ordered(d * kj, d * steps, steps as int);
            vstd::arithmetic::div_mod::lemma_div_multiples_vanish(d, steps as int);
        }
    }
}

/// An exponential schedule starts at `start` and reaches `end` at step
/// `steps`, staying there afterwards.
pub proof fn lemma_exponential_endpoints(start: i64, end: i64, steps: usize, i: usize)
    requires
        steps > 0,
    ensures
        (DifficultySchedule::Exponential { start, end, steps }).spec_level(0) == Level::Exact(start),
        i >= steps ==> (DifficultySchedule::Exponential { start, end, steps }).spec_level(i) == Level::Exact(end),
{
    assert(lerp(0, end as int, 0, steps as int) == 0) by (nonlinear_arith)
        requires steps > 0;
    assert(lerp(0, end as int, steps as int, steps as int) == end as int) by (nonlinear_arith)
        requires steps > 0;
}

/// Feeding a mastery rate to a schedule keeps its kind, its bounds and its
/// number of steps; an adaptive difficulty always ends up within `[start, end]`.
pub proof fn lemma_update_stays_in_bounds(s: DifficultySchedule, rate: i64)
    requires
        update_allowed(s),
    ensures
        s.spec_update(rate).spec_steps() == s.spec_steps(),
        s is Linear ==> s.spec_update(rate) == s,
        s is Exponential ==> s.spec_update(rate) == s,
        s is Adaptive ==> ({
            let t = s.spec_update(rate);
            &&& t is Adaptive
            &&& t->Adaptive_start == s->Adaptive_start
            &&& t->Adaptive_end == s->Adaptive_end
            &&& t->Adaptive_mastery_rate == rate
            &&& t->Adaptive_start <= t->Adaptive_current <= t->Adaptive_end
        }),
{
    lemma_update_with_stays_in_bounds(s, target_acceleration(rate as int), rate);
}

/// Moving towards any target keeps the schedule's kind, bounds and steps, and
/// an adaptive difficulty within `[start, end]`.
pub proof fn lemma_update_with_stays_in_bounds(s: DifficultySchedule, target: int, rate: i64)
    requires
        update_allowed(s),
        is_target(target),
    ensures
        s.spec_update_with(target, rate).spec_steps() == s.spec_steps(),
        update_allowed(s.spec_update_with(target, rate)),
        !(s is Adaptive) ==> s.spec_update_with(target, rate) == s,
        s is Adaptive ==> ({
            let t = s.spec_update_with(target, rate);
            &&& t is Adaptive
            &&& t->Adaptive_start == s->Adaptive_start
            &&& t->Adaptive_end == s->Adaptive_end
            &&& t->Adaptive_mastery_rate == rate
            &&& t->Adaptive_start <= t->Adaptive_current <= t->Adaptive_end
        }),
{
}

/// An adaptive schedule within its bounds never gets easier, whatever the
/// mastery rate, as long as its new acceleration is nonnegative (that is,
/// `7 * acceleration + 3 * target >= 0`) or its difficulty is already at
/// `start`; a nonnegative acceleration stays nonnegative.
pub proof fn lemma_adaptive_never_eases(s: DifficultySchedule, rate: i64)
    requires
        s is Adaptive,
        s->Adaptive_start <= s->Adaptive_current <= s->Adaptive_end,
        s->Adaptive_acceleration * 7 + target_acceleration(rate as int) * 3 >= 0 || s->Adaptive_current
            == s->Adaptive_start,
    ensures
        s.spec_update(rate)->Adaptive_current >= s->Adaptive_current,
        s->Adaptive_acceleration >= 0 ==> s.spec_update(rate)->Adaptive_acceleration >= 0,
{
    lemma_update_with_never_eases(s, target_acceleration(rate as int), rate);
}

/// The same as `lemma_adaptive_never_eases`, for any target.
pub proof fn lemma_update_with_never_eases(s: DifficultySchedule, t: int, rate: i64)
    requires
        s is Adaptive,
        is_target(t),
        s->Adaptive_start <= s->Adaptive_current <= s->Adaptive_end,
        s->Adaptive_acceleration * 7 + t * 3 >= 0 || s->Adaptive_current == s->Adaptive_start,
    ensures
        s.spec_update_with(t, rate)->Adaptive_current >= s->Adaptive_current,
        s->Adaptive_acceleration >= 0 ==> s.spec_update_with(t, rate)->Adaptive_acceleration >= 0,
{
    let a = s->Adaptive_acceleration as int;
    let acc = (a * 7 + t * 3) / 10;
    let step = (s->Adaptive_end - s->Adaptive_start) / 20;
    assert(i64::MIN <= acc <= i64::MAX) by (nonlinear_arith)
        requires
            i64::MIN <= a <= i64::MAX,
            is_target(t),
            acc == (a * 7 + t * 3) / 10,
    ;
    if a * 7 + t * 3 >= 0 {
        assert(acc >= 0) by (nonlinear_arith)
            requires
                a * 7 + t * 3 >= 0,
                acc == (a * 7 + t * 3) / 10,
        ;
        assert(step >= 0);
        assert(step * acc / (SCALE as int) >= 0) by (nonlinear_arith)
            requires
                step >= 0,
                acc >= 0,
        ;
    }
}

/// An adaptive schedule speeds up with mastery: feeding it a higher mastery
/// rate never gives a smaller acceleration nor a lower difficulty than feeding
/// it a lower one.
pub proof fn lemma_higher_mastery_never_slower(s: DifficultySchedule, r1: i64, r2: i64)
    requires
        s is Adaptive,
        s->Adaptive_start <= s->Adaptive_end,
        r1 <= r2,
    ensures
        s.spec_update(r1)->Adaptive_acceleration <= s.spec_update(r2)->Adaptive_acceleration,
        s.spec_update(r1)->Adaptive_current <= s.spec_update(r2)->Adaptive_current,
{
    let a = s->Adaptive_acceleration as int;
    let t1 = target_acceleration(r1 as int);
    let t2 = target_acceleration(r2 as int);
    assert(t1 <= t2);
    let acc1 = (a * 7 + t1 * 3) / 10;
    let acc2 = (a * 7 + t2 * 3) / 10;
    assert(acc1 <= acc2) by (nonlinear_arith)
        requires
            t1 <= t2,
            acc1 == (a * 7 + t1 * 3) / 10,
            acc2 == (a * 7 + t2 * 3) / 10,
    {
        vstd::arithmetic::div_mod::lemma_div_is_ordered(a * 7 + t1 * 3, a * 7 + t2 * 3, 10);
    }
    let step = (s->Adaptive_end - s->Adaptive_start) / 20;
    assert(step >= 0);
    assert(step * acc1 / (SCALE as int) <= step * acc2 / (SCALE as int)) by (nonlinear_arith)
        requires
            step >= 0,
            acc1 <= acc2,
    {
        vstd::arithmetic::mul::lemma_mul_inequality(acc1, acc2, step);
        vstd::arithmetic::div_mod::lemma_div_is_ordered(step * acc1, step * acc2, SCALE as int);
    }
    assert(i64::MIN <= acc1 <= i64::MAX && i64::MIN <= acc2 <= i64::MAX) by (nonlinear_arith)
        requires
            i64::MIN <= a <= i64::MAX,
            is_target(t1),
            is_target(t2),
            acc1 == (a * 7 + t1 * 3) / 10,
            acc2 == (a * 7 + t2 * 3) / 10,
    ;
}

/// How an update moves an adaptive schedule: the acceleration moves 30% of
/// the way towards `1.5` when the mastery rate is above `0.8`, towards `0.5`
/// when it is below `0.4`, and towards `1.0` when it lies in `[0.4, 0.8]`
/// (rounded down); the difficulty moves by a twentieth of the ramp times the
/// new acceleration, within `[start, end]`; the rate is recorded.
pub proof fn lemma_update_moves_towards_target(s: DifficultySchedule, rate: i64)
    requires
        s is Adaptive,
        update_allowed(s),
    ensures
        ({
            let a = s->Adaptive_acceleration as int;
            let t = s.spec_update(rate);
            let acc = t->Adaptive_acceleration as int;
            let lo = s->Adaptive_start as int;
            let hi = s->Adaptive_end as int;
            &&& t is Adaptive
            &&& rate > 800_000_000_000 ==> acc == (7 * a + 3 * 1_500_000_000_000) / 10
            &&& rate < 400_000_000_000 ==> acc == (7 * a + 3 * 500_000_000_000) / 10
            &&& 400_000_000_000 <= rate <= 800_000_000_000 ==> acc == (7 * a + 3 * 1_000_000_000_000) / 10
            &&& t->Adaptive_mastery_rate == rate
            &&& t->Adaptive_steps == s->Adaptive_steps
            &&& t->Adaptive_start == lo
            &&& t->Adaptive_end == hi
            &&& {
                let moved = s->Adaptive_current + (hi - lo) / 20 * acc / 1_000_000_000_000;
                t->Adaptive_current == if moved < lo {
                    lo
                } else if moved > hi {
                    hi
                } else {
                    moved
                }
            }
        }),
{
    let a = s->Adaptive_acceleration as int;
    let tg = target_acceleration(rate as int);
    assert(i64::MIN <= (a * 7 + tg * 3) / 10 <= i64::MAX) by (nonlinear_arith)
        requires
            i64::MIN <= a <= i64::MAX,
            is_target(tg),
    ;
}

/// Every interior step of an exponential ramp that starts away from zero and
/// changes is the geometric point `start * (end / start) ^ (i / steps)`, with
/// the ramp's own start and end in that order, whether it rises or falls.
pub proof fn lemma_exponential_interior(start: i64, end: i64, steps: usize, i: usize)
    requires
        start != 0,
        start != end,
        0 < i < steps,
    ensures
        (DifficultySchedule::Exponential { start, end, steps }).spec_level(i) == (Level::Geometric {
            start,
            end,
            num: i,
            den: steps,
        }),
{
}

/// Whether `d` is a value of the level `level`: the level's own value when it
/// is exact, otherwise a value `geometric` returns for the geometric point.
pub open spec fn resolves<G: Fn(i64, i64, usize, usize) -> i64>(level: Level, geometric: G, d: i64) -> bool {
    match level {
        Level::Exact(v) => d == v,
        Level::Geometric { start, end, num, den } => call_ensures(geometric, (start, end, num, den), d),
    }
}

/// Whether `geometric` accepts every geometric point.
pub open spec fn total<G: Fn(i64, i64, usize, usize) -> i64>(geometric: G) -> bool {
    forall|a: i64, b: i64, c: usize, d: usize| #[trigger] geometric.requires((a, b, c, d))
}

/// The difficulty value of a level; a geometric point is evaluated by `geometric`.
pub fn resolve<G: Fn(i64, i64, usize, usize) -> i64>(level: Level, geometric: &G) -> (d: i64)
    requires
        total(*geometric),
    ensures
        resolves(level, *geometric, d),
{
    match level {
        Level::Exact(v) => v,
        Level::Geometric { start, end, num, den } => geometric(start, end, num, den),
    }
}

} // verus!
