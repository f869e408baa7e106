//! Fixed-point numbers and their decimal text.
//!
//! Difficulties, scores, thresholds and rates are fixed-point integers in
//! trillionths: the real value `x` is stored as `x * SCALE`.
use vstd::prelude::*;

verus! {

/// The fixed-point unit: the stored value of the real number `1.0`.
pub const SCALE: i64 = 1_000_000_000_000;

/// A nonnegative ratio `numerator / denominator`; a zero denominator stands for
/// the ratio `0`.
#[derive(Debug, Clone, Copy, PartialEq, Eq, Structural)]
pub struct Fraction {
    pub numerator: usize,
    pub denominator: usize,
}

/// Whether a fraction is at least one.
pub open spec fn reaches_one(f: Fraction) -> bool {
    f.denominator > 0 && f.numerator >= f.denominator
}

/// The value of a fraction in fixed-point units, rounded down.
pub open spec fn fraction_units(f: Fraction) -> int {
    if f.denominator == 0 {
        0
    } else {
        f.numerator * SCALE / f.denominator as int
    }
}

impl Fraction {
    /// The value of the fraction in fixed-point units, rounded down.
    pub fn to_units(&self) -> (r: i128)
        ensures
            r == fraction_units(*self),
    {
        if self.denominator == 0 {
            0
        } else {
            let n: u128 = self.numerator as u128 * 1_000_000_000_000u128;
            let q: u128 = n / (self.denominator as u128);
            proof {
                assert(q <= n) by (nonlinear_arith)
                    requires
                        q == n / (self.denominator as u128),
                        self.denominator >= 1,
                ;
            }
            q as i128
        }
    }
}

/// The larger of two integers.
pub open spec fn max_int(a: int, b: int) -> int {
    if a >= b {
        a
    } else {
        b
    }
}

/// `a / b` rounded down, for a positive `b`.
pub fn div_floor(a: i128, b: i128) -> (r: i128)
    requires
        b > 0,
    ensures
        r == a / b,
{
    proof {
        lemma_div_bounds(a as int, b as int);
    }
    match a.checked_div_euclid(b) {
        Some(q) => q,
        None => 0,
    }
}

/// Dividing by a positive integer keeps the quotient between the dividend and zero.
pub proof fn lemma_div_bounds(a: int, b: int)
    requires
        b > 0,
    ensures
        a >= 0 ==> 0 <= a / b <= a,
        a < 0 ==> a <= a / b < 0,
{
    if a >= 0 {
        assert(0 <= a / b <= a) by (nonlinear_arith)
            requires
                a >= 0,
                b > 0,
        ;
    } else {
        assert(a <= a / b < 0) by (nonlinear_arith)
            requires
                a < 0,
                b > 0,
        ;
    }
}

/// The sum of a sequence of fixed-point values.
pub open spec fn sum_values(s: Seq<i64>) -> int
    decreases s.len(),
{
    if s.len() == 0 {
        0
    } else {
        sum_values(s.drop_last()) + s.last()
    }
}

/// The mean of a sequence of fixed-point values, rounded down; `0` when empty.
pub open spec fn mean_value(s: Seq<i64>) -> int {
    if s.len() == 0 {
        0
    } else {
        sum_values(s) / s.len() as int
    }
}

proof fn lemma_sum_bounds(s: Seq<i64>)
    ensures
        s.len() * i64::MIN <= sum_values(s) <= s.len() * i64::MAX,
    decreases s.len(),
{
    if s.len() > 0 {
        lemma_sum_bounds(s.drop_last());
        let k = s.drop_last().len();
        assert(s.len() * i64::MIN == k * i64::MIN + i64::MIN) by (nonlinear_arith)
            requires
                s.len() == k + 1,
        ;
        assert(s.len() * i64::MAX == k * i64::MAX + i64::MAX) by (nonlinear_arith)
            requires
                s.len() == k + 1,
        ;
    }
}

proof fn lemma_mean_in_range(s: Seq<i64>)
    requires
        s.len() > 0,
    ensures
        i64::MIN <= sum_values(s) / s.len() as int <= i64::MAX,
{
    lemma_sum_bounds(s);
    let n = s.len() as int;
    let t = sum_values(s);
    assert(i64::MIN <= t / n <= i64::MAX) by (nonlinear_arith)
        requires
            n > 0,
            n * i64::MIN <= t <= n * i64::MAX,
    {
        vstd::arithmetic::div_mod::lemma_div_is_ordered(t, n * i64::MAX, n);
        vstd::arithmetic::div_mod::lemma_div_is_ordered(n * i64::MIN, t, n);
        vstd::arithmetic::div_mod::lemma_div_multiples_vanish(i64::MAX as int, n);
        vstd::arithmetic::div_mod::lemma_div_multiples_vanish(i64::MIN as int, n);
    }
}

/// An exact mean: the real value `total / count` (in fixed-point units), or
/// zero when `count` is zero.
#[derive(Debug, Clone, Copy, PartialEq, Eq, Structural)]
pub struct Mean {
    pub total: i128,
    pub count: usize,
}

/// The exact mean of the values: their sum over their number.
pub fn mean_of(values: &[i64]) -> (r: Mean)
    ensures
        r.total == sum_values(values@),
        r.count == values@.len(),
{
    let n = values.len();
    let mut total: i128 = 0;
    let mut i: usize = 0;
    while i < n
        invariant
            n == values@.len(),
            0 <= i <= n,
            total == sum_values(values@.take(i as int)),
        decreases n - i,
    {
        proof {
            assert(values@.take(i + 1).drop_last() =~= values@.take(i as int));
            lemma_sum_bounds(values@.take(i + 1));
            assert(i + 1 <= usize::MAX);
            assert((i + 1) * i64::MAX < i128::MAX) by (nonlinear_arith)
                requires
                    i + 1 <= 0xffff_ffff_ffff_ffffint,
            ;
            assert((i + 1) * i64::MIN > i128::MIN) by (nonlinear_arith)
                requires
                    i + 1 <= 0xffff_ffff_ffff_ffffint,
            ;
        }
        total = total + values[i] as i128;
        i = i + 1;
    }
    proof {
        assert(values@.take(n as int) =~= values@);
    }
    Mean { total, count: n }
}

/// The mean of the values, rounded down; `0` for no values.
pub fn mean_floor(values: &[i64]) -> (r: i64)
    ensures
        r == mean_value(values@),
{
    let m = mean_of(values);
    if m.count == 0 {
        return 0;
    }
    proof {
        lemma_mean_in_range(values@);
    }
    let q = div_floor(m.total, m.count as i128);
    q as i64
}

/// `a / b` rounded to the nearest integer, ties to the even neighbour.
pub open spec fn round_div(a: nat, b: nat) -> nat
    recommends
        b > 0,
{
    let q = a / b;
    let r = a % b;
    if 2 * r > b || (2 * r == b && q % 2 == 1) {
        q + 1
    } else {
        q
    }
}

/// `a / b` rounded to the nearest integer, ties to the even neighbour.
pub fn round_div_exec(a: u128, b: u128) -> (r: u128)
    requires
        b > 0,
        a < u128::MAX / 2,
    ensures
        r == round_div(a as nat, b as nat),
{
    let q = a / b;
    let rem = a % b;
    proof {
        assert(q <= a) by (nonlinear_arith)
            requires
                q == a / b,
                b > 0,
        ;
        assert(rem < b) by (nonlinear_arith)
            requires
                rem == a % b,
                b > 0,
        ;
    }
    if rem > b - rem || (rem == b - rem && q % 2 == 1) {
        q + 1
    } else {
        q
    }
}

} // verus!
