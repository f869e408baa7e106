//! Decimal text of integers and fixed-point values.
use vstd::prelude::*;
use crate::fixed::{round_div, round_div_exec};

verus! {

/// The character of a decimal digit.
pub open spec fn digit_char(d: int) -> char {
    if d == 0 {
        '0'
    } else if d == 1 {
        '1'
    } else if d == 2 {
        '2'
    } else if d == 3 {
        '3'
    } else if d == 4 {
        '4'
    } else if d == 5 {
        '5'
    } else if d == 6 {
        '6'
    } else if d == 7 {
        '7'
    } else if d == 8 {
        '8'
    } else {
        '9'
    }
}

/// The decimal digits of a natural number, without leading zeros.
pub open spec fn decimal(n: nat) -> Seq<char>
    decreases n,
{
    if n < 10 {
        seq![digit_char(n as int)]
    } else {
        decimal(n / 10).push(digit_char((n % 10) as int))
    }
}

pub fn digit_str(d: u64) -> (r: &'static str)
    requires
        d < 10,
    ensures
        r@ == seq![digit_char(d as int)],
{
    if d == 0 {
        proof { reveal_strlit("0"); }
        "0"
    } else if d == 1 {
        proof { reveal_strlit("1"); }
        "1"
    } else if d == 2 {
        proof { reveal_strlit("2"); }
        "2"
    } else if d == 3 {
        proof { reveal_strlit("3"); }
        "3"
    } else if d == 4 {
        proof { reveal_strlit("4"); }
        "4"
    } else if d == 5 {
        proof { reveal_strlit("5"); }
        "5"
    } else if d == 6 {
        proof { reveal_strlit("6"); }
        "6"
    } else if d == 7 {
        proof { reveal_strlit("7"); }
        "7"
    } else if d == 8 {
        proof { reveal_strlit("8"); }
        "8"
    } else {
        proof { reveal_strlit("9"); }
        "9"
    }
}

/// Appends the decimal digits of `n`.
pub fn push_decimal(s: &mut String, n: u128)
    ensures
        final(s)@ == old(s)@ + decimal(n as nat),
    decreases n,
{
    if n >= 10 {
        push_decimal(s, n / 10);
    }
    let d = digit_str((n % 10) as u64);
    s.append(d);
    proof {
        if n < 10 {
            assert(n % 10 == n);
        }
    }
}

/// The text of a fixed-point value with two decimals: its magnitude rounded to
/// the nearest hundredth (ties to even), with a minus sign when negative.
pub open spec fn hundredths_text(v: int) -> Seq<char> {
    let h = round_div((if v < 0 { -v } else { v }) as nat, 10_000_000_000);
    (if v < 0 {
        seq!['-']
    } else {
        Seq::<char>::empty()
    }) + decimal(h / 100) + seq!['.', digit_char(((h / 10) % 10) as int), digit_char((h % 10) as int)]
}

/// Appends a fixed-point value with two decimals.
pub fn push_hundredths(s: &mut String, v: i64)
    ensures
        final(s)@ == old(s)@ + hundredths_text(v as int),
{
    let magnitude: u128 = if v < 0 {
        (-(v as i128)) as u128
    } else {
        v as u128
    };
    let h = round_div_exec(magnitude, 10_000_000_000);
    proof {
        assert(h <= magnitude / 10_000_000_000 + 1);
    }
    let ghost before = s@;
    if v < 0 {
        proof { reveal_strlit("-"); }
        s.append("-");
    }
    let ghost signed = s@;
    push_decimal(s, h / 100);
    proof { reveal_strlit("."); }
    s.append(".");
    s.append(digit_str(((h / 10) % 10) as u64));
    s.append(digit_str((h % 10) as u64));
    proof {
        let sign = if v < 0 { seq!['-'] } else { Seq::<char>::empty() };
        assert(signed =~= before + sign);
        assert(s@ =~= old(s)@ + hundredths_text(v as int));
    }
}

/// The text of the ratio `num / den` as a percentage with one decimal,
/// rounded to the nearest tenth (ties to even); `0.0` when `den` is zero.
pub open spec fn percent_text(num: nat, den: nat) -> Seq<char> {
    let t = if den == 0 { 0 } else { round_div(num * 1000, den) };
    decimal(t / 10) + seq!['.', digit_char((t % 10) as int)]
}

/// Appends the ratio `num / den` as a percentage with one decimal.
pub fn push_percent(s: &mut String, num: usize, den: usize)
    ensures
        final(s)@ == old(s)@ + percent_text(num as nat, den as nat),
{
    let t: u128 = if den == 0 {
        0
    } else {
        round_div_exec(num as u128 * 1000, den as u128)
    };
    proof {
        if den > 0 {
            assert(t <= num * 1000 + 1) by (nonlinear_arith)
                requires
                    den > 0,
                    t == round_div((num * 1000) as nat, den as nat),
            ;
        }
    }
    push_decimal(s, t / 10);
    proof { reveal_strlit("."); }
    s.append(".");
    s.append(digit_str((t % 10) as u64));
    proof {
        assert(s@ =~= old(s)@ + percent_text(num as nat, den as nat));
    }
}

} // verus!
