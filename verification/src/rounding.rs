//! Rounding to the nearest value, ties going to even, over whole numbers.
//!
//! Byte counts and durations are reported with two decimals. The printed value is the one that
//! double-precision arithmetic gives: an integer is first rounded to fifty-three significant
//! bits, a division rounds again, and the decimal numeral rounds a third time. Each of these
//! steps rounds to nearest with ties to even, and each is carried out here on integers.

use vstd::arithmetic::div_mod::lemma_div_denominator;
use vstd::arithmetic::power2::{
    lemma2_to64, lemma2_to64_rest, lemma_pow2_adds, lemma_pow2_pos, lemma_pow2_strictly_increases,
    lemma_pow2_unfold, pow2,
};
use vstd::prelude::*;

use crate::text;
use crate::text::push_decimal;

verus! {

/// One more than the largest significand of a double: two to the fifty-third.
pub const SIGNIFICAND_LIMIT: u128 = 0x20_0000_0000_0000;

/// The nearest whole number to `n / d`, the even one of two that are equally near.
pub open spec fn nearest_even(n: nat, d: nat) -> nat {
    let q = n / d;
    let r = n % d;
    if 2 * r < d || (2 * r == d && q % 2 == 0) {
        q
    } else {
        q + 1
    }
}

/// How many low bits of `n` lie beyond the fifty-three that a double keeps.
pub open spec fn excess_bits(n: nat) -> nat
    decreases n,
{
    if n < SIGNIFICAND_LIMIT {
        0
    } else {
        1 + excess_bits(n / 2)
    }
}

/// The significand of the double nearest to `n`, which is this times two to `excess_bits(n)`.
pub open spec fn significand(n: nat) -> nat {
    nearest_even(n, pow2(excess_bits(n)))
}

/// The whole number that the double nearest to `n` stands for.
pub open spec fn as_double(n: nat) -> nat {
    significand(n) * pow2(excess_bits(n))
}

/// Doubles `m` until dividing it by a thousand leaves a full significand, counting the steps.
pub open spec fn widened(m: nat, steps: nat) -> (nat, nat)
    decreases 1000 * SIGNIFICAND_LIMIT - m,
{
    if m == 0 || 2 * m >= 1000 * SIGNIFICAND_LIMIT {
        (m, steps)
    } else {
        widened(2 * m, steps + 1)
    }
}

/// The hundredths that two decimals of the double `n / 1000` show.
pub open spec fn thousandths_to_hundredths(n: nat) -> nat {
    let k = excess_bits(n);
    let (wide, steps) = widened(significand(n), 0);
    let q = nearest_even(wide, 1000);
    if k >= steps {
        100 * q * pow2((k - steps) as nat)
    } else {
        nearest_even(100 * q, pow2((steps - k) as nat))
    }
}

/// A number of hundredths as a numeral with two decimals.
pub open spec fn two_decimals(hundredths: nat) -> Seq<char> {
    text::decimal(hundredths / 100) + seq![
        '.',
        text::digit(hundredths % 100 / 10),
        text::digit(hundredths % 10),
    ]
}

/// The nearest whole number to `n / d`, the even one of two that are equally near.
pub fn divide_nearest(n: u128, d: u128) -> (r: u128)
    requires
        d > 0,
    ensures
        r == nearest_even(n as nat, d as nat),
        r <= n / d + 1,
{
    let q: u128 = n / d;
    let rem: u128 = n % d;
    let above: u128 = d - rem;
    if rem < above || (rem == above && q % 2 == 0) {
        q
    } else {
        assert(q < n) by (nonlinear_arith)
            requires
                q == n / d,
                rem == n % d,
                rem > 0,
                d > 0,
        ;
        q + 1
    }
}

/// The bits below the significand, counted and as a power of two, and the significand itself.
pub struct Double {
    /// The significand, at most two to the fifty-third.
    pub significand: u128,
    /// The exponent: how many low bits were rounded away.
    pub excess: u32,
    /// Two to the power `excess`.
    pub unit: u128,
}

proof fn halvings_divide(n: nat)
    ensures
        n / pow2(excess_bits(n)) < SIGNIFICAND_LIMIT,
        excess_bits(n) > 0 ==> n >= SIGNIFICAND_LIMIT * pow2((excess_bits(n) - 1) as nat),
    decreases n,
{
    lemma2_to64();
    if n >= SIGNIFICAND_LIMIT {
        let k = excess_bits(n / 2);
        halvings_divide(n / 2);
        lemma_pow2_pos(k);
        lemma_pow2_unfold(k + 1);
        lemma_div_denominator(n as int, 2, pow2(k) as int);
        assert(excess_bits(n) == k + 1);
        if k > 0 {
            lemma_pow2_unfold(k);
            assert(n >= SIGNIFICAND_LIMIT * pow2(k)) by (nonlinear_arith)
                requires
                    n / 2 >= SIGNIFICAND_LIMIT * pow2((k - 1) as nat),
                    pow2(k) == 2 * pow2((k - 1) as nat),
            ;
        }
    }
}

/// Rounds `n` to the nearest double.
pub fn to_double(n: u128) -> (r: Double)
    ensures
        r.significand == significand(n as nat),
        r.excess == excess_bits(n as nat),
        r.unit == pow2(excess_bits(n as nat)),
        r.significand <= SIGNIFICAND_LIMIT,
        r.excess <= 75,
        r.excess > 0 ==> n >= SIGNIFICAND_LIMIT * pow2((r.excess - 1) as nat),
{
    let mut x: u128 = n;
    let mut excess: u32 = 0;
    let mut unit: u128 = 1;
    proof {
        lemma2_to64();
    }
    while x >= SIGNIFICAND_LIMIT
        invariant
            excess_bits(n as nat) == excess + excess_bits(x as nat),
            unit == pow2(excess as nat),
            x * unit <= n,
            excess <= 75,
        decreases x,
    {
        proof {
            lemma2_to64();
            lemma2_to64_rest();
            lemma_pow2_unfold(excess as nat + 1);
            lemma_pow2_adds(53, excess as nat);
            assert(SIGNIFICAND_LIMIT * unit <= x * unit) by (nonlinear_arith)
                requires
                    SIGNIFICAND_LIMIT <= x,
                    unit >= 0,
            ;
            lemma_pow2_adds(64, 64);
            if excess >= 75 {
                lemma_pow2_adds(53, 75);
                assert(pow2(53) * pow2(75) == pow2(128));
                assert(pow2(64) * pow2(64) == pow2(128));
                assert(SIGNIFICAND_LIMIT * unit > u128::MAX);
            }
            assert((x / 2) * (unit * 2) <= x * unit) by (nonlinear_arith)
                requires
                    x >= 0,
                    unit >= 0,
            ;
            assert(unit * 2 <= u128::MAX) by (nonlinear_arith)
                requires
                    x * unit <= n,
                    x >= 2,
                    n <= u128::MAX,
                    unit >= 0,
            ;
        }
        x = x / 2;
        excess += 1;
        unit = unit * 2;
    }
    proof {
        halvings_divide(n as nat);
        lemma_pow2_pos(excess as nat);
    }
    let significand: u128 = divide_nearest(n, unit);
    Double { significand, excess, unit }
}

/// The hundredths that two decimals of `n / 1000`, taken in double precision, show.
pub fn hundredths_of_thousandths(n: u128) -> (r: u128)
    ensures
        r == thousandths_to_hundredths(n as nat),
{
    let double = to_double(n);
    let mut wide: u128 = double.significand;
    let mut steps: u32 = 0;
    proof {
        lemma2_to64();
    }
    while wide != 0 && 2 * wide < 1000 * SIGNIFICAND_LIMIT
        invariant
            wide <= 1000 * SIGNIFICAND_LIMIT,
            wide <= SIGNIFICAND_LIMIT * pow2(steps as nat),
            wide != 0 ==> pow2(steps as nat) <= wide,
            steps <= 63,
            wide == 0 ==> steps == 0,
            widened(double.significand as nat, 0) == widened(wide as nat, steps as nat),
        decreases 1000 * SIGNIFICAND_LIMIT - wide,
    {
        proof {
            lemma2_to64();
            lemma_pow2_unfold(steps as nat + 1);
            if steps >= 63 {
                assert(pow2(63) <= wide);
                assert(false);
            }
        }
        wide = wide * 2;
        steps += 1;
    }
    let q: u128 = divide_nearest(wide, 1000);
    if double.excess >= steps {
        let shift: u32 = double.excess - steps;
        proof {
            lemma2_to64();
            if wide != 0 && steps < 9 {
                if steps < 8 {
                    lemma_pow2_strictly_increases(steps as nat, 8);
                }
                assert(false);
            }
        }
        let mut unit: u128 = 1;
        let mut i: u32 = 0;
        while i < shift
            invariant
                i <= shift,
                shift <= 75,
                unit == pow2(i as nat),
            decreases shift - i,
        {
            proof {
                lemma2_to64();
                lemma_pow2_unfold(i as nat + 1);
                lemma_pow2_adds(64, 12);
                if i < 76 {
                    lemma_pow2_strictly_increases(i as nat, 76);
                }
            }
            unit = unit * 2;
            i += 1;
        }
        proof {
            lemma2_to64();
            if wide != 0 {
                lemma_pow2_adds(64, 2);
                if shift < 66 {
                    lemma_pow2_strictly_increases(shift as nat, 66);
                }
                assert(100 * q * unit <= u128::MAX) by (nonlinear_arith)
                    requires
                        q <= 0x20_0000_0000_0001,
                        unit <= 0x4_0000_0000_0000_0000,
                ;
            } else {
                assert(q == 0);
                assert(100 * q * unit == 0) by (nonlinear_arith)
                    requires
                        q == 0,
                ;
            }
        }
        100 * q * unit
    } else {
        let shift: u32 = steps - double.excess;
        let mut unit: u128 = 1;
        let mut i: u32 = 0;
        while i < shift
            invariant
                i <= shift,
                shift <= 64,
                unit == pow2(i as nat),
            decreases shift - i,
        {
            proof {
                lemma2_to64();
                lemma_pow2_unfold(i as nat + 1);
                lemma_pow2_strictly_increases(i as nat, 64);
            }
            unit = unit * 2;
            i += 1;
        }
        proof {
            lemma_pow2_pos(shift as nat);
        }
        divide_nearest(100 * q, unit)
    }
}

/// Appends a number of hundredths as a numeral with two decimals.
pub fn push_two_decimals(out: &mut String, hundredths: u128)
    ensures
        final(out)@ == old(out)@ + two_decimals(hundredths as nat),
{
    push_decimal(out, hundredths / 100);
    out.push('.');
    let tens: u8 = (hundredths % 100 / 10) as u8;
    let ones: u8 = (hundredths % 10) as u8;
    out.push((48 + tens) as char);
    out.push((48 + ones) as char);
}

/// An integer below two to the fifty-third is a double as it stands.
pub proof fn small_integers_are_doubles(n: nat)
    requires
        n < SIGNIFICAND_LIMIT,
    ensures
        as_double(n) == n,
{
    lemma2_to64();
    assert(pow2(excess_bits(n)) == 1);
    assert(n / 1 == n);
    assert(n % 1 == 0);
    assert(significand(n) == n);
    assert(significand(n) * 1 == n) by (nonlinear_arith)
        requires
            significand(n) == n,
    ;
}

/// Rounding is never off by more than half of the divisor.
pub proof fn nearest_is_within_half(n: nat, d: nat)
    requires
        d > 0,
    ensures
        2 * (nearest_even(n, d) * d - n) <= d,
        2 * (n - nearest_even(n, d) * d) <= d,
{
    let q = n / d;
    let r = n % d;
    vstd::arithmetic::div_mod::lemma_fundamental_div_mod(n as int, d as int);
    assert(q * d == d * q) by (nonlinear_arith);
    assert((q + 1) * d == q * d + d) by (nonlinear_arith);
}

/// The double of an integer is off by no more than half of its last bit, and has no more than
/// fifty-three bits; bits are given up only by integers that have more.
pub proof fn doubles_are_nearest(n: nat)
    ensures
        significand(n) <= SIGNIFICAND_LIMIT,
        2 * (as_double(n) - n) <= pow2(excess_bits(n)),
        2 * (n - as_double(n)) <= pow2(excess_bits(n)),
        excess_bits(n) > 0 ==> n >= SIGNIFICAND_LIMIT * pow2((excess_bits(n) - 1) as nat),
{
    halvings_divide(n);
    lemma_pow2_pos(excess_bits(n));
    nearest_is_within_half(n, pow2(excess_bits(n)));
}

} // verus!
