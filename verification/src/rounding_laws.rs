//! What rounding to double precision does to a number: it moves it by no more than
//! half of the last of its 53 binary digits.

use vstd::arithmetic::div_mod::{lemma_div_denominator, lemma_fundamental_div_mod};
use vstd::arithmetic::power::{lemma_pow0, lemma_pow1, lemma_pow_adds, pow};
use vstd::prelude::*;
use crate::rounding::{
    held, held_times, nearest, nearest_whole, out_of_range, scaled_decimal, ten_to, two_to,
};

verus! {

/// The powers of ten and of two.
pub proof fn powers_are_powers(n: nat)
    ensures
        ten_to(n) == pow(10, n),
        two_to(n) == pow(2, n),
    decreases n,
{
    lemma_pow0(10);
    lemma_pow0(2);
    if n > 0 {
        powers_are_powers((n - 1) as nat);
        lemma_pow1(10);
        lemma_pow1(2);
        lemma_pow_adds(10, 1, (n - 1) as nat);
        lemma_pow_adds(2, 1, (n - 1) as nat);
    }
}

/// The nearest whole number is off by half at most; where it is off by half, it is
/// the even one.
pub proof fn the_nearest_whole_number_is_off_by_half_at_most(a: nat, b: nat)
    requires
        b > 0,
    ensures
        -(b as int) <= 2 * (nearest_whole(a, b) * b - a) <= b,
        2 * (nearest_whole(a, b) * b - a) == b || 2 * (a - nearest_whole(a, b) * b) == b
            ==> nearest_whole(a, b) % 2 == 0,
{
    lemma_fundamental_div_mod(a as int, b as int);
    let low = a / b;
    let rest = a % b;
    assert(b * low == low * b) by (nonlinear_arith);
    assert((low + 1) * b == low * b + b) by (nonlinear_arith);
}

/// Whether a number of at most 53 binary digits, `m` of them times a power of two,
/// is what is nearest to a fraction: off by half of its last digit at most, the even
/// one where it is off by half, and with all 53 digits in use where the last of them
/// is not a one.
pub open spec fn rounds(a: nat, b: nat, m: nat, k: nat) -> bool {
    &&& m <= 9_007_199_254_740_992
    &&& k > 0 ==> m >= 4_503_599_627_370_496
    &&& -(two_to(k) * b) <= 2 * (m * two_to(k) * b - a) <= two_to(k) * b
    &&& 2 * (m * two_to(k) * b - a) == two_to(k) * b || 2 * (a - m * two_to(k) * b) == two_to(k) * b
        ==> m % 2 == 0
}

/// Rounding gives a number of at most 53 binary digits that is nearest.
pub proof fn rounding_gives_the_nearest(a: nat, b: nat)
    requires
        b > 0,
    ensures
        exists|m: nat, k: nat| nearest(a, b) == m * two_to(k) && #[trigger] rounds(a, b, m, k),
    decreases a / b,
{
    if a / b < 9_007_199_254_740_992 {
        let m = nearest_whole(a, b);
        the_nearest_whole_number_is_off_by_half_at_most(a, b);
        assert(two_to(0) == 1);
        assert(m * two_to(0) == m);
        assert(1 * b == b);
        assert(rounds(a, b, m, 0));
    } else {
        lemma_div_denominator(a as int, b as int, 2);
        assert(b * 2 == 2 * b);
        let c = 2 * b;
        rounding_gives_the_nearest(a, c);
        let (m, k) = choose|m: nat, k: nat|
            nearest(a, c) == m * two_to(k) && #[trigger] rounds(a, c, m, k);
        let p = two_to(k);
        let q = two_to(k + 1);
        assert(q == 2 * p);
        assert(p * c == q * b) by (nonlinear_arith)
            requires
                q == 2 * p,
                c == 2 * b,
        ;
        assert(m * p * c == m * q * b) by (nonlinear_arith)
            requires
                q == 2 * p,
                c == 2 * b,
        ;
        assert(2 * (m * p) == m * q) by (nonlinear_arith)
            requires
                q == 2 * p,
        ;
        if k == 0 {
            // The quotient by twice the divisor has at least 52 digits.
            assert(p == 1);
            assert(m >= 4_503_599_627_370_496) by {
                lemma_fundamental_div_mod(a as int, b as int);
                assert(b * (a / b) >= b * 9_007_199_254_740_992) by (nonlinear_arith)
                    requires
                        a / b >= 9_007_199_254_740_992,
                ;
                assert(a >= c * 4_503_599_627_370_496);
                if m < 4_503_599_627_370_496 {
                    assert(m * c <= 4_503_599_627_370_495 * c) by (nonlinear_arith)
                        requires
                            m <= 4_503_599_627_370_495,
                    ;
                    assert(m * p * c == m * c) by (nonlinear_arith)
                        requires
                            p == 1,
                    ;
                    assert(p * c == c);
                    assert(false);
                }
            }
        }
        assert(rounds(a, b, m, k + 1));
    }
}

/// What is held of a decimal number is nearest to it, in the least amounts that are
/// told apart; and so is what is held of a multiple of what is held.
pub proof fn what_is_held_is_nearest(digits: nat, places: nat, scale: nat)
    ensures
        exists|m: nat, k: nat|
            held(digits, places) == m * two_to(k) && #[trigger] rounds(
                digits * two_to(1074),
                ten_to(places),
                m,
                k,
            ),
        exists|m: nat, k: nat|
            held_times(held(digits, places), scale) == m * two_to(k) && #[trigger] rounds(
                held(digits, places) * scale,
                1,
                m,
                k,
            ),
{
    crate::rounding::ten_to_positive(places);
    rounding_gives_the_nearest(digits * two_to(1074), ten_to(places));
    rounding_gives_the_nearest(held(digits, places) * scale, 1);
}

/// A scaled decimal is the whole part of what is held, in 64 binary digits at most.
/// Beyond them by less than the nearest number above it is the largest of them, and
/// beyond that it is too large; a number that is not held at all is none.
pub proof fn a_scaled_decimal_is_the_whole_part(digits: nat, places: nat, scale: nat, n: nat)
    requires
        scaled_decimal(digits, places, scale) == Ok::<nat, Seq<char>>(n),
    ensures
        n <= u64::MAX,
        n < u64::MAX ==> n * two_to(1074) <= held_times(held(digits, places), scale) < (n + 1)
            * two_to(1074),
        n == u64::MAX ==> u64::MAX * two_to(1074) <= held_times(held(digits, places), scale)
            <= two_to(64) * two_to(1074),
        held(digits, places) < two_to(1024) * two_to(1074),
{
    reveal(scaled_decimal);
    let p = two_to(1074);
    let total = held_times(held(digits, places), scale);
    powers_are_powers(1074);
    powers_are_powers(1024);
    powers_are_powers(2098);
    lemma_pow_adds(2, 1024, 1074);
    vstd::arithmetic::power::lemma_pow_positive(2, 1074);
    lemma_fundamental_div_mod(total as int, p as int);
    let q = total / p;
    assert(p * q == q * p) by (nonlinear_arith);
    assert((q + 1) * p == q * p + p) by (nonlinear_arith);
    if q > u64::MAX {
        assert(u64::MAX * p <= q * p) by (nonlinear_arith)
            requires
                u64::MAX <= q,
        ;
    }
}

/// What is not a scaled decimal is told to be too large, past 64 binary digits, or
/// no number, past all that is held.
pub proof fn a_decimal_that_is_none_is_told_why(digits: nat, places: nat, scale: nat)
    ensures
        held(digits, places) >= out_of_range() <==> held(digits, places) >= two_to(1024) * two_to(
            1074,
        ),
        held(digits, places) >= out_of_range() ==> scaled_decimal(digits, places, scale) == Err::<
            nat,
            Seq<char>,
        >("not a positive number"@),
        held(digits, places) < out_of_range() && held_times(held(digits, places), scale) > two_to(
            64,
        ) * two_to(1074) ==> scaled_decimal(digits, places, scale) == Err::<nat, Seq<char>>(
            "too large"@,
        ),
        held(digits, places) < out_of_range() && held_times(held(digits, places), scale) <= two_to(
            64,
        ) * two_to(1074) ==> scaled_decimal(digits, places, scale) is Ok,
{
    reveal(scaled_decimal);
    powers_are_powers(1074);
    powers_are_powers(1024);
    powers_are_powers(2098);
    lemma_pow_adds(2, 1024, 1074);
}

} // verus!
