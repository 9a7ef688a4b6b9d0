//! Decimal numbers held to 53 binary digits, as a machine of double precision
//! holds them.
//!
//! A number is counted in the least amount that double precision tells apart,
//! which is 2 to the power of -1074: every number that it holds is so many of
//! them.

use vstd::arithmetic::div_mod::{
    lemma_div_denominator, lemma_fundamental_div_mod, lemma_fundamental_div_mod_converse,
};
use vstd::prelude::*;
use crate::text;
use crate::text::{copy_range, parse_uint};

verus! {

pub open spec fn ten_to(n: nat) -> nat
    decreases n,
{
    if n == 0 {
        1
    } else {
        10 * ten_to((n - 1) as nat)
    }
}

pub open spec fn two_to(n: nat) -> nat
    decreases n,
{
    if n == 0 {
        1
    } else {
        2 * two_to((n - 1) as nat)
    }
}

/// The whole number nearest to `a / b`; of two that are as near, the even one.
pub open spec fn nearest_whole(a: nat, b: nat) -> nat {
    let low = a / b;
    let rest = a % b;
    if 2 * rest < b || (2 * rest == b && low % 2 == 0) {
        low
    } else {
        low + 1
    }
}

/// The number of at most 53 binary digits nearest to `a / b`; of two that are as
/// near, the one whose last digit is zero.
pub open spec fn nearest(a: nat, b: nat) -> nat
    decreases a / b,
    when b > 0
    via nearest_comes_down
{
    if a / b < 9_007_199_254_740_992 {
        nearest_whole(a, b)
    } else {
        2 * nearest(a, 2 * b)
    }
}

#[via_fn]
proof fn nearest_comes_down(a: nat, b: nat) {
    if a / b >= 9_007_199_254_740_992 {
        lemma_div_denominator(a as int, b as int, 2);
        assert(b * 2 == 2 * b);
    }
}

/// What double precision holds of the decimal number whose digits come to
/// `digits`, `places` of them behind the point.
pub open spec fn held(digits: nat, places: nat) -> nat {
    nearest(digits * two_to(1074), ten_to(places))
}

/// What double precision holds of a number that it holds, taken `scale` times.
pub open spec fn held_times(units: nat, scale: nat) -> nat {
    nearest(units * scale, 1)
}

/// The first amount that double precision holds no longer.
pub open spec fn out_of_range() -> nat {
    two_to(2098)
}

/// The whole part of a decimal number, `scale` times over in double precision, up
/// to the largest number of 64 binary digits.
#[verifier::opaque]
pub open spec fn scaled_decimal(digits: nat, places: nat, scale: nat) -> Result<nat, Seq<char>> {
    let value = held(digits, places);
    let total = held_times(value, scale);
    if value >= out_of_range() {
        Err("not a positive number"@)
    } else if total > two_to(64) * two_to(1074) {
        Err("too large"@)
    } else if total / two_to(1074) > u64::MAX {
        Ok(u64::MAX as nat)
    } else {
        Ok(total / two_to(1074))
    }
}

// ---- powers ----------------------------------------------------------------

pub proof fn ten_to_positive(n: nat)
    ensures
        ten_to(n) >= 1,
    decreases n,
{
    if n > 0 {
        ten_to_positive((n - 1) as nat);
    }
}

proof fn two_to_adds(a: nat, b: nat)
    ensures
        two_to(a + b) == two_to(a) * two_to(b),
        two_to(a) >= 1,
        two_to(b) >= 1,
    decreases a, b,
{
    if a == 0 {
        assert(two_to(0) == 1);
        assert(1 * two_to(b) == two_to(b));
        if b > 0 {
            two_to_adds(0, (b - 1) as nat);
        }
    } else {
        two_to_adds((a - 1) as nat, b);
        let x = two_to((a - 1) as nat) as int;
        let y = two_to(b) as int;
        assert((2 * x) * y == 2 * (x * y)) by (nonlinear_arith);
        assert((a + b - 1) as nat == (a - 1) as nat + b);
    }
}

proof fn two_to_grows(a: nat, b: nat)
    requires
        a <= b,
    ensures
        1 <= two_to(a) <= two_to(b),
{
    let c = (b - a) as nat;
    two_to_adds(a, c);
    assert(two_to(a) <= two_to(a) * two_to(c)) by (nonlinear_arith)
        requires
            two_to(a) >= 1,
            two_to(c) >= 1,
    ;
}

proof fn two_to_product(a: nat, x: nat, b: nat, y: nat)
    requires
        two_to(a) == x,
        two_to(b) == y,
    ensures
        two_to(a + b) == x * y,
{
    two_to_adds(a, b);
}

proof fn two_to_known()
    ensures
        two_to(40) == 1_099_511_627_776,
        two_to(52) == 4_503_599_627_370_496,
        two_to(53) == 9_007_199_254_740_992,
        two_to(54) == 18_014_398_509_481_984,
        two_to(63) == 9_223_372_036_854_775_808,
        two_to(64) == 18_446_744_073_709_551_616,
        two_to(120) == 0x100_0000_0000_0000_0000_0000_0000_0000,
{
    reveal_with_fuel(two_to, 11);
    assert(two_to(10) == 1024);
    two_to_product(10, 1024, 10, 1024);
    two_to_product(20, 1_048_576, 20, 1_048_576);
    two_to_product(2, 4, 10, 1024);
    two_to_product(40, 1_099_511_627_776, 12, 4096);
    two_to_product(52, 4_503_599_627_370_496, 1, 2);
    two_to_product(52, 4_503_599_627_370_496, 2, 4);
    two_to_product(53, 9_007_199_254_740_992, 10, 1024);
    two_to_product(54, 18_014_398_509_481_984, 10, 1024);
    two_to_product(40, 1_099_511_627_776, 40, 1_099_511_627_776);
    two_to_product(80, 1_208_925_819_614_629_174_706_176, 40, 1_099_511_627_776);
}

// ---- quotients -------------------------------------------------------------

proof fn divides_as(a: nat, b: nat, q: nat, r: nat)
    requires
        a == q * b + r,
        r < b,
    ensures
        a / b == q,
        a % b == r,
{
    lemma_fundamental_div_mod_converse(a as int, b as int, q as int, r as int);
}

proof fn divided(a: nat, b: nat)
    requires
        b > 0,
    ensures
        a == (a / b) * b + a % b,
        a % b < b,
{
    lemma_fundamental_div_mod(a as int, b as int);
    let q = (a / b) as int;
    let d = b as int;
    assert(d * q == q * d) by (nonlinear_arith);
}

/// Halving a quotient halves it, and the digit that falls off joins the rest.
proof fn divided_again(a: nat, b: nat)
    requires
        b > 0,
    ensures
        a / (2 * b) == (a / b) / 2,
        a % (2 * b) == ((a / b) % 2) * b + a % b,
{
    divided(a, b);
    let x = a / b;
    let r = a % b;
    let h = x / 2;
    let bit = x % 2;
    assert((2 * h + bit) * b == h * (2 * b) + bit * b) by (nonlinear_arith);
    assert(bit * b + r < 2 * b) by (nonlinear_arith)
        requires
            bit <= 1,
            r < b,
    ;
    divides_as(a, 2 * b, h, bit * b + r);
}

/// Twice over in both makes no difference.
proof fn nearest_cancels(a: nat, b: nat)
    requires
        b > 0,
    ensures
        nearest(2 * a, 2 * b) == nearest(a, b),
    decreases a / b,
{
    divided(a, b);
    let q = a / b;
    let r = a % b;
    assert(2 * (q * b + r) == q * (2 * b) + 2 * r) by (nonlinear_arith);
    divides_as(2 * a, 2 * b, q, 2 * r);
    if q >= 9_007_199_254_740_992 {
        divided_again(a, b);
        nearest_cancels(a, 2 * b);
    }
}

proof fn nearest_cancels_all(a: nat, b: nat, n: nat)
    requires
        b > 0,
    ensures
        nearest(a * two_to(n), b * two_to(n)) == nearest(a, b),
        b * two_to(n) > 0,
    decreases n,
{
    if n == 0 {
        assert(a * 1 == a && b * 1 == b);
    } else {
        let m = (n - 1) as nat;
        nearest_cancels_all(a, b, m);
        nearest_cancels(a * two_to(m), b * two_to(m));
        let p = two_to(m) as int;
        assert(a * (2 * p) == 2 * (a * p)) by (nonlinear_arith);
        assert(b * (2 * p) == 2 * (b * p)) by (nonlinear_arith);
    }
}

/// Once a number has all its digits, twice the number has the same ones.
proof fn nearest_doubles(a: nat, b: nat)
    requires
        b > 0,
        a / b >= 4_503_599_627_370_496,
    ensures
        nearest(2 * a, b) == 2 * nearest(a, b),
        (2 * a) / b >= 4_503_599_627_370_496,
{
    divided(a, b);
    let q = a / b;
    let r = a % b;
    assert((2 * a) / b >= 2 * q) by {
        divided(2 * a, b);
        let x = (2 * a) / b;
        assert(2 * (q * b + r) == (2 * q) * b + 2 * r) by (nonlinear_arith);
        if x < 2 * q {
            assert((x + 1) * b <= (2 * q) * b) by (nonlinear_arith)
                requires
                    x + 1 <= 2 * q,
                    b >= 0,
            ;
            assert((x + 1) * b == x * b + b) by (nonlinear_arith);
        }
    }
    nearest_cancels(a, b);
}

proof fn nearest_doubles_all(a: nat, b: nat, n: nat)
    requires
        b > 0,
        a / b >= 4_503_599_627_370_496,
    ensures
        nearest(a * two_to(n), b) == two_to(n) * nearest(a, b),
        (a * two_to(n)) / b >= 4_503_599_627_370_496,
    decreases n,
{
    if n == 0 {
        assert(a * 1 == a);
        assert(1 * nearest(a, b) == nearest(a, b));
    } else {
        let m = (n - 1) as nat;
        nearest_doubles_all(a, b, m);
        nearest_doubles(a * two_to(m), b);
        let p = two_to(m) as int;
        let v = nearest(a, b) as int;
        assert(a * (2 * p) == 2 * (a * p)) by (nonlinear_arith);
        assert((2 * p) * v == 2 * (p * v)) by (nonlinear_arith);
    }
}

/// Rounding does not pass a power of two from below.
proof fn nearest_at_most(a: nat, b: nat, n: nat)
    requires
        b > 0,
        a <= b * two_to(n),
    ensures
        nearest(a, b) <= two_to(n),
    decreases a / b,
{
    divided(a, b);
    let q = a / b;
    let r = a % b;
    let p = two_to(n);
    assert(q <= p && (q == p ==> r == 0)) by (nonlinear_arith)
        requires
            q * b + r <= b * p,
            b > 0,
            r >= 0,
            q >= 0,
            p >= 0,
    ;
    if q >= 9_007_199_254_740_992 {
        if n == 0 {
            assert(false);
        }
        divided_again(a, b);
        let h = two_to((n - 1) as nat);
        assert(b * (2 * h) == (2 * b) * h) by (nonlinear_arith);
        nearest_at_most(a, 2 * b, (n - 1) as nat);
    }
}

/// Rounding does not pass a power of two from above.
proof fn nearest_at_least(a: nat, b: nat, n: nat)
    requires
        b > 0,
        b * two_to(n) <= a,
    ensures
        two_to(n) <= nearest(a, b),
    decreases a / b,
{
    divided(a, b);
    let q = a / b;
    let r = a % b;
    let p = two_to(n);
    assert(p <= q) by (nonlinear_arith)
        requires
            b * p <= q * b + r,
            r < b,
            b > 0,
            q >= 0,
            p >= 0,
    ;
    if q >= 9_007_199_254_740_992 {
        divided_again(a, b);
        if n == 0 {
            nearest_at_least_one(a, 2 * b);
        } else {
            let h = two_to((n - 1) as nat);
            assert(b * (2 * h) == (2 * b) * h) by (nonlinear_arith);
            nearest_at_least(a, 2 * b, (n - 1) as nat);
        }
    }
}

proof fn nearest_at_least_one(a: nat, b: nat)
    requires
        b > 0,
        a / b >= 1,
    ensures
        nearest(a, b) >= 1,
    decreases a / b,
{
    if a / b >= 9_007_199_254_740_992 {
        divided_again(a, b);
        nearest_at_least_one(a, 2 * b);
    }
}

/// Of a number with more than all its digits, what lies behind the point matters
/// only by being there.
proof fn nearest_by_rest(a: nat, b: nat, c: nat, d: nat)
    requires
        b > 0,
        d > 0,
        a / b == c / d,
        a / b >= 9_007_199_254_740_992,
        (a % b > 0) == (c % d > 0),
    ensures
        nearest(a, b) == nearest(c, d),
    decreases a / b,
{
    divided(a, b);
    divided(c, d);
    divided_again(a, b);
    divided_again(c, d);
    let x = a / b;
    let bit = x % 2;
    let r = a % b;
    let s = c % d;
    assert(bit == 0 ==> bit * b == 0 && bit * d == 0);
    assert(bit == 1 ==> bit * b == b && bit * d == d);
    if x / 2 >= 9_007_199_254_740_992 {
        nearest_by_rest(a, 2 * b, c, 2 * d);
    } else {
        assert(nearest_whole(a, 2 * b) == nearest_whole(c, 2 * d));
        assert(nearest(a, 2 * b) == nearest_whole(a, 2 * b));
        assert(nearest(c, 2 * d) == nearest_whole(c, 2 * d));
    }
}

/// Rounds `a / b` to 53 binary digits.
fn rounded(a: u128, b: u128) -> (r: u128)
    requires
        1 <= b <= 2,
        a <= 0x100_0000_0000_0000_0000_0000_0000_0000,
    ensures
        r == nearest(a as nat, b as nat),
{
    let mut d: u128 = b;
    let mut m: u128 = 1;
    proof {
        assert(1 * nearest(a as nat, b as nat) == nearest(a as nat, b as nat));
    }
    while a / d >= 9_007_199_254_740_992
        invariant
            b >= 1,
            d >= 1,
            m >= 1,
            m <= d,
            a <= 0x100_0000_0000_0000_0000_0000_0000_0000,
            nearest(a as nat, b as nat) == m * nearest(a as nat, d as nat),
        decreases a - d,
    {
        proof {
            divided(a as nat, d as nat);
            let q = (a / d) as int;
            let e = d as int;
            assert(q * e >= 2 * e) by (nonlinear_arith)
                requires
                    q >= 2,
                    e >= 1,
            ;
            let n = nearest(a as nat, (2 * d) as nat) as int;
            let k = m as int;
            assert(k * (2 * n) == (2 * k) * n) by (nonlinear_arith);
        }
        d = 2 * d;
        m = 2 * m;
    }
    let low: u128 = a / d;
    let rest: u128 = a % d;
    proof {
        divided(a as nat, d as nat);
        two_to_known();
        let p = two_to(120) as int;
        assert(a <= b * p) by (nonlinear_arith)
            requires
                a <= p,
                b >= 1,
                p >= 0,
        ;
        nearest_at_most(a as nat, b as nat, 120);
    }
    let over: bool = rest > d - rest || (rest == d - rest && low % 2 == 1);
    let whole: u128 = if over {
        low + 1
    } else {
        low
    };
    proof {
        assert(whole == nearest(a as nat, d as nat));
        assert(m * whole == nearest(a as nat, b as nat));
        assert(m * whole == whole * m) by (nonlinear_arith);
    }
    whole * m
}

// ---- digits ----------------------------------------------------------------

fn digit(n: u8) -> (r: char)
    requires
        n <= 9,
    ensures
        text::is_digit(r),
        r as u32 == 48 + n,
{
    (48 + n) as char
}

/// Half of a number in digits, and whether a half is left over.
fn halved(digits: &Vec<char>) -> (r: (Vec<char>, bool))
    requires
        text::all_digits(digits@),
    ensures
        text::all_digits(r.0@),
        r.0@.len() == digits@.len(),
        text::number(digits@) == 2 * text::number(r.0@) + (if r.1 {
            1nat
        } else {
            0nat
        }),
{
    let mut out: Vec<char> = Vec::new();
    let mut odd: bool = false;
    let mut i: usize = 0;
    while i < digits.len()
        invariant
            i <= digits.len(),
            text::all_digits(digits@),
            text::all_digits(out@),
            out@.len() == i,
            text::number(digits@.take(i as int)) == 2 * text::number(out@) + (if odd {
                1nat
            } else {
                0nat
            }),
        decreases digits.len() - i,
    {
        let ghost before = out@;
        proof {
            assert(text::is_digit(digits@[i as int]));
            assert(digits@.take(i + 1).drop_last() =~= digits@.take(i as int));
            assert(digits@.take(i + 1).last() == digits@[i as int]);
        }
        let d: u8 = (digits[i] as u32 - 48) as u8;
        let here: u8 = if odd {
            10 + d
        } else {
            d
        };
        out.push(digit(here / 2));
        odd = here % 2 == 1;
        proof {
            assert(out@.drop_last() =~= before);
            assert forall|k: int| 0 <= k < out@.len() implies text::is_digit(#[trigger] out@[k]) by {
                if k < before.len() {
                    assert(out@[k] == before[k]);
                }
            }
        }
        i = i + 1;
    }
    proof {
        assert(digits@.take(digits@.len() as int) =~= digits@);
    }
    (out, odd)
}

/// The digit that a digit twice over carries to the one before it.
spec fn carried(digits: Seq<char>, i: int) -> nat {
    if 0 <= i < digits.len() && digits[i] as u32 >= 53 {
        1
    } else {
        0
    }
}

/// Twice the fraction that digits behind the point write: what is left of it
/// behind the point, and whether it comes to a whole.
fn doubled(digits: &Vec<char>) -> (r: (Vec<char>, bool))
    requires
        text::all_digits(digits@),
    ensures
        text::all_digits(r.0@),
        r.0@.len() == digits@.len(),
        2 * text::number(digits@) == text::number(r.0@) + (if r.1 {
            ten_to(digits@.len())
        } else {
            0
        }),
{
    let mut out: Vec<char> = Vec::new();
    let whole: bool = digits.len() > 0 && digits[0] as u32 >= 53;
    let ghost c: nat = if whole {
        1
    } else {
        0
    };
    let mut i: usize = 0;
    proof {
        assert(text::number(digits@.take(0)) == 0);
        assert(c * ten_to(0) == c);
    }
    while i < digits.len()
        invariant
            i <= digits.len(),
            text::all_digits(digits@),
            text::all_digits(out@),
            out@.len() == i,
            c <= 1,
            2 * text::number(digits@.take(i as int)) + carried(digits@, i as int) == c * ten_to(
                i as nat,
            ) + text::number(out@),
        decreases digits.len() - i,
    {
        let ghost before = out@;
        let d: u8 = (digits[i] as u32 - 48) as u8;
        proof {
            assert(text::is_digit(digits@[i as int]));
            assert(digits@.take(i + 1).drop_last() =~= digits@.take(i as int));
            assert(digits@.take(i + 1).last() == digits@[i as int]);
            if i + 1 < digits.len() {
                assert(text::is_digit(digits@[i + 1]));
            }
        }
        let next: u8 = if i + 1 < digits.len() && digits[i + 1] as u32 >= 53 {
            1
        } else {
            0
        };
        out.push(digit((2 * d + next) % 10));
        proof {
            assert(out@.drop_last() =~= before);
            assert forall|k: int| 0 <= k < out@.len() implies text::is_digit(#[trigger] out@[k]) by {
                if k < before.len() {
                    assert(out@[k] == before[k]);
                }
            }
            let t = ten_to(i as nat) as int;
            assert(ten_to((i + 1) as nat) == 10 * t);
            assert(c * (10 * t) == 10 * (c * t)) by (nonlinear_arith);
            assert(next == carried(digits@, i + 1));
        }
        i = i + 1;
    }
    proof {
        assert(digits@.take(digits@.len() as int) =~= digits@);
        let t = ten_to(digits@.len()) as int;
        assert(c == 1 ==> c * t == t);
        assert(c == 0 ==> c * t == 0);
    }
    (out, whole)
}

/// Whether any digit is not zero.
fn any_left(digits: &Vec<char>) -> (r: bool)
    requires
        text::all_digits(digits@),
    ensures
        r == (text::number(digits@) > 0),
{
    let mut i: usize = 0;
    while i < digits.len()
        invariant
            i <= digits.len(),
            text::all_digits(digits@),
            text::number(digits@.take(i as int)) == 0,
        decreases digits.len() - i,
    {
        proof {
            assert(text::is_digit(digits@[i as int]));
            assert(digits@.take(i + 1).drop_last() =~= digits@.take(i as int));
            assert(digits@.take(i + 1).last() == digits@[i as int]);
        }
        if digits[i] as u32 != 48 {
            proof {
                text::number_grows(digits@, i + 1);
            }
            return true;
        }
        i = i + 1;
    }
    proof {
        assert(digits@.take(digits@.len() as int) =~= digits@);
    }
    false
}

/// So many digits write less than the power of ten with as many zeros.
proof fn number_below(s: Seq<char>)
    requires
        text::all_digits(s),
    ensures
        text::number(s) < ten_to(s.len()),
    decreases s.len(),
{
    if s.len() > 0 {
        let rest = s.drop_last();
        assert forall|i: int| 0 <= i < rest.len() implies text::is_digit(#[trigger] rest[i]) by {
            assert(rest[i] == s[i]);
        }
        number_below(rest);
        assert(text::is_digit(s[s.len() - 1]));
    }
}

// ---- numbers ---------------------------------------------------------------

/// Whether a result is what it is said to be.
pub open spec fn gives(r: Result<u64, &'static str>, said: Result<nat, Seq<char>>) -> bool {
    match said {
        Ok(n) => r matches Ok(x) && x == n,
        Err(what) => r matches Err(e) && e@ == what,
    }
}

proof fn times_grows(a: nat, b: nat, c: nat)
    requires
        a <= b,
    ensures
        a * c <= b * c,
{
    assert(a * c <= b * c) by (nonlinear_arith)
        requires
            a <= b,
            c >= 0,
    ;
}

/// A number below 2 to the power of -41 comes to nothing, whatever its unit.
proof fn too_small(n: nat, k: nat, scale: nat)
    requires
        n * two_to(95) <= ten_to(k) * two_to(54),
        scale <= 1_099_511_627_776,
    ensures
        scaled_decimal(n, k, scale) == Ok::<nat, Seq<char>>(0),
{
    reveal(scaled_decimal);
    let t = ten_to(k);
    ten_to_positive(k);
    two_to_known();
    two_to_adds(95, 979);
    two_to_adds(54, 979);
    times_grows(n * two_to(95), t * two_to(54), two_to(979));
    let x = two_to(95) as int;
    let y = two_to(54) as int;
    let z = two_to(979) as int;
    assert((n * x) * z == n * (x * z)) by (nonlinear_arith);
    assert((t * y) * z == t * (y * z)) by (nonlinear_arith);
    nearest_at_most(n * two_to(1074), t, 1033);
    let value = held(n, k);
    two_to_adds(1033, 40);
    times_grows(value, two_to(1033), scale);
    times_grows(scale, two_to(40), two_to(1033));
    let v = two_to(1033) as int;
    let w = two_to(40) as int;
    assert(v * scale == scale * v) by (nonlinear_arith);
    assert(v * w == w * v) by (nonlinear_arith);
    assert(value * scale <= two_to(1073));
    assert(1 * two_to(1073) == two_to(1073));
    nearest_at_most(value * scale, 1, 1073);
    let total = held_times(value, scale);
    two_to_grows(1033, 2097);
    two_to_grows(1073, 1073);
    assert(two_to(1074) == 2 * two_to(1073));
    assert(two_to(2098) == 2 * two_to(2097));
    assert(0 * two_to(1074) + total == total);
    divides_as(total, two_to(1074), 0, total);
    assert(total <= two_to(64) * two_to(1074)) by {
        times_grows(1, two_to(64), two_to(1074));
    }
}

/// What double precision holds of a number that is known down to the point as
/// `x`, times `2` to the power of `s`, with a rest behind it or without.
proof fn held_by_digits(n: nat, k: nat, s: nat, x: nat, rest: nat)
    requires
        n * two_to(s) == x * ten_to(k) + rest,
        rest < ten_to(k),
        x >= 9_007_199_254_740_992,
        s <= 1074,
    ensures
        held(n, k) == two_to((1074 - s) as nat) * nearest(
            2 * x + (if rest > 0 {
                1nat
            } else {
                0nat
            }),
            2,
        ),
{
    let t = ten_to(k);
    let a = n * two_to(s);
    let bit: nat = if rest > 0 {
        1
    } else {
        0
    };
    divides_as(a, t, x, rest);
    assert(2 * x + bit == x * 2 + bit);
    divides_as(2 * x + bit, 2, x, bit);
    nearest_by_rest(a, t, 2 * x + bit, 2);
    let u = (1074 - s) as nat;
    nearest_doubles_all(a, t, u);
    two_to_adds(s, u);
    let p = two_to(s) as int;
    let q = two_to(u) as int;
    assert((n * p) * q == n * (p * q)) by (nonlinear_arith);
}

/// A number that is held as `m`, times `2` to the power of `u`, is taken `scale`
/// times by taking `m` so often.
proof fn times_by_digits(m: nat, u: nat, scale: nat)
    requires
        m >= 4_503_599_627_370_496,
        scale >= 1,
    ensures
        held_times(two_to(u) * m, scale) == two_to(u) * nearest(m * scale, 1),
        m <= m * scale,
{
    assert(m <= m * scale) by (nonlinear_arith)
        requires
            scale >= 1,
            m >= 0,
    ;
    assert((m * scale) / 1 == m * scale);
    nearest_doubles_all(m * scale, 1, u);
    let p = two_to(u) as int;
    assert((p * m) * scale == (m * scale) * p) by (nonlinear_arith);
}

/// Scaling a number that is less than 2 to the power of 64.
proof fn scaled_below(n: nat, k: nat, scale: nat, s: nat, x: nat, rest: nat)
    requires
        n * two_to(s) == x * ten_to(k) + rest,
        rest < ten_to(k),
        18_014_398_509_481_984 <= x < 18_446_744_073_709_551_616,
        s <= 95,
        1 <= scale <= 1_099_511_627_776,
    ensures
        ({
            let m = nearest(
                2 * x + (if rest > 0 {
                    1nat
                } else {
                    0nat
                }),
                2,
            );
            let r = nearest(m * scale, 1);
            &&& m <= 18_446_744_073_709_551_616
            &&& scaled_decimal(n, k, scale) == if r > two_to(64) * two_to(s) {
                Err::<nat, Seq<char>>("too large"@)
            } else if r / two_to(s) > u64::MAX {
                Ok(u64::MAX as nat)
            } else {
                Ok(r / two_to(s))
            }
        }),
{
    reveal(scaled_decimal);
    two_to_known();
    let bit: nat = if rest > 0 {
        1
    } else {
        0
    };
    let m = nearest(2 * x + bit, 2);
    let u = (1074 - s) as nat;
    held_by_digits(n, k, s, x, rest);
    nearest_at_most(2 * x + bit, 2, 64);
    nearest_at_least(2 * x + bit, 2, 54);
    times_by_digits(m, u, scale);
    let r = nearest(m * scale, 1);
    let value = held(n, k);
    let total = held_times(value, scale);
    let p = two_to(u);
    let q = two_to(s);
    two_to_adds(u, s);
    // The range is not left.
    two_to_grows(u, 1074);
    two_to_adds(1074, 64);
    times_grows(p, two_to(1074), m);
    times_grows(m, two_to(64), two_to(1074));
    assert(two_to(1074) * m == m * two_to(1074)) by (nonlinear_arith);
    assert(two_to(64) * two_to(1074) == two_to(1074) * two_to(64)) by (nonlinear_arith);
    two_to_grows(1138, 2097);
    assert(two_to(2098) == 2 * two_to(2097));
    // Nor does the common factor matter.
    let e = two_to(64) as int;
    assert(e * (p * q) == p * (e * q)) by (nonlinear_arith);
    assert(total > two_to(64) * two_to(1074) <==> r > two_to(64) * q) by (nonlinear_arith)
        requires
            total == p * r,
            two_to(64) * two_to(1074) == p * (two_to(64) * q),
            p >= 1,
            r >= 0,
            two_to(64) * q >= 0,
    ;
    divided(r, q);
    let w = r / q;
    let z = r % q;
    assert(p * (w * q + z) == w * (p * q) + p * z) by (nonlinear_arith);
    assert(p * z < p * q) by (nonlinear_arith)
        requires
            z < q,
            p >= 1,
    ;
    divides_as(total, two_to(1074), w, p * z);
}

/// Scales a number whose whole part has 64 binary digits.
fn scale_below(whole: u64, part: &Vec<char>, scale: u64) -> (r: Result<u64, &'static str>)
    requires
        text::all_digits(part@),
        1 <= scale <= 1_099_511_627_776,
    ensures
        gives(
            r,
            scaled_decimal(
                whole as nat * ten_to(part@.len()) + text::number(part@),
                part@.len(),
                scale as nat,
            ),
        ),
{
    let ghost k = part@.len();
    let ghost t = ten_to(k);
    let ghost n: nat = whole as nat * t + text::number(part@);
    let mut x: u128 = whole as u128;
    let mut rest: Vec<char> = copy_range(part.as_slice(), 0, part.len());
    let mut s: u32 = 0;
    let mut p: u128 = 1;
    proof {
        assert(rest@ =~= part@);
        assert(n * 1 == n);
        two_to_known();
    }
    while x < 18_014_398_509_481_984 && s < 95
        invariant
            n * two_to(s as nat) == x * t + text::number(rest@),
            text::all_digits(rest@),
            rest@.len() == k,
            t == ten_to(k),
            x < 18_446_744_073_709_551_616,
            s <= 95,
            p == two_to(s as nat),
            two_to(120) == 0x100_0000_0000_0000_0000_0000_0000_0000,
        decreases 95 - s,
    {
        let (next, whole_more): (Vec<char>, bool) = doubled(&rest);
        proof {
            two_to_grows(s as nat, 119);
            assert(two_to(120) == 2 * two_to(119));
            let q = two_to(s as nat) as int;
            assert(n * (2 * q) == 2 * (n * q)) by (nonlinear_arith);
            let y = x as int;
            assert((2 * y) * t == 2 * (y * t)) by (nonlinear_arith);
            assert((2 * y + 1) * t == 2 * (y * t) + t) by (nonlinear_arith);
        }
        x = if whole_more {
            2 * x + 1
        } else {
            2 * x
        };
        rest = next;
        s = s + 1;
        p = 2 * p;
    }
    proof {
        number_below(rest@);
    }
    if x < 18_014_398_509_481_984 {
        proof {
            let y = x as int;
            assert(y * t + text::number(rest@) <= t * two_to(54)) by (nonlinear_arith)
                requires
                    y + 1 <= two_to(54),
                    text::number(rest@) < t,
            ;
            too_small(n, k, scale as nat);
        }
        return Ok(0);
    }
    let behind: bool = any_left(&rest);
    let digits: u128 = if behind {
        2 * x + 1
    } else {
        2 * x
    };
    proof {
        scaled_below(n, k, scale as nat, s as nat, x as nat, text::number(rest@));
    }
    let m: u128 = rounded(digits, 2);
    proof {
        assert(m * scale <= 18_446_744_073_709_551_616 * 1_099_511_627_776) by (nonlinear_arith)
            requires
                m <= 18_446_744_073_709_551_616,
                scale <= 1_099_511_627_776,
        ;
        assert(m * scale >= 0) by (nonlinear_arith);
        two_to_grows(s as nat, s as nat);
    }
    let total: u128 = rounded(m * (scale as u128), 1);
    let top: u128 = total / p;
    let low: u128 = total % p;
    proof {
        divided(total as nat, p as nat);
        two_to_known();
        let q = p as int;
        let w = top as int;
        let e = 18_446_744_073_709_551_616int;
        assert(total > e * q <==> (w > e || (w == e && low > 0))) by (nonlinear_arith)
            requires
                total == w * q + low,
                0 <= low < q,
        ;
    }
    if top > 18_446_744_073_709_551_616 || (top == 18_446_744_073_709_551_616 && low > 0) {
        Err("too large")
    } else if top > 18_446_744_073_709_551_615 {
        Ok(u64::MAX)
    } else {
        Ok(top as u64)
    }
}

/// A number that is known down to its last but `j` binary digits as `x`, with a
/// rest behind it or without, is held as what is held of those digits.
proof fn held_by_front(n: nat, k: nat, j: nat, x: nat, rest: nat)
    requires
        n == x * (ten_to(k) * two_to(j)) + rest,
        rest < ten_to(k) * two_to(j),
        x >= 9_007_199_254_740_992,
    ensures
        held(n, k) == two_to(1074 + j) * nearest(
            2 * x + (if rest > 0 {
                1nat
            } else {
                0nat
            }),
            2,
        ),
{
    let t = ten_to(k);
    ten_to_positive(k);
    let b = t * two_to(j);
    let bit: nat = if rest > 0 {
        1
    } else {
        0
    };
    divides_as(n, b, x, rest);
    assert(2 * x + bit == x * 2 + bit);
    divides_as(2 * x + bit, 2, x, bit);
    nearest_by_rest(n, b, 2 * x + bit, 2);
    nearest_doubles_all(n, b, 1074 + j);
    nearest_cancels_all(n * two_to(1074), t, j);
    two_to_adds(1074, j);
    let p = two_to(1074) as int;
    let q = two_to(j) as int;
    assert((n * p) * q == n * (p * q)) by (nonlinear_arith);
}

/// Scaling a number of more than 64 binary digits: only what rounds to 2 to the
/// power of 64, taken once, is not too large.
proof fn scaled_above(n: nat, k: nat, scale: nat, j: nat, x: nat, rest: nat)
    requires
        n == x * (ten_to(k) * two_to(j)) + rest,
        rest < ten_to(k) * two_to(j),
        9_223_372_036_854_775_808 <= x < 18_446_744_073_709_551_616,
        1 <= j <= 960,
        1 <= scale <= 1_099_511_627_776,
    ensures
        ({
            let m = nearest(
                2 * x + (if rest > 0 {
                    1nat
                } else {
                    0nat
                }),
                2,
            );
            &&& 9_223_372_036_854_775_808 <= m <= 18_446_744_073_709_551_616
            &&& scaled_decimal(n, k, scale) == if j == 960 && m == 18_446_744_073_709_551_616 {
                Err::<nat, Seq<char>>("not a positive number"@)
            } else if j == 1 && nearest(m * scale, 1) == 9_223_372_036_854_775_808 {
                Ok(u64::MAX as nat)
            } else {
                Err("too large"@)
            }
        }),
{
    reveal(scaled_decimal);
    two_to_known();
    let bit: nat = if rest > 0 {
        1
    } else {
        0
    };
    let m = nearest(2 * x + bit, 2);
    held_by_front(n, k, j, x, rest);
    nearest_at_most(2 * x + bit, 2, 64);
    nearest_at_least(2 * x + bit, 2, 63);
    let u = 1074 + j;
    times_by_digits(m, u, scale);
    let r = nearest(m * scale, 1);
    assert(1 * two_to(63) == two_to(63));
    nearest_at_least(m * scale, 1, 63);
    let value = held(n, k);
    let total = held_times(value, scale);
    let p = two_to(u);
    two_to_adds(u, 64);
    two_to_adds(u, 63);
    two_to_adds(1074, 64);
    two_to_adds(1074, 65);
    // Where the range is left.
    if j == 960 {
        assert(two_to(u + 64) == two_to(2098));
        assert(value >= two_to(2098) <==> m == two_to(64)) by (nonlinear_arith)
            requires
                value == p * m,
                two_to(2098) == p * two_to(64),
                m <= two_to(64),
                p >= 1,
        ;
    } else {
        assert(value <= p * two_to(64)) by (nonlinear_arith)
            requires
                value == p * m,
                m <= two_to(64),
                p >= 1,
        ;
        two_to_grows(u + 64, 2097);
        assert(two_to(2098) == 2 * two_to(2097));
    }
    // What is too large.
    assert(two_to(64) * two_to(1074) == two_to(1138)) by {
        let a = two_to(64) as int;
        let b = two_to(1074) as int;
        assert(a * b == b * a) by (nonlinear_arith);
    }
    assert(total >= p * two_to(63) && (total == p * two_to(63) <==> r == two_to(63)))
        by (nonlinear_arith)
        requires
            total == p * r,
            r >= two_to(63),
            p >= 1,
    ;
    if j == 1 {
        assert(two_to(u + 63) == two_to(1138));
        if r == two_to(63) {
            assert(two_to(64) * two_to(1074) + 0 == total);
            divides_as(total, two_to(1074), two_to(64), 0);
        }
    } else {
        two_to_grows(1139, u + 63);
        assert(two_to(1139) == 2 * two_to(1138));
        two_to_grows(1138, 1138);
    }
}

/// A number of more binary digits than double precision has room for.
proof fn scaled_beyond(n: nat, k: nat, scale: nat)
    requires
        ten_to(k) * two_to(1024) <= n,
    ensures
        scaled_decimal(n, k, scale) == Err::<nat, Seq<char>>("not a positive number"@),
{
    reveal(scaled_decimal);
    let t = ten_to(k);
    ten_to_positive(k);
    two_to_adds(1024, 1074);
    times_grows(t * two_to(1024), n, two_to(1074));
    let p = two_to(1024) as int;
    let q = two_to(1074) as int;
    assert((t * p) * q == t * (p * q)) by (nonlinear_arith);
    nearest_at_least(n * two_to(1074), t, 2098);
}

/// Scales a number whose whole part has more than 64 binary digits.
fn scale_above(whole: &Vec<char>, part: &Vec<char>, scale: u64) -> (r: Result<u64, &'static str>)
    requires
        text::all_digits(whole@),
        text::all_digits(part@),
        text::number(whole@) > u64::MAX,
        1 <= scale <= 1_099_511_627_776,
    ensures
        gives(
            r,
            scaled_decimal(
                text::number(whole@) * ten_to(part@.len()) + text::number(part@),
                part@.len(),
                scale as nat,
            ),
        ),
{
    let ghost k = part@.len();
    let ghost t = ten_to(k);
    let ghost w = text::number(whole@);
    let ghost n: nat = w * t + text::number(part@);
    let mut front: Vec<char> = copy_range(whole.as_slice(), 0, whole.len());
    let mut behind: bool = any_left(part);
    let mut j: u32 = 0;
    let ghost mut low: nat = 0;
    let mut found: Option<u64> = None;
    proof {
        assert(front@ =~= whole@);
        assert(w * 1 == w);
        number_below(part@);
        ten_to_positive(k);
    }
    while j <= 960 && found.is_none()
        invariant
            j <= 961,
            text::all_digits(front@),
            k == part@.len(),
            t == ten_to(k),
            t >= 1,
            text::number(part@) < t,
            w == text::number(whole@),
            w == text::number(front@) * two_to(j as nat) + low,
            low < two_to(j as nat),
            behind == (low * t + text::number(part@) > 0),
            text::number(front@) >= 9_223_372_036_854_775_808,
            found is None ==> j == 961 || text::number(front@) > u64::MAX,
            found is Some ==> 1 <= j <= 960 && found->0 == text::number(front@),
        decreases 961 - j,
    {
        let (half, odd): (Vec<char>, bool) = halved(&front);
        proof {
            let f = text::number(half@) as int;
            let q = two_to(j as nat) as int;
            let bit: int = if odd {
                1
            } else {
                0
            };
            assert((2 * f + bit) * q == f * (2 * q) + bit * q) by (nonlinear_arith);
            assert(bit == 1 ==> bit * q == q);
            assert(bit == 0 ==> bit * q == 0);
            let grown = if odd {
                (low + q) as nat
            } else {
                low
            };
            let ti = t as int;
            let lo = low as int;
            assert((lo + q) * ti == lo * ti + q * ti) by (nonlinear_arith);
            two_to_grows(j as nat, j as nat);
            assert(q * ti > 0) by (nonlinear_arith)
                requires
                    q >= 1,
                    ti >= 1,
            ;
            assert(lo * ti >= 0) by (nonlinear_arith)
                requires
                    lo >= 0,
                    ti >= 1,
            ;
            low = grown;
        }
        behind = behind || odd;
        front = half;
        j = j + 1;
        proof {
            assert(front@.len() > 0) by {
                if front@.len() == 0 {
                    assert(text::number(front@) == 0);
                }
            }
            assert(text::is_digit(front@[0]));
            assert(text::unsigned(front@) == front@);
        }
        found = if j <= 960 {
            parse_uint(front.as_slice(), u64::MAX)
        } else {
            None
        };
    }
    proof {
        let f = text::number(front@) as int;
        let q = two_to(j as nat) as int;
        let ti = t as int;
        let lo = low as int;
        let pn = text::number(part@) as int;
        assert((f * q + lo) * ti + pn == f * (ti * q) + (lo * ti + pn)) by (nonlinear_arith);
        assert(lo * ti + pn < ti * q) by (nonlinear_arith)
            requires
                lo + 1 <= q,
                pn < ti,
                ti >= 1,
        ;
    }
    match found {
        None => {
            proof {
                two_to_known();
                two_to_adds(63, 961);
                let f = text::number(front@) as int;
                let q = two_to(961) as int;
                let h = two_to(63) as int;
                let ti = t as int;
                assert(ti * (h * q) <= f * (ti * q)) by (nonlinear_arith)
                    requires
                        h <= f,
                        q >= 1,
                        ti >= 1,
                ;
                scaled_beyond(n, k, scale as nat);
            }
            Err("not a positive number")
        },
        Some(x) => {
            let digits: u128 = if behind {
                2 * (x as u128) + 1
            } else {
                2 * (x as u128)
            };
            proof {
                scaled_above(
                    n,
                    k,
                    scale as nat,
                    j as nat,
                    x as nat,
                    low * t + text::number(part@),
                );
            }
            let m: u128 = rounded(digits, 2);
            proof {
                assert(m * scale <= 18_446_744_073_709_551_616 * 1_099_511_627_776)
                    by (nonlinear_arith)
                    requires
                        m <= 18_446_744_073_709_551_616,
                        scale <= 1_099_511_627_776,
                ;
                assert(m * scale >= 0) by (nonlinear_arith);
            }
            if j == 960 && m == 18_446_744_073_709_551_616 {
                Err("not a positive number")
            } else if j == 1 && rounded(m * (scale as u128), 1) == 9_223_372_036_854_775_808 {
                Ok(u64::MAX)
            } else {
                Err("too large")
            }
        },
    }
}

/// Scales a decimal number, given as its digits before the point and behind it.
pub fn scale_decimal(whole: &Vec<char>, part: &Vec<char>, scale: u64) -> (r: Result<
    u64,
    &'static str,
>)
    requires
        text::all_digits(whole@),
        text::all_digits(part@),
        1 <= scale <= 1_099_511_627_776,
    ensures
        gives(
            r,
            scaled_decimal(
                text::number(whole@) * ten_to(part@.len()) + text::number(part@),
                part@.len(),
                scale as nat,
            ),
        ),
{
    if whole.len() == 0 {
        proof {
            assert(text::number(whole@) == 0);
        }
        return scale_below(0, part, scale);
    }
    proof {
        assert(text::is_digit(whole@[0]));
        assert(text::unsigned(whole@) == whole@);
    }
    match parse_uint(whole.as_slice(), u64::MAX) {
        Some(n) => scale_below(n, part, scale),
        None => scale_above(whole, part, scale),
    }
}

// ---- laws ------------------------------------------------------------------

proof fn nearest_cancels_any(a: nat, b: nat, c: nat)
    requires
        b > 0,
        c > 0,
    ensures
        b * c > 0,
        nearest(a * c, b * c) == nearest(a, b),
    decreases a / b,
{
    divided(a, b);
    let q = a / b;
    let r = a % b;
    assert((q * b + r) * c == q * (b * c) + r * c) by (nonlinear_arith);
    assert(r * c < b * c) by (nonlinear_arith)
        requires
            r < b,
            c > 0,
    ;
    divides_as(a * c, b * c, q, r * c);
    assert(2 * (r * c) < b * c <==> 2 * r < b) by (nonlinear_arith)
        requires
            c > 0,
    ;
    assert(2 * (r * c) == b * c <==> 2 * r == b) by (nonlinear_arith)
        requires
            c > 0,
    ;
    if q >= 9_007_199_254_740_992 {
        divided_again(a, b);
        nearest_cancels_any(a, 2 * b, c);
        assert((2 * b) * c == 2 * (b * c)) by (nonlinear_arith);
    }
}

proof fn nearest_exact(m: nat, n: nat)
    requires
        m <= 9_007_199_254_740_992,
    ensures
        nearest(m * two_to(n), 1) == m * two_to(n),
    decreases n,
{
    let a = m * two_to(n);
    assert(a / 1 == a && a % 1 == 0);
    if a >= 9_007_199_254_740_992 {
        if n == 0 {
            assert(m * 1 == m);
            divides_as(a, 2, 4_503_599_627_370_496, 0);
            assert(nearest(a, 2) == nearest_whole(a, 2));
        } else {
            let h = m * two_to((n - 1) as nat);
            let p = two_to((n - 1) as nat) as int;
            assert(m * (2 * p) == 2 * (m * p)) by (nonlinear_arith);
            nearest_exact(m, (n - 1) as nat);
            nearest_cancels(h, 1);
        }
    }
}

/// A whole number of bytes that fits in 53 binary digits is exact, with however
/// many zeros it is written behind the point.
pub proof fn a_whole_number_is_exact(n: nat, places: nat, scale: nat)
    requires
        1 <= scale,
        n * scale <= 9_007_199_254_740_992,
    ensures
        scaled_decimal(n * ten_to(places), places, scale) == Ok::<nat, Seq<char>>(n * scale),
{
    reveal(scaled_decimal);
    let t = ten_to(places);
    ten_to_positive(places);
    two_to_known();
    let p = two_to(1074);
    assert(n <= n * scale) by (nonlinear_arith)
        requires
            scale >= 1,
            n >= 0,
    ;
    assert((n * t) * p == (n * p) * t) by (nonlinear_arith);
    assert(1 * t == t);
    nearest_cancels_any(n * p, 1, t);
    nearest_exact(n, 1074);
    nearest_exact(n * scale, 1074);
    assert((n * p) * scale == (n * scale) * p) by (nonlinear_arith);
    two_to_adds(53, 1074);
    two_to_adds(64, 1074);
    two_to_grows(1127, 2097);
    assert(two_to(2098) == 2 * two_to(2097));
    times_grows(n, two_to(53), p);
    times_grows(n * scale, two_to(64), p);
    divides_as((n * scale) * p, p, n * scale, 0);
}

} // verus!
