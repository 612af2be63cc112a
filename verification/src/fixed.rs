//! Fixed-point arithmetic helpers shared by the whole engine.
//!
//! All divisions round toward negative infinity (floor), so that contracts
//! can be stated with the mathematical `/` directly.

use vstd::prelude::*;

verus! {

use crate::SCALE;
use vstd::arithmetic::div_mod::lemma_fundamental_div_mod;

/// Clamp `value` into `[min, max]`, checking the lower bound first,
/// exactly as the rest of the engine expects.
pub open spec fn clamp_spec(value: int, min: int, max: int) -> int {
    if value < min {
        min
    } else if value > max {
        max
    } else {
        value
    }
}

pub fn clamp(value: i64, min: i64, max: i64) -> (r: i64)
    ensures
        r == clamp_spec(value as int, min as int, max as int),
{
    if value < min {
        min
    } else if value > max {
        max
    } else {
        value
    }
}

proof fn lemma_floor_div_in_range(a: int, b: int)
    requires
        b > 0,
        i128::MIN <= a <= i128::MAX,
    ensures
        i128::MIN <= a / b <= i128::MAX,
{
    let q = a / b;
    let r = a % b;
    lemma_fundamental_div_mod(a, b);
    assert(i128::MIN <= q <= i128::MAX) by (nonlinear_arith)
        requires
            a == q * b + r,
            0 <= r < b,
            b > 0,
            i128::MIN <= a <= i128::MAX;
}

/// Floor division of a wide intermediate by a positive divisor.
pub fn floor_div_i128(a: i128, b: i128) -> (q: i128)
    requires
        b > 0,
    ensures
        q == a as int / b as int,
{
    proof {
        lemma_floor_div_in_range(a as int, b as int);
    }
    a.checked_div_euclid(b).unwrap()
}

/// Saturate a wide intermediate back into the `i64` range.
pub fn sat_to_i64(x: i128) -> (r: i64)
    ensures
        r == clamp_spec(x as int, i64::MIN as int, i64::MAX as int),
{
    if x > i64::MAX as i128 {
        i64::MAX
    } else if x < i64::MIN as i128 {
        i64::MIN
    } else {
        x as i64
    }
}

/// `a + b` saturating at the `i64` range ends.
pub fn sat_add(a: i64, b: i64) -> (r: i64)
    ensures
        r == clamp_spec(a + b, i64::MIN as int, i64::MAX as int),
{
    sat_to_i64((a as i128) + (b as i128))
}

/// Integer square root: the greatest `r` with `r * r <= x`.
pub fn isqrt_u128(x: u128) -> (r: u64)
    requires
        x < 0x4000_0000_0000_0000_0000_0000_0000_0000,
    ensures
        r * r <= x < (r + 1) * (r + 1),
{
    let mut lo: u64 = 0;
    let mut hi: u64 = 0x8000_0000_0000_0000;
    proof {
        assert((0x8000_0000_0000_0000u64 + 1) * (0x8000_0000_0000_0000u64 + 1)
            > 0x4000_0000_0000_0000_0000_0000_0000_0000int) by (nonlinear_arith);
    }
    while lo < hi
        invariant
            lo <= hi <= 0x8000_0000_0000_0000,
            lo * lo <= x,
            x < (hi + 1) * (hi + 1),
        decreases hi - lo,
    {
        let mid: u64 = lo + (hi - lo + 1) / 2;
        proof {
            assert(mid as int * mid as int <= u128::MAX) by (nonlinear_arith)
                requires
                    mid <= 0x8000_0000_0000_0000u64;
        }
        let sq: u128 = (mid as u128) * (mid as u128);
        if sq <= x {
            lo = mid;
        } else {
            hi = mid - 1;
        }
    }
    lo
}

/// A quotient lies within `[-m, m]` when its numerator lies within
/// `[-m*b, m*b]`.
pub proof fn lemma_div_within(a: int, b: int, m: int)
    requires
        b > 0,
        m >= 0,
        -(m * b) <= a <= m * b,
    ensures
        -m <= a / b <= m,
{
    vstd::arithmetic::div_mod::lemma_div_is_ordered(a, m * b, b);
    vstd::arithmetic::div_mod::lemma_div_is_ordered(-(m * b), a, b);
    vstd::arithmetic::div_mod::lemma_div_multiples_vanish(m, b);
    vstd::arithmetic::div_mod::lemma_div_multiples_vanish(-m, b);
    assert(m * b == b * m && -(m * b) == b * -m) by (nonlinear_arith);
}

/// `r` is the integer square root of `x`.
pub open spec fn is_sqrt_floor(x: int, r: int) -> bool {
    0 <= r && r * r <= x < (r + 1) * (r + 1)
}

/// The integer square root, as a spec-level value.
pub open spec fn sqrt_floor(x: int) -> int {
    choose|r: int| is_sqrt_floor(x, r)
}

/// A witness pins `sqrt_floor` down: integer square roots are unique.
pub proof fn lemma_sqrt_floor_is(x: int, s: int)
    requires
        is_sqrt_floor(x, s),
    ensures
        sqrt_floor(x) == s,
{
    let w = choose|r: int| is_sqrt_floor(x, r);
    assert(is_sqrt_floor(x, w));
    assert(w == s) by (nonlinear_arith)
        requires
            0 <= w,
            w * w <= x < (w + 1) * (w + 1),
            0 <= s,
            s * s <= x < (s + 1) * (s + 1);
}

/// Rounded division by a positive divisor: nearest integer, ties away
/// from zero, as the host language rounds.
pub open spec fn round_div_spec(a: int, b: int) -> int
    recommends
        b > 0,
{
    if a >= 0 {
        (a + b / 2) / b
    } else {
        -((-a + b / 2) / b)
    }
}

pub proof fn lemma_round_div_nonneg_bounds(a: int, b: int)
    requires
        a >= 0,
        b >= 1,
    ensures
        0 <= (a + b / 2) / b <= a,
{
    let bh = b / 2;
    let q = (a + bh) / b;
    let r = (a + bh) % b;
    lemma_fundamental_div_mod(a + bh, b);
    assert(0 <= q <= a) by (nonlinear_arith)
        requires
            a + bh == q * b + r,
            0 <= r < b,
            0 <= bh < b,
            a >= 0,
            b >= 1;
}

pub fn round_div(a: i64, b: i64) -> (r: i64)
    requires
        0 < b,
        i64::MIN < a,
    ensures
        r == round_div_spec(a as int, b as int),
{
    if a >= 0 {
        proof {
            lemma_round_div_nonneg_bounds(a as int, b as int);
        }
        let q = floor_div_i128(a as i128 + (b / 2) as i128, b as i128);
        q as i64
    } else {
        let na: i64 = -a;
        proof {
            lemma_round_div_nonneg_bounds(na as int, b as int);
        }
        let q = floor_div_i128(na as i128 + (b / 2) as i128, b as i128);
        -(q as i64)
    }
}

} // verus!
