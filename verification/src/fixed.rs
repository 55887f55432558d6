//! Fixed-point scalars: every coordinate, velocity, time step and trail
//! intensity in this crate is an `i64` counting multiples of `1 / SCALE`.

use vstd::prelude::*;

verus! {

/// Number of fixed-point units in one whole grid cell (2^16).
pub const SCALE: i64 = 65536;

/// Largest magnitude a coordinate or velocity component may take; generous
/// enough for any practical field, and small enough that all intermediate
/// fixed-point arithmetic in the crate fits in `i64` (2^48).
pub const COORD_BOUND: i64 = 281474976710656;

/// Largest magnitude a time step may take (256 whole units); keeps a
/// velocity-times-time product within `i64` (2^24).
pub const TIME_BOUND: i64 = 16777216;

/// `cos(45°) == sin(45°)` in fixed-point units: `SCALE * sqrt(2) / 2`,
/// rounded to the nearest integer.
pub const ROT_C: i64 = 46341;

/// Truncating division of `a` by a positive `b`, rounding toward zero — the
/// rounding a float-to-integer conversion uses, unlike the Euclidean `/`.
pub open spec fn tdiv(a: int, b: int) -> int
    recommends
        b >= 1,
{
    if a >= 0 {
        a / b
    } else {
        -((-a) / b)
    }
}

/// Truncating division of a fixed-point value by `SCALE`: the whole-unit part
/// of `a`, rounded toward zero.
pub open spec fn to_units(a: int) -> int {
    tdiv(a, SCALE as int)
}

/// Fixed-point multiplication: the exact product rescaled back by `SCALE`,
/// rounding toward zero.
pub open spec fn fmul_spec(a: int, b: int) -> int {
    tdiv(a * b, SCALE as int)
}

/// Truncating division lies between 0 and its dividend's Euclidean quotient
/// bound: if `|a| <= m` then `|tdiv(a, b)| <= m / b`.
pub proof fn lemma_tdiv_bounds(a: int, b: int, m: int)
    requires
        b >= 1,
        0 <= m,
        -m <= a <= m,
    ensures
        -(m / b) <= tdiv(a, b) <= m / b,
{
    if a >= 0 {
        vstd::arithmetic::div_mod::lemma_div_pos_is_pos(a, b);
        vstd::arithmetic::div_mod::lemma_div_is_ordered(a, m, b);
        vstd::arithmetic::div_mod::lemma_div_pos_is_pos(m, b);
    } else {
        vstd::arithmetic::div_mod::lemma_div_pos_is_pos(-a, b);
        vstd::arithmetic::div_mod::lemma_div_is_ordered(-a, m, b);
        vstd::arithmetic::div_mod::lemma_div_pos_is_pos(m, b);
    }
}

/// A product of values bounded in magnitude is bounded by the product of the
/// bounds.
pub proof fn lemma_mul_bounds(a: int, b: int, ma: int, mb: int)
    requires
        0 <= ma,
        0 <= mb,
        -ma <= a <= ma,
        -mb <= b <= mb,
    ensures
        -(ma * mb) <= a * b <= ma * mb,
{
    assert(-(ma * mb) <= a * b <= ma * mb) by (nonlinear_arith)
        requires
            0 <= ma,
            0 <= mb,
            -ma <= a <= ma,
            -mb <= b <= mb,
    ;
}

/// Magnitude bound for a fixed-point product from magnitude bounds on the
/// factors.
pub proof fn lemma_fmul_spec_bounds(a: int, b: int, ma: int, mb: int)
    requires
        0 <= ma,
        0 <= mb,
        -ma <= a <= ma,
        -mb <= b <= mb,
    ensures
        -((ma * mb) / (SCALE as int)) <= fmul_spec(a, b) <= (ma * mb) / (SCALE as int),
{
    lemma_mul_bounds(a, b, ma, mb);
    lemma_tdiv_bounds(a * b, SCALE as int, ma * mb);
}

/// Fixed-point multiplication: forms the exact product in `i128`, then
/// rescales by `SCALE` rounding toward zero. The only precondition is the one
/// the machine forces: the rescaled result must fit back in `i64`.
pub fn fmul(a: i64, b: i64) -> (r: i64)
    requires
        -(i64::MAX as int) <= fmul_spec(a as int, b as int) <= i64::MAX as int,
    ensures
        r == fmul_spec(a as int, b as int),
{
    proof {
        lemma_mul_bounds(a as int, b as int, 0x8000000000000000int, 0x8000000000000000int);
        lemma_tdiv_bounds(
            (a as int) * (b as int),
            SCALE as int,
            0x8000000000000000int * 0x8000000000000000int,
        );
    }
    let p: i128 = (a as i128) * (b as i128);
    if p >= 0 {
        ((p as u128) / (SCALE as u128)) as i64
    } else {
        let m = (-p) as u128;
        -((m / (SCALE as u128)) as i64)
    }
}

/// Integer square root of a small value: the unique `r` with
/// `r * r <= n < (r + 1) * (r + 1)`.
pub fn isqrt(n: u64) -> (r: u64)
    requires
        n <= 8589934592,
    ensures
        r * r <= n < (r + 1) * (r + 1),
{
    let mut r: u64 = 0;
    loop
        invariant
            n <= 8589934592,
            r * r <= n,
            r <= n,
            r <= 92681,
        ensures
            r * r <= n < (r + 1) * (r + 1),
        decreases n - r,
    {
        let s = r + 1;
        proof {
            lemma_mul_bounds(s as int, s as int, 92682, 92682);
        }
        let sq = s * s;
        if sq > n {
            break;
        }
        proof {
            assert(s <= 92681 && s <= n) by (nonlinear_arith)
                requires
                    1 <= s,
                    s * s <= n,
                    n <= 8589934592,
            ;
        }
        r = s;
    }
    r
}

/// Truncating division by a positive divisor, computed on the magnitude with
/// unsigned arithmetic so the rounding is exactly toward zero.
pub fn div_trunc(a: i64, b: i64) -> (r: i64)
    requires
        1 <= b,
        a > i64::MIN,
    ensures
        r == tdiv(a as int, b as int),
{
    proof {
        lemma_tdiv_bounds(a as int, b as int, if a >= 0 { a as int } else { -(a as int) });
    }
    if a >= 0 {
        ((a as u64) / (b as u64)) as i64
    } else {
        let m = (-a) as u64;
        -((m / (b as u64)) as i64)
    }
}

} // verus!
