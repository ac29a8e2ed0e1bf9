//! Signed 16.16 fixed-point arithmetic.
//!
//! A raw value `v: i64` stands for the real number `v / FP`.  Every
//! operation rounds downward (floor), which is exactly the Euclidean
//! division `/` of Verus specifications, so each executable step has a
//! one-line exact specification.  Floor rounding (rather than Rust's
//! round-toward-zero `/`) is chosen because it commutes with adding
//! whole multiples of `FP`, which keeps the transform-composition laws
//! of the matrix module exact.

use vstd::prelude::*;

verus! {

/// Scale factor of the fixed-point representation: the raw value `FP`
/// stands for the real number one.
pub const FP: i64 = 65536;

/// Magnitude of an integer.
pub open spec fn mag(a: int) -> int {
    if a >= 0 {
        a
    } else {
        -a
    }
}

/// Product of two fixed-point values, floor-rounded.
pub open spec fn fxmul(a: int, b: int) -> int {
    (a * b) / (FP as int)
}

/// Quotient of two fixed-point values, floor-rounded; meaningful for
/// positive divisors.
pub open spec fn fxdiv(a: int, b: int) -> int {
    (a * (FP as int)) / b
}

/// Floor of a fixed-point value as a plain integer.
pub open spec fn fxfloor(a: int) -> int {
    a / (FP as int)
}

/// The unique nonnegative integer square root: `sqrt_floor(n)` is the
/// largest integer whose square does not exceed `n`.
pub open spec fn sqrt_floor(n: int) -> int {
    choose|r: int| 0 <= r && #[trigger] (r * r) <= n < (r + 1) * (r + 1)
}

/// Any two integers satisfying the square-root characterization are
/// equal, so `sqrt_floor` is pinned down by its defining property.
pub proof fn lemma_sqrt_floor_unique(n: int, r: int)
    requires
        0 <= r,
        r * r <= n,
        n < (r + 1) * (r + 1),
    ensures
        sqrt_floor(n) == r,
{
    assert(exists|q: int| 0 <= q && #[trigger] (q * q) <= n < (q + 1) * (q + 1));
    let q = sqrt_floor(n);
    if q < r {
        assert((q + 1) * (q + 1) <= r * r) by (nonlinear_arith)
            requires 0 <= q, q < r,
        ;
    }
    if r < q {
        assert((r + 1) * (r + 1) <= q * q) by (nonlinear_arith)
            requires 0 <= r, r < q,
        ;
    }
}

/// Bound on the magnitude of a product from bounds on its factors.
pub proof fn lemma_mul_mag(a: int, b: int, ma: int, mb: int)
    requires
        mag(a) <= ma,
        mag(b) <= mb,
    ensures
        mag(a * b) <= ma * mb,
{
    assert(mag(a * b) <= ma * mb) by (nonlinear_arith)
        requires mag(a) <= ma, mag(b) <= mb,
    ;
}

/// Bound on the magnitude of a floor quotient from a bound on the
/// dividend.
pub proof fn lemma_div_mag(num: int, d: int, m: int)
    requires
        1 <= d,
        0 <= m,
        mag(num) <= m * d,
    ensures
        mag(num / d) <= m,
{
    vstd::arithmetic::div_mod::lemma_div_by_multiple(m, d);
    if num >= 0 {
        vstd::arithmetic::div_mod::lemma_div_is_ordered(num, m * d, d);
        vstd::arithmetic::div_mod::lemma_div_pos_is_pos(num, d);
    } else {
        assert(-(m * d) == d * (-m)) by (nonlinear_arith);
        vstd::arithmetic::div_mod::lemma_div_multiples_vanish(-m, d);
        vstd::arithmetic::div_mod::lemma_div_is_ordered(-(m * d), num, d);
        vstd::arithmetic::div_mod::lemma_div_is_ordered(num, 0, d);
        vstd::arithmetic::div_mod::lemma_div_basics(d);
    }
}

/// Bound on the magnitude of a fixed-point product from bounds on its
/// factors.
pub proof fn lemma_fxmul_mag(a: int, b: int, ma: int, mb: int)
    requires
        mag(a) <= ma,
        mag(b) <= mb,
    ensures
        mag(fxmul(a, b)) <= (ma * mb) / (FP as int) + 1,
{
    lemma_mul_mag(a, b, ma, mb);
    let m = (ma * mb) / (FP as int) + 1;
    vstd::arithmetic::div_mod::lemma_fundamental_div_mod(ma * mb, FP as int);
    vstd::arithmetic::div_mod::lemma_mod_bound(ma * mb, FP as int);
    assert(mag(a * b) <= m * (FP as int)) by (nonlinear_arith)
        requires
            mag(a * b) <= ma * mb,
            ma * mb == (FP as int) * ((ma * mb) / (FP as int)) + (ma * mb) % (FP as int),
            0 <= (ma * mb) % (FP as int) < FP as int,
            m == (ma * mb) / (FP as int) + 1,
            FP == 65536,
    ;
    assert(0 <= m) by (nonlinear_arith)
        requires
            0 <= mag(a * b) <= m * (FP as int),
            FP == 65536,
    ;
    lemma_div_mag(a * b, FP as int, m);
}

/// Euclidean remainder of `a` by a positive modulus: always in
/// `[0, m)`.
pub fn emod64(a: i64, m: i64) -> (r: i64)
    requires
        0 < m,
    ensures
        r == (a as int) % (m as int),
        0 <= r < m,
{
    let r0: i64 = a % m;
    proof {
        let av = a as int;
        let mv = m as int;
        vstd::arithmetic::div_mod::lemma_mod_bound(av, mv);
        if a < 0 {
            let qe = (-av) / mv;
            let re = (-av) % mv;
            vstd::arithmetic::div_mod::lemma_fundamental_div_mod(-av, mv);
            vstd::arithmetic::div_mod::lemma_mod_bound(-av, mv);
            if re == 0 {
                assert(av == (-qe) * mv + 0) by (nonlinear_arith)
                    requires -av == mv * qe + re, re == 0,
                ;
                vstd::arithmetic::div_mod::lemma_fundamental_div_mod_converse(av, mv, -qe, 0);
            } else {
                assert(av == (-qe - 1) * mv + (mv - re)) by (nonlinear_arith)
                    requires -av == mv * qe + re,
                ;
                vstd::arithmetic::div_mod::lemma_fundamental_div_mod_converse(
                    av, mv, -qe - 1, mv - re);
            }
        }
    }
    if r0 < 0 {
        r0 + m
    } else {
        r0
    }
}

/// Floor division of `i128` values by a positive divisor.
pub fn fdiv128(a: i128, b: i128) -> (r: i128)
    requires
        0 < b,
    ensures
        r == (a as int) / (b as int),
{
    let q: i128 = a / b;
    let m: i128 = a % b;
    proof {
        let av = a as int;
        let bv = b as int;
        if a < 0 {
            let qe = (-av) / bv;
            let re = (-av) % bv;
            vstd::arithmetic::div_mod::lemma_fundamental_div_mod(-av, bv);
            vstd::arithmetic::div_mod::lemma_mod_bound(-av, bv);
            if re == 0 {
                assert(av == (-qe) * bv + 0) by (nonlinear_arith)
                    requires -av == bv * qe + re, re == 0,
                ;
                vstd::arithmetic::div_mod::lemma_fundamental_div_mod_converse(av, bv, -qe, 0);
            } else {
                assert(av == (-qe - 1) * bv + (bv - re)) by (nonlinear_arith)
                    requires -av == bv * qe + re,
                ;
                vstd::arithmetic::div_mod::lemma_fundamental_div_mod_converse(
                    av, bv, -qe - 1, bv - re);
                vstd::arithmetic::div_mod::lemma_div_pos_is_pos(-av, bv);
                assert(-qe - 1 >= av) by (nonlinear_arith)
                    requires
                        av == bv * (-qe - 1) + (bv - re),
                        qe >= 0,
                        1 <= re,
                        re < bv,
                        bv >= 1,
                ;
            }
        }
    }
    if m != 0 && a < 0 {
        q - 1
    } else {
        q
    }
}

/// Multiplies two fixed-point values, floor-rounded.
pub fn fx_mul(a: i64, b: i64) -> (r: i64)
    requires
        i64::MIN <= fxmul(a as int, b as int) <= i64::MAX,
    ensures
        r == fxmul(a as int, b as int),
{
    let p: i128 = (a as i128) * (b as i128);
    fdiv128(p, FP as i128) as i64
}

/// Divides two fixed-point values (positive divisor), floor-rounded.
pub fn fx_div(a: i64, b: i64) -> (r: i64)
    requires
        0 < b,
        i64::MIN <= fxdiv(a as int, b as int) <= i64::MAX,
    ensures
        r == fxdiv(a as int, b as int),
{
    let p: i128 = (a as i128) * (FP as i128);
    fdiv128(p, b as i128) as i64
}

/// Floor of a fixed-point value as a plain integer.
pub fn fx_floor(a: i64) -> (r: i64)
    ensures
        r == fxfloor(a as int),
{
    proof {
        vstd::arithmetic::div_mod::lemma_fundamental_div_mod(a as int, FP as int);
        vstd::arithmetic::div_mod::lemma_mod_bound(a as int, FP as int);
        assert(i64::MIN <= (a as int) / (FP as int) <= i64::MAX) by (nonlinear_arith)
            requires
                a as int == (FP as int) * ((a as int) / (FP as int)) + (a as int) % (FP as int),
                0 <= (a as int) % (FP as int) < FP as int,
                i64::MIN <= a as int <= i64::MAX,
                FP == 65536,
        ;
    }
    fdiv128(a as i128, FP as i128) as i64
}

/// The largest integer whose square does not exceed `n`, found by
/// binary search.
pub fn isqrt(n: u64) -> (r: u64)
    ensures
        r == sqrt_floor(n as int),
        r * r <= n,
        n < (r + 1) * (r + 1),
{
    let mut lo: u64 = 0;
    let mut hi: u64 = 4294967296;
    if n < 4294967295 {
        hi = n + 1;
    }
    proof {
        assert((hi as int) * (hi as int) > n as int) by (nonlinear_arith)
            requires hi == 4294967296 || (n < 4294967295 && hi == n + 1),
        ;
    }
    while lo + 1 < hi
        invariant
            0 <= lo < hi,
            hi <= 4294967296,
            (lo as int) * (lo as int) <= n as int,
            (hi as int) * (hi as int) > n as int,
        decreases hi - lo,
    {
        let mid: u64 = lo + (hi - lo) / 2;
        proof {
            vstd::arithmetic::div_mod::lemma_div_decreases((hi - lo) as int, 2);
            assert((mid as int) * (mid as int) < 18446744073709551616) by (nonlinear_arith)
                requires 0 <= mid as int <= 4294967295,
            ;
        }
        if mid * mid <= n {
            lo = mid;
        } else {
            hi = mid;
        }
    }
    proof {
        lemma_sqrt_floor_unique(n as int, lo as int);
    }
    lo
}

} // verus!
