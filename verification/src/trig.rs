//! Fixed-point sine and cosine.
//!
//! Angles are fixed-point radians.  The argument is reduced modulo one
//! turn, folded into the quarter-wave range, and evaluated by a
//! degree-seven Taylor polynomial with floor-rounded divisions; the
//! result is accurate to a few parts in ten thousand, ample for the
//! camera and animation paths, and is an exact deterministic function
//! of the argument given by `sin_spec` and `cos_spec`.

use vstd::prelude::*;
use crate::fixed::{FP, mag, fdiv128, lemma_mul_mag, lemma_div_mag};

verus! {

/// Half a turn in fixed-point radians.
pub const PI_FX: i64 = 205887;

/// A quarter turn in fixed-point radians.
pub const HALF_PI_FX: i64 = 102944;

/// A full turn in fixed-point radians (twice `PI_FX`, so the folding
/// arithmetic below stays exactly symmetric).
pub const TWO_PI_FX: i64 = 411774;

/// Six times the square of the scale: the denominator of the cubic
/// Taylor term.
pub const SIN_D3: i128 = 25769803776;

/// One hundred twenty times the fourth power of the scale: the
/// denominator of the quintic Taylor term.
pub const SIN_D5: i128 = 2213609288845146193920;

/// Five thousand forty times the sixth power of the scale: the
/// denominator of the septic Taylor term.
pub const SIN_D7: i128 = 399309939071892261471461509693440;

/// The argument reduced to the half-open turn `(-PI_FX, PI_FX]`.
pub open spec fn fold_angle(x: int) -> int {
    let r = x % (TWO_PI_FX as int);
    if r > PI_FX as int {
        r - TWO_PI_FX as int
    } else {
        r
    }
}

/// Folds a reduced angle into `[-HALF_PI_FX, HALF_PI_FX]`, using the
/// symmetry of the sine about the quarter turn.
pub open spec fn taylor_arg(c: int) -> int {
    if c > HALF_PI_FX as int {
        PI_FX as int - c
    } else if c < -(HALF_PI_FX as int) {
        -(PI_FX as int) - c
    } else {
        c
    }
}

/// The degree-seven Taylor polynomial of the sine, with floor-rounded
/// divisions.
pub open spec fn sin_taylor(t: int) -> int {
    let t2 = t * t;
    let t3 = t2 * t;
    let t5 = t3 * t2;
    let t7 = t5 * t2;
    t - t3 / (SIN_D3 as int) + t5 / (SIN_D5 as int) - t7 / (SIN_D7 as int)
}

/// The fixed-point sine.
pub open spec fn sin_spec(x: int) -> int {
    sin_taylor(taylor_arg(fold_angle(x)))
}

/// The fixed-point cosine: the sine a quarter turn ahead.
pub open spec fn cos_spec(x: int) -> int {
    sin_spec(x + HALF_PI_FX as int)
}

/// The fixed-point sine of an angle in fixed-point radians.
pub fn sin_fx(x: i64) -> (r: i64)
    ensures
        r == sin_spec(x as int),
        mag(r as int) <= 3 * FP as int,
{
    let m0 = crate::fixed::emod64(x, TWO_PI_FX);
    let c = if m0 > PI_FX {
        m0 - TWO_PI_FX
    } else {
        m0
    };
    let t = if c > HALF_PI_FX {
        PI_FX - c
    } else if c < -HALF_PI_FX {
        -PI_FX - c
    } else {
        c
    };
    let tt = t as i128;
    proof {
        lemma_mul_mag(tt as int, tt as int, 102944, 102944);
    }
    let t2 = tt * tt;
    proof {
        lemma_mul_mag(t2 as int, tt as int, 10597467136, 102944);
        lemma_mul_mag(1090945656848384, t2 as int, 1090945656848384, 10597467136);
    }
    let t3 = t2 * tt;
    proof {
        lemma_mul_mag(t3 as int, t2 as int, 1090945656848384, 10597467136);
        lemma_mul_mag(11561260745612682774708224, t2 as int,
            11561260745612682774708224, 10597467136);
    }
    let t5 = t3 * t2;
    proof {
        lemma_mul_mag(t5 as int, t2 as int, 11561260745612682774708224, 10597467136);
    }
    let t7 = t5 * t2;
    proof {
        lemma_div_mag(t3 as int, SIN_D3 as int, 50000);
        lemma_div_mag(t5 as int, SIN_D5 as int, 6000);
        lemma_div_mag(t7 as int, SIN_D7 as int, 400);
    }
    let s = tt - fdiv128(t3, SIN_D3) + fdiv128(t5, SIN_D5) - fdiv128(t7, SIN_D7);
    s as i64
}

/// The fixed-point cosine of an angle in fixed-point radians.
pub fn cos_fx(x: i64) -> (r: i64)
    requires
        mag(x as int) <= 4611686018427387904,
    ensures
        r == cos_spec(x as int),
        mag(r as int) <= 3 * FP as int,
{
    sin_fx(x + HALF_PI_FX)
}

} // verus!
