//! Two-component fixed-point vectors, used for texture coordinates and
//! for the two-dimensional part of rasterization.

use vstd::prelude::*;
use crate::fixed::{FP, fxmul, mag, lemma_fxmul_mag};

verus! {

/// Magnitude bound under which the products taken by `dot` and `scale`
/// stay inside `i64`.
pub const VEC_RANGE: i64 = 274877906944;

#[derive(Clone, Copy, Debug, PartialEq, Eq, Structural)]
pub struct Vec2 {
    pub x: i64,
    pub y: i64,
}

/// The fixed-point dot product of two plane vectors.
pub open spec fn dot2(a: Vec2, b: Vec2) -> int {
    fxmul(a.x as int, b.x as int) + fxmul(a.y as int, b.y as int)
}

impl Vec2 {
    /// Both components bounded in magnitude by `m`.
    pub open spec fn in_range(self, m: int) -> bool {
        mag(self.x as int) <= m && mag(self.y as int) <= m
    }

    pub fn new(x: i64, y: i64) -> (r: Vec2)
        ensures
            r.x == x,
            r.y == y,
    {
        Vec2 { x, y }
    }

    /// Componentwise scaling by the fixed-point factor `n`.
    pub fn scale(self, n: i64) -> (r: Vec2)
        requires
            self.in_range(VEC_RANGE as int),
            mag(n as int) <= VEC_RANGE as int,
        ensures
            r.x == fxmul(self.x as int, n as int),
            r.y == fxmul(self.y as int, n as int),
            r.in_range(1152921504606846977),
    {
        proof {
            lemma_fxmul_mag(self.x as int, n as int, VEC_RANGE as int, VEC_RANGE as int);
            lemma_fxmul_mag(self.y as int, n as int, VEC_RANGE as int, VEC_RANGE as int);
        }
        Vec2 { x: crate::fixed::fx_mul(self.x, n), y: crate::fixed::fx_mul(self.y, n) }
    }

    /// The fixed-point dot product.
    pub fn dot(self, vec: Vec2) -> (r: i64)
        requires
            self.in_range(VEC_RANGE as int),
            vec.in_range(VEC_RANGE as int),
        ensures
            r == dot2(self, vec),
    {
        proof {
            lemma_fxmul_mag(self.x as int, vec.x as int, VEC_RANGE as int, VEC_RANGE as int);
            lemma_fxmul_mag(self.y as int, vec.y as int, VEC_RANGE as int, VEC_RANGE as int);
        }
        crate::fixed::fx_mul(self.x, vec.x) + crate::fixed::fx_mul(self.y, vec.y)
    }

    /// Componentwise sum.
    pub fn add(self, vec: Vec2) -> (r: Vec2)
        requires
            i64::MIN <= self.x + vec.x <= i64::MAX,
            i64::MIN <= self.y + vec.y <= i64::MAX,
        ensures
            r.x == self.x + vec.x,
            r.y == self.y + vec.y,
    {
        Vec2 { x: self.x + vec.x, y: self.y + vec.y }
    }

    /// Componentwise difference.
    pub fn sub(self, vec: Vec2) -> (r: Vec2)
        requires
            i64::MIN <= self.x - vec.x <= i64::MAX,
            i64::MIN <= self.y - vec.y <= i64::MAX,
        ensures
            r.x == self.x - vec.x,
            r.y == self.y - vec.y,
    {
        Vec2 { x: self.x - vec.x, y: self.y - vec.y }
    }
}

} // verus!
