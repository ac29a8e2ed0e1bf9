//! Three-component fixed-point vectors: positions and directions.

use vstd::prelude::*;
use crate::fixed::{FP, fxmul, fxdiv, mag, sqrt_floor, lemma_fxmul_mag, lemma_mul_mag,
    lemma_div_mag};
use crate::vec2::Vec2;

verus! {

/// Magnitude bound under which the products taken by `scale` and
/// `cross_product` stay inside `i64`.
pub const VEC3_RANGE: i64 = 274877906944;

/// Magnitude bound under which a sum of three squares stays inside
/// `i128` comfortably; `length` and `normalise` ask for it.
pub const LEN_RANGE: i64 = 1073741824;

#[derive(Clone, Copy, Debug, PartialEq, Eq, Structural)]
pub struct Vec3 {
    pub x: i64,
    pub y: i64,
    pub z: i64,
}

/// First component of the fixed-point cross product.
pub open spec fn cross_x(a: Vec3, b: Vec3) -> int {
    fxmul(a.y as int, b.z as int) - fxmul(a.z as int, b.y as int)
}

/// Second component of the fixed-point cross product.
pub open spec fn cross_y(a: Vec3, b: Vec3) -> int {
    fxmul(a.z as int, b.x as int) - fxmul(a.x as int, b.z as int)
}

/// Third component of the fixed-point cross product.
pub open spec fn cross_z(a: Vec3, b: Vec3) -> int {
    fxmul(a.x as int, b.y as int) - fxmul(a.y as int, b.x as int)
}

impl Vec3 {
    /// All components bounded in magnitude by `m`.
    pub open spec fn in_range(self, m: int) -> bool {
        mag(self.x as int) <= m && mag(self.y as int) <= m && mag(self.z as int) <= m
    }

    /// Sum of the squared raw components; the squared fixed-point
    /// length scaled by `FP * FP`.
    pub open spec fn len_sq(self) -> int {
        self.x * self.x + self.y * self.y + self.z * self.z
    }

    /// The fixed-point length: the integer square root of `len_sq`.
    pub open spec fn fx_len(self) -> int {
        sqrt_floor(self.len_sq())
    }

    pub fn new(x: i64, y: i64, z: i64) -> (r: Vec3)
        ensures
            r.x == x,
            r.y == y,
            r.z == z,
    {
        Vec3 { x, y, z }
    }

    /// The zero vector.
    pub fn origin() -> (r: Vec3)
        ensures
            r.x == 0,
            r.y == 0,
            r.z == 0,
    {
        Vec3 { x: 0, y: 0, z: 0 }
    }

    /// The unit vector along the first axis.
    pub fn x_axis() -> (r: Vec3)
        ensures
            r.x == FP,
            r.y == 0,
            r.z == 0,
    {
        Vec3 { x: FP, y: 0, z: 0 }
    }

    /// The unit vector along the second (up) axis.
    pub fn y_axis() -> (r: Vec3)
        ensures
            r.x == 0,
            r.y == FP,
            r.z == 0,
    {
        Vec3 { x: 0, y: FP, z: 0 }
    }

    /// The plane vector made of the first two components.
    pub fn xy(self) -> (r: Vec2)
        ensures
            r.x == self.x,
            r.y == self.y,
    {
        Vec2 { x: self.x, y: self.y }
    }

    /// Componentwise sum.
    pub fn add(self, vec: Vec3) -> (r: Vec3)
        requires
            i64::MIN <= self.x + vec.x <= i64::MAX,
            i64::MIN <= self.y + vec.y <= i64::MAX,
            i64::MIN <= self.z + vec.z <= i64::MAX,
        ensures
            r.x == self.x + vec.x,
            r.y == self.y + vec.y,
            r.z == self.z + vec.z,
    {
        Vec3 { x: self.x + vec.x, y: self.y + vec.y, z: self.z + vec.z }
    }

    /// Componentwise difference.
    pub fn sub(self, vec: Vec3) -> (r: Vec3)
        requires
            i64::MIN <= self.x - vec.x <= i64::MAX,
            i64::MIN <= self.y - vec.y <= i64::MAX,
            i64::MIN <= self.z - vec.z <= i64::MAX,
        ensures
            r.x == self.x - vec.x,
            r.y == self.y - vec.y,
            r.z == self.z - vec.z,
    {
        Vec3 { x: self.x - vec.x, y: self.y - vec.y, z: self.z - vec.z }
    }

    /// Componentwise scaling by the fixed-point factor `n`.
    pub fn scale(self, n: i64) -> (r: Vec3)
        requires
            self.in_range(VEC3_RANGE as int),
            mag(n as int) <= VEC3_RANGE as int,
        ensures
            r.x == fxmul(self.x as int, n as int),
            r.y == fxmul(self.y as int, n as int),
            r.z == fxmul(self.z as int, n as int),
            r.in_range(1152921504606846977),
    {
        proof {
            lemma_fxmul_mag(self.x as int, n as int, VEC3_RANGE as int, VEC3_RANGE as int);
            lemma_fxmul_mag(self.y as int, n as int, VEC3_RANGE as int, VEC3_RANGE as int);
            lemma_fxmul_mag(self.z as int, n as int, VEC3_RANGE as int, VEC3_RANGE as int);
        }
        Vec3 {
            x: crate::fixed::fx_mul(self.x, n),
            y: crate::fixed::fx_mul(self.y, n),
            z: crate::fixed::fx_mul(self.z, n),
        }
    }

    /// The fixed-point cross product.
    pub fn cross_product(self, vec: Vec3) -> (r: Vec3)
        requires
            self.in_range(VEC3_RANGE as int),
            vec.in_range(VEC3_RANGE as int),
        ensures
            r.x == cross_x(self, vec),
            r.y == cross_y(self, vec),
            r.z == cross_z(self, vec),
    {
        proof {
            lemma_fxmul_mag(self.y as int, vec.z as int, VEC3_RANGE as int, VEC3_RANGE as int);
            lemma_fxmul_mag(self.z as int, vec.y as int, VEC3_RANGE as int, VEC3_RANGE as int);
            lemma_fxmul_mag(self.z as int, vec.x as int, VEC3_RANGE as int, VEC3_RANGE as int);
            lemma_fxmul_mag(self.x as int, vec.z as int, VEC3_RANGE as int, VEC3_RANGE as int);
            lemma_fxmul_mag(self.x as int, vec.y as int, VEC3_RANGE as int, VEC3_RANGE as int);
            lemma_fxmul_mag(self.y as int, vec.x as int, VEC3_RANGE as int, VEC3_RANGE as int);
        }
        let x = crate::fixed::fx_mul(self.y, vec.z) - crate::fixed::fx_mul(self.z, vec.y);
        let y = crate::fixed::fx_mul(self.z, vec.x) - crate::fixed::fx_mul(self.x, vec.z);
        let z = crate::fixed::fx_mul(self.x, vec.y) - crate::fixed::fx_mul(self.y, vec.x);
        Vec3 { x, y, z }
    }

    /// The fixed-point length of the vector.
    pub fn length(&self) -> (r: i64)
        requires
            self.in_range(LEN_RANGE as int),
        ensures
            r == self.fx_len(),
            0 <= r <= 2147483648,
            r * r <= self.len_sq(),
            self.len_sq() < (r + 1) * (r + 1),
    {
        proof {
            lemma_mul_mag(self.x as int, self.x as int, LEN_RANGE as int, LEN_RANGE as int);
            lemma_mul_mag(self.y as int, self.y as int, LEN_RANGE as int, LEN_RANGE as int);
            lemma_mul_mag(self.z as int, self.z as int, LEN_RANGE as int, LEN_RANGE as int);
            assert(self.x * self.x >= 0 && self.y * self.y >= 0 && self.z * self.z >= 0)
                by (nonlinear_arith);
        }
        let s: i128 = (self.x as i128) * (self.x as i128)
            + (self.y as i128) * (self.y as i128)
            + (self.z as i128) * (self.z as i128);
        let r = crate::fixed::isqrt(s as u64);
        proof {
            crate::fixed::lemma_sqrt_floor_unique(self.len_sq(), r as int);
            assert(r as int <= 2147483648) by (nonlinear_arith)
                requires
                    (r as int) * (r as int) <= self.len_sq(),
                    self.len_sq() <= 3 * ((LEN_RANGE as int) * (LEN_RANGE as int)),
                    LEN_RANGE == 1073741824,
                    r >= 0,
            ;
        }
        r as i64
    }

    /// Scales the vector to fixed-point length one.  The zero vector
    /// has no direction, so the caller must rule it out.
    pub fn normalise(self) -> (r: Vec3)
        requires
            self.in_range(LEN_RANGE as int),
            !(self.x == 0 && self.y == 0 && self.z == 0),
        ensures
            r.x == fxdiv(self.x as int, self.fx_len()),
            r.y == fxdiv(self.y as int, self.fx_len()),
            r.z == fxdiv(self.z as int, self.fx_len()),
            self.fx_len() >= 1,
            r.in_range(FP as int + 1),
    {
        let len = self.length();
        proof {
            assert(self.len_sq() >= 1) by (nonlinear_arith)
                requires !(self.x == 0 && self.y == 0 && self.z == 0),
            ;
            assert(len >= 1) by (nonlinear_arith)
                requires
                    (len as int) * (len as int) <= self.len_sq(),
                    self.len_sq() < ((len as int) + 1) * ((len as int) + 1),
                    self.len_sq() >= 1,
                    len >= 0,
            ;
            assert(mag(self.x as int) <= len && mag(self.y as int) <= len
                && mag(self.z as int) <= len) by (nonlinear_arith)
                requires
                    self.len_sq() == self.x * self.x + self.y * self.y + self.z * self.z,
                    self.len_sq() < ((len as int) + 1) * ((len as int) + 1),
                    len >= 0,
            ;
            lemma_mul_mag(self.x as int, FP as int, len as int, FP as int);
            lemma_mul_mag(self.y as int, FP as int, len as int, FP as int);
            lemma_mul_mag(self.z as int, FP as int, len as int, FP as int);
            assert(len * (FP as int) <= ((FP as int) + 1) * (len as int)) by (nonlinear_arith)
                requires len >= 1, FP == 65536,
            ;
            lemma_div_mag(self.x * (FP as int), len as int, FP as int + 1);
            lemma_div_mag(self.y * (FP as int), len as int, FP as int + 1);
            lemma_div_mag(self.z * (FP as int), len as int, FP as int + 1);
        }
        Vec3 {
            x: crate::fixed::fx_div(self.x, len),
            y: crate::fixed::fx_div(self.y, len),
            z: crate::fixed::fx_div(self.z, len),
        }
    }
}

} // verus!
