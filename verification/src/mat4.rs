//! Fixed-point 4x4 transformation matrices.
//!
//! Transforms compose by left-multiplication: `m.translate(v)` stands
//! for "first apply `m`, then move by `v`", because it multiplies the
//! new translation matrix on the left of `m`.  The fluent chain
//! `Mat4::identity().translate(a).rotate(b, t)` therefore reads in
//! application order when the result is used with `transform`.

use vstd::prelude::*;
use crate::fixed::{FP, fxmul, fxdiv, mag, lemma_mul_mag, lemma_div_mag, lemma_fxmul_mag};
use crate::trig::{sin_spec, cos_spec};
use crate::vec3::{Vec3, LEN_RANGE};

verus! {

/// Magnitude bound on entries under which matrix products stay inside
/// `i64`.
pub const MAT_RANGE: i64 = 274877906944;

#[derive(Clone, Copy, Debug)]
pub struct Mat4 {
    pub m: [[i64; 4]; 4],
}

impl PartialEq for Mat4 {
    fn eq(&self, other: &Mat4) -> (r: bool) {
        self.m[0][0] == other.m[0][0] && self.m[0][1] == other.m[0][1]
            && self.m[0][2] == other.m[0][2] && self.m[0][3] == other.m[0][3]
            && self.m[1][0] == other.m[1][0] && self.m[1][1] == other.m[1][1]
            && self.m[1][2] == other.m[1][2] && self.m[1][3] == other.m[1][3]
            && self.m[2][0] == other.m[2][0] && self.m[2][1] == other.m[2][1]
            && self.m[2][2] == other.m[2][2] && self.m[2][3] == other.m[2][3]
            && self.m[3][0] == other.m[3][0] && self.m[3][1] == other.m[3][1]
            && self.m[3][2] == other.m[3][2] && self.m[3][3] == other.m[3][3]
    }
}

impl vstd::std_specs::cmp::PartialEqSpecImpl for Mat4 {
    open spec fn obeys_eq_spec() -> bool {
        true
    }

    open spec fn eq_spec(&self, other: &Mat4) -> bool {
        self.e(0, 0) == other.e(0, 0) && self.e(0, 1) == other.e(0, 1)
            && self.e(0, 2) == other.e(0, 2) && self.e(0, 3) == other.e(0, 3)
            && self.e(1, 0) == other.e(1, 0) && self.e(1, 1) == other.e(1, 1)
            && self.e(1, 2) == other.e(1, 2) && self.e(1, 3) == other.e(1, 3)
            && self.e(2, 0) == other.e(2, 0) && self.e(2, 1) == other.e(2, 1)
            && self.e(2, 2) == other.e(2, 2) && self.e(2, 3) == other.e(2, 3)
            && self.e(3, 0) == other.e(3, 0) && self.e(3, 1) == other.e(3, 1)
            && self.e(3, 2) == other.e(3, 2) && self.e(3, 3) == other.e(3, 3)
    }
}

/// Entry `(i, j)` of the fixed-point product of two matrices: the row
/// by column sum of raw products, floor-divided once by the scale.
pub open spec fn mul_entry(a: Mat4, b: Mat4, i: int, j: int) -> int {
    (a.e(i, 0) * b.e(0, j) + a.e(i, 1) * b.e(1, j) + a.e(i, 2) * b.e(2, j)
        + a.e(i, 3) * b.e(3, j)) / (FP as int)
}

/// Component `i` of a point transformed by `m`, with an implicit
/// homogeneous fourth coordinate of one.
pub open spec fn tf_row(m: Mat4, v: Vec3, i: int) -> int {
    (v.x * m.e(i, 0) + v.y * m.e(i, 1) + v.z * m.e(i, 2) + (FP as int) * m.e(i, 3))
        / (FP as int)
}

/// A diagonal entry of the axis-angle rotation matrix:
/// `cos t + p * p * (1 - cos t)` for axis component `p`.
pub open spec fn diag_spec(ct: int, p: int) -> int {
    ct + fxmul(fxmul(p, p), FP as int - ct)
}

/// An off-diagonal entry `a * b * (1 - cos t) + c * sin t` of the
/// axis-angle rotation matrix.
pub open spec fn edge_plus_spec(a: int, b: int, c: int, ct: int, st: int) -> int {
    fxmul(fxmul(a, b), FP as int - ct) + fxmul(c, st)
}

/// An off-diagonal entry `a * b * (1 - cos t) - c * sin t` of the
/// axis-angle rotation matrix.
pub open spec fn edge_minus_spec(a: int, b: int, c: int, ct: int, st: int) -> int {
    fxmul(fxmul(a, b), FP as int - ct) - fxmul(c, st)
}

/// The axis-angle rotation matrix for the normalised `axis` and the
/// fixed-point angle `theta`, by the Rodrigues formula.
pub open spec fn rotation_mat_spec(axis: Vec3, theta: int) -> Mat4 {
    let l = axis.fx_len();
    let x = fxdiv(axis.x as int, l);
    let y = fxdiv(axis.y as int, l);
    let z = fxdiv(axis.z as int, l);
    let ct = cos_spec(theta);
    let st = sin_spec(theta);
    Mat4 {
        m: [
            [
                diag_spec(ct, x) as i64,
                edge_minus_spec(x, y, z, ct, st) as i64,
                edge_plus_spec(x, z, y, ct, st) as i64,
                0,
            ],
            [
                edge_plus_spec(y, x, z, ct, st) as i64,
                diag_spec(ct, y) as i64,
                edge_minus_spec(y, z, x, ct, st) as i64,
                0,
            ],
            [
                edge_minus_spec(z, x, y, ct, st) as i64,
                edge_plus_spec(z, y, x, ct, st) as i64,
                diag_spec(ct, z) as i64,
                0,
            ],
            [0, 0, 0, FP],
        ],
    }
}

/// The pure translation matrix moving points by `v`.
pub open spec fn translation(v: Vec3) -> Mat4 {
    Mat4 {
        m: [
            [FP, 0, 0, v.x],
            [0, FP, 0, v.y],
            [0, 0, FP, v.z],
            [0, 0, 0, FP],
        ],
    }
}

impl Mat4 {
    /// Entry at row `i`, column `j`, as a mathematical integer.
    pub open spec fn e(self, i: int, j: int) -> int {
        self.m[i][j] as int
    }

    /// All entries bounded in magnitude by `b`.
    pub open spec fn bounded(self, b: int) -> bool {
        forall|i: int, j: int|
            0 <= i < 4 && 0 <= j < 4 ==> mag(#[trigger] self.e(i, j)) <= b
    }

    /// The identity transform.
    pub open spec fn is_identity(self) -> bool {
        forall|i: int, j: int|
            0 <= i < 4 && 0 <= j < 4 ==> #[trigger] self.e(i, j) == if i == j {
                FP as int
            } else {
                0
            }
    }

    /// The bottom row is `[0, 0, 0, 1]`, so the matrix maps points to
    /// points: the affine invariant kept by `translate` and `rotate`.
    pub open spec fn affine(self) -> bool {
        self.e(3, 0) == 0 && self.e(3, 1) == 0 && self.e(3, 2) == 0 && self.e(3, 3) == FP
    }

    /// The matrix with fixed-point one on its diagonal.
    pub fn identity() -> (r: Mat4)
        ensures
            r.is_identity(),
            r.affine(),
            r.bounded(FP as int),
    {
        let r = Mat4 {
            m: [
                [FP, 0, 0, 0],
                [0, FP, 0, 0],
                [0, 0, FP, 0],
                [0, 0, 0, FP],
            ],
        };
        r
    }

    /// Left-multiplies a translation by `vec` onto `self`, so the
    /// move is applied after everything `self` already does.
    pub fn translate(self, vec: Vec3) -> (r: Mat4)
        requires
            self.bounded(MAT_RANGE as int),
            vec.in_range(MAT_RANGE as int),
        ensures
            forall|i: int, j: int|
                0 <= i < 4 && 0 <= j < 4
                    ==> #[trigger] r.e(i, j) == mul_entry(translation(vec), self, i, j),
            self.affine() ==> r.affine(),
            self.affine() ==> (forall|i: int, j: int|
                0 <= i < 3 && 0 <= j < 3 ==> #[trigger] r.e(i, j) == self.e(i, j)),
            self.affine() ==> (forall|i: int|
                0 <= i < 3 ==> #[trigger] r.e(i, 3) == self.e(i, 3) + sel(vec, i)),
    {
        let trans_mat = Mat4 {
            m: [
                [FP, 0, 0, vec.x],
                [0, FP, 0, vec.y],
                [0, 0, FP, vec.z],
                [0, 0, 0, FP],
            ],
        };
        proof {
            assert(trans_mat.bounded(MAT_RANGE as int));
        }
        let r = trans_mat.mult(self);
        proof {
            if self.affine() {
                lemma_translation_entries(self, vec, r);
            }
        }
        r
    }

    /// Left-multiplies a rotation about `axis` by `theta` fixed-point
    /// radians onto `self`.  The axis need not be normalised, but must
    /// not be the zero vector.
    pub fn rotate(self, axis: Vec3, theta: i64) -> (r: Mat4)
        requires
            self.bounded(MAT_RANGE as int),
            axis.in_range(LEN_RANGE as int),
            !(axis.x == 0 && axis.y == 0 && axis.z == 0),
            mag(theta as int) <= 4611686018427387904,
        ensures
            forall|i: int, j: int|
                0 <= i < 4 && 0 <= j < 4
                    ==> #[trigger] r.e(i, j) == mul_entry(
                        rotation_mat_spec(axis, theta as int), self, i, j),
            self.is_identity() ==> r.bounded(524288),
            self.is_identity() ==> r.affine(),
    {
        let n = axis.normalise();
        let ct = crate::trig::cos_fx(theta);
        let st = crate::trig::sin_fx(theta);
        let rotation = Mat4 {
            m: [
                [
                    rot_diag(ct, n.x),
                    rot_edge_minus(n.x, n.y, n.z, ct, st),
                    rot_edge_plus(n.x, n.z, n.y, ct, st),
                    0,
                ],
                [
                    rot_edge_plus(n.y, n.x, n.z, ct, st),
                    rot_diag(ct, n.y),
                    rot_edge_minus(n.y, n.z, n.x, ct, st),
                    0,
                ],
                [
                    rot_edge_minus(n.z, n.x, n.y, ct, st),
                    rot_edge_plus(n.z, n.y, n.x, ct, st),
                    rot_diag(ct, n.z),
                    0,
                ],
                [0, 0, 0, FP],
            ],
        };
        proof {
            assert(rotation.bounded(MAT_RANGE as int));
            assert(forall|i: int, j: int|
                0 <= i < 4 && 0 <= j < 4
                    ==> #[trigger] rotation.e(i, j)
                        == rotation_mat_spec(axis, theta as int).e(i, j));
        }
        let r = rotation.mult(self);
        proof {
            if self.is_identity() {
                lemma_mul_identity_right(rotation_mat_spec(axis, theta as int), self, r);
            }
        }
        r
    }

    /// The fixed-point product `self * mat`, row by column.
    pub fn mult(self, mat: Mat4) -> (r: Mat4)
        requires
            self.bounded(MAT_RANGE as int),
            mat.bounded(MAT_RANGE as int),
        ensures
            forall|i: int, j: int|
                0 <= i < 4 && 0 <= j < 4
                    ==> #[trigger] r.e(i, j) == mul_entry(self, mat, i, j),
    {
        let r0 = [
            mul_entry_exec(&self, &mat, 0, 0),
            mul_entry_exec(&self, &mat, 0, 1),
            mul_entry_exec(&self, &mat, 0, 2),
            mul_entry_exec(&self, &mat, 0, 3),
        ];
        let r1 = [
            mul_entry_exec(&self, &mat, 1, 0),
            mul_entry_exec(&self, &mat, 1, 1),
            mul_entry_exec(&self, &mat, 1, 2),
            mul_entry_exec(&self, &mat, 1, 3),
        ];
        let r2 = [
            mul_entry_exec(&self, &mat, 2, 0),
            mul_entry_exec(&self, &mat, 2, 1),
            mul_entry_exec(&self, &mat, 2, 2),
            mul_entry_exec(&self, &mat, 2, 3),
        ];
        let r3 = [
            mul_entry_exec(&self, &mat, 3, 0),
            mul_entry_exec(&self, &mat, 3, 1),
            mul_entry_exec(&self, &mat, 3, 2),
            mul_entry_exec(&self, &mat, 3, 3),
        ];
        Mat4 { m: [r0, r1, r2, r3] }
    }

    /// Applies `self` to a point, appending a homogeneous coordinate
    /// of one and returning the first three components.
    pub fn transform(self, vec: Vec3) -> (r: Vec3)
        requires
            self.bounded(MAT_RANGE as int),
            vec.in_range(MAT_RANGE as int),
        ensures
            r.x == tf_row(self, vec, 0),
            r.y == tf_row(self, vec, 1),
            r.z == tf_row(self, vec, 2),
    {
        Vec3 {
            x: tf_row_exec(&self, vec, 0),
            y: tf_row_exec(&self, vec, 1),
            z: tf_row_exec(&self, vec, 2),
        }
    }
}

/// A diagonal entry of the rotation matrix.
fn rot_diag(ct: i64, p: i64) -> (r: i64)
    requires
        mag(ct as int) <= 3 * FP as int,
        mag(p as int) <= FP as int + 1,
    ensures
        r == diag_spec(ct as int, p as int),
        mag(r as int) <= 524288,
{
    proof {
        assert(((FP as int + 1) * (FP as int + 1)) / (FP as int) + 1 == 65539)
            by (nonlinear_arith);
        lemma_fxmul_mag(p as int, p as int, FP as int + 1, FP as int + 1);
    }
    let p2 = crate::fixed::fx_mul(p, p);
    proof {
        assert((65539int * 262144) / (FP as int) + 1 == 262157) by (nonlinear_arith);
        lemma_fxmul_mag(p2 as int, FP as int - ct as int, 65539, 262144);
    }
    ct + crate::fixed::fx_mul(p2, FP - ct)
}

/// An off-diagonal `a * b * (1 - cos t) + c * sin t` entry of the
/// rotation matrix.
fn rot_edge_plus(a: i64, b: i64, c: i64, ct: i64, st: i64) -> (r: i64)
    requires
        mag(ct as int) <= 3 * FP as int,
        mag(st as int) <= 3 * FP as int,
        mag(a as int) <= FP as int + 1,
        mag(b as int) <= FP as int + 1,
        mag(c as int) <= FP as int + 1,
    ensures
        r == edge_plus_spec(a as int, b as int, c as int, ct as int, st as int),
        mag(r as int) <= 524288,
{
    proof {
        assert(((FP as int + 1) * (FP as int + 1)) / (FP as int) + 1 == 65539)
            by (nonlinear_arith);
        lemma_fxmul_mag(a as int, b as int, FP as int + 1, FP as int + 1);
    }
    let ab = crate::fixed::fx_mul(a, b);
    proof {
        assert((65539int * 262144) / (FP as int) + 1 == 262157) by (nonlinear_arith);
        assert((65537int * 196608) / (FP as int) + 1 == 196612) by (nonlinear_arith);
        lemma_fxmul_mag(ab as int, FP as int - ct as int, 65539, 262144);
        lemma_fxmul_mag(c as int, st as int, 65537, 196608);
    }
    crate::fixed::fx_mul(ab, FP - ct) + crate::fixed::fx_mul(c, st)
}

/// An off-diagonal `a * b * (1 - cos t) - c * sin t` entry of the
/// rotation matrix.
fn rot_edge_minus(a: i64, b: i64, c: i64, ct: i64, st: i64) -> (r: i64)
    requires
        mag(ct as int) <= 3 * FP as int,
        mag(st as int) <= 3 * FP as int,
        mag(a as int) <= FP as int + 1,
        mag(b as int) <= FP as int + 1,
        mag(c as int) <= FP as int + 1,
    ensures
        r == edge_minus_spec(a as int, b as int, c as int, ct as int, st as int),
        mag(r as int) <= 524288,
{
    proof {
        assert(((FP as int + 1) * (FP as int + 1)) / (FP as int) + 1 == 65539)
            by (nonlinear_arith);
        lemma_fxmul_mag(a as int, b as int, FP as int + 1, FP as int + 1);
    }
    let ab = crate::fixed::fx_mul(a, b);
    proof {
        assert((65539int * 262144) / (FP as int) + 1 == 262157) by (nonlinear_arith);
        assert((65537int * 196608) / (FP as int) + 1 == 196612) by (nonlinear_arith);
        lemma_fxmul_mag(ab as int, FP as int - ct as int, 65539, 262144);
        lemma_fxmul_mag(c as int, st as int, 65537, 196608);
    }
    crate::fixed::fx_mul(ab, FP - ct) - crate::fixed::fx_mul(c, st)
}

/// One entry of a fixed-point matrix product, accumulated exactly in
/// `i128` and floor-divided once.
fn mul_entry_exec(a: &Mat4, b: &Mat4, i: usize, j: usize) -> (r: i64)
    requires
        i < 4,
        j < 4,
        a.bounded(MAT_RANGE as int),
        b.bounded(MAT_RANGE as int),
    ensures
        r == mul_entry(*a, *b, i as int, j as int),
{
    proof {
        lemma_mul_mag(a.e(i as int, 0), b.e(0, j as int), MAT_RANGE as int, MAT_RANGE as int);
        lemma_mul_mag(a.e(i as int, 1), b.e(1, j as int), MAT_RANGE as int, MAT_RANGE as int);
        lemma_mul_mag(a.e(i as int, 2), b.e(2, j as int), MAT_RANGE as int, MAT_RANGE as int);
        lemma_mul_mag(a.e(i as int, 3), b.e(3, j as int), MAT_RANGE as int, MAT_RANGE as int);
    }
    let s: i128 = (a.m[i][0] as i128) * (b.m[0][j] as i128)
        + (a.m[i][1] as i128) * (b.m[1][j] as i128)
        + (a.m[i][2] as i128) * (b.m[2][j] as i128)
        + (a.m[i][3] as i128) * (b.m[3][j] as i128);
    proof {
        lemma_div_mag(s as int, FP as int, 18446744073709551617);
    }
    crate::fixed::fdiv128(s, FP as i128) as i64
}

/// One component of a fixed-point matrix-point product.
fn tf_row_exec(m: &Mat4, v: Vec3, i: usize) -> (r: i64)
    requires
        i < 4,
        m.bounded(MAT_RANGE as int),
        v.in_range(MAT_RANGE as int),
    ensures
        r == tf_row(*m, v, i as int),
{
    proof {
        lemma_mul_mag(v.x as int, m.e(i as int, 0), MAT_RANGE as int, MAT_RANGE as int);
        lemma_mul_mag(v.y as int, m.e(i as int, 1), MAT_RANGE as int, MAT_RANGE as int);
        lemma_mul_mag(v.z as int, m.e(i as int, 2), MAT_RANGE as int, MAT_RANGE as int);
        lemma_mul_mag(FP as int, m.e(i as int, 3), MAT_RANGE as int, MAT_RANGE as int);
    }
    let s: i128 = (v.x as i128) * (m.m[i][0] as i128)
        + (v.y as i128) * (m.m[i][1] as i128)
        + (v.z as i128) * (m.m[i][2] as i128)
        + (FP as i128) * (m.m[i][3] as i128);
    proof {
        lemma_div_mag(s as int, FP as int, 18446744073709551617);
    }
    crate::fixed::fdiv128(s, FP as i128) as i64
}

/// Entries of a fixed-point matrix product are bounded by the bounds
/// of the factors.
pub proof fn lemma_mul_entry_mag(a: Mat4, b: Mat4, ba: int, bb: int, i: int, j: int)
    requires
        a.bounded(ba),
        b.bounded(bb),
        0 <= ba,
        0 <= bb,
        0 <= i < 4,
        0 <= j < 4,
    ensures
        mag(mul_entry(a, b, i, j)) <= (4 * (ba * bb)) / (FP as int) + 1,
{
    lemma_mul_mag(a.e(i, 0), b.e(0, j), ba, bb);
    lemma_mul_mag(a.e(i, 1), b.e(1, j), ba, bb);
    lemma_mul_mag(a.e(i, 2), b.e(2, j), ba, bb);
    lemma_mul_mag(a.e(i, 3), b.e(3, j), ba, bb);
    let s = a.e(i, 0) * b.e(0, j) + a.e(i, 1) * b.e(1, j) + a.e(i, 2) * b.e(2, j)
        + a.e(i, 3) * b.e(3, j);
    let m = (4 * (ba * bb)) / (FP as int) + 1;
    vstd::arithmetic::div_mod::lemma_fundamental_div_mod(4 * (ba * bb), FP as int);
    vstd::arithmetic::div_mod::lemma_mod_bound(4 * (ba * bb), FP as int);
    assert(mag(s) <= m * (FP as int)) by (nonlinear_arith)
        requires
            mag(s) <= 4 * (ba * bb),
            4 * (ba * bb) == (FP as int) * ((4 * (ba * bb)) / (FP as int))
                + (4 * (ba * bb)) % (FP as int),
            0 <= (4 * (ba * bb)) % (FP as int) < FP as int,
            m == (4 * (ba * bb)) / (FP as int) + 1,
            FP == 65536,
    ;
    assert(0 <= m) by (nonlinear_arith)
        requires 0 <= mag(s) <= m * (FP as int), FP == 65536,
    ;
    lemma_div_mag(s, FP as int, m);
}

/// The transformed components of a point are bounded by the bounds of
/// the matrix and the point.
pub proof fn lemma_tf_row_mag(m: Mat4, v: Vec3, bm: int, bv: int, i: int)
    requires
        m.bounded(bm),
        v.in_range(bv),
        FP as int <= bv,
        0 <= bm,
        0 <= i < 4,
    ensures
        mag(tf_row(m, v, i)) <= (4 * (bm * bv)) / (FP as int) + 1,
{
    lemma_mul_mag(v.x as int, m.e(i, 0), bv, bm);
    lemma_mul_mag(v.y as int, m.e(i, 1), bv, bm);
    lemma_mul_mag(v.z as int, m.e(i, 2), bv, bm);
    lemma_mul_mag(FP as int, m.e(i, 3), bv, bm);
    let s = v.x * m.e(i, 0) + v.y * m.e(i, 1) + v.z * m.e(i, 2) + (FP as int) * m.e(i, 3);
    let p = 4 * (bm * bv);
    let q = p / (FP as int) + 1;
    vstd::arithmetic::div_mod::lemma_fundamental_div_mod(p, FP as int);
    vstd::arithmetic::div_mod::lemma_mod_bound(p, FP as int);
    assert(mag(s) <= q * (FP as int)) by (nonlinear_arith)
        requires
            mag(s) <= p,
            p == (FP as int) * (p / (FP as int)) + p % (FP as int),
            0 <= p % (FP as int) < FP as int,
            q == p / (FP as int) + 1,
            FP == 65536,
    ;
    assert(0 <= q) by (nonlinear_arith)
        requires 0 <= mag(s) <= q * (FP as int), FP == 65536,
    ;
    lemma_div_mag(s, FP as int, q);
}

/// A product with a factor known to be zero vanishes.
pub proof fn lemma_zero_mul(x: int, e: int)
    requires
        e == 0,
    ensures
        x * e == 0,
        e * x == 0,
{
    assert(x * e == 0 && e * x == 0) by (nonlinear_arith)
        requires e == 0,
    ;
}

/// A product with the scale factor, divided by the scale factor,
/// returns the other factor.
pub proof fn lemma_scale_cancel(x: int, e: int)
    requires
        e == FP as int,
    ensures
        (x * e) / (FP as int) == x,
{
    assert(x * e == (FP as int) * x) by (nonlinear_arith)
        requires e == FP as int,
    ;
    vstd::arithmetic::div_mod::lemma_div_multiples_vanish(x, FP as int);
}

/// The identity matrix transforms every point to itself, exactly.
pub proof fn lemma_identity_transform(m: Mat4, v: Vec3)
    requires
        m.is_identity(),
    ensures
        tf_row(m, v, 0) == v.x,
        tf_row(m, v, 1) == v.y,
        tf_row(m, v, 2) == v.z,
{
    lemma_zero_mul(v.y as int, m.e(0, 1));
    lemma_zero_mul(v.z as int, m.e(0, 2));
    lemma_scale_cancel(v.x as int, m.e(0, 0));
    lemma_zero_mul(v.x as int, m.e(1, 0));
    lemma_zero_mul(v.z as int, m.e(1, 2));
    lemma_scale_cancel(v.y as int, m.e(1, 1));
    lemma_zero_mul(v.x as int, m.e(2, 0));
    lemma_zero_mul(v.y as int, m.e(2, 1));
    lemma_scale_cancel(v.z as int, m.e(2, 2));
}

/// Composing a translation onto an affine matrix and then transforming
/// is exactly transforming and then adding the offset, and the bottom
/// row stays affine.  This pins down the left-multiplication order of
/// the fluent chain.
pub proof fn lemma_translate_transform(m: Mat4, t: Vec3, c: Mat4, v: Vec3)
    requires
        m.affine(),
        forall|i: int, j: int|
            0 <= i < 4 && 0 <= j < 4
                ==> #[trigger] c.e(i, j) == mul_entry(translation(t), m, i, j),
    ensures
        c.affine(),
        tf_row(c, v, 0) == tf_row(m, v, 0) + t.x,
        tf_row(c, v, 1) == tf_row(m, v, 1) + t.y,
        tf_row(c, v, 2) == tf_row(m, v, 2) + t.z,
{
    let f = FP as int;
    lemma_translation_entries(m, t, c);
    assert forall|i: int| 0 <= i < 3 implies tf_row(c, v, i)
        == tf_row(m, v, i) + sel(t, i) by {
        let s = v.x * m.e(i, 0) + v.y * m.e(i, 1) + v.z * m.e(i, 2) + f * m.e(i, 3);
        assert(f * (m.e(i, 3) + sel(t, i)) == f * m.e(i, 3) + sel(t, i) * f)
            by (nonlinear_arith);
        vstd::arithmetic::div_mod::lemma_hoist_over_denominator(s, sel(t, i), FP as nat);
    }
}

/// Selects a component of a vector by index.
pub open spec fn sel(v: Vec3, i: int) -> int {
    if i == 0 {
        v.x as int
    } else if i == 1 {
        v.y as int
    } else {
        v.z as int
    }
}

/// The matrix is exactly the pure translation moving points by `v`.
pub open spec fn is_translation_to(m: Mat4, v: Vec3) -> bool {
    m.e(0, 0) == FP && m.e(0, 1) == 0 && m.e(0, 2) == 0 && m.e(0, 3) == v.x
    && m.e(1, 0) == 0 && m.e(1, 1) == FP && m.e(1, 2) == 0 && m.e(1, 3) == v.y
    && m.e(2, 0) == 0 && m.e(2, 1) == 0 && m.e(2, 2) == FP && m.e(2, 3) == v.z
    && m.affine()
}

/// A pure translation matrix moves every point by exactly its offset.
pub proof fn lemma_translation_to_transform(m: Mat4, t: Vec3, v: Vec3)
    requires
        is_translation_to(m, t),
    ensures
        tf_row(m, v, 0) == v.x + t.x,
        tf_row(m, v, 1) == v.y + t.y,
        tf_row(m, v, 2) == v.z + t.z,
{
    let f = FP as int;
    lemma_zero_mul(v.y as int, m.e(0, 1));
    lemma_zero_mul(v.z as int, m.e(0, 2));
    lemma_zero_mul(v.x as int, m.e(1, 0));
    lemma_zero_mul(v.z as int, m.e(1, 2));
    lemma_zero_mul(v.x as int, m.e(2, 0));
    lemma_zero_mul(v.y as int, m.e(2, 1));
    assert(v.x * m.e(0, 0) == f * (v.x as int)) by (nonlinear_arith)
        requires m.e(0, 0) == f,
    ;
    assert(v.y * m.e(1, 1) == f * (v.y as int)) by (nonlinear_arith)
        requires m.e(1, 1) == f,
    ;
    assert(v.z * m.e(2, 2) == f * (v.z as int)) by (nonlinear_arith)
        requires m.e(2, 2) == f,
    ;
    assert(f * m.e(0, 3) == (t.x as int) * f) by (nonlinear_arith)
        requires m.e(0, 3) == t.x,
    ;
    assert(f * m.e(1, 3) == (t.y as int) * f) by (nonlinear_arith)
        requires m.e(1, 3) == t.y,
    ;
    assert(f * m.e(2, 3) == (t.z as int) * f) by (nonlinear_arith)
        requires m.e(2, 3) == t.z,
    ;
    vstd::arithmetic::div_mod::lemma_hoist_over_denominator(
        f * (v.x as int), t.x as int, FP as nat);
    vstd::arithmetic::div_mod::lemma_hoist_over_denominator(
        f * (v.y as int), t.y as int, FP as nat);
    vstd::arithmetic::div_mod::lemma_hoist_over_denominator(
        f * (v.z as int), t.z as int, FP as nat);
    vstd::arithmetic::div_mod::lemma_div_multiples_vanish(v.x as int, f);
    vstd::arithmetic::div_mod::lemma_div_multiples_vanish(v.y as int, f);
    vstd::arithmetic::div_mod::lemma_div_multiples_vanish(v.z as int, f);
}

/// Multiplying by the identity on the right returns the left factor's
/// entries unchanged.
pub proof fn lemma_mul_identity_right(a: Mat4, m: Mat4, c: Mat4)
    requires
        m.is_identity(),
        forall|i: int, j: int|
            0 <= i < 4 && 0 <= j < 4 ==> #[trigger] c.e(i, j) == mul_entry(a, m, i, j),
    ensures
        forall|i: int, j: int|
            0 <= i < 4 && 0 <= j < 4 ==> #[trigger] c.e(i, j) == a.e(i, j),
{
    assert forall|i: int, j: int| 0 <= i < 4 && 0 <= j < 4
        implies #[trigger] c.e(i, j) == a.e(i, j) by {
        if j == 0 {
            lemma_zero_mul(a.e(i, 1), m.e(1, 0));
            lemma_zero_mul(a.e(i, 2), m.e(2, 0));
            lemma_zero_mul(a.e(i, 3), m.e(3, 0));
            lemma_scale_cancel(a.e(i, 0), m.e(0, 0));
        } else if j == 1 {
            lemma_zero_mul(a.e(i, 0), m.e(0, 1));
            lemma_zero_mul(a.e(i, 2), m.e(2, 1));
            lemma_zero_mul(a.e(i, 3), m.e(3, 1));
            lemma_scale_cancel(a.e(i, 1), m.e(1, 1));
        } else if j == 2 {
            lemma_zero_mul(a.e(i, 0), m.e(0, 2));
            lemma_zero_mul(a.e(i, 1), m.e(1, 2));
            lemma_zero_mul(a.e(i, 3), m.e(3, 2));
            lemma_scale_cancel(a.e(i, 2), m.e(2, 2));
        } else {
            lemma_zero_mul(a.e(i, 0), m.e(0, 3));
            lemma_zero_mul(a.e(i, 1), m.e(1, 3));
            lemma_zero_mul(a.e(i, 2), m.e(2, 3));
            lemma_scale_cancel(a.e(i, 3), m.e(3, 3));
        }
    }
}

/// Entrywise effect of left-multiplying a translation onto an affine
/// matrix: rows keep their linear part and the offset lands in the
/// last column.
pub proof fn lemma_translation_entries(m: Mat4, t: Vec3, c: Mat4)
    requires
        m.affine(),
        forall|i: int, j: int|
            0 <= i < 4 && 0 <= j < 4
                ==> #[trigger] c.e(i, j) == mul_entry(translation(t), m, i, j),
    ensures
        forall|i: int, j: int|
            0 <= i < 3 && 0 <= j < 3 ==> #[trigger] c.e(i, j) == m.e(i, j),
        forall|i: int|
            0 <= i < 3 ==> #[trigger] c.e(i, 3) == m.e(i, 3) + sel(t, i),
        c.affine(),
{
    let f = FP as int;
    let a = translation(t);
    assert(a.e(0, 0) == f && a.e(0, 1) == 0 && a.e(0, 2) == 0 && a.e(0, 3) == t.x);
    assert(a.e(1, 0) == 0 && a.e(1, 1) == f && a.e(1, 2) == 0 && a.e(1, 3) == t.y);
    assert(a.e(2, 0) == 0 && a.e(2, 1) == 0 && a.e(2, 2) == f && a.e(2, 3) == t.z);
    assert(a.e(3, 0) == 0 && a.e(3, 1) == 0 && a.e(3, 2) == 0 && a.e(3, 3) == f);
    assert forall|i: int, j: int| 0 <= i < 4 && 0 <= j < 4 implies #[trigger] c.e(i, j)
        == (if i < 3 && j == 3 { m.e(i, j) + sel(t, i) } else { m.e(i, j) }) by {
        if i == 0 {
            lemma_zero_mul(m.e(1, j), a.e(0, 1));
            lemma_zero_mul(m.e(2, j), a.e(0, 2));
            lemma_trans_row_tail(m, t, c, 0, j);
        } else if i == 1 {
            lemma_zero_mul(m.e(0, j), a.e(1, 0));
            lemma_zero_mul(m.e(2, j), a.e(1, 2));
            lemma_trans_row_tail(m, t, c, 1, j);
        } else if i == 2 {
            lemma_zero_mul(m.e(0, j), a.e(2, 0));
            lemma_zero_mul(m.e(1, j), a.e(2, 1));
            lemma_trans_row_tail(m, t, c, 2, j);
        } else {
            lemma_zero_mul(m.e(0, j), a.e(3, 0));
            lemma_zero_mul(m.e(1, j), a.e(3, 1));
            lemma_zero_mul(m.e(2, j), a.e(3, 2));
            assert(a.e(3, 3) * m.e(3, j) == f * m.e(3, j)) by (nonlinear_arith)
                requires a.e(3, 3) == f,
            ;
            vstd::arithmetic::div_mod::lemma_div_multiples_vanish(m.e(3, j), f);
            assert(c.e(3, j) == m.e(3, j));
        }
    }
}

/// The diagonal and offset terms of one row of a translation product:
/// with the zero terms already discharged, row `i` keeps the linear
/// part of `m` and gains the offset in the last column.
proof fn lemma_trans_row_tail(m: Mat4, t: Vec3, c: Mat4, i: int, j: int)
    requires
        m.affine(),
        0 <= i < 3,
        0 <= j < 4,
        c.e(i, j) == mul_entry(translation(t), m, i, j),
        translation(t).e(i, i) * m.e(i, j) == (FP as int) * m.e(i, j),
        forall|k: int|
            0 <= k < 3 && k != i ==> #[trigger] (translation(t).e(i, k) * m.e(k, j)) == 0,
    ensures
        c.e(i, j) == if j == 3 { m.e(i, j) + sel(t, i) } else { m.e(i, j) },
{
    let f = FP as int;
    let a = translation(t);
    assert(a.e(0, 3) == t.x && a.e(1, 3) == t.y && a.e(2, 3) == t.z);
    if j < 3 {
        assert(m.e(3, j) == 0);
        lemma_zero_mul(a.e(i, 3), m.e(3, j));
        vstd::arithmetic::div_mod::lemma_div_multiples_vanish(m.e(i, j), f);
        assert(c.e(i, j) == (f * m.e(i, j)) / f);
    } else {
        assert(a.e(i, 3) * m.e(3, 3) == sel(t, i) * f) by (nonlinear_arith)
            requires m.e(3, 3) == f, a.e(i, 3) == sel(t, i),
        ;
        vstd::arithmetic::div_mod::lemma_hoist_over_denominator(
            f * m.e(i, 3), sel(t, i), FP as nat);
        vstd::arithmetic::div_mod::lemma_div_multiples_vanish(m.e(i, 3), f);
        assert(c.e(i, 3) == (f * m.e(i, 3) + sel(t, i) * f) / f);
    }
}

} // verus!
