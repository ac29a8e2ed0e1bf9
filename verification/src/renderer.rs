//! The rasterizer: a colour buffer and a depth buffer, filled by
//! scan-converting triangles with a per-pixel depth test.
//!
//! Raster coordinates are fixed-point values; a point lands on screen
//! by a uniform scale by the screen width followed by an offset to the
//! screen centre.  The depth buffer stores camera-space depths, where
//! visible geometry is negative and larger (less negative) values are
//! closer, so a pixel is rewritten exactly when the incoming depth is
//! strictly greater than the stored one.

use vstd::prelude::*;
use crate::fixed::{FP, fxmul, fxfloor, mag, fdiv128, lemma_mul_mag, lemma_div_mag};
use crate::object::texture::Texture;
use crate::vec2::Vec2;
use crate::vec3::Vec3;

verus! {

/// The cleared colour.
pub const BLACK: u32 = 0;

/// The wireframe colour.
pub const BLUE: u32 = 170;

/// The cleared depth: minus one thousand, farther than any drawn
/// geometry.
pub const FAR_DEPTH: i64 = -65536000;

/// The depth written under wireframe pixels: minus one hundred, nearer
/// than most geometry so lines stay visible.
pub const WIRE_DEPTH: i64 = -6553600;

/// Largest screen dimension the index arithmetic accepts.
pub const MAX_DIM: usize = 2048;

/// Magnitude bound on raster-space coordinates under which the
/// barycentric arithmetic stays exact in 128 bits.
pub const RASTER_LIMIT: i64 = 536870912;

/// Magnitude bound on camera-space depths.
pub const Z_LIMIT: i64 = 1073741824;

/// Magnitude bound on texture coordinates handed to `draw_triangle`.
pub const TEX_LIMIT: i64 = 1048576;

/// The smaller of two integers.
pub open spec fn imin(a: int, b: int) -> int {
    if a < b {
        a
    } else {
        b
    }
}

/// The larger of two integers.
pub open spec fn imax(a: int, b: int) -> int {
    if a < b {
        b
    } else {
        a
    }
}

/// The least of three integers.
pub open spec fn imin3(a: int, b: int, c: int) -> int {
    imin(a, imin(b, c))
}

/// The greatest of three integers.
pub open spec fn imax3(a: int, b: int, c: int) -> int {
    imax(a, imax(b, c))
}

/// The raster-space image of a vertex: a uniform scale by the screen
/// width and an offset to the screen centre.
pub open spec fn raster_x(v: Vec3, w: int) -> int {
    v.x * w + w * 32768
}

/// The raster-space second coordinate; the scale is by the width, the
/// offset by half the height, preserving the aspect ratio.
pub open spec fn raster_y(v: Vec3, w: int, h: int) -> int {
    v.y * w + h * 32768
}

/// The raster-space point of a vertex, as a plane vector.
pub open spec fn raster_of(v: Vec3, w: int, h: int) -> Vec2 {
    Vec2 { x: raster_x(v, w) as i64, y: raster_y(v, w, h) as i64 }
}

/// A triangle fixed for rasterization: raster-space corners, their
/// camera-space depths, and their texture coordinates.
pub struct TriSpec {
    pub a: Vec2,
    pub b: Vec2,
    pub c: Vec2,
    pub z0: i64,
    pub z1: i64,
    pub z2: i64,
    pub t0: Vec2,
    pub t1: Vec2,
    pub t2: Vec2,
}

/// The denominator of the barycentric system: the Gram determinant of
/// the triangle's edge vectors, computed with fixed-point dot
/// products.  Zero exactly on degenerate (collinear) corners.
pub open spec fn bary_denom(a: Vec2, b: Vec2, c: Vec2) -> int {
    let d00 = fxmul(b.x - a.x, b.x - a.x) + fxmul(b.y - a.y, b.y - a.y);
    let d01 = fxmul(b.x - a.x, c.x - a.x) + fxmul(b.y - a.y, c.y - a.y);
    let d11 = fxmul(c.x - a.x, c.x - a.x) + fxmul(c.y - a.y, c.y - a.y);
    d00 * d11 - d01 * d01
}

/// The barycentric weight of corner `b` at the point `(px, py)`, as a
/// fixed-point value.
pub open spec fn bary_v(a: Vec2, b: Vec2, c: Vec2, px: int, py: int) -> int {
    let d01 = fxmul(b.x - a.x, c.x - a.x) + fxmul(b.y - a.y, c.y - a.y);
    let d11 = fxmul(c.x - a.x, c.x - a.x) + fxmul(c.y - a.y, c.y - a.y);
    let d20 = fxmul(px - a.x, b.x - a.x) + fxmul(py - a.y, b.y - a.y);
    let d21 = fxmul(px - a.x, c.x - a.x) + fxmul(py - a.y, c.y - a.y);
    ((d11 * d20 - d01 * d21) * (FP as int)) / bary_denom(a, b, c)
}

/// The barycentric weight of corner `c` at the point `(px, py)`, as a
/// fixed-point value.
pub open spec fn bary_w(a: Vec2, b: Vec2, c: Vec2, px: int, py: int) -> int {
    let d00 = fxmul(b.x - a.x, b.x - a.x) + fxmul(b.y - a.y, b.y - a.y);
    let d01 = fxmul(b.x - a.x, c.x - a.x) + fxmul(b.y - a.y, c.y - a.y);
    let d20 = fxmul(px - a.x, b.x - a.x) + fxmul(py - a.y, b.y - a.y);
    let d21 = fxmul(px - a.x, c.x - a.x) + fxmul(py - a.y, c.y - a.y);
    ((d00 * d21 - d01 * d20) * (FP as int)) / bary_denom(a, b, c)
}

/// The point `(pfx, pfy)` (fixed-point raster coordinates) lies in
/// the triangle: all three barycentric weights are nonnegative (edge
/// pixels included).
pub open spec fn covered(a: Vec2, b: Vec2, c: Vec2, pfx: int, pfy: int) -> bool {
    let v = bary_v(a, b, c, pfx, pfy);
    let w = bary_w(a, b, c, pfx, pfy);
    let u = FP as int - v - w;
    u >= 0 && v >= 0 && w >= 0
}

/// The barycentric weight of corner `b` at the centre of pixel
/// `(px, py)`.
pub open spec fn pix_v(t: TriSpec, px: int, py: int) -> int {
    bary_v(t.a, t.b, t.c, px * (FP as int), py * (FP as int))
}

/// The barycentric weight of corner `c` at the centre of pixel
/// `(px, py)`.
pub open spec fn pix_w(t: TriSpec, px: int, py: int) -> int {
    bary_w(t.a, t.b, t.c, px * (FP as int), py * (FP as int))
}

/// The pixel `(px, py)` lies in the triangle.
pub open spec fn pix_covered(t: TriSpec, px: int, py: int) -> bool {
    covered(t.a, t.b, t.c, px * (FP as int), py * (FP as int))
}

/// Barycentric-linear interpolation of a per-corner quantity, with the
/// weight of the first corner implied by the other two.
pub open spec fn interp3(v: int, w: int, q0: int, q1: int, q2: int) -> int {
    ((FP as int - v - w) * q0 + v * q1 + w * q2) / (FP as int)
}

/// The interpolated camera-space depth of the triangle at a pixel.
pub open spec fn tri_depth(t: TriSpec, px: int, py: int) -> int {
    interp3(pix_v(t, px, py), pix_w(t, px, py), t.z0 as int, t.z1 as int, t.z2 as int)
}

/// The depth stored at a pixel after the triangle is rasterized over
/// it: the interpolated depth if the pixel is covered and strictly
/// nearer than what was there, else the old depth.
pub open spec fn shade_depth(t: TriSpec, px: int, py: int, oldd: int) -> int {
    if pix_covered(t, px, py) && tri_depth(t, px, py) > oldd {
        tri_depth(t, px, py)
    } else {
        oldd
    }
}

/// The colour stored at a pixel after the triangle is rasterized over
/// it: the sampled texel if the pixel is covered and strictly nearer
/// than what was there, else the old colour.
pub open spec fn shade_col(t: TriSpec, tex: Texture, px: int, py: int, oldc: u32,
    oldd: int) -> u32 {
    if pix_covered(t, px, py) && tri_depth(t, px, py) > oldd {
        let v = pix_v(t, px, py);
        let w = pix_w(t, px, py);
        tex.sample_at(interp3(v, w, t.t0.x as int, t.t1.x as int, t.t2.x as int),
            interp3(v, w, t.t0.y as int, t.t1.y as int, t.t2.y as int))
    } else {
        oldc
    }
}

/// The clamped bounding box of the triangle: first raster column
/// inside it.
pub open spec fn box_x_min(t: TriSpec) -> int {
    imax(0, imin3(fxfloor(t.a.x as int), fxfloor(t.b.x as int), fxfloor(t.c.x as int)))
}

/// One past the last raster column of the clamped bounding box.
pub open spec fn box_x_max(t: TriSpec, w: int) -> int {
    imin(w, imax3(fxfloor(t.a.x as int), fxfloor(t.b.x as int), fxfloor(t.c.x as int)))
}

/// First raster row of the clamped bounding box.
pub open spec fn box_y_min(t: TriSpec) -> int {
    imax(0, imin3(fxfloor(t.a.y as int), fxfloor(t.b.y as int), fxfloor(t.c.y as int)))
}

/// One past the last raster row of the clamped bounding box.
pub open spec fn box_y_max(t: TriSpec, h: int) -> int {
    imin(h, imax3(fxfloor(t.a.y as int), fxfloor(t.b.y as int), fxfloor(t.c.y as int)))
}

/// The pixel lies in the triangle's clamped bounding box.
pub open spec fn in_box(t: TriSpec, w: int, h: int, px: int, py: int) -> bool {
    box_x_min(t) <= px < box_x_max(t, w) && box_y_min(t) <= py < box_y_max(t, h)
}

/// Barycentric weights of a point against a triangle, exact wide
/// fixed-point values.
#[derive(Clone, Copy, Debug, PartialEq, Eq, Structural)]
pub struct Barycentric {
    pub u: i128,
    pub v: i128,
    pub w: i128,
}

/// Computes the barycentric coordinates of `p` with respect to the
/// triangle `a, b, c`, by solving the two-by-two system of fixed-point
/// dot products.  The three weights sum to exactly one.
pub fn get_barycentric(a: Vec2, b: Vec2, c: Vec2, p: Vec2) -> (r: Barycentric)
    requires
        a.in_range(RASTER_LIMIT as int),
        b.in_range(RASTER_LIMIT as int),
        c.in_range(RASTER_LIMIT as int),
        p.in_range(RASTER_LIMIT as int),
        bary_denom(a, b, c) > 0,
    ensures
        r.v == bary_v(a, b, c, p.x as int, p.y as int),
        r.w == bary_w(a, b, c, p.x as int, p.y as int),
        r.u == FP as int - r.v - r.w,
{
    let ab = b.sub(a);
    let ac = c.sub(a);
    let ap = p.sub(a);
    proof {
        assert((1073741824int * 1073741824) / (FP as int) + 1 == 17592186044417)
            by (nonlinear_arith);
        crate::fixed::lemma_fxmul_mag(ab.x as int, ab.x as int, 1073741824, 1073741824);
        crate::fixed::lemma_fxmul_mag(ab.y as int, ab.y as int, 1073741824, 1073741824);
        crate::fixed::lemma_fxmul_mag(ab.x as int, ac.x as int, 1073741824, 1073741824);
        crate::fixed::lemma_fxmul_mag(ab.y as int, ac.y as int, 1073741824, 1073741824);
        crate::fixed::lemma_fxmul_mag(ac.x as int, ac.x as int, 1073741824, 1073741824);
        crate::fixed::lemma_fxmul_mag(ac.y as int, ac.y as int, 1073741824, 1073741824);
        crate::fixed::lemma_fxmul_mag(ap.x as int, ab.x as int, 1073741824, 1073741824);
        crate::fixed::lemma_fxmul_mag(ap.y as int, ab.y as int, 1073741824, 1073741824);
        crate::fixed::lemma_fxmul_mag(ap.x as int, ac.x as int, 1073741824, 1073741824);
        crate::fixed::lemma_fxmul_mag(ap.y as int, ac.y as int, 1073741824, 1073741824);
    }
    let d00 = ab.dot(ab);
    let d01 = ab.dot(ac);
    let d11 = ac.dot(ac);
    let d20 = ap.dot(ab);
    let d21 = ap.dot(ac);
    proof {
        lemma_mul_mag(d00 as int, d11 as int, 35184372088834, 35184372088834);
        lemma_mul_mag(d01 as int, d01 as int, 35184372088834, 35184372088834);
        lemma_mul_mag(d11 as int, d20 as int, 35184372088834, 35184372088834);
        lemma_mul_mag(d01 as int, d21 as int, 35184372088834, 35184372088834);
        lemma_mul_mag(d00 as int, d21 as int, 35184372088834, 35184372088834);
        lemma_mul_mag(d01 as int, d20 as int, 35184372088834, 35184372088834);
        assert(35184372088834int * 35184372088834 == 1237940039285521012387479556)
            by (nonlinear_arith);
    }
    let denom: i128 = (d00 as i128) * (d11 as i128) - (d01 as i128) * (d01 as i128);
    let nv: i128 = (d11 as i128) * (d20 as i128) - (d01 as i128) * (d21 as i128);
    let nw: i128 = (d00 as i128) * (d21 as i128) - (d01 as i128) * (d20 as i128);
    proof {
        lemma_mul_mag(nv as int, FP as int, 2475880078571042024774959112, 65536);
        lemma_mul_mag(nw as int, FP as int, 2475880078571042024774959112, 65536);
    }
    let v = fdiv128(nv * (FP as i128), denom);
    let w = fdiv128(nw * (FP as i128), denom);
    proof {
        assert(162259276829231810135651720364032int * (denom as int)
            >= 162259276829231810135651720364032) by (nonlinear_arith)
            requires denom as int >= 1,
        ;
        lemma_div_mag(nv as int * (FP as int), denom as int,
            162259276829231810135651720364032);
        lemma_div_mag(nw as int * (FP as int), denom as int,
            162259276829231810135651720364032);
    }
    Barycentric { u: (FP as i128) - v - w, v, w }
}

/// The floor of the least of three fixed-point values, as a raster
/// index.
pub fn min3(a: i64, b: i64, c: i64) -> (r: isize)
    requires
        mag(a as int) <= RASTER_LIMIT as int,
        mag(b as int) <= RASTER_LIMIT as int,
        mag(c as int) <= RASTER_LIMIT as int,
    ensures
        r == imin3(fxfloor(a as int), fxfloor(b as int), fxfloor(c as int)),
{
    let fa = crate::fixed::fx_floor(a);
    let fb = crate::fixed::fx_floor(b);
    let fc = crate::fixed::fx_floor(c);
    proof {
        lemma_div_mag(a as int, FP as int, RASTER_LIMIT as int);
        lemma_div_mag(b as int, FP as int, RASTER_LIMIT as int);
        lemma_div_mag(c as int, FP as int, RASTER_LIMIT as int);
    }
    let m = if fb < fc { fb } else { fc };
    let m2 = if fa < m { fa } else { m };
    m2 as isize
}

/// The floor of the greatest of three fixed-point values, as a raster
/// index.
pub fn max3(a: i64, b: i64, c: i64) -> (r: isize)
    requires
        mag(a as int) <= RASTER_LIMIT as int,
        mag(b as int) <= RASTER_LIMIT as int,
        mag(c as int) <= RASTER_LIMIT as int,
    ensures
        r == imax3(fxfloor(a as int), fxfloor(b as int), fxfloor(c as int)),
{
    let fa = crate::fixed::fx_floor(a);
    let fb = crate::fixed::fx_floor(b);
    let fc = crate::fixed::fx_floor(c);
    proof {
        lemma_div_mag(a as int, FP as int, RASTER_LIMIT as int);
        lemma_div_mag(b as int, FP as int, RASTER_LIMIT as int);
        lemma_div_mag(c as int, FP as int, RASTER_LIMIT as int);
    }
    let m = if fb < fc { fc } else { fb };
    let m2 = if fa < m { m } else { fa };
    m2 as isize
}


/// A vertex whose raster image and depth fit the fixed ranges of the
/// rasterizer's arithmetic.
pub open spec fn vert_in_range(v: Vec3, w: int, h: int) -> bool {
    mag(raster_x(v, w)) <= RASTER_LIMIT as int
    && mag(raster_y(v, w, h)) <= RASTER_LIMIT as int
    && mag(v.z as int) <= Z_LIMIT as int
}

/// A triangle has a vertex at or in front of the camera plane and is
/// discarded whole.
pub open spec fn culled(vs: Seq<Vec3>) -> bool {
    vs[0].z >= 0 || vs[1].z >= 0 || vs[2].z >= 0
}

/// The rasterization data of a triangle on a screen of size
/// `w` by `h`.
pub open spec fn tri_of(vs: Seq<Vec3>, ts: Seq<Vec2>, w: int, h: int) -> TriSpec {
    TriSpec {
        a: raster_of(vs[0], w, h),
        b: raster_of(vs[1], w, h),
        c: raster_of(vs[2], w, h),
        z0: vs[0].z,
        z1: vs[1].z,
        z2: vs[2].z,
        t0: ts[0],
        t1: ts[1],
        t2: ts[2],
    }
}

/// The row-major buffer index of pixel `(px, py)`.
pub open spec fn pix_index(w: int, px: int, py: int) -> int {
    py * w + px
}

/// A row-major buffer index splits into its pixel column and row.
pub proof fn lemma_pix_decompose(w: int, h: int, i: int)
    requires
        0 < w,
        0 <= i < w * h,
    ensures
        0 <= i % w < w,
        0 <= i / w < h,
        pix_index(w, i % w, i / w) == i,
{
    vstd::arithmetic::div_mod::lemma_fundamental_div_mod(i, w);
    vstd::arithmetic::div_mod::lemma_mod_bound(i, w);
    assert(0 <= i / w && i / w < h && (i / w) * w + i % w == i) by (nonlinear_arith)
        requires
            i == w * (i / w) + i % w,
            0 <= i % w < w,
            0 <= i < w * h,
            0 < w,
    ;
}

/// Row-major pixel indexing is injective on the screen.
proof fn lemma_index_inj(w: int, px1: int, py1: int, px2: int, py2: int)
    requires
        0 <= px1 < w,
        0 <= px2 < w,
        0 <= py1,
        0 <= py2,
        py1 * w + px1 == py2 * w + px2,
    ensures
        px1 == px2 && py1 == py2,
{
    assert(px1 == px2 && py1 == py2) by (nonlinear_arith)
        requires
            0 <= px1 < w,
            0 <= px2 < w,
            0 <= py1,
            0 <= py2,
            py1 * w + px1 == py2 * w + px2,
    ;
}


/// Off-screen culling: a triangle whose clamped bounding box is empty
/// puts no pixel inside it, so by the rasterizer's contract a draw of
/// it leaves both buffers exactly as they were.
pub proof fn lemma_offscreen_no_writes(t: TriSpec, w: int, h: int)
    requires
        box_x_max(t, w) <= box_x_min(t) || box_y_max(t, h) <= box_y_min(t),
    ensures
        forall|px: int, py: int| !in_box(t, w, h, px, py),
{
}

/// Barycentric partition of unity: against a non-degenerate triangle
/// the three weights of any point sum to exactly one; where the point
/// is inside (all weights nonnegative) each weight lies between zero
/// and one, and where it is outside at least one weight is negative.
pub proof fn lemma_bary_partition_of_unity(a: Vec2, b: Vec2, c: Vec2, pfx: int, pfy: int)
    requires
        bary_denom(a, b, c) > 0,
    ensures
        ({
            let v = bary_v(a, b, c, pfx, pfy);
            let w = bary_w(a, b, c, pfx, pfy);
            let u = FP as int - v - w;
            u + v + w == FP as int
            && (covered(a, b, c, pfx, pfy) ==> 0 <= u <= FP as int && 0 <= v <= FP as int
                && 0 <= w <= FP as int)
            && (!covered(a, b, c, pfx, pfy) ==> u < 0 || v < 0 || w < 0)
        }),
{
}

/// Rasterization is order-independent: for two opaque triangles whose
/// interpolated depths differ wherever both cover a pixel, shading the
/// pixel by one triangle and then the other leaves the same colour and
/// depth in either order.
pub proof fn lemma_draw_order_independent(t1: TriSpec, t2: TriSpec, tex1: Texture,
    tex2: Texture, px: int, py: int, c0: u32, d0: int)
    requires
        pix_covered(t1, px, py) && pix_covered(t2, px, py)
            ==> tri_depth(t1, px, py) != tri_depth(t2, px, py),
    ensures
        shade_depth(t2, px, py, shade_depth(t1, px, py, d0))
            == shade_depth(t1, px, py, shade_depth(t2, px, py, d0)),
        shade_col(t2, tex2, px, py, shade_col(t1, tex1, px, py, c0, d0),
            shade_depth(t1, px, py, d0))
            == shade_col(t1, tex1, px, py, shade_col(t2, tex2, px, py, c0, d0),
                shade_depth(t2, px, py, d0)),
{
}


/// The buffers after one triangle is rasterized over the whole
/// screen: pixelwise, the shaded colour and depth inside the clamped
/// bounding box and the old values outside it.
pub open spec fn apply_tri(t: TriSpec, tex: Texture, w: int, h: int, buf: Seq<u32>,
    dep: Seq<i64>) -> (Seq<u32>, Seq<i64>) {
    (Seq::new(buf.len(), |i: int|
        if in_box(t, w, h, i % w, i / w) {
            shade_col(t, tex, i % w, i / w, buf[i], dep[i] as int)
        } else {
            buf[i]
        }),
    Seq::new(dep.len(), |i: int|
        if in_box(t, w, h, i % w, i / w) {
            shade_depth(t, i % w, i / w, dep[i] as int) as i64
        } else {
            dep[i]
        }))
}

/// The pixels Bresenham's walk visits from the state `(x, y, err)`
/// toward `(bx, by)`, in visiting order; `n` bounds the number of
/// steps (the walk needs one more than the remaining coordinate
/// distance).
pub open spec fn bres_walk(n: nat, x: int, y: int, err: int, bx: int, by: int, dx: int,
    dy: int, sx: int, sy: int) -> Seq<(int, int)>
    decreases n,
{
    if n == 0 {
        Seq::empty()
    } else if x == bx && y == by {
        seq![(x, y)]
    } else {
        let e2 = 2 * err;
        if e2 >= dy && x == bx {
            seq![(x, y)]
        } else {
            let x1 = if e2 >= dy { x + sx } else { x };
            let e1 = if e2 >= dy { err + dy } else { err };
            if e2 <= dx && y == by {
                seq![(x, y)]
            } else {
                let y1 = if e2 <= dx { y + sy } else { y };
                let e3 = if e2 <= dx { e1 + dx } else { e1 };
                seq![(x, y)] + bres_walk((n - 1) as nat, x1, y1, e3, bx, by, dx, dy, sx,
                    sy)
            }
        }
    }
}

/// The pixels visited when a line is drawn from `a` to `b`: the walk
/// from the floor of `a` to the floor of `b`.
pub open spec fn line_walk(a: Vec3, b: Vec3) -> Seq<(int, int)> {
    let ax = fxfloor(a.x as int);
    let ay = fxfloor(a.y as int);
    let bx = fxfloor(b.x as int);
    let by = fxfloor(b.y as int);
    let dx = if bx > ax { bx - ax } else { ax - bx };
    let dy = -(if by > ay { by - ay } else { ay - by });
    let sx: int = if ax < bx { 1 } else { -1 };
    let sy: int = if ay < by { 1 } else { -1 };
    bres_walk((mag(bx - ax) + mag(by - ay) + 1) as nat, ax, ay, dx + dy, bx, by, dx, dy,
        sx, sy)
}

/// The buffers after painting the listed pixels in the wireframe
/// colour and depth, in order; pixels off the screen or on the zero
/// row or column are skipped.
pub open spec fn paint_walk(pix: Seq<(int, int)>, buf: Seq<u32>, dep: Seq<i64>, w: int,
    h: int) -> (Seq<u32>, Seq<i64>)
    decreases pix.len(),
{
    if pix.len() == 0 {
        (buf, dep)
    } else {
        let px = pix[0].0;
        let py = pix[0].1;
        if 0 < px < w && 0 < py < h {
            paint_walk(pix.subrange(1, pix.len() as int),
                buf.update(pix_index(w, px, py), BLUE),
                dep.update(pix_index(w, px, py), WIRE_DEPTH), w, h)
        } else {
            paint_walk(pix.subrange(1, pix.len() as int), buf, dep, w, h)
        }
    }
}

/// A one-pixel walk paints exactly its pixel.
proof fn lemma_walk_terminal(n: nat, x: int, y: int, err: int, bx: int, by: int,
    dx: int, dy: int, sx: int, sy: int)
    requires
        n >= 1,
        (x == bx && y == by) || (2 * err >= dy && x == bx) || (2 * err <= dx && y == by),
    ensures
        bres_walk(n, x, y, err, bx, by, dx, dy, sx, sy) == seq![(x, y)],
{
}

/// Painting a walk is painting its head and then the rest.
proof fn lemma_paint_walk_cons(p: (int, int), rest: Seq<(int, int)>, buf: Seq<u32>,
    dep: Seq<i64>, w: int, h: int)
    ensures
        paint_walk(seq![p] + rest, buf, dep, w, h) == ({
            let one = paint_walk(seq![p], buf, dep, w, h);
            paint_walk(rest, one.0, one.1, w, h)
        }),
{
    reveal_with_fuel(paint_walk, 2);
    let whole = seq![p] + rest;
    assert(whole[0] == p);
    assert(whole.subrange(1, whole.len() as int) =~= rest);
    assert(seq![p].subrange(1, 1) =~= Seq::<(int, int)>::empty());
    if 0 < p.0 < w && 0 < p.1 < h {
        assert(paint_walk(seq![p], buf, dep, w, h)
            == (buf.update(pix_index(w, p.0, p.1), BLUE),
                dep.update(pix_index(w, p.0, p.1), WIRE_DEPTH)));
    } else {
        assert(paint_walk(seq![p], buf, dep, w, h) == (buf, dep));
    }
}

/// What a painted walk holds at one screen pixel: the wireframe
/// colour and depth where the walk passed (off the zero row and
/// column), and the old values everywhere else.
pub proof fn lemma_paint_walk_at(pix: Seq<(int, int)>, buf: Seq<u32>, dep: Seq<i64>,
    w: int, h: int, px: int, py: int)
    requires
        0 < w,
        buf.len() == w * h,
        dep.len() == w * h,
        0 <= px < w,
        0 <= py < h,
    ensures
        ({
            let r = paint_walk(pix, buf, dep, w, h);
            let i = pix_index(w, px, py);
            if pix.contains((px, py)) && 0 < px && 0 < py {
                r.0[i] == BLUE && r.1[i] == WIRE_DEPTH
            } else {
                r.0[i] == buf[i] && r.1[i] == dep[i]
            }
        }),
    decreases pix.len(),
{
    let i = pix_index(w, px, py);
    assert(0 <= py * w + px && py * w + px < w * h) by (nonlinear_arith)
        requires 0 <= px < w, 0 <= py < h, 0 < w,
    ;
    if pix.len() == 0 {
        assert(!pix.contains((px, py)));
    } else {
        let p0 = pix[0];
        let rest = pix.subrange(1, pix.len() as int);
        if rest.contains((px, py)) {
            let k = choose|k: int| 0 <= k < rest.len() && rest[k] == (px, py);
            assert(pix[k + 1] == (px, py));
            assert(pix.contains((px, py)));
        }
        if p0 == (px, py) {
            assert(pix.contains((px, py)));
        }
        if pix.contains((px, py)) && p0 != (px, py) {
            let k = choose|k: int| 0 <= k < pix.len() && pix[k] == (px, py);
            assert(rest[k - 1] == (px, py));
            assert(rest.contains((px, py)));
        }
        if 0 < p0.0 < w && 0 < p0.1 < h {
            let j = pix_index(w, p0.0, p0.1);
            assert(0 <= p0.1 * w + p0.0 && p0.1 * w + p0.0 < w * h) by (nonlinear_arith)
                requires 0 < p0.0 < w, 0 < p0.1 < h,
            ;
            let b1 = buf.update(j, BLUE);
            let d1 = dep.update(j, WIRE_DEPTH);
            lemma_paint_walk_at(rest, b1, d1, w, h, px, py);
            if p0 != (px, py) {
                if j == i {
                    lemma_index_inj(w, p0.0, p0.1, px, py);
                }
                assert(j != i);
            }
        } else {
            lemma_paint_walk_at(rest, buf, dep, w, h, px, py);
        }
    }
}

/// The screen's colour and depth buffers, with their dimensions.
pub struct Renderer {
    pub width: usize,
    pub height: usize,
    pub centre: Vec3,
    pub buffer: Vec<u32>,
    pub depth_buffer: Vec<i64>,
}

impl Renderer {
    /// Sound dimensions, matching buffer sizes, and the precomputed
    /// screen centre.
    pub open spec fn wf(self) -> bool {
        1 <= self.width <= MAX_DIM
        && 1 <= self.height <= MAX_DIM
        && self.buffer@.len() == self.width * self.height
        && self.depth_buffer@.len() == self.width * self.height
        && self.centre.x == self.width * 32768
        && self.centre.y == self.height * 32768
        && self.centre.z == 0
    }

    /// A renderer for a screen of the given size, with both buffers
    /// cleared.
    pub fn new(width: usize, height: usize) -> (r: Renderer)
        requires
            1 <= width <= MAX_DIM,
            1 <= height <= MAX_DIM,
        ensures
            r.wf(),
            r.width == width,
            r.height == height,
            forall|i: int| 0 <= i < width * height ==> r.buffer@[i] == BLACK,
            forall|i: int| 0 <= i < width * height ==> r.depth_buffer@[i] == FAR_DEPTH,
    {
        let centre = Vec3::new((width as i64) * 32768, (height as i64) * 32768, 0);
        let mut renderer = Renderer {
            width,
            height,
            centre,
            buffer: Vec::new(),
            depth_buffer: Vec::new(),
        };
        renderer.clear();
        renderer
    }

    /// Resets every pixel to black and every depth to the far
    /// sentinel.
    pub fn clear(&mut self)
        requires
            1 <= old(self).width <= MAX_DIM,
            1 <= old(self).height <= MAX_DIM,
        ensures
            final(self).width == old(self).width,
            final(self).height == old(self).height,
            final(self).centre == old(self).centre,
            final(self).buffer@.len() == old(self).width * old(self).height,
            final(self).depth_buffer@.len() == old(self).width * old(self).height,
            forall|i: int|
                0 <= i < old(self).width * old(self).height
                    ==> final(self).buffer@[i] == BLACK,
            forall|i: int|
                0 <= i < old(self).width * old(self).height
                    ==> final(self).depth_buffer@[i] == FAR_DEPTH,
    {
        proof {
            let w = old(self).width as int;
            let h = old(self).height as int;
            assert(w * h <= 4194304) by (nonlinear_arith)
                requires
                    0 < w <= 2048,
                    0 < h <= 2048,
            ;
        }
        let n = self.width * self.height;
        self.buffer = vec![BLACK; n];
        self.depth_buffer = vec![FAR_DEPTH; n];
    }


    /// Rasterizes one triangle.  Vertices carry the projected
    /// raster-direction coordinates in `x` and `y` and the camera-space
    /// depth in `z`.  A triangle with any vertex at depth zero or
    /// nearer is discarded whole, as is a degenerate one; otherwise
    /// every pixel of the clamped bounding box whose barycentric
    /// weights are all nonnegative and whose interpolated depth is
    /// strictly nearer than the stored depth receives the sampled
    /// texture colour and that depth.
    #[verifier::loop_isolation(false)]
    #[verifier::rlimit(80)]
    pub fn draw_triangle(&mut self, vertices: Vec<Vec3>, texture: &Texture,
        tex_coords: Vec<Vec2>)
        requires
            old(self).wf(),
            vertices@.len() == 3,
            tex_coords@.len() == 3,
            texture.sampleable(),
            forall|k: int|
                0 <= k < 3 ==> vert_in_range(#[trigger] vertices@[k],
                    old(self).width as int, old(self).height as int),
            forall|k: int|
                0 <= k < 3 ==> (#[trigger] tex_coords@[k]).in_range(TEX_LIMIT as int),
        ensures
            final(self).wf(),
            final(self).width == old(self).width,
            final(self).height == old(self).height,
            final(self).centre == old(self).centre,
            ({
                let t = tri_of(vertices@, tex_coords@, old(self).width as int,
                    old(self).height as int);
                let w = old(self).width as int;
                let h = old(self).height as int;
                if culled(vertices@) || bary_denom(t.a, t.b, t.c) <= 0 {
                    final(self).buffer@ == old(self).buffer@
                    && final(self).depth_buffer@ == old(self).depth_buffer@
                } else {
                    forall|px: int, py: int|
                        #![trigger pix_index(w, px, py)]
                        0 <= px < w && 0 <= py < h ==> if in_box(t, w, h, px, py) {
                            final(self).buffer@[pix_index(w, px, py)] == shade_col(t,
                                *texture, px, py, old(self).buffer@[pix_index(w, px, py)],
                                old(self).depth_buffer@[pix_index(w, px, py)] as int)
                            && final(self).depth_buffer@[pix_index(w, px, py)]
                                == shade_depth(t, px, py,
                                    old(self).depth_buffer@[pix_index(w, px, py)] as int)
                        } else {
                            final(self).buffer@[pix_index(w, px, py)]
                                == old(self).buffer@[pix_index(w, px, py)]
                            && final(self).depth_buffer@[pix_index(w, px, py)]
                                == old(self).depth_buffer@[pix_index(w, px, py)]
                        }
                }
            }),
    {
        let w = self.width;
        let h = self.height;
        let v0 = vertices[0];
        let v1 = vertices[1];
        let v2 = vertices[2];
        let t0 = tex_coords[0];
        let t1 = tex_coords[1];
        let t2 = tex_coords[2];
        if v0.z >= 0 || v1.z >= 0 || v2.z >= 0 {
            return;
        }
        let ghost tri = tri_of(vertices@, tex_coords@, w as int, h as int);
        let wi = w as i64;
        let a = Vec2 { x: v0.x * wi + self.centre.x, y: v0.y * wi + self.centre.y };
        let b = Vec2 { x: v1.x * wi + self.centre.x, y: v1.y * wi + self.centre.y };
        let c = Vec2 { x: v2.x * wi + self.centre.x, y: v2.y * wi + self.centre.y };
        proof {
            assert(a == tri.a && b == tri.b && c == tri.c);
        }
        let ab = b.sub(a);
        let ac = c.sub(a);
        proof {
            assert((1073741824int * 1073741824) / (FP as int) + 1 == 17592186044417)
                by (nonlinear_arith);
            crate::fixed::lemma_fxmul_mag(ab.x as int, ab.x as int, 1073741824, 1073741824);
            crate::fixed::lemma_fxmul_mag(ab.y as int, ab.y as int, 1073741824, 1073741824);
            crate::fixed::lemma_fxmul_mag(ab.x as int, ac.x as int, 1073741824, 1073741824);
            crate::fixed::lemma_fxmul_mag(ab.y as int, ac.y as int, 1073741824, 1073741824);
            crate::fixed::lemma_fxmul_mag(ac.x as int, ac.x as int, 1073741824, 1073741824);
            crate::fixed::lemma_fxmul_mag(ac.y as int, ac.y as int, 1073741824, 1073741824);
        }
        let d00 = ab.dot(ab);
        let d01 = ab.dot(ac);
        let d11 = ac.dot(ac);
        proof {
            lemma_mul_mag(d00 as int, d11 as int, 35184372088834, 35184372088834);
            lemma_mul_mag(d01 as int, d01 as int, 35184372088834, 35184372088834);
            assert(35184372088834int * 35184372088834 == 1237940039285521012387479556)
                by (nonlinear_arith);
        }
        let denom: i128 = (d00 as i128) * (d11 as i128) - (d01 as i128) * (d01 as i128);
        proof {
            assert(denom as int == bary_denom(tri.a, tri.b, tri.c));
        }
        if denom <= 0 {
            return;
        }
        let mn_x = min3(a.x, b.x, c.x);
        let mx_x = max3(a.x, b.x, c.x);
        let mn_y = min3(a.y, b.y, c.y);
        let mx_y = max3(a.y, b.y, c.y);
        let x_min: isize = if mn_x < 0 { 0 } else { mn_x };
        let x_max: isize = if (w as isize) < mx_x { w as isize } else { mx_x };
        let y_min: isize = if mn_y < 0 { 0 } else { mn_y };
        let y_max: isize = if (h as isize) < mx_y { h as isize } else { mx_y };
        proof {
            assert(x_min as int == box_x_min(tri));
            assert(x_max as int == box_x_max(tri, w as int));
            assert(y_min as int == box_y_min(tri));
            assert(y_max as int == box_y_max(tri, h as int));
        }
        if x_max < x_min || y_max < y_min {
            return;
        }
        let ghost buf0 = self.buffer@;
        let ghost dep0 = self.depth_buffer@;
        let x_end: usize = x_max as usize;
        let y_start: usize = y_min as usize;
        let y_end: usize = y_max as usize;
        let mut x: usize = x_min as usize;
        while x < x_end
            invariant
                x_min as int <= x as int <= x_end as int,
                self.wf(),
                self.width == w,
                self.height == h,
                self.centre == old(self).centre,
                self.buffer@.len() == buf0.len(),
                self.depth_buffer@.len() == dep0.len(),
                forall|px: int, py: int|
                    #![trigger pix_index(w as int, px, py)]
                    0 <= px < w && 0 <= py < h ==> if in_box(tri, w as int,
                        h as int, px, py) && px < x {
                        self.buffer@[pix_index(w as int, px, py)] == shade_col(tri,
                            *texture, px, py, buf0[pix_index(w as int, px, py)],
                            dep0[pix_index(w as int, px, py)] as int)
                        && self.depth_buffer@[pix_index(w as int, px, py)]
                            == shade_depth(tri, px, py,
                                dep0[pix_index(w as int, px, py)] as int)
                    } else {
                        self.buffer@[pix_index(w as int, px, py)]
                            == buf0[pix_index(w as int, px, py)]
                        && self.depth_buffer@[pix_index(w as int, px, py)]
                            == dep0[pix_index(w as int, px, py)]
                    },
            decreases x_end - x,
        {
            let mut y: usize = y_start;
            while y < y_end
                invariant
                    y_start as int <= y as int <= y_end as int,
                    x_min as int <= x as int,
                    (x as int) < x_end as int,
                    self.wf(),
                    self.width == w,
                    self.height == h,
                    self.centre == old(self).centre,
                    self.buffer@.len() == buf0.len(),
                    self.depth_buffer@.len() == dep0.len(),
                    forall|px: int, py: int|
                        #![trigger pix_index(w as int, px, py)]
                        0 <= px < w && 0 <= py < h ==> if in_box(tri, w as int,
                            h as int, px, py) && (px < x || (px == x && py < y)) {
                            self.buffer@[pix_index(w as int, px, py)] == shade_col(tri,
                                *texture, px, py, buf0[pix_index(w as int, px, py)],
                                dep0[pix_index(w as int, px, py)] as int)
                            && self.depth_buffer@[pix_index(w as int, px, py)]
                                == shade_depth(tri, px, py,
                                    dep0[pix_index(w as int, px, py)] as int)
                        } else {
                            self.buffer@[pix_index(w as int, px, py)]
                                == buf0[pix_index(w as int, px, py)]
                            && self.depth_buffer@[pix_index(w as int, px, py)]
                                == dep0[pix_index(w as int, px, py)]
                        },
                decreases y_end - y,
            {
                let ghost pre_buf = self.buffer@;
                let ghost pre_dep = self.depth_buffer@;
                let ghost ii = pix_index(w as int, x as int, y as int);
                proof {
                    vstd::arithmetic::mul::lemma_mul_is_commutative(w as int, y as int);
                    assert(in_box(tri, w as int, h as int, x as int, y as int));
                    assert(pre_buf[ii] == buf0[ii] && pre_dep[ii] == dep0[ii]);
                }
                self.shade_one(a, b, c, v0.z, v1.z, v2.z, t0, t1, t2, texture, x, y,
                    Ghost(tri));
                proof {
                    assert forall|px: int, py: int|
                        #![trigger pix_index(w as int, px, py)]
                        0 <= px < w && 0 <= py < h
                        implies ({
                            let i = pix_index(w as int, px, py);
                            if in_box(tri, w as int, h as int, px, py)
                                && (px < x || (px == x && py < y + 1)) {
                                self.buffer@[i] == shade_col(tri, *texture, px, py,
                                    buf0[i], dep0[i] as int)
                                && self.depth_buffer@[i] == shade_depth(tri, px, py,
                                    dep0[i] as int)
                            } else {
                                self.buffer@[i] == buf0[i]
                                && self.depth_buffer@[i] == dep0[i]
                            }
                        }) by {
                        let i = pix_index(w as int, px, py);
                        assert(0 <= py * (w as int) + px < (w as int) * (h as int))
                            by (nonlinear_arith)
                            requires
                                0 <= px < w as int,
                                0 <= py < h as int,
                                0 < w as int,
                                0 < h as int,
                        ;
                        if px == x && py == y {
                            assert(i == ii);
                            assert(self.buffer@[ii] == shade_col(tri, *texture, x as int,
                                y as int, buf0[ii], dep0[ii] as int));
                            assert(self.depth_buffer@[ii] == shade_depth(tri, x as int,
                                y as int, dep0[ii] as int));
                        } else {
                            if i == ii {
                                lemma_index_inj(w as int, px, py, x as int, y as int);
                            }
                            assert(self.buffer@[i] == pre_buf[i]
                                && self.depth_buffer@[i] == pre_dep[i]);
                            if in_box(tri, w as int, h as int, px, py)
                                && (px < x || (px == x && py < y)) {
                                assert(pre_buf[i] == shade_col(tri, *texture, px, py,
                                    buf0[i], dep0[i] as int));
                                assert(pre_dep[i] == shade_depth(tri, px, py,
                                    dep0[i] as int));
                            } else {
                                assert(pre_buf[i] == buf0[i] && pre_dep[i] == dep0[i]);
                            }
                        }
                    }
                }
                y += 1;
            }
            x += 1;
        }
    }


    /// Applies one triangle to one pixel: tests the barycentric
    /// weights and the stored depth, and writes the sampled colour and
    /// the interpolated depth exactly when both pass.
    fn shade_one(&mut self, a: Vec2, b: Vec2, c: Vec2, z0: i64, z1: i64, z2: i64,
        t0: Vec2, t1: Vec2, t2: Vec2, texture: &Texture, x: usize, y: usize,
        tri: Ghost<TriSpec>)
        requires
            old(self).wf(),
            x < old(self).width,
            y < old(self).height,
            texture.sampleable(),
            tri@.a == a && tri@.b == b && tri@.c == c,
            tri@.z0 == z0 && tri@.z1 == z1 && tri@.z2 == z2,
            tri@.t0 == t0 && tri@.t1 == t1 && tri@.t2 == t2,
            a.in_range(RASTER_LIMIT as int),
            b.in_range(RASTER_LIMIT as int),
            c.in_range(RASTER_LIMIT as int),
            mag(z0 as int) <= Z_LIMIT as int,
            mag(z1 as int) <= Z_LIMIT as int,
            mag(z2 as int) <= Z_LIMIT as int,
            t0.in_range(TEX_LIMIT as int),
            t1.in_range(TEX_LIMIT as int),
            t2.in_range(TEX_LIMIT as int),
            bary_denom(a, b, c) > 0,
        ensures
            final(self).wf(),
            final(self).width == old(self).width,
            final(self).height == old(self).height,
            final(self).centre == old(self).centre,
            final(self).buffer@.len() == old(self).buffer@.len(),
            final(self).depth_buffer@.len() == old(self).depth_buffer@.len(),
            ({
                let w = old(self).width as int;
                let i = pix_index(w, x as int, y as int);
                final(self).buffer@[i] == shade_col(tri@, *texture, x as int, y as int,
                    old(self).buffer@[i], old(self).depth_buffer@[i] as int)
                && final(self).depth_buffer@[i] == shade_depth(tri@, x as int, y as int,
                    old(self).depth_buffer@[i] as int)
                && forall|j: int|
                    0 <= j < old(self).buffer@.len() && j != i
                        ==> final(self).buffer@[j] == old(self).buffer@[j]
                            && final(self).depth_buffer@[j] == old(self).depth_buffer@[j]
            }),
    {
        let w = self.width;
        let p = Vec2 { x: (x as i64) * FP, y: (y as i64) * FP };
        let bc = get_barycentric(a, b, c, p);
        proof {
            assert(bc.v == pix_v(tri@, x as int, y as int));
            assert(bc.w == pix_w(tri@, x as int, y as int));
            vstd::arithmetic::mul::lemma_mul_is_commutative(w as int, y as int);
            let hh = old(self).height as int;
            assert((w as int) * (y as int) + (x as int) < (w as int) * hh
                && (w as int) * hh <= 4194304) by (nonlinear_arith)
                requires
                    0 <= x as int,
                    (x as int) < (w as int),
                    0 <= y as int,
                    (y as int) < hh,
                    0 < w as int <= 2048,
                    hh <= 2048,
            ;
        }
        let i = w * y + x;
        if bc.u >= 0 && bc.v >= 0 && bc.w >= 0 {
            proof {
                lemma_mul_mag(bc.u as int, z0 as int, 65536, 1073741824);
                lemma_mul_mag(bc.v as int, z1 as int, 65536, 1073741824);
                lemma_mul_mag(bc.w as int, z2 as int, 65536, 1073741824);
                assert(65536int * 1073741824 == 70368744177664) by (nonlinear_arith);
                assert(3221225473int * 65536 == 211106232598528) by (nonlinear_arith);
            }
            let zi: i128 = bc.u * (z0 as i128) + bc.v * (z1 as i128)
                + bc.w * (z2 as i128);
            proof {
                lemma_div_mag(zi as int, FP as int, 3221225473);
            }
            let z = fdiv128(zi, FP as i128) as i64;
            proof {
                assert(z as int == tri_depth(tri@, x as int, y as int));
            }
            let stored = self.depth_buffer[i];
            if z > stored {
                proof {
                    lemma_mul_mag(bc.u as int, t0.x as int, 65536, 1048576);
                    lemma_mul_mag(bc.v as int, t1.x as int, 65536, 1048576);
                    lemma_mul_mag(bc.w as int, t2.x as int, 65536, 1048576);
                    lemma_mul_mag(bc.u as int, t0.y as int, 65536, 1048576);
                    lemma_mul_mag(bc.v as int, t1.y as int, 65536, 1048576);
                    lemma_mul_mag(bc.w as int, t2.y as int, 65536, 1048576);
                    assert(65536int * 1048576 == 68719476736) by (nonlinear_arith);
                    assert(3145729int * 65536 == 206158495744) by (nonlinear_arith);
                }
                let txi: i128 = bc.u * (t0.x as i128) + bc.v * (t1.x as i128)
                    + bc.w * (t2.x as i128);
                let tyi: i128 = bc.u * (t0.y as i128) + bc.v * (t1.y as i128)
                    + bc.w * (t2.y as i128);
                proof {
                    lemma_div_mag(txi as int, FP as int, 3145729);
                    lemma_div_mag(tyi as int, FP as int, 3145729);
                }
                let tx = fdiv128(txi, FP as i128) as i64;
                let ty = fdiv128(tyi, FP as i128) as i64;
                let col = texture.sample(Vec2 { x: tx, y: ty });
                self.draw_pixel(Vec3 { x: (x as i64) * FP, y: (y as i64) * FP, z }, col);
                proof {
                    vstd::arithmetic::div_mod::lemma_div_multiples_vanish(
                        x as int, FP as int);
                    vstd::arithmetic::div_mod::lemma_div_multiples_vanish(
                        y as int, FP as int);
                    assert(fxfloor((x as i64 * FP) as int) == x as int);
                    assert(fxfloor((y as i64 * FP) as int) == y as int);
                }
            }
        }
    }


    /// Draws the line from `a` to `b` into the colour buffer with
    /// Bresenham's algorithm, at the fixed wireframe depth that stays
    /// in front of most geometry.  The final buffers are exactly the
    /// old ones with the walk's pixels painted blue: every visited
    /// pixel on the screen and off the zero row and column holds the
    /// wireframe colour and depth, and every other pixel is untouched.
    pub fn draw_line(&mut self, a: Vec3, b: Vec3)
        requires
            old(self).wf(),
            mag(a.x as int) <= 68719476736,
            mag(a.y as int) <= 68719476736,
            mag(b.x as int) <= 68719476736,
            mag(b.y as int) <= 68719476736,
        ensures
            final(self).wf(),
            final(self).width == old(self).width,
            final(self).height == old(self).height,
            final(self).centre == old(self).centre,
            ({
                let r = paint_walk(line_walk(a, b), old(self).buffer@,
                    old(self).depth_buffer@, old(self).width as int,
                    old(self).height as int);
                final(self).buffer@ == r.0 && final(self).depth_buffer@ == r.1
            }),
            forall|px: int, py: int|
                0 <= px < old(self).width && 0 <= py < old(self).height
                    ==> if line_walk(a, b).contains((px, py)) && 0 < px && 0 < py {
                        final(self).buffer@[#[trigger] pix_index(old(self).width as int,
                            px, py)] == BLUE
                        && final(self).depth_buffer@[pix_index(old(self).width as int,
                            px, py)] == WIRE_DEPTH
                    } else {
                        final(self).buffer@[pix_index(old(self).width as int, px, py)]
                            == old(self).buffer@[pix_index(old(self).width as int, px, py)]
                        && final(self).depth_buffer@[pix_index(old(self).width as int,
                            px, py)]
                            == old(self).depth_buffer@[pix_index(old(self).width as int,
                                px, py)]
                    },
    {
        proof {
            lemma_div_mag(a.x as int, FP as int, 1048576);
            lemma_div_mag(a.y as int, FP as int, 1048576);
            lemma_div_mag(b.x as int, FP as int, 1048576);
            lemma_div_mag(b.y as int, FP as int, 1048576);
        }
        let ax = crate::fixed::fx_floor(a.x);
        let ay = crate::fixed::fx_floor(a.y);
        let bx = crate::fixed::fx_floor(b.x);
        let by = crate::fixed::fx_floor(b.y);
        let dx = if bx > ax { bx - ax } else { ax - bx };
        let dy = -(if by > ay { by - ay } else { ay - by });
        let sx: i64 = if ax < bx { 1 } else { -1 };
        let sy: i64 = if ay < by { 1 } else { -1 };
        let mut err = dx + dy;
        let mut x = ax;
        let mut y = ay;
        let ghost w = old(self).width as int;
        let ghost h = old(self).height as int;
        let ghost buf0 = self.buffer@;
        let ghost dep0 = self.depth_buffer@;
        let ghost mut fl: nat = (mag(bx as int - ax as int) + mag(by as int - ay as int)
            + 1) as nat;
        let ghost target = paint_walk(bres_walk(fl, ax as int, ay as int,
            (dx + dy) as int, bx as int, by as int, dx as int, dy as int, sx as int,
            sy as int), buf0, dep0, w, h);
        proof {
            assert(target == paint_walk(line_walk(a, b), buf0, dep0, w, h));
        }
        loop
            invariant_except_break
                fl >= mag(bx as int - x as int) + mag(by as int - y as int) + 1,
                paint_walk(bres_walk(fl, x as int, y as int, err as int, bx as int,
                    by as int, dx as int, dy as int, sx as int, sy as int),
                    self.buffer@, self.depth_buffer@, w, h) == target,
            invariant
                self.wf(),
                self.width == old(self).width,
                self.height == old(self).height,
                self.centre == old(self).centre,
                w == old(self).width as int,
                h == old(self).height as int,
                dy <= 0 <= dx,
                mag(dx as int) <= 2097152,
                mag(dy as int) <= 2097152,
                sx == 1 || sx == -1,
                sy == 1 || sy == -1,
                mag(ax as int) <= 1048576,
                mag(ay as int) <= 1048576,
                mag(bx as int) <= 1048576,
                mag(by as int) <= 1048576,
                sx == 1 ==> ax <= x <= bx,
                sx == -1 ==> bx <= x <= ax,
                sy == 1 ==> ay <= y <= by,
                sy == -1 ==> by <= y <= ay,
                2 * dy <= err <= 2 * dx,
            ensures
                self.wf(),
                self.width == old(self).width,
                self.height == old(self).height,
                self.centre == old(self).centre,
                self.buffer@ == target.0,
                self.depth_buffer@ == target.1,
            decreases mag(bx as int - x as int) + mag(by as int - y as int),
        {
            let ghost x0 = x as int;
            let ghost y0 = y as int;
            let ghost e0 = err as int;
            let ghost prev_buf = self.buffer@;
            let ghost prev_dep = self.depth_buffer@;
            if x > 0 && y > 0 {
                self.draw_pixel(Vec3 { x: x * FP, y: y * FP, z: WIRE_DEPTH }, BLUE);
                proof {
                    vstd::arithmetic::div_mod::lemma_div_multiples_vanish(x as int,
                        FP as int);
                    vstd::arithmetic::div_mod::lemma_div_multiples_vanish(y as int,
                        FP as int);
                    assert(fxfloor((x * FP) as int) == x as int);
                    assert(fxfloor((y * FP) as int) == y as int);
                }
            }
            proof {
                // The buffers now hold the head pixel of the walk.
                reveal_with_fuel(paint_walk, 2);
                let one = seq![(x0, y0)];
                assert(one.subrange(1, 1) =~= Seq::<(int, int)>::empty());
                if 0 < x0 < w && 0 < y0 < h {
                    assert(0 <= y0 * w + x0 && y0 * w + x0 < w * h) by (nonlinear_arith)
                        requires 0 < x0 < w, 0 < y0 < h,
                    ;
                    assert((self.buffer@, self.depth_buffer@) == (prev_buf.update(
                        pix_index(w, x0, y0), BLUE), prev_dep.update(
                        pix_index(w, x0, y0), WIRE_DEPTH)));
                } else {
                    assert((self.buffer@, self.depth_buffer@) == (prev_buf, prev_dep));
                }
                assert(paint_walk(one, prev_buf, prev_dep, w, h)
                    == (self.buffer@, self.depth_buffer@));
            }
            if x == bx && y == by {
                proof {
                    lemma_walk_terminal(fl, x0, y0, e0, bx as int, by as int, dx as int,
                        dy as int, sx as int, sy as int);
                }
                break;
            }
            let err2 = 2 * err;
            if err2 >= dy {
                if x == bx {
                    proof {
                        lemma_walk_terminal(fl, x0, y0, e0, bx as int, by as int,
                            dx as int, dy as int, sx as int, sy as int);
                    }
                    break;
                }
                err = err + dy;
                x = x + sx;
            }
            if err2 <= dx {
                if y == by {
                    proof {
                        lemma_walk_terminal(fl, x0, y0, e0, bx as int, by as int,
                            dx as int, dy as int, sx as int, sy as int);
                    }
                    break;
                }
                err = err + dx;
                y = y + sy;
            }
            proof {
                let rest = bres_walk((fl - 1) as nat, x as int, y as int, err as int,
                    bx as int, by as int, dx as int, dy as int, sx as int, sy as int);
                assert(bres_walk(fl, x0, y0, e0, bx as int, by as int, dx as int,
                    dy as int, sx as int, sy as int) == seq![(x0, y0)] + rest);
                lemma_paint_walk_cons((x0, y0), rest, prev_buf, prev_dep, w, h);
                fl = (fl - 1) as nat;
            }
        }
        proof {
            assert forall|px: int, py: int|
                #![trigger pix_index(old(self).width as int, px, py)]
                0 <= px < old(self).width && 0 <= py < old(self).height
                implies ({
                    let i = pix_index(old(self).width as int, px, py);
                    if line_walk(a, b).contains((px, py)) && 0 < px && 0 < py {
                        self.buffer@[i] == BLUE && self.depth_buffer@[i] == WIRE_DEPTH
                    } else {
                        self.buffer@[i] == buf0[i] && self.depth_buffer@[i] == dep0[i]
                    }
                }) by {
                assert(0 <= py * w + px && py * w + px < w * h) by (nonlinear_arith)
                    requires 0 <= px < w, 0 <= py < h, 0 < w,
                ;
                lemma_paint_walk_at(line_walk(a, b), buf0, dep0, w, h, px, py);
            }
        }
    }

    /// Writes one pixel's colour and depth.  The raster position is
    /// given in fixed-point coordinates; writes that fall outside the
    /// screen are dropped.
    pub fn draw_pixel(&mut self, pixel: Vec3, col: u32)
        requires
            old(self).wf(),
        ensures
            final(self).wf(),
            final(self).width == old(self).width,
            final(self).height == old(self).height,
            final(self).centre == old(self).centre,
            ({
                let px = fxfloor(pixel.x as int);
                let py = fxfloor(pixel.y as int);
                if 0 <= px < old(self).width && 0 <= py < old(self).height {
                    final(self).buffer@ == old(self).buffer@.update(
                        py * old(self).width + px, col)
                    && final(self).depth_buffer@ == old(self).depth_buffer@.update(
                        py * old(self).width + px, pixel.z)
                } else {
                    final(self).buffer@ == old(self).buffer@
                    && final(self).depth_buffer@ == old(self).depth_buffer@
                }
            }),
    {
        let ix = crate::fixed::fx_floor(pixel.x);
        let iy = crate::fixed::fx_floor(pixel.y);
        if 0 <= ix && ix < self.width as i64 && 0 <= iy && iy < self.height as i64 {
            proof {
                let w = old(self).width as int;
                let h = old(self).height as int;
                assert(w * (iy as int) + ix < w * h && w * (iy as int) >= 0
                    && w * (iy as int) + ix < 4194304
                    && w * (iy as int) + ix == (iy as int) * w + ix) by (nonlinear_arith)
                    requires
                        0 <= iy as int,
                        (iy as int) <= h - 1,
                        0 <= ix as int,
                        (ix as int) < w,
                        0 < w <= 2048,
                        0 < h <= 2048,
                ;
            }
            let i = (self.width * (iy as usize)) + (ix as usize);
            self.buffer.set(i, col);
            self.depth_buffer.set(i, pixel.z);
        }
    }
}

} // verus!
