//! The camera: a position with a pitch/yaw orientation, a derived
//! forward/right/up basis, and the view transform built from them.
//! The camera looks down the negative depth axis.

use vstd::prelude::*;
use crate::fixed::{FP, fxmul, fxdiv, mag, sqrt_floor, lemma_fxmul_mag, lemma_mul_mag};
use crate::mat4::{Mat4, MAT_RANGE, mul_entry, translation, lemma_mul_entry_mag,
    lemma_tf_row_mag, lemma_translation_to_transform, is_translation_to, tf_row,
    rotation_mat_spec};
use crate::object::texture::Texture;
use crate::object::Object;
use crate::renderer::{Renderer, vert_in_range, RASTER_LIMIT, Z_LIMIT, TEX_LIMIT,
    tri_of, culled, bary_denom, apply_tri, pix_index, lemma_pix_decompose};
use crate::vec2::Vec2;
use crate::world::World;
use crate::trig::{sin_spec, cos_spec, HALF_PI_FX, TWO_PI_FX};
use crate::vec3::{Vec3, cross_x, cross_y, cross_z, LEN_RANGE};

verus! {

/// Magnitude bound on the camera position under which the view matrix
/// stays within the matrix arithmetic's range.
pub const POS_RANGE: i64 = 34359738368;

/// Magnitude bound kept by every entry of a `look_at` matrix.
pub const VIEW_RANGE: i64 = 137441050625;

/// Draws a world's objects through a view of the scene.
#[derive(Clone, Copy, Debug)]
pub struct Camera {
    pub pos: Vec3,
    pub forward: Vec3,
    pub right: Vec3,
    pub up: Vec3,
    /// Pitch, yaw and (unused) roll, in fixed-point radians; the yaw
    /// is kept reduced to one turn.
    pub rot: Vec3,
}

/// The world's fixed up direction, the reference for basis
/// derivation.
pub open spec fn up_axis() -> Vec3 {
    Vec3 { x: 0, y: FP, z: 0 }
}

/// The unnormalised forward direction read off the pitch and yaw.
pub open spec fn fwd_raw_x(rot: Vec3) -> int {
    fxmul(cos_spec(rot.y as int), cos_spec(rot.x as int))
}

/// Second component of the unnormalised forward direction.
pub open spec fn fwd_raw_y(rot: Vec3) -> int {
    sin_spec(rot.x as int)
}

/// Third component of the unnormalised forward direction.
pub open spec fn fwd_raw_z(rot: Vec3) -> int {
    fxmul(sin_spec(rot.y as int), cos_spec(rot.x as int))
}

/// The direction `(x, y, z)` scaled to fixed-point length one, or
/// `prev` when the direction vanishes and has no length to divide by.
pub open spec fn norm_or(x: int, y: int, z: int, prev: Vec3) -> Vec3 {
    if x == 0 && y == 0 && z == 0 {
        prev
    } else {
        let l = sqrt_floor(x * x + y * y + z * z);
        Vec3 { x: fxdiv(x, l) as i64, y: fxdiv(y, l) as i64, z: fxdiv(z, l) as i64 }
    }
}

/// The camera's forward direction for an orientation, falling back to
/// `prev` on the degenerate all-zero reading.
pub open spec fn spec_forward(rot: Vec3, prev: Vec3) -> Vec3 {
    norm_or(fwd_raw_x(rot), fwd_raw_y(rot), fwd_raw_z(rot), prev)
}

/// The camera's right direction: the world up crossed with forward,
/// normalised.
pub open spec fn spec_right(fwd: Vec3, prev: Vec3) -> Vec3 {
    norm_or(cross_x(up_axis(), fwd), cross_y(up_axis(), fwd), cross_z(up_axis(), fwd),
        prev)
}

/// The camera's up direction: forward crossed with right, normalised.
pub open spec fn spec_up(fwd: Vec3, right: Vec3, prev: Vec3) -> Vec3 {
    norm_or(cross_x(fwd, right), cross_y(fwd, right), cross_z(fwd, right), prev)
}

/// The rotation part of the view transform: the camera basis as rows.
pub open spec fn basis_mat(c: Camera) -> Mat4 {
    Mat4 {
        m: [
            [c.right.x, c.right.y, c.right.z, 0],
            [c.up.x, c.up.y, c.up.z, 0],
            [c.forward.x, c.forward.y, c.forward.z, 0],
            [0, 0, 0, FP],
        ],
    }
}

/// The spin applied to every vertex before placement: a rotation about
/// the vertical axis by a twentieth of the clock.
pub open spec fn anim_rot_mat(time: i64) -> Mat4 {
    rotation_mat_spec((Vec3 { x: 0, y: FP, z: 0 }), fxmul(3277, time as int))
}

/// The bounce applied to every vertex: down one unit, up by five times
/// the magnitude of the sine of a tenth of the clock.
pub open spec fn bounce_off(time: i64) -> int {
    let s = sin_spec(fxmul(6554, time as int));
    let sa = if s < 0 {
        -s
    } else {
        s
    };
    -(FP as int) + fxmul(sa, 327680)
}

/// The view matrix of a camera, entry by entry: the basis rows
/// composed onto the translation by the position.
pub open spec fn view_mat(c: Camera) -> Mat4 {
    Mat4 {
        m: [
            [
                mul_entry(basis_mat(c), translation(c.pos), 0, 0) as i64,
                mul_entry(basis_mat(c), translation(c.pos), 0, 1) as i64,
                mul_entry(basis_mat(c), translation(c.pos), 0, 2) as i64,
                mul_entry(basis_mat(c), translation(c.pos), 0, 3) as i64,
            ],
            [
                mul_entry(basis_mat(c), translation(c.pos), 1, 0) as i64,
                mul_entry(basis_mat(c), translation(c.pos), 1, 1) as i64,
                mul_entry(basis_mat(c), translation(c.pos), 1, 2) as i64,
                mul_entry(basis_mat(c), translation(c.pos), 1, 3) as i64,
            ],
            [
                mul_entry(basis_mat(c), translation(c.pos), 2, 0) as i64,
                mul_entry(basis_mat(c), translation(c.pos), 2, 1) as i64,
                mul_entry(basis_mat(c), translation(c.pos), 2, 2) as i64,
                mul_entry(basis_mat(c), translation(c.pos), 2, 3) as i64,
            ],
            [
                mul_entry(basis_mat(c), translation(c.pos), 3, 0) as i64,
                mul_entry(basis_mat(c), translation(c.pos), 3, 1) as i64,
                mul_entry(basis_mat(c), translation(c.pos), 3, 2) as i64,
                mul_entry(basis_mat(c), translation(c.pos), 3, 3) as i64,
            ],
        ],
    }
}

/// One point taken through the whole transform chain: the time-driven
/// spin and bounce, the model transform, the view transform, the
/// behind-camera cull and the perspective divide by the camera-space
/// depth.  Nothing is returned for a point at or in front of the
/// camera plane or outside the fixed ranges of the rasterizer.
pub open spec fn project_vertex(p: Vec3, model: Mat4, c: Camera, time: i64, w: int,
    h: int) -> Option<Vec3> {
    let rm = anim_rot_mat(time);
    let p1 = Vec3 {
        x: tf_row(rm, p, 0) as i64,
        y: tf_row(rm, p, 1) as i64,
        z: tf_row(rm, p, 2) as i64,
    };
    let bm = translation((Vec3 { x: 0, y: bounce_off(time) as i64, z: 0 }));
    let p2 = Vec3 {
        x: tf_row(bm, p1, 0) as i64,
        y: tf_row(bm, p1, 1) as i64,
        z: tf_row(bm, p1, 2) as i64,
    };
    let p3 = Vec3 {
        x: tf_row(model, p2, 0) as i64,
        y: tf_row(model, p2, 1) as i64,
        z: tf_row(model, p2, 2) as i64,
    };
    let p4 = Vec3 {
        x: tf_row(view_mat(c), p3, 0) as i64,
        y: tf_row(view_mat(c), p3, 1) as i64,
        z: tf_row(view_mat(c), p3, 2) as i64,
    };
    if p4.z >= 0 || p4.z < -Z_LIMIT {
        None
    } else {
        let nz = -(p4.z as int);
        let qx = (-(p4.x * (FP as int))) / nz;
        let qy = (-(p4.y * (FP as int))) / nz;
        let rx = qx * w + w * 32768;
        let ry = qy * w + h * 32768;
        if mag(rx) > RASTER_LIMIT as int || mag(ry) > RASTER_LIMIT as int {
            None
        } else {
            Some(Vec3 { x: qx as i64, y: qy as i64, z: p4.z })
        }
    }
}

/// The face's six indices are valid for the owning object's lists.
pub open spec fn face_valid(obj: Object, k: int) -> bool {
    let f = obj.faces@[k];
    f.vertices.0 < obj.vertices@.len() && f.vertices.1 < obj.vertices@.len()
    && f.vertices.2 < obj.vertices@.len() && f.tex_coords.0 < obj.tex_coords@.len()
    && f.tex_coords.1 < obj.tex_coords@.len() && f.tex_coords.2 < obj.tex_coords@.len()
}

/// The face's vertices and texture coordinates lie within the fixed
/// ranges of the pipeline's arithmetic.
pub open spec fn face_data_ok(obj: Object, k: int) -> bool {
    let f = obj.faces@[k];
    obj.vertices@[f.vertices.0 as int].in_range(4194304)
    && obj.vertices@[f.vertices.1 as int].in_range(4194304)
    && obj.vertices@[f.vertices.2 as int].in_range(4194304)
    && obj.tex_coords@[f.tex_coords.0 as int].in_range(TEX_LIMIT as int)
    && obj.tex_coords@[f.tex_coords.1 as int].in_range(TEX_LIMIT as int)
    && obj.tex_coords@[f.tex_coords.2 as int].in_range(TEX_LIMIT as int)
}

/// The buffers after face `k` of an object is rendered: unchanged
/// when the face's data is out of range or a vertex is culled away,
/// and otherwise one rasterized triangle.
pub open spec fn face_effect(obj: Object, k: int, c: Camera, time: i64, w: int, h: int,
    buf: Seq<u32>, dep: Seq<i64>) -> (Seq<u32>, Seq<i64>) {
    if !(face_valid(obj, k) && face_data_ok(obj, k)) {
        (buf, dep)
    } else {
        let f = obj.faces@[k];
        let qa = project_vertex(obj.vertices@[f.vertices.0 as int], obj.transformation,
            c, time, w, h);
        let qb = project_vertex(obj.vertices@[f.vertices.1 as int], obj.transformation,
            c, time, w, h);
        let qc = project_vertex(obj.vertices@[f.vertices.2 as int], obj.transformation,
            c, time, w, h);
        if qa is Some && qb is Some && qc is Some {
            let vs = seq![qa.unwrap(), qb.unwrap(), qc.unwrap()];
            let ts = seq![obj.tex_coords@[f.tex_coords.0 as int],
                obj.tex_coords@[f.tex_coords.1 as int],
                obj.tex_coords@[f.tex_coords.2 as int]];
            let t = tri_of(vs, ts, w, h);
            if culled(vs) || bary_denom(t.a, t.b, t.c) <= 0 {
                (buf, dep)
            } else {
                apply_tri(t, obj.texture, w, h, buf, dep)
            }
        } else {
            (buf, dep)
        }
    }
}

/// The buffers after the first `k` faces of an object are rendered in
/// order.
pub open spec fn faces_effect(obj: Object, c: Camera, time: i64, w: int, h: int,
    k: int, buf: Seq<u32>, dep: Seq<i64>) -> (Seq<u32>, Seq<i64>)
    decreases k,
{
    if k <= 0 {
        (buf, dep)
    } else {
        let r = faces_effect(obj, c, time, w, h, k - 1, buf, dep);
        face_effect(obj, k - 1, c, time, w, h, r.0, r.1)
    }
}

/// The buffers after one object is rendered: every face in order, or
/// nothing when the object's transform or texture is outside the
/// fixed ranges.
pub open spec fn object_effect(obj: Object, c: Camera, time: i64, w: int, h: int,
    buf: Seq<u32>, dep: Seq<i64>) -> (Seq<u32>, Seq<i64>) {
    if obj.transformation.bounded(8388608) && obj.texture.sampleable() {
        faces_effect(obj, c, time, w, h, obj.faces@.len() as int, buf, dep)
    } else {
        (buf, dep)
    }
}

/// The buffers after the first `n` objects of a world are rendered in
/// insertion order.
pub open spec fn world_effect(objs: Seq<Object>, c: Camera, time: i64, w: int, h: int,
    n: int, buf: Seq<u32>, dep: Seq<i64>) -> (Seq<u32>, Seq<i64>)
    decreases n,
{
    if n <= 0 {
        (buf, dep)
    } else {
        let r = world_effect(objs, c, time, w, h, n - 1, buf, dep);
        object_effect(objs[n - 1], c, time, w, h, r.0, r.1)
    }
}

/// Scales a direction to fixed-point length one, keeping `prev` when
/// it has no direction.
fn norm_or_exec(x: i64, y: i64, z: i64, prev: Vec3) -> (r: Vec3)
    requires
        mag(x as int) <= LEN_RANGE as int,
        mag(y as int) <= LEN_RANGE as int,
        mag(z as int) <= LEN_RANGE as int,
        prev.in_range(FP as int + 1),
    ensures
        r == norm_or(x as int, y as int, z as int, prev),
        r.in_range(FP as int + 1),
        y == 0 && prev.y == 0 ==> r.y == 0,
{
    if x == 0 && y == 0 && z == 0 {
        prev
    } else {
        let r = Vec3::new(x, y, z).normalise();
        proof {
            if y == 0 {
                let v = Vec3 { x, y, z };
                assert((y as int) * (FP as int) == 0) by (nonlinear_arith)
                    requires y == 0,
                ;
                vstd::arithmetic::div_mod::lemma_div_basics(v.fx_len());
            }
        }
        r
    }
}

impl Camera {
    /// A consistent camera: position and basis within the fixed
    /// ranges, pitch clamped to a quarter turn either way, yaw reduced
    /// to one turn, and no roll.
    pub open spec fn wf(self) -> bool {
        self.pos.in_range(POS_RANGE as int)
        && self.forward.in_range(FP as int + 1)
        && self.right.in_range(FP as int + 1)
        && self.up.in_range(FP as int + 1)
        && self.right.y == 0
        && mag(self.rot.x as int) <= HALF_PI_FX as int
        && 0 <= self.rot.y < TWO_PI_FX
        && self.rot.z == 0
    }

    /// A camera at `pos` looking down the negative depth axis.
    pub fn new(pos: Vec3) -> (r: Camera)
        requires
            pos.in_range(POS_RANGE as int),
        ensures
            r.wf(),
            r.pos == pos,
            r.rot.x == 0 && r.rot.y == TWO_PI_FX - HALF_PI_FX && r.rot.z == 0,
            r.forward == spec_forward(r.rot, (Vec3 { x: 0, y: 0, z: 0 })),
            r.right == spec_right(r.forward, (Vec3 { x: FP, y: 0, z: 0 })),
            r.up == spec_up(r.forward, r.right, (Vec3 { x: 0, y: FP, z: 0 })),
    {
        let mut cam = Camera {
            pos,
            forward: Vec3::origin(),
            right: Vec3::x_axis(),
            up: Vec3::y_axis(),
            rot: Vec3::new(0, TWO_PI_FX - HALF_PI_FX, 0),
        };
        cam.recalc_vectors();
        cam
    }

    /// Recomputes the forward, right and up directions from the
    /// current pitch and yaw.
    fn recalc_vectors(&mut self)
        requires
            mag(old(self).rot.x as int) <= HALF_PI_FX as int,
            0 <= old(self).rot.y < TWO_PI_FX,
            old(self).forward.in_range(FP as int + 1),
            old(self).right.in_range(FP as int + 1),
            old(self).right.y == 0,
            old(self).up.in_range(FP as int + 1),
        ensures
            final(self).right.y == 0,
            final(self).pos == old(self).pos,
            final(self).rot == old(self).rot,
            final(self).forward == spec_forward(old(self).rot, old(self).forward),
            final(self).right == spec_right(final(self).forward, old(self).right),
            final(self).up == spec_up(final(self).forward, final(self).right,
                old(self).up),
            final(self).forward.in_range(FP as int + 1),
            final(self).right.in_range(FP as int + 1),
            final(self).up.in_range(FP as int + 1),
    {
        let cy = crate::trig::cos_fx(self.rot.y);
        let cx = crate::trig::cos_fx(self.rot.x);
        let sy = crate::trig::sin_fx(self.rot.y);
        let sx = crate::trig::sin_fx(self.rot.x);
        proof {
            assert((196608int * 196608) / (FP as int) + 1 == 589825) by (nonlinear_arith);
            lemma_fxmul_mag(cy as int, cx as int, 196608, 196608);
            lemma_fxmul_mag(sy as int, cx as int, 196608, 196608);
        }
        let fx = crate::fixed::fx_mul(cy, cx);
        let fz = crate::fixed::fx_mul(sy, cx);
        self.forward = norm_or_exec(fx, sx, fz, self.forward);
        let rr = Vec3::y_axis().cross_product(self.forward);
        proof {
            assert(((FP as int + 1) * (FP as int + 1)) / (FP as int) + 1 == 65539)
                by (nonlinear_arith);
            lemma_cross_bound(Vec3 { x: 0, y: FP, z: 0 }, self.forward);
            crate::mat4::lemma_zero_mul(self.forward.x as int, 0);
            crate::mat4::lemma_zero_mul(self.forward.z as int, 0);
            assert(0int / (FP as int) == 0) by (nonlinear_arith);
            assert(rr.y == 0);
        }
        self.right = norm_or_exec(rr.x, rr.y, rr.z, self.right);
        let uu = self.forward.cross_product(self.right);
        proof {
            lemma_cross_bound(self.forward, self.right);
        }
        self.up = norm_or_exec(uu.x, uu.y, uu.z, self.up);
    }

    /// Rotates by `offset.x` of pitch and `offset.y` of yaw (roll is
    /// not supported and the third component is ignored).  Pitch is
    /// clamped to a quarter turn either way; yaw wraps around the
    /// turn.
    pub fn rotate(&mut self, offset: Vec3)
        requires
            old(self).wf(),
            mag(offset.x as int) <= 1152921504606846976,
            mag(offset.y as int) <= 1152921504606846976,
        ensures
            final(self).wf(),
            final(self).pos == old(self).pos,
            final(self).rot.x == ({
                let p = old(self).rot.x + offset.x;
                if p > HALF_PI_FX { HALF_PI_FX as int } else if p < -HALF_PI_FX {
                    -(HALF_PI_FX as int)
                } else {
                    p
                }
            }),
            final(self).rot.y == (old(self).rot.y + offset.y) % (TWO_PI_FX as int),
            final(self).rot.z == 0,
            final(self).forward == spec_forward(final(self).rot, old(self).forward),
            final(self).right == spec_right(final(self).forward, old(self).right),
            final(self).up == spec_up(final(self).forward, final(self).right,
                old(self).up),
    {
        let mut pitch = self.rot.x + offset.x;
        if pitch > HALF_PI_FX {
            pitch = HALF_PI_FX;
        }
        if pitch < -HALF_PI_FX {
            pitch = -HALF_PI_FX;
        }
        let yaw = crate::fixed::emod64(self.rot.y + offset.y, TWO_PI_FX);
        self.rot = Vec3::new(pitch, yaw, 0);
        self.recalc_vectors();
    }

    /// Moves the camera within the horizontal plane: by `x` along the
    /// horizontal projection of its forward direction (so looking up
    /// or down never lifts it) and by `z` along its right direction.
    /// The position saturates at the fixed range.
    pub fn translate(&mut self, x: i64, z: i64)
        requires
            old(self).wf(),
            mag(x as int) <= 274877906944,
            mag(z as int) <= 274877906944,
        ensures
            final(self).wf(),
            final(self).rot == old(self).rot,
            final(self).forward == old(self).forward,
            final(self).right == old(self).right,
            final(self).up == old(self).up,
            final(self).pos.y == old(self).pos.y,
            ({
                let d = horiz_dir(old(self).forward);
                final(self).pos.x == clamp_pos(old(self).pos.x
                    + fxmul(d.x as int, x as int)
                    + fxmul(old(self).right.x as int, z as int))
                && final(self).pos.y == clamp_pos(old(self).pos.y
                    + fxmul(d.y as int, x as int)
                    + fxmul(old(self).right.y as int, z as int))
                && final(self).pos.z == clamp_pos(old(self).pos.z
                    + fxmul(d.z as int, x as int)
                    + fxmul(old(self).right.z as int, z as int))
            }),
    {
        let dir = if self.forward.x == 0 && self.forward.z == 0 {
            Vec3::origin()
        } else {
            Vec3::new(self.forward.x, 0, self.forward.z).normalise()
        };
        proof {
            assert(dir == horiz_dir(self.forward));
            assert(((FP as int + 1) * 274877906944int) / (FP as int) + 1
                == 274882101249) by (nonlinear_arith);
            lemma_fxmul_mag(dir.x as int, x as int, FP as int + 1, 274877906944);
            lemma_fxmul_mag(dir.y as int, x as int, FP as int + 1, 274877906944);
            lemma_fxmul_mag(dir.z as int, x as int, FP as int + 1, 274877906944);
            lemma_fxmul_mag(self.right.x as int, z as int, FP as int + 1, 274877906944);
            lemma_fxmul_mag(self.right.y as int, z as int, FP as int + 1, 274877906944);
            lemma_fxmul_mag(self.right.z as int, z as int, FP as int + 1, 274877906944);
        }
        proof {
            crate::mat4::lemma_zero_mul(x as int, dir.y as int);
            crate::mat4::lemma_zero_mul(z as int, self.right.y as int);
            assert(0int / (FP as int) == 0) by (nonlinear_arith);
        }
        let mx = crate::fixed::fx_mul(dir.x, x) + crate::fixed::fx_mul(self.right.x, z);
        let my = crate::fixed::fx_mul(dir.y, x) + crate::fixed::fx_mul(self.right.y, z);
        let mz = crate::fixed::fx_mul(dir.z, x) + crate::fixed::fx_mul(self.right.z, z);
        self.pos = Vec3::new(
            clamp_pos_exec(self.pos.x + mx),
            clamp_pos_exec(self.pos.y + my),
            clamp_pos_exec(self.pos.z + mz),
        );
    }

    /// Generates the matrix that maps world coordinates into camera
    /// coordinates: the basis rows composed onto the translation by
    /// the camera position.
    pub fn look_at(self) -> (r: Mat4)
        requires
            self.wf(),
        ensures
            forall|i: int, j: int|
                0 <= i < 4 && 0 <= j < 4
                    ==> #[trigger] r.e(i, j) == mul_entry(basis_mat(self),
                        translation(self.pos), i, j),
            r.bounded(VIEW_RANGE as int),
    {
        let rotation = Mat4 {
            m: [
                [self.right.x, self.right.y, self.right.z, 0],
                [self.up.x, self.up.y, self.up.z, 0],
                [self.forward.x, self.forward.y, self.forward.z, 0],
                [0, 0, 0, FP],
            ],
        };
        let t = Mat4::identity().translate(self.pos);
        proof {
            assert(rotation.bounded(MAT_RANGE as int));
            assert forall|i: int, j: int| 0 <= i < 4 && 0 <= j < 4
                implies #[trigger] t.e(i, j) == translation(self.pos).e(i, j) by {
                if i < 3 {
                    if j == 3 {
                        assert(t.e(i, 3) == 0 + crate::mat4::sel(self.pos, i));
                    }
                }
            }
        }
        let r = rotation.mult(t);
        proof {
            assert forall|i: int, j: int| 0 <= i < 4 && 0 <= j < 4
                implies mag(#[trigger] r.e(i, j)) <= VIEW_RANGE as int by {
                lemma_mul_entry_mag(basis_mat(self), translation(self.pos),
                    FP as int + 1, POS_RANGE as int, i, j);
                assert(4 * ((FP as int + 1) * (POS_RANGE as int)) / (FP as int) + 1
                    <= VIEW_RANGE as int) by (nonlinear_arith)
                    requires FP == 65536, POS_RANGE == 34359738368,
                        VIEW_RANGE == 137441050625,
                ;
            }
        }
        r
    }

    /// Renders every object of the world: each face's vertices go
    /// through the time-driven spin and bounce, the object's model
    /// transform, the view transform and the perspective divide, and
    /// the projected triangle is handed to the rasterizer.  A face is
    /// dropped whole when a vertex reaches the camera plane, and also
    /// when its data falls outside the fixed ranges of the arithmetic.
    #[verifier::loop_isolation(false)]
    #[verifier::rlimit(80)]
    pub fn render_world(self, renderer: &mut Renderer, world: &World, time: i64)
        requires
            self.wf(),
            old(renderer).wf(),
            mag(time as int) <= 1099511627776,
        ensures
            final(renderer).wf(),
            final(renderer).width == old(renderer).width,
            final(renderer).height == old(renderer).height,
            final(renderer).centre == old(renderer).centre,
            ({
                let r = world_effect(world.objects@, self, time,
                    old(renderer).width as int, old(renderer).height as int,
                    world.objects@.len() as int, old(renderer).buffer@,
                    old(renderer).depth_buffer@);
                final(renderer).buffer@ == r.0 && final(renderer).depth_buffer@ == r.1
            }),
    {
        let view = self.look_at();
        proof {
            assert((3277int * 1099511627776) / (FP as int) + 1 == 54978936833)
                by (nonlinear_arith);
            assert((6554int * 1099511627776) / (FP as int) + 1 == 109957873665)
                by (nonlinear_arith);
            lemma_fxmul_mag(3277, time as int, 3277, 1099511627776);
            lemma_fxmul_mag(6554, time as int, 6554, 1099511627776);
        }
        let angle = crate::fixed::fx_mul(3277, time);
        let ident = Mat4::identity();
        let rot_mat = ident.rotate(Vec3::new(0, FP, 0), angle);
        proof {
            crate::mat4::lemma_mul_identity_right(anim_rot_mat(time), ident, rot_mat);
        }
        let s = crate::trig::sin_fx(crate::fixed::fx_mul(6554, time));
        let sa = if s < 0 { -s } else { s };
        proof {
            assert((196608int * 327680) / (FP as int) + 1 == 983041) by (nonlinear_arith);
            lemma_fxmul_mag(sa as int, 327680, 196608, 327680);
        }
        let y_off = -FP + crate::fixed::fx_mul(sa, 327680);
        let bounce = Mat4::identity().translate(Vec3::new(0, y_off, 0));
        proof {
            assert(is_translation_to(bounce, (Vec3 { x: 0, y: y_off, z: 0 })));
            assert(y_off == bounce_off(time));
            assert forall|i: int, j: int| 0 <= i < 4 && 0 <= j < 4
                implies #[trigger] view.e(i, j) == view_mat(self).e(i, j) by {
                if i == 0 {
                } else if i == 1 {
                } else if i == 2 {
                } else {
                }
            }
        }
        let w = renderer.width;
        let h = renderer.height;
        let ghost buf0 = renderer.buffer@;
        let ghost dep0 = renderer.depth_buffer@;
        let mut oi: usize = 0;
        while oi < world.objects.len()
            invariant
                oi <= world.objects@.len(),
                renderer.wf(),
                renderer.width == w,
                renderer.height == h,
                renderer.centre == old(renderer).centre,
                ({
                    let r = world_effect(world.objects@, self, time, w as int, h as int,
                        oi as int, buf0, dep0);
                    renderer.buffer@ == r.0 && renderer.depth_buffer@ == r.1
                }),
            decreases world.objects@.len() - oi,
        {
            let obj = &world.objects[oi];
            let ghost pre_buf = renderer.buffer@;
            let ghost pre_dep = renderer.depth_buffer@;
            if mat_in_range(&obj.transformation, 8388608) && texture_ok(&obj.texture) {
                let mut fi: usize = 0;
                while fi < obj.faces.len()
                    invariant
                        fi <= obj.faces@.len(),
                        renderer.wf(),
                        renderer.width == w,
                        renderer.height == h,
                        renderer.centre == old(renderer).centre,
                        oi < world.objects@.len(),
                        ({
                            let r = faces_effect(*obj, self, time, w as int, h as int,
                                fi as int, pre_buf, pre_dep);
                            renderer.buffer@ == r.0 && renderer.depth_buffer@ == r.1
                        }),
                    decreases obj.faces@.len() - fi,
                {
                    render_face(renderer, obj, fi, &rot_mat, &bounce, y_off, &view, w,
                        h, Ghost(self), Ghost(time));
                    fi += 1;
                }
            }
            oi += 1;
        }
    }
}

/// Renders one face of one object: the three vertices projected, the
/// fixed-range guards applied, and the surviving triangle rasterized.
fn render_face(renderer: &mut Renderer, obj: &Object, fi: usize, rot_mat: &Mat4,
    bounce: &Mat4, y_off: i64, view: &Mat4, w: usize, h: usize, cam: Ghost<Camera>,
    time: Ghost<i64>)
    requires
        old(renderer).wf(),
        old(renderer).width == w,
        old(renderer).height == h,
        fi < obj.faces@.len(),
        obj.transformation.bounded(8388608),
        obj.texture.sampleable(),
        rot_mat.bounded(524288),
        forall|i: int, j: int|
            0 <= i < 4 && 0 <= j < 4
                ==> #[trigger] rot_mat.e(i, j) == anim_rot_mat(time@).e(i, j),
        is_translation_to(*bounce, (Vec3 { x: 0, y: y_off, z: 0 })),
        y_off == bounce_off(time@),
        mag(y_off as int) <= 1048577,
        view.bounded(VIEW_RANGE as int),
        forall|i: int, j: int|
            0 <= i < 4 && 0 <= j < 4
                ==> #[trigger] view.e(i, j) == view_mat(cam@).e(i, j),
    ensures
        final(renderer).wf(),
        final(renderer).width == old(renderer).width,
        final(renderer).height == old(renderer).height,
        final(renderer).centre == old(renderer).centre,
        ({
            let r = face_effect(*obj, fi as int, cam@, time@, w as int, h as int,
                old(renderer).buffer@, old(renderer).depth_buffer@);
            final(renderer).buffer@ == r.0 && final(renderer).depth_buffer@ == r.1
        }),
{
    let ghost buf0 = renderer.buffer@;
    let ghost dep0 = renderer.depth_buffer@;
    let face = &obj.faces[fi];
    let ia = face.vertices.0;
    let ib = face.vertices.1;
    let ic = face.vertices.2;
    let ta = face.tex_coords.0;
    let tb = face.tex_coords.1;
    let tc = face.tex_coords.2;
    if !(ia < obj.vertices.len() && ib < obj.vertices.len() && ic < obj.vertices.len()
        && ta < obj.tex_coords.len() && tb < obj.tex_coords.len()
        && tc < obj.tex_coords.len()) {
        return;
    }
    let pa = obj.vertices[ia];
    let pb = obj.vertices[ib];
    let pc = obj.vertices[ic];
    let ua = obj.tex_coords[ta];
    let ub = obj.tex_coords[tb];
    let uc = obj.tex_coords[tc];
    if !(vert_ok(pa) && vert_ok(pb) && vert_ok(pc) && tex_ok(ua) && tex_ok(ub)
        && tex_ok(uc)) {
        return;
    }
    let qa = project_point(pa, rot_mat, bounce, y_off, &obj.transformation, view, w, h,
        cam, time);
    let qb = project_point(pb, rot_mat, bounce, y_off, &obj.transformation, view, w, h,
        cam, time);
    let qc = project_point(pc, rot_mat, bounce, y_off, &obj.transformation, view, w, h,
        cam, time);
    match (qa, qb, qc) {
        (Some(va), Some(vb), Some(vc)) => {
            let mut verts: Vec<Vec3> = Vec::new();
            verts.push(va);
            verts.push(vb);
            verts.push(vc);
            let mut uvs: Vec<Vec2> = Vec::new();
            uvs.push(ua);
            uvs.push(ub);
            uvs.push(uc);
            let ghost vs = seq![va, vb, vc];
            let ghost ts = seq![ua, ub, uc];
            let ghost t = tri_of(vs, ts, w as int, h as int);
            proof {
                assert(verts@ =~= vs);
                assert(uvs@ =~= ts);
            }
            renderer.draw_triangle(verts, &obj.texture, uvs);
            proof {
                if !(culled(vs) || bary_denom(t.a, t.b, t.c) <= 0) {
                    let shaded = apply_tri(t, obj.texture, w as int, h as int, buf0,
                        dep0);
                    assert forall|i: int| 0 <= i < buf0.len()
                        implies renderer.buffer@[i] == shaded.0[i]
                            && renderer.depth_buffer@[i] == shaded.1[i] by {
                        lemma_pix_decompose(w as int, h as int, i);
                        let px = i % (w as int);
                        let py = i / (w as int);
                        assert(pix_index(w as int, px, py) == i);
                    }
                    assert(renderer.buffer@ =~= shaded.0);
                    assert(renderer.depth_buffer@ =~= shaded.1);
                }
            }
        },
        _ => {},
    }
}


/// Projects one model-space vertex: the time-driven spin and bounce,
/// the model and view transforms, the behind-camera test, and the
/// perspective divide.  Returns nothing when the vertex is at or in
/// front of the camera plane or leaves the fixed raster range.
fn project_point(p: Vec3, rot_mat: &Mat4, bounce: &Mat4, y_off: i64, model: &Mat4,
    view: &Mat4, w: usize, h: usize, cam: Ghost<Camera>, time: Ghost<i64>)
    -> (r: Option<Vec3>)
    requires
        p.in_range(4194304),
        rot_mat.bounded(524288),
        forall|i: int, j: int|
            0 <= i < 4 && 0 <= j < 4
                ==> #[trigger] rot_mat.e(i, j) == anim_rot_mat(time@).e(i, j),
        is_translation_to(*bounce, (Vec3 { x: 0, y: y_off, z: 0 })),
        y_off == bounce_off(time@),
        mag(y_off as int) <= 1048577,
        model.bounded(8388608),
        view.bounded(VIEW_RANGE as int),
        forall|i: int, j: int|
            0 <= i < 4 && 0 <= j < 4
                ==> #[trigger] view.e(i, j) == view_mat(cam@).e(i, j),
        1 <= w <= 2048,
        1 <= h <= 2048,
    ensures
        r == project_vertex(p, *model, cam@, time@, w as int, h as int),
        r matches Some(v) ==> vert_in_range(v, w as int, h as int) && v.z < 0,
{
    let p1 = rot_mat.transform(p);
    proof {
        assert(4 * (524288int * 4194304) / (FP as int) + 1 == 134217729)
            by (nonlinear_arith);
        lemma_tf_row_mag(*rot_mat, p, 524288, 4194304, 0);
        lemma_tf_row_mag(*rot_mat, p, 524288, 4194304, 1);
        lemma_tf_row_mag(*rot_mat, p, 524288, 4194304, 2);
        assert(p1.x == tf_row(anim_rot_mat(time@), p, 0) as i64);
        assert(p1.y == tf_row(anim_rot_mat(time@), p, 1) as i64);
        assert(p1.z == tf_row(anim_rot_mat(time@), p, 2) as i64);
        assert(bounce.bounded(1048577));
    }
    let p2 = bounce.transform(p1);
    proof {
        lemma_translation_to_transform(*bounce, (Vec3 { x: 0, y: y_off, z: 0 }), p1);
        assert(p2.x == tf_row(translation((Vec3 { x: 0, y: y_off, z: 0 })), p1, 0)
            as i64);
        assert(p2.y == tf_row(translation((Vec3 { x: 0, y: y_off, z: 0 })), p1, 1)
            as i64);
        assert(p2.z == tf_row(translation((Vec3 { x: 0, y: y_off, z: 0 })), p1, 2)
            as i64);
        assert(4 * (8388608int * 135266306) / (FP as int) + 1 == 69256348673)
            by (nonlinear_arith);
    }
    let p3 = model.transform(p2);
    proof {
        lemma_tf_row_mag(*model, p2, 8388608, 135266306, 0);
        lemma_tf_row_mag(*model, p2, 8388608, 135266306, 1);
        lemma_tf_row_mag(*model, p2, 8388608, 135266306, 2);
        assert(4 * (137441050625int * 69256348673) / (FP as int) + 1
            == 580973225345974401) by (nonlinear_arith);
    }
    let p4 = view.transform(p3);
    proof {
        lemma_tf_row_mag(*view, p3, VIEW_RANGE as int, 69256348673, 0);
        lemma_tf_row_mag(*view, p3, VIEW_RANGE as int, 69256348673, 1);
        lemma_tf_row_mag(*view, p3, VIEW_RANGE as int, 69256348673, 2);
        assert(p4.x == tf_row(view_mat(cam@), p3, 0) as i64);
        assert(p4.y == tf_row(view_mat(cam@), p3, 1) as i64);
        assert(p4.z == tf_row(view_mat(cam@), p3, 2) as i64);
    }
    if p4.z >= 0 {
        return None;
    }
    if p4.z < -Z_LIMIT {
        return None;
    }
    let nz: i128 = -(p4.z as i128);
    proof {
        lemma_mul_mag(p4.x as int, FP as int, 580973225345974401, 65536);
        lemma_mul_mag(p4.y as int, FP as int, 580973225345974401, 65536);
        assert(38074661296273778343936int * (nz as int) >= 38074661296273778343936)
            by (nonlinear_arith)
            requires nz as int >= 1,
        ;
        crate::fixed::lemma_div_mag(-((p4.x as int) * (FP as int)), nz as int,
            38074661296273778343936);
        crate::fixed::lemma_div_mag(-((p4.y as int) * (FP as int)), nz as int,
            38074661296273778343936);
    }
    let qx = crate::fixed::fdiv128(-((p4.x as i128) * (FP as i128)), nz);
    let qy = crate::fixed::fdiv128(-((p4.y as i128) * (FP as i128)), nz);
    proof {
        lemma_mul_mag(qx as int, w as int, 38074661296273778343936, 2048);
        lemma_mul_mag(qy as int, w as int, 38074661296273778343936, 2048);
    }
    let rx: i128 = qx * (w as i128) + (w as i128) * 32768;
    let ry: i128 = qy * (w as i128) + (h as i128) * 32768;
    if rx > RASTER_LIMIT as i128 || rx < -(RASTER_LIMIT as i128) {
        return None;
    }
    if ry > RASTER_LIMIT as i128 || ry < -(RASTER_LIMIT as i128) {
        return None;
    }
    proof {
        assert(mag(qx as int) <= 603979776 && mag(qy as int) <= 603979776)
            by (nonlinear_arith)
            requires
                mag((qx as int) * (w as int) + (w as int) * 32768) <= 536870912,
                mag((qy as int) * (w as int) + (h as int) * 32768) <= 536870912,
                1 <= w as int <= 2048,
                1 <= h as int <= 2048,
        ;
    }
    let v = Vec3 { x: qx as i64, y: qy as i64, z: p4.z };
    Some(v)
}

/// Tests whether every matrix entry stays within the given magnitude.
fn mat_in_range(m: &Mat4, bound: i64) -> (r: bool)
    requires
        bound >= 0,
    ensures
        r == m.bounded(bound as int),
{
    let b = bound;
    let ok = m.m[0][0] <= b && m.m[0][0] >= -b && m.m[0][1] <= b && m.m[0][1] >= -b
        && m.m[0][2] <= b && m.m[0][2] >= -b && m.m[0][3] <= b && m.m[0][3] >= -b
        && m.m[1][0] <= b && m.m[1][0] >= -b && m.m[1][1] <= b && m.m[1][1] >= -b
        && m.m[1][2] <= b && m.m[1][2] >= -b && m.m[1][3] <= b && m.m[1][3] >= -b
        && m.m[2][0] <= b && m.m[2][0] >= -b && m.m[2][1] <= b && m.m[2][1] >= -b
        && m.m[2][2] <= b && m.m[2][2] >= -b && m.m[2][3] <= b && m.m[2][3] >= -b
        && m.m[3][0] <= b && m.m[3][0] >= -b && m.m[3][1] <= b && m.m[3][1] >= -b
        && m.m[3][2] <= b && m.m[3][2] >= -b && m.m[3][3] <= b && m.m[3][3] >= -b;
    proof {
        if ok {
            assert forall|i: int, j: int| 0 <= i < 4 && 0 <= j < 4
                implies mag(#[trigger] m.e(i, j)) <= bound as int by {
            }
        } else {
            if !(m.m[0][0] <= b && m.m[0][0] >= -b) {
                assert(mag(m.e(0, 0)) > bound as int);
            } else if !(m.m[0][1] <= b && m.m[0][1] >= -b) {
                assert(mag(m.e(0, 1)) > bound as int);
            } else if !(m.m[0][2] <= b && m.m[0][2] >= -b) {
                assert(mag(m.e(0, 2)) > bound as int);
            } else if !(m.m[0][3] <= b && m.m[0][3] >= -b) {
                assert(mag(m.e(0, 3)) > bound as int);
            } else if !(m.m[1][0] <= b && m.m[1][0] >= -b) {
                assert(mag(m.e(1, 0)) > bound as int);
            } else if !(m.m[1][1] <= b && m.m[1][1] >= -b) {
                assert(mag(m.e(1, 1)) > bound as int);
            } else if !(m.m[1][2] <= b && m.m[1][2] >= -b) {
                assert(mag(m.e(1, 2)) > bound as int);
            } else if !(m.m[1][3] <= b && m.m[1][3] >= -b) {
                assert(mag(m.e(1, 3)) > bound as int);
            } else if !(m.m[2][0] <= b && m.m[2][0] >= -b) {
                assert(mag(m.e(2, 0)) > bound as int);
            } else if !(m.m[2][1] <= b && m.m[2][1] >= -b) {
                assert(mag(m.e(2, 1)) > bound as int);
            } else if !(m.m[2][2] <= b && m.m[2][2] >= -b) {
                assert(mag(m.e(2, 2)) > bound as int);
            } else if !(m.m[2][3] <= b && m.m[2][3] >= -b) {
                assert(mag(m.e(2, 3)) > bound as int);
            } else if !(m.m[3][0] <= b && m.m[3][0] >= -b) {
                assert(mag(m.e(3, 0)) > bound as int);
            } else if !(m.m[3][1] <= b && m.m[3][1] >= -b) {
                assert(mag(m.e(3, 1)) > bound as int);
            } else if !(m.m[3][2] <= b && m.m[3][2] >= -b) {
                assert(mag(m.e(3, 2)) > bound as int);
            } else {
                assert(mag(m.e(3, 3)) > bound as int);
            }
        }
    }
    ok
}

/// Tests whether a texture is within the sampler's fixed ranges.
fn texture_ok(t: &Texture) -> (r: bool)
    ensures
        r == t.sampleable(),
{
    t.pixels.len() > 0 && (t.pixels.len() as u64) < 4611686018427387904u64
        && t.width <= 65536 && t.height <= 65536
}

/// Tests whether a model-space vertex is within the pipeline's fixed
/// range.
fn vert_ok(v: Vec3) -> (r: bool)
    ensures
        r == v.in_range(4194304),
{
    v.x <= 4194304 && v.x >= -4194304 && v.y <= 4194304 && v.y >= -4194304
        && v.z <= 4194304 && v.z >= -4194304
}

/// Tests whether a texture coordinate is within the rasterizer's fixed
/// range.
fn tex_ok(t: Vec2) -> (r: bool)
    ensures
        r == t.in_range(TEX_LIMIT as int),
{
    t.x <= TEX_LIMIT && t.x >= -TEX_LIMIT && t.y <= TEX_LIMIT && t.y >= -TEX_LIMIT
}

/// The horizontal projection of a forward direction, renormalised;
/// the zero vector when the direction is vertical.
pub open spec fn horiz_dir(fwd: Vec3) -> Vec3 {
    if fwd.x == 0 && fwd.z == 0 {
        Vec3 { x: 0, y: 0, z: 0 }
    } else {
        let l = sqrt_floor(fwd.x * fwd.x + fwd.z * fwd.z);
        Vec3 { x: fxdiv(fwd.x as int, l) as i64, y: 0, z: fxdiv(fwd.z as int, l) as i64 }
    }
}

/// A position component saturated to the camera's fixed range.
pub open spec fn clamp_pos(v: int) -> int {
    if v > POS_RANGE as int {
        POS_RANGE as int
    } else if v < -(POS_RANGE as int) {
        -(POS_RANGE as int)
    } else {
        v
    }
}

/// Saturates a position component to the camera's fixed range.
fn clamp_pos_exec(v: i64) -> (r: i64)
    ensures
        r == clamp_pos(v as int),
{
    if v > POS_RANGE {
        POS_RANGE
    } else if v < -POS_RANGE {
        -POS_RANGE
    } else {
        v
    }
}

/// The components of a fixed-point cross product of unit-range vectors
/// stay within twice the product bound.
proof fn lemma_cross_bound(a: Vec3, b: Vec3)
    requires
        a.in_range(FP as int + 1),
        b.in_range(FP as int + 1),
    ensures
        mag(cross_x(a, b)) <= 131078,
        mag(cross_y(a, b)) <= 131078,
        mag(cross_z(a, b)) <= 131078,
{
    assert(((FP as int + 1) * (FP as int + 1)) / (FP as int) + 1 == 65539)
        by (nonlinear_arith);
    lemma_fxmul_mag(a.y as int, b.z as int, FP as int + 1, FP as int + 1);
    lemma_fxmul_mag(a.z as int, b.y as int, FP as int + 1, FP as int + 1);
    lemma_fxmul_mag(a.z as int, b.x as int, FP as int + 1, FP as int + 1);
    lemma_fxmul_mag(a.x as int, b.z as int, FP as int + 1, FP as int + 1);
    lemma_fxmul_mag(a.x as int, b.y as int, FP as int + 1, FP as int + 1);
    lemma_fxmul_mag(a.y as int, b.x as int, FP as int + 1, FP as int + 1);
}

} // verus!
