//! A rigid body: an object together with the centroid of its mesh.

use vstd::prelude::*;
use crate::fixed::{mag, fdiv128, lemma_div_mag};
use crate::object::Object;
use crate::vec3::Vec3;

verus! {

/// Magnitude bound on vertex coordinates accepted by the centroid
/// arithmetic.
pub const BODY_RANGE: i64 = 1099511627776;

/// Sum of the first components of a vertex list.
pub open spec fn sum_x(vs: Seq<Vec3>) -> int
    decreases vs.len(),
{
    if vs.len() == 0 {
        0
    } else {
        sum_x(vs.drop_last()) + vs.last().x
    }
}

/// Sum of the second components of a vertex list.
pub open spec fn sum_y(vs: Seq<Vec3>) -> int
    decreases vs.len(),
{
    if vs.len() == 0 {
        0
    } else {
        sum_y(vs.drop_last()) + vs.last().y
    }
}

/// Sum of the third components of a vertex list.
pub open spec fn sum_z(vs: Seq<Vec3>) -> int
    decreases vs.len(),
{
    if vs.len() == 0 {
        0
    } else {
        sum_z(vs.drop_last()) + vs.last().z
    }
}

pub struct Rigidbody {
    pub object: Object,
    pub centre: Vec3,
}

impl Rigidbody {
    /// A body whose centre is the componentwise mean of the object's
    /// vertices, floor-rounded; an object without vertices is centred
    /// at the origin.
    #[verifier::loop_isolation(false)]
    pub fn new(object: Object) -> (r: Rigidbody)
        requires
            forall|k: int|
                0 <= k < object.vertices@.len()
                    ==> (#[trigger] object.vertices@[k]).in_range(BODY_RANGE as int),
        ensures
            r.object == object,
            object.vertices@.len() == 0 ==> r.centre == (Vec3 { x: 0, y: 0, z: 0 }),
            object.vertices@.len() > 0 ==> {
                let vs = object.vertices@;
                r.centre.x == sum_x(vs) / vs.len() as int
                && r.centre.y == sum_y(vs) / vs.len() as int
                && r.centre.z == sum_z(vs) / vs.len() as int
            },
    {
        let n = object.vertices.len();
        if n == 0 {
            return Rigidbody { object, centre: Vec3::origin() };
        }
        let mut sx: i128 = 0;
        let mut sy: i128 = 0;
        let mut sz: i128 = 0;
        let mut i: usize = 0;
        while i < n
            invariant
                i <= n,
                sx == sum_x(object.vertices@.take(i as int)),
                sy == sum_y(object.vertices@.take(i as int)),
                sz == sum_z(object.vertices@.take(i as int)),
                mag(sx as int) <= (i as int) * (BODY_RANGE as int),
                mag(sy as int) <= (i as int) * (BODY_RANGE as int),
                mag(sz as int) <= (i as int) * (BODY_RANGE as int),
            decreases n - i,
        {
            let v = object.vertices[i];
            proof {
                let t = object.vertices@.take(i + 1);
                assert(t.drop_last() =~= object.vertices@.take(i as int));
                assert(t.last() == object.vertices@[i as int]);
            }
            sx = sx + (v.x as i128);
            sy = sy + (v.y as i128);
            sz = sz + (v.z as i128);
            i += 1;
        }
        proof {
            assert(object.vertices@.take(n as int) =~= object.vertices@);
            lemma_div_mag(sx as int, n as int, BODY_RANGE as int);
            lemma_div_mag(sy as int, n as int, BODY_RANGE as int);
            lemma_div_mag(sz as int, n as int, BODY_RANGE as int);
        }
        let cx = fdiv128(sx, n as i128) as i64;
        let cy = fdiv128(sy, n as i128) as i64;
        let cz = fdiv128(sz, n as i128) as i64;
        Rigidbody { object, centre: Vec3::new(cx, cy, cz) }
    }
}

} // verus!
