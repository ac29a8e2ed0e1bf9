//! The scene: an ordered list of placed objects and the animation
//! clock.  Iteration order is insertion order and is draw order;
//! occlusion is resolved by the renderer's depth buffer, never by
//! sorting.

use vstd::prelude::*;
use crate::mat4::{Mat4, MAT_RANGE, is_translation_to};
use crate::object::Object;
use crate::vec3::Vec3;

verus! {

pub struct World {
    pub objects: Vec<Object>,
    /// The animation clock in fixed-point seconds, advanced by the
    /// driving loop.
    pub time: i64,
}

impl World {
    /// An empty world at time zero.
    pub fn new() -> (r: World)
        ensures
            r.objects@.len() == 0,
            r.time == 0,
    {
        World { objects: Vec::new(), time: 0 }
    }

    /// Adds an object to the world at a given location: the object's
    /// transform becomes the pure translation to `pos` (any prior
    /// transform is overwritten; the last placement wins) and the
    /// object is appended after all others.
    pub fn add_object(&mut self, obj: Object, pos: Vec3)
        requires
            pos.in_range(MAT_RANGE as int),
        ensures
            final(self).time == old(self).time,
            final(self).objects@.len() == old(self).objects@.len() + 1,
            forall|i: int|
                0 <= i < old(self).objects@.len()
                    ==> final(self).objects@[i] == old(self).objects@[#[trigger] (i + 0)],
            ({
                let placed = final(self).objects@[old(self).objects@.len() as int];
                is_translation_to(placed.transformation, pos)
                && placed.vertices == obj.vertices
                && placed.tex_coords == obj.tex_coords
                && placed.normals == obj.normals
                && placed.faces == obj.faces
                && placed.texture == obj.texture
            }),
    {
        let mut obj = obj;
        obj.transformation = Mat4::identity().translate(pos);
        self.objects.push(obj);
    }
}

} // verus!
