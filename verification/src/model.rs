//! A triangulated surface: positions, normals, texture coordinates and
//! faces, and how a face's corners come to the screen.

use vstd::prelude::*;
use crate::fixed::ONE;
use crate::math::{unit, Vec2f, Vec3f, Vec3i};
use crate::raster::Vertex;
use crate::render::Shading;

verus! {

/// A surface of triangles. A face holds, for each of its three corners in
/// turn, the indices of the corner's position, texture coordinate and
/// normal, counted from zero.
pub struct Model {
    pub vertices: Vec<Vec3f>,
    pub normals: Vec<Vec3f>,
    pub texture_coords: Vec<Vec2f>,
    pub faces: Vec<[i32; 9]>,
}

/// The depth range that the unit cube is mapped to.
pub const DEPTH: i32 = 255;

/// The direction toward which lit surfaces face: along the negative z axis.
pub open spec fn light() -> Vec3f {
    Vec3f { x: 0, y: 0, z: -65536i32 }
}

/// A coordinate of the cube from minus one to one mapped to `0..size`,
/// rounded down: `(c + 1) * size / 2`.
pub open spec fn project(c: int, size: int) -> int {
    ((c + ONE) * size) / (2 * ONE)
}

/// The place on a screen of the given size, and the depth, of a point in space.
pub open spec fn screen_point(w: Vec3f, width: int, height: int) -> Vec3i {
    Vec3i {
        x: project(w.x as int, width) as i32,
        y: project(w.y as int, height) as i32,
        z: project(w.z as int, DEPTH as int) as i32,
    }
}

/// The unit normal of the triangle with the given corners.
pub open spec fn face_normal(w0: Vec3f, w1: Vec3f, w2: Vec3f) -> Vec3f {
    let a = w2.minus(w0);
    let b = w1.minus(w0);
    unit(a.cross_x(b), a.cross_y(b), a.cross_z(b))
}

impl Model {
    /// Whether the position and texture indices of corner `k` of `face` are
    /// within the model's arrays.
    pub open spec fn corner_ok(&self, face: [i32; 9], k: int) -> bool {
        &&& 0 <= face[3 * k] < self.vertices@.len()
        &&& 0 <= face[3 * k + 1] < self.texture_coords@.len()
    }

    /// Whether the normal index of corner `k` of `face` is within the
    /// model's normals, and that normal within the coordinate range.
    pub open spec fn normal_ok(&self, face: [i32; 9], k: int) -> bool {
        &&& 0 <= face[3 * k + 2] < self.normals@.len()
        &&& self.normals@[face[3 * k + 2] as int].in_range()
    }

    /// Every position is within the coordinate range, and every face refers
    /// to positions and texture coordinates that exist.
    pub open spec fn wf(&self) -> bool {
        &&& forall|i: int| 0 <= i < self.vertices@.len() ==> (#[trigger] self.vertices@[i]).in_range()
        &&& forall|f: int, k: int|
            0 <= f < self.faces@.len() && 0 <= k < 3 ==> #[trigger] self.corner_ok(self.faces@[f], k)
    }

    /// Every face refers to normals that exist and are within the
    /// coordinate range.
    pub open spec fn has_normals(&self) -> bool {
        forall|f: int, k: int|
            0 <= f < self.faces@.len() && 0 <= k < 3 ==> #[trigger] self.normal_ok(self.faces@[f], k)
    }

    /// The light intensity at corner `k` of `face`: under flat shading the
    /// light direction times the face's unit normal, the same for all
    /// three corners; otherwise the light direction times the corner's own
    /// normal.
    pub open spec fn intensity(&self, shading: Shading, face: [i32; 9], k: int) -> int {
        match shading {
            Shading::Flat => light().dot(
                face_normal(
                    self.vertices@[face[0] as int],
                    self.vertices@[face[3] as int],
                    self.vertices@[face[6] as int],
                ),
            ),
            Shading::Gouraud => light().dot(self.normals@[face[3 * k + 2] as int]),
        }
    }

    /// Corner `k` of `face` on a screen of the given size.
    pub open spec fn corner(&self, shading: Shading, width: int, height: int, face: [i32; 9], k: int)
        -> Vertex {
        Vertex {
            p: screen_point(self.vertices@[face[3 * k] as int], width, height),
            t: self.texture_coords@[face[3 * k + 1] as int],
            i: self.intensity(shading, face, k) as i32,
        }
    }

    /// Whether corner `k` of `face` refers to a position and a texture
    /// coordinate that exist.
    fn check_corner(&self, face: &[i32; 9], k: usize) -> (ok: bool)
        requires
            k < 3,
        ensures
            ok == self.corner_ok(*face, k as int),
    {
        let p: i32 = face[3 * k];
        let t: i32 = face[3 * k + 1];
        0 <= p && (p as usize) < self.vertices.len() && 0 <= t && (t as usize)
            < self.texture_coords.len()
    }

    /// Whether corner `k` of `face` refers to a normal that exists and is
    /// within the coordinate range.
    fn check_normal(&self, face: &[i32; 9], k: usize) -> (ok: bool)
        requires
            k < 3,
        ensures
            ok == self.normal_ok(*face, k as int),
    {
        let n: i32 = face[3 * k + 2];
        if 0 <= n && (n as usize) < self.normals.len() {
            within(&self.normals[n as usize])
        } else {
            false
        }
    }

    /// Whether the model is well formed, so that it can be drawn.
    pub fn is_valid(&self) -> (ok: bool)
        ensures
            ok == self.wf(),
    {
        let mut i: usize = 0;
        while i < self.vertices.len()
            invariant
                i <= self.vertices@.len(),
                forall|j: int| 0 <= j < i ==> (#[trigger] self.vertices@[j]).in_range(),
            decreases self.vertices@.len() - i,
        {
            if !within(&self.vertices[i]) {
                return false;
            }
            i += 1;
        }
        let mut f: usize = 0;
        while f < self.faces.len()
            invariant
                f <= self.faces@.len(),
                forall|j: int| 0 <= j < self.vertices@.len() ==> (#[trigger] self.vertices@[j]).in_range(),
                forall|g: int, k: int|
                    0 <= g < f && 0 <= k < 3 ==> #[trigger] self.corner_ok(self.faces@[g], k),
            decreases self.faces@.len() - f,
        {
            let face: &[i32; 9] = &self.faces[f];
            if !(self.check_corner(face, 0) && self.check_corner(face, 1) && self.check_corner(
                face,
                2,
            )) {
                assert(!self.corner_ok(self.faces@[f as int], 0) || !self.corner_ok(
                    self.faces@[f as int],
                    1,
                ) || !self.corner_ok(self.faces@[f as int], 2));
                return false;
            }
            f += 1;
        }
        true
    }

    /// Whether every face has normals, so that the model can be drawn with
    /// a normal at each corner.
    pub fn has_all_normals(&self) -> (ok: bool)
        ensures
            ok == self.has_normals(),
    {
        let mut f: usize = 0;
        while f < self.faces.len()
            invariant
                f <= self.faces@.len(),
                forall|g: int, k: int|
                    0 <= g < f && 0 <= k < 3 ==> #[trigger] self.normal_ok(self.faces@[g], k),
            decreases self.faces@.len() - f,
        {
            let face: &[i32; 9] = &self.faces[f];
            if !(self.check_normal(face, 0) && self.check_normal(face, 1) && self.check_normal(
                face,
                2,
            )) {
                assert(!self.normal_ok(self.faces@[f as int], 0) || !self.normal_ok(
                    self.faces@[f as int],
                    1,
                ) || !self.normal_ok(self.faces@[f as int], 2));
                return false;
            }
            f += 1;
        }
        true
    }
}

/// Whether every component of `v` is within the coordinate range.
fn within(v: &Vec3f) -> (ok: bool)
    ensures
        ok == v.in_range(),
{
    -crate::math::COORD_MAX <= v.x && v.x <= crate::math::COORD_MAX && -crate::math::COORD_MAX
        <= v.y && v.y <= crate::math::COORD_MAX && -crate::math::COORD_MAX <= v.z && v.z
        <= crate::math::COORD_MAX
}

} // verus!
