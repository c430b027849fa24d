//! Rays against the scene: the tests on distances that decide a hit, the
//! bookkeeping of a light path, and the searches through the hierarchy,
//! which ask their caller for each intersection and decide from the answers
//! where to look next.

use vstd::prelude::*;
use crate::scalar::{Scalar, ONE_BITS, ZERO_BITS};
use crate::scene::Triangle;
use crate::vector::Vec3f;

pub mod debug;
pub mod traversal;

pub use crate::ray::debug::{DebugTraversal, DebugWalk, Visit, LARGE_LEAF};
pub use crate::ray::traversal::{Probe, Traversal, TraversalError, Walk};

verus! {

/// Bit pattern of the distance that stands for "nothing hit": 1e30.
pub const FAR_BITS: u32 = 0x7149_f2ca;

/// Bit pattern of the least distance at which a hit counts: 0.0001. Nearer
/// hits are the surface that the ray has just left.
pub const HIT_EPSILON_BITS: u32 = 0x38d1_b717;

/// Bit pattern of the least magnitude of a determinant that is not taken for
/// zero: 2^-23, the gap between one and the next value.
pub const DETERMINANT_EPSILON_BITS: u32 = 0x3400_0000;

/// The most nodes that a search keeps waiting at one time.
pub const STACK_DEPTH: usize = 64;

/// A half-line: where it starts and where it goes.
#[derive(Clone, Copy, Debug)]
pub struct Ray {
    pub origin: Vec3f,
    pub direction: Vec3f,
}

/// What a ray met at a triangle.
#[derive(Clone, Copy, Debug)]
pub struct HitInfo {
    pub has_hit: bool,
    pub point: Vec3f,
    pub normal: Vec3f,
    pub distance: Scalar,
    pub uv: [Scalar; 2],
    pub material_id: usize,
    pub front_face: bool,
}

/// The record of a ray that has met nothing: no hit, at the far distance.
pub open spec fn no_hit() -> HitInfo {
    let zero = Scalar { bits: ZERO_BITS };
    HitInfo {
        has_hit: false,
        point: Vec3f { data: [zero, zero, zero] },
        normal: Vec3f { data: [zero, zero, zero] },
        distance: Scalar { bits: FAR_BITS },
        uv: [zero, zero],
        material_id: 0,
        front_face: false,
    }
}

impl HitInfo {
    /// Whether this record replaces `best` as the nearest hit: it is a hit,
    /// and strictly nearer.
    pub open spec fn beats(self, best: HitInfo) -> bool {
        self.has_hit && self.distance.lt(best.distance)
    }

    /// Whether this record can be the best of a search: it is the record of
    /// no hit, or a hit nearer than the far distance.
    pub open spec fn settled(self) -> bool {
        if self.has_hit {
            self.distance.lt(Scalar { bits: FAR_BITS })
        } else {
            self == no_hit()
        }
    }
}

impl Default for HitInfo {
    /// The record of a ray that has met nothing.
    fn default() -> (r: HitInfo)
        ensures
            r == no_hit(),
    {
        let zero: Scalar = Scalar { bits: ZERO_BITS };
        HitInfo {
            has_hit: false,
            point: Vec3f { data: [zero, zero, zero] },
            normal: Vec3f { data: [zero, zero, zero] },
            distance: Scalar { bits: FAR_BITS },
            uv: [zero, zero],
            material_id: 0,
            front_face: false,
        }
    }
}

/// Whether the solution of the ray-triangle system is a hit: the
/// determinant `det` is not a NaN and its magnitude reaches the determinant
/// epsilon, the distance `t` is above the hit epsilon, and the barycentric
/// coordinates satisfy `0 <= u <= 1`, `0 <= v` and `u + v <= 1`, the sum
/// being handed in as `uv_sum`.
pub open spec fn hit_accepted(det: Scalar, t: Scalar, u: Scalar, v: Scalar, uv_sum: Scalar) -> bool {
    let zero = Scalar { bits: ZERO_BITS };
    let one = Scalar { bits: ONE_BITS };
    &&& !det.is_nan()
    &&& det.magnitude() >= DETERMINANT_EPSILON_BITS
    &&& (Scalar { bits: HIT_EPSILON_BITS }).lt(t)
    &&& zero.le(u)
    &&& u.le(one)
    &&& zero.le(v)
    &&& uv_sum.le(one)
}

/// The solution of the ray-triangle system as the caller worked it out.
#[derive(Clone, Copy, Debug)]
pub struct Solution {
    /// The determinant of the system.
    pub det: Scalar,
    /// The distance along the ray.
    pub t: Scalar,
    /// The first barycentric coordinate.
    pub u: Scalar,
    /// The second barycentric coordinate.
    pub v: Scalar,
    /// The sum of the two barycentric coordinates.
    pub uv_sum: Scalar,
    /// The point at distance `t` on the ray.
    pub point: Vec3f,
    /// The normals of the corners, weighted by the barycentric coordinates.
    pub normal: Vec3f,
    /// The texture coordinates of the corners, weighted likewise.
    pub uv: [Scalar; 2],
}

impl Solution {
    /// Whether the solution is a hit; see [`hit_accepted`].
    pub fn accepted(&self) -> (r: bool)
        ensures
            r == hit_accepted(self.det, self.t, self.u, self.v, self.uv_sum),
    {
        let zero: Scalar = Scalar { bits: ZERO_BITS };
        let one: Scalar = Scalar { bits: ONE_BITS };
        !self.det.nan() && self.det.abs().to_bits() >= DETERMINANT_EPSILON_BITS && (Scalar {
            bits: HIT_EPSILON_BITS,
        }).less_than(self.t) && zero.at_most(self.u) && self.u.at_most(one) && zero.at_most(self.v)
            && self.uv_sum.at_most(one)
    }
}

/// The record of what a ray met at `tri`, from the solution of the
/// ray-triangle system.
pub open spec fn hit_record(tri: Triangle, solution: Solution) -> HitInfo {
    let front_face = (Scalar { bits: ZERO_BITS }).lt(solution.det);
    HitInfo {
        has_hit: hit_accepted(solution.det, solution.t, solution.u, solution.v, solution.uv_sum),
        point: solution.point,
        normal: if front_face {
            solution.normal
        } else {
            solution.normal.flipped()
        },
        distance: solution.t,
        uv: solution.uv,
        material_id: tri.material_id,
        front_face,
    }
}

/// The distance at which a ray enters a box, from the distances at which it
/// crosses the two bounding planes of each axis; the far distance if it
/// misses the box. The ray enters at the largest of the per-axis smaller
/// crossings and leaves at the smallest of the larger ones; it hits if it
/// enters strictly before it leaves and leaves ahead of its origin.
pub open spec fn slab_entry(t_min: Vec3f, t_max: Vec3f) -> Scalar {
    let near = t_min.data[0].min_of(t_max.data[0]).max_of(t_min.data[1].min_of(t_max.data[1])).max_of(
        t_min.data[2].min_of(t_max.data[2]),
    );
    let far = t_min.data[0].max_of(t_max.data[0]).min_of(t_min.data[1].max_of(t_max.data[1])).min_of(
        t_min.data[2].max_of(t_max.data[2]),
    );
    if near.lt(far) && (Scalar { bits: ZERO_BITS }).lt(far) {
        near
    } else {
        Scalar { bits: FAR_BITS }
    }
}

impl Ray {
    /// The ray from `origin` along `direction`.
    pub fn new(origin: Vec3f, direction: Vec3f) -> (r: Ray)
        ensures
            r.origin == origin,
            r.direction == direction,
    {
        Ray { origin, direction }
    }

    /// What the ray met at `tri`, from the solution of the ray-triangle
    /// system: a hit where the solution is accepted ([`hit_accepted`]), on
    /// the front face where the determinant is above zero, with the normal
    /// turned round where the ray meets the back face.
    pub fn intersect_tri(tri: &Triangle, solution: &Solution) -> (r: HitInfo)
        ensures
            r == hit_record(*tri, *solution),
    {
        let front_face: bool = Ray::front_face(solution.det);
        HitInfo {
            has_hit: solution.accepted(),
            point: solution.point,
            normal: if front_face {
                solution.normal
            } else {
                solution.normal.reversed()
            },
            distance: solution.t,
            uv: solution.uv,
            material_id: tri.material_id,
            front_face,
        }
    }

    /// Whether a triangle with determinant `det` faces the ray: the
    /// determinant is above zero.
    pub fn front_face(det: Scalar) -> (r: bool)
        ensures
            r == (Scalar { bits: ZERO_BITS }).lt(det),
    {
        (Scalar { bits: ZERO_BITS }).less_than(det)
    }

    /// The distance at which the ray enters a box, or the far distance if it
    /// misses; see [`slab_entry`]. `t_min` and `t_max` hold, per axis, the
    /// distances at which the ray crosses the lower and the upper bounding
    /// plane.
    pub fn intersect_node(t_min: Vec3f, t_max: Vec3f) -> (r: Scalar)
        ensures
            r == slab_entry(t_min, t_max),
    {
        let t_1: Vec3f = Vec3f::min(t_min, t_max);
        let t_2: Vec3f = Vec3f::max(t_min, t_max);
        let near: Scalar = t_1.data[0].max(t_1.data[1]).max(t_1.data[2]);
        let far: Scalar = t_2.data[0].min(t_2.data[1]).min(t_2.data[2]);
        if near.less_than(far) && (Scalar { bits: ZERO_BITS }).less_than(far) {
            near
        } else {
            Scalar { bits: FAR_BITS }
        }
    }

    /// Takes the outcome of the search for the nearest hit of the current
    /// ray of `path`, and says what the path does with it. A path bounces
    /// at most `max_bounces` times and ends as soon as a ray hits nothing.
    pub fn trace(path: &mut Path, hit: &HitInfo) -> (r: Trace)
        ensures
            r == old(path).verdict(hit.has_hit),
            *final(path) == old(path).traced(hit.has_hit),
            final(path).bounces <= final(path).max_bounces || final(path).bounces == old(path).bounces,
    {
        if path.escaped || path.bounces >= path.max_bounces {
            Trace::Spent
        } else if hit.has_hit {
            path.bounces = path.bounces + 1;
            Trace::Bounce
        } else {
            path.escaped = true;
            Trace::Escape
        }
    }
}

/// A light path between two bounces: how often it has bounced, how often it
/// may, and whether it has left the scene.
#[derive(Clone, Copy, Debug, PartialEq, Eq, Structural)]
pub struct Path {
    pub bounces: usize,
    pub max_bounces: usize,
    pub escaped: bool,
}

/// What a path does with the outcome of a search.
#[derive(Clone, Copy, Debug, PartialEq, Eq, Structural)]
pub enum Trace {
    /// It hit a surface: the surface colours the path and adds its
    /// emission, the bounce is counted, and the path goes on in a new
    /// direction.
    Bounce,
    /// It hit nothing: the sky lights the path, no bounce is counted, and
    /// the path ends.
    Escape,
    /// It had ended before: nothing is added.
    Spent,
}

impl Path {
    /// Whether the path still takes a ray: it has not left the scene and
    /// has bounces left.
    pub open spec fn open(self) -> bool {
        !self.escaped && self.bounces < self.max_bounces
    }

    /// The path after the outcome of a search, where `has_hit` says
    /// whether the ray hit.
    pub open spec fn traced(self, has_hit: bool) -> Path {
        if !self.open() {
            self
        } else if has_hit {
            Path { bounces: (self.bounces + 1) as usize, ..self }
        } else {
            Path { escaped: true, ..self }
        }
    }

    /// What the path does with the outcome of a search.
    pub open spec fn verdict(self, has_hit: bool) -> Trace {
        if !self.open() {
            Trace::Spent
        } else if has_hit {
            Trace::Bounce
        } else {
            Trace::Escape
        }
    }

    /// A path that has not bounced yet.
    pub fn new(max_bounces: usize) -> (r: Path)
        ensures
            r == (Path { bounces: 0, max_bounces, escaped: false }),
    {
        Path { bounces: 0, max_bounces, escaped: false }
    }

    /// Whether the path still takes a ray.
    pub fn is_open(&self) -> (r: bool)
        ensures
            r == self.open(),
    {
        !self.escaped && self.bounces < self.max_bounces
    }

    /// What the light gathered along the path is divided by: the number of
    /// bounces, or nothing where the path has not bounced, for then the
    /// light is the estimate as it stands.
    pub fn divisor(&self) -> (r: Option<usize>)
        ensures
            r == if self.bounces == 0 {
                None
            } else {
                Some(self.bounces)
            },
    {
        if self.bounces == 0 {
            None
        } else {
            Some(self.bounces)
        }
    }
}

} // verus!
