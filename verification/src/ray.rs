//! Rays: an origin and an unnormalized direction, parameterized by a
//! fixed-point scalar `t`.

use vstd::prelude::*;
use crate::fixed::iabs;
use crate::vector3::{
    COORD_LIM, Point3, V3, Vector3, lemma_dot_bound, v3_add, v3_bounded, v3_scale, v3_sq_len,
};

verus! {

/// The mathematical value of a ray.
pub ghost struct RayV {
    pub origin: V3,
    pub direction: V3,
}

/// A ray of origin and direction; the direction need not be normalized.
#[derive(Clone, Copy, Debug, PartialEq, Eq, Structural)]
pub struct Ray {
    pub origin: Point3,
    pub direction: Vector3,
}

impl View for Ray {
    type V = RayV;

    open spec fn view(&self) -> RayV {
        RayV { origin: self.origin@, direction: self.direction@ }
    }
}

/// The point the ray reaches at parameter `t`: `origin + direction * t`.
pub open spec fn ray_at_spec(r: RayV, t: int) -> V3 {
    v3_add(r.origin, v3_scale(r.direction, t))
}

/// A ray the tracer can work over: origin and direction within the supported
/// coordinate volume, and a direction long enough to normalize and to divide
/// by its squared length.
pub open spec fn ray_wf(r: RayV) -> bool {
    v3_bounded(r.origin, COORD_LIM as int) && v3_bounded(r.direction, COORD_LIM as int)
        && v3_sq_len(r.direction) >= 1
}

impl Ray {
    /// Whether the tracer can work over this ray (see `ray_wf`).
    pub fn is_wf(&self) -> (r: bool)
        ensures
            r == ray_wf(self@),
    {
        if !self.origin.bounded_by(COORD_LIM) {
            return false;
        }
        if !self.direction.bounded_by(COORD_LIM) {
            return false;
        }
        proof {
            lemma_dot_bound(self.direction@, self.direction@, COORD_LIM as int, COORD_LIM as int);
        }
        let sq = self.direction.sq_len();
        sq >= 1
    }

    /// A ray from its origin and direction.
    pub fn new(origin: Point3, direction: Vector3) -> (r: Self)
        ensures
            r@ == (RayV { origin: origin@, direction: direction@ }),
    {
        Self { origin, direction }
    }

    /// The point at parameter `t` along the ray.
    pub fn at(&self, t: i128) -> (p: Point3)
        requires
            iabs(self.origin.x as int) + iabs(self.direction.x * t) <= i128::MAX as int,
            iabs(self.origin.y as int) + iabs(self.direction.y * t) <= i128::MAX as int,
            iabs(self.origin.z as int) + iabs(self.direction.z * t) <= i128::MAX as int,
        ensures
            p@ == ray_at_spec(self@, t as int),
    {
        let d = self.direction.scale(t);
        self.origin.add(d)
    }
}

} // verus!
