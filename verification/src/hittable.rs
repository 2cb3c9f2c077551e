//! The intersection contract: anything a ray can hit answers a
//! nearest-intersection query over an open parametric range.

use vstd::prelude::*;
use crate::material::MaterialKind;
use crate::ray::{Ray, RayV};
use crate::vector3::{Point3, V3, Vector3, dot_fits, v3_dot, v3_neg};

verus! {

/// Parametric distances below this count as self-intersection and are
/// skipped (one ten-thousandth of a world unit of shadow-acne margin).
pub const T_EPS: i128 = 100;

/// The upper end of the parametric range that stands for "no far limit":
/// ten million world units, the edge of the supported world volume.
pub const T_INF: i128 = 10_000_000_000_000;

/// A usable parametric range.
pub open spec fn t_range_wf(t_min: int, t_max: int) -> bool {
    0 <= t_min && t_min <= t_max && t_max <= T_INF as int
}

/// The mathematical value of a hit record.
pub ghost struct HitV {
    pub point: V3,
    pub normal: V3,
    pub t: int,
    pub front: bool,
    pub material: MaterialKind,
}

/// The result of a successful intersection: location, oriented normal,
/// parametric distance, which side was struck, and the surface's material.
/// Produced fresh per intersection test and not mutated afterwards.
#[derive(Clone, Copy, Debug, PartialEq, Eq, Structural)]
pub struct HitInfo {
    pub point: Point3,
    pub normal: Vector3,
    pub t: i128,
    pub front: bool,
    pub material: MaterialKind,
}

impl View for HitInfo {
    type V = HitV;

    open spec fn view(&self) -> HitV {
        HitV {
            point: self.point@,
            normal: self.normal@,
            t: self.t as int,
            front: self.front,
            material: self.material,
        }
    }
}

/// The record with its `front` flag and oriented normal set from the ray and
/// the outward normal: `front` holds when the ray arrives from outside, and
/// the stored normal always points against the ray.
pub open spec fn set_front_spec(h: HitV, r: RayV, outward: V3) -> HitV {
    let front = v3_dot(r.direction, outward) < 0;
    HitV {
        normal: if front {
            outward
        } else {
            v3_neg(outward)
        },
        front,
        ..h
    }
}

/// The mathematical value of an optional hit.
pub open spec fn hit_view(res: Option<HitInfo>) -> Option<HitV> {
    match res {
        Some(h) => Some(h@),
        None => None,
    }
}

impl HitInfo {
    /// Set `front` and orient the normal against the incoming ray. Applied
    /// exactly once per hit, by the primitive that produced the record.
    pub fn set_front(&mut self, ray: &Ray, outward: Vector3)
        requires
            dot_fits(ray.direction@, outward@),
            outward.x != i128::MIN,
            outward.y != i128::MIN,
            outward.z != i128::MIN,
        ensures
            final(self)@ == set_front_spec(old(self)@, ray@, outward@),
    {
        let d = ray.direction.dot(outward);
        self.front = d < 0;
        self.normal = if self.front {
            outward
        } else {
            outward.neg()
        };
    }
}

/// Anything a ray can intersect: exposes a nearest-intersection query over
/// the open parametric range `(t_min, t_max)`.
pub trait Hittable {
    /// The rays and ranges the implementation can work over without
    /// overflow.
    spec fn hit_ok(&self, r: RayV, t_min: int, t_max: int) -> bool;

    /// What the implementation returns.
    spec fn hit_spec(&self, r: RayV, t_min: int, t_max: int) -> Option<HitV>;

    /// The nearest intersection of `ray` with this object at parametric
    /// distance strictly inside `(t_min, t_max)`, or `None`.
    fn hit(&self, ray: &Ray, t_min: i128, t_max: i128) -> (res: Option<HitInfo>)
        requires
            self.hit_ok(ray@, t_min as int, t_max as int),
        ensures
            hit_view(res) == self.hit_spec(ray@, t_min as int, t_max as int),
    ;
}

} // verus!
