//! The sphere primitive and its ray-intersection query.
//!
//! The quadratic is solved with the half-`b` substitution `h = d . (C - O)`:
//! with `a = |d|^2` and `c = |C - O|^2 - r^2`, the discriminant is
//! `h^2 - a * c`, and the roots are `(h -+ sqrt(disc)) / a`, nearer first.

use vstd::prelude::*;
use crate::fixed::{
    SCALE, fx_div, fx_div_spec, fx_mul, fx_mul_spec, fx_sqrt, fx_sqrt_spec, iabs,
    lemma_fx_div_bound, lemma_fx_mul_bound, lemma_tdiv_monotone,
};
use crate::hittable::{HitInfo, HitV, Hittable, set_front_spec, t_range_wf};
use crate::material::{MaterialKind, mat_wf};
use crate::ray::{Ray, RayV, ray_at_spec, ray_wf};
use crate::vector3::{
    COORD_LIM, Point3, V3, dot_fits, lemma_dot_bound, lemma_scale_bound,
    lemma_sq_len_nonneg, v3_bounded, v3_div_scalar, v3_dot, v3_sq_len, v3_sub,
};

verus! {

/// The mathematical value of a sphere.
pub ghost struct SphereV {
    pub center: V3,
    pub radius: int,
    pub material: MaterialKind,
}

/// A sphere of center, radius and material.
#[derive(Clone, Copy, Debug, PartialEq, Eq, Structural)]
pub struct Sphere {
    center: Point3,
    radius: i128,
    material: MaterialKind,
}

impl View for Sphere {
    type V = SphereV;

    closed spec fn view(&self) -> SphereV {
        SphereV { center: self.center@, radius: self.radius as int, material: self.material }
    }
}

/// A sphere the tracer can work over: center within the supported volume, a
/// radius of at least one fixed-point quantum (a zero radius would divide by
/// zero when the normal is formed), and a usable material.
pub open spec fn sphere_wf(s: SphereV) -> bool {
    1 <= s.radius <= COORD_LIM as int && v3_bounded(s.center, COORD_LIM as int) && mat_wf(
        s.material,
    )
}

/// `|d|^2` for the ray direction `d`.
pub open spec fn sph_a(r: RayV) -> int {
    v3_sq_len(r.direction)
}

/// `h = d . (C - O)`.
pub open spec fn sph_h(s: SphereV, r: RayV) -> int {
    v3_dot(r.direction, v3_sub(s.center, r.origin))
}

/// `c = |C - O|^2 - r^2`.
pub open spec fn sph_c(s: SphereV, r: RayV) -> int {
    v3_sq_len(v3_sub(s.center, r.origin)) - fx_mul_spec(s.radius, s.radius)
}

/// The discriminant `h^2 - a * c`; negative exactly when the ray misses.
pub open spec fn sph_disc(s: SphereV, r: RayV) -> int {
    fx_mul_spec(sph_h(s, r), sph_h(s, r)) - fx_mul_spec(sph_a(r), sph_c(s, r))
}

/// The hit record at parametric distance `root`: the point along the ray,
/// the outward normal `(point - C) / radius` oriented against the ray, and
/// the sphere's material.
pub open spec fn sphere_hit_at(s: SphereV, r: RayV, root: int) -> HitV {
    let point = ray_at_spec(r, root);
    let outward = v3_div_scalar(v3_sub(point, s.center), s.radius);
    set_front_spec(
        HitV { point, normal: outward, t: root, front: false, material: s.material },
        r,
        outward,
    )
}

/// The nearest intersection strictly inside `(t_min, t_max)`: the nearer
/// root if it qualifies, else the farther root if it qualifies, else none.
pub open spec fn sphere_hit_spec(s: SphereV, r: RayV, t_min: int, t_max: int) -> Option<HitV> {
    let a = sph_a(r);
    let h = sph_h(s, r);
    let disc = sph_disc(s, r);
    if disc < 0 {
        None
    } else {
        let sq = fx_sqrt_spec(disc);
        let root1 = fx_div_spec(h - sq, a);
        let root2 = fx_div_spec(h + sq, a);
        if t_min < root1 && root1 < t_max {
            Some(sphere_hit_at(s, r, root1))
        } else if t_min < root2 && root2 < t_max {
            Some(sphere_hit_at(s, r, root2))
        } else {
            None
        }
    }
}

impl Sphere {
    /// A sphere from its center, radius (clamped to be nonnegative) and
    /// material.
    pub fn new(center: Point3, radius: i128, material: MaterialKind) -> (s: Self)
        ensures
            s@.center == center@,
            s@.radius == if radius >= 0 {
                radius as int
            } else {
                0int
            },
            s@.material == material,
    {
        Self {
            center,
            radius: if radius >= 0 {
                radius
            } else {
                0
            },
            material,
        }
    }
}

/// The facts the intersection routine needs about its intermediate
/// magnitudes, all consequences of `sphere_wf`, `ray_wf` and the range.
proof fn lemma_sphere_hit_bounds(s: SphereV, r: RayV)
    requires
        sphere_wf(s),
        ray_wf(r),
    ensures
        dot_fits(r.direction, r.direction),
        dot_fits(r.direction, v3_sub(s.center, r.origin)),
        dot_fits(v3_sub(s.center, r.origin), v3_sub(s.center, r.origin)),
        1 <= sph_a(r) <= 3_000_000_000_000_000_000,
        iabs(sph_h(s, r)) <= 6_000_000_000_000_000_000,
        iabs(sph_c(s, r)) <= 13_000_000_000_000_000_000,
        iabs(sph_disc(s, r)) <= 75_000_000_000_000_000_000_000_000_000_000,
        iabs(sph_h(s, r) * sph_h(s, r)) <= i128::MAX as int,
        iabs(sph_a(r) * sph_c(s, r)) <= i128::MAX as int,
{
    let oc = v3_sub(s.center, r.origin);
    lemma_dot_bound(r.direction, r.direction, COORD_LIM as int, COORD_LIM as int);
    lemma_dot_bound(r.direction, oc, COORD_LIM as int, 2 * COORD_LIM as int);
    lemma_dot_bound(oc, oc, 2 * COORD_LIM as int, 2 * COORD_LIM as int);
    lemma_fx_mul_bound(s.radius, s.radius, COORD_LIM as int, COORD_LIM as int);
    lemma_fx_mul_bound(sph_h(s, r), sph_h(s, r), 6_000_000_000_000_000_000, 6_000_000_000_000_000_000);
    lemma_fx_mul_bound(sph_a(r), sph_c(s, r), 3_000_000_000_000_000_000, 13_000_000_000_000_000_000);
}

/// A qualifying hit lies strictly inside the queried range.
pub proof fn lemma_sphere_hit_in_range(s: SphereV, r: RayV, t_min: int, t_max: int)
    ensures
        match sphere_hit_spec(s, r, t_min, t_max) {
            Some(h) => t_min < h.t < t_max,
            None => true,
        },
{
}

/// A hit carries the material of the sphere that produced it.
pub proof fn lemma_sphere_hit_material(s: SphereV, r: RayV, t_min: int, t_max: int)
    ensures
        match sphere_hit_spec(s, r, t_min, t_max) {
            Some(h) => h.material == s.material,
            None => true,
        },
{
}

/// The nearer root never exceeds the farther root.
proof fn lemma_roots_ordered(s: SphereV, r: RayV)
    requires
        sph_a(r) >= 1,
        sph_disc(s, r) >= 0,
    ensures
        fx_div_spec(sph_h(s, r) - fx_sqrt_spec(sph_disc(s, r)), sph_a(r)) <= fx_div_spec(
            sph_h(s, r) + fx_sqrt_spec(sph_disc(s, r)),
            sph_a(r),
        ),
{
    let h = sph_h(s, r);
    let sq = fx_sqrt_spec(sph_disc(s, r));
    lemma_tdiv_monotone((h - sq) * (SCALE as int), (h + sq) * (SCALE as int), sph_a(r));
}

/// Widening the far end of the range past a reported hit does not change
/// the answer: the hit was already the nearest qualifying one.
pub proof fn lemma_sphere_hit_widen(s: SphereV, r: RayV, t_min: int, m: int, big: int)
    requires
        sph_a(r) >= 1,
        m <= big,
        sphere_hit_spec(s, r, t_min, m) is Some,
    ensures
        sphere_hit_spec(s, r, t_min, big) == sphere_hit_spec(s, r, t_min, m),
{
    lemma_roots_ordered(s, r);
}

/// Shrinking the far end of the range, while keeping it beyond a reported
/// hit, does not change the answer.
pub proof fn lemma_sphere_hit_narrow(s: SphereV, r: RayV, t_min: int, m: int, big: int)
    requires
        sph_a(r) >= 1,
        m <= big,
        match sphere_hit_spec(s, r, t_min, big) {
            Some(g) => g.t < m,
            None => false,
        },
    ensures
        sphere_hit_spec(s, r, t_min, m) == sphere_hit_spec(s, r, t_min, big),
{
    lemma_roots_ordered(s, r);
}

/// The squared direction length is at least one for every ray the tracer
/// works over.
pub proof fn lemma_ray_wf_a_pos(r: RayV)
    requires
        ray_wf(r),
    ensures
        sph_a(r) >= 1,
{
}

impl Hittable for Sphere {
    open spec fn hit_ok(&self, r: RayV, t_min: int, t_max: int) -> bool {
        sphere_wf(self@) && ray_wf(r) && t_range_wf(t_min, t_max)
    }

    open spec fn hit_spec(&self, r: RayV, t_min: int, t_max: int) -> Option<HitV> {
        sphere_hit_spec(self@, r, t_min, t_max)
    }

    fn hit(&self, ray: &Ray, t_min: i128, t_max: i128) -> (res: Option<HitInfo>) {
        proof {
            assert(self@.radius == self.radius as int);
            assert(self@.center == self.center@);
            lemma_sphere_hit_bounds(self@, ray@);
            lemma_sq_len_nonneg(ray.direction@);
            lemma_fx_mul_bound(self.radius as int, self.radius as int, COORD_LIM as int, COORD_LIM as int);
        }
        let oc = self.center.sub(ray.origin);
        let a = ray.direction.sq_len();
        let h = ray.direction.dot(oc);
        let c = oc.sq_len() - fx_mul(self.radius, self.radius);
        let disc = fx_mul(h, h) - fx_mul(a, c);

        if disc < 0 {
            return None;
        }

        let rooted = fx_sqrt(disc);

        let root1 = fx_div(h - rooted, a);
        let root = if t_min < root1 && root1 < t_max {
            root1
        } else {
            let root2 = fx_div(h + rooted, a);
            if t_min < root2 && root2 < t_max {
                root2
            } else {
                return None;
            }
        };

        proof {
            lemma_fx_mul_bound(ray.direction@.x, root as int, COORD_LIM as int, crate::hittable::T_INF as int);
            lemma_fx_mul_bound(ray.direction@.y, root as int, COORD_LIM as int, crate::hittable::T_INF as int);
            lemma_fx_mul_bound(ray.direction@.z, root as int, COORD_LIM as int, crate::hittable::T_INF as int);
            lemma_scale_bound(ray.direction@, root as int, COORD_LIM as int, crate::hittable::T_INF as int);
        }
        let point = ray.at(root);
        let pc = point.sub(self.center);
        proof {
            lemma_fx_div_bound(pc@.x, self@.radius, 12_000_000_000_000_000_000, 1);
            lemma_fx_div_bound(pc@.y, self@.radius, 12_000_000_000_000_000_000, 1);
            lemma_fx_div_bound(pc@.z, self@.radius, 12_000_000_000_000_000_000, 1);
        }
        let outward = pc.div_scalar(self.radius);
        proof {
            lemma_dot_bound(
                ray.direction@,
                outward@,
                COORD_LIM as int,
                12_000_000_000_000_000_000 * (SCALE as int),
            );
        }
        let mut info = HitInfo {
            t: root,
            point,
            front: false,
            normal: outward,
            material: self.material,
        };
        info.set_front(ray, outward);
        Some(info)
    }
}

} // verus!
