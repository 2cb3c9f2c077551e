//! Materials: how a surface answers an incoming ray at a hit point, either
//! with an attenuation color and a scattered ray or with absorption.
//!
//! Scattering needs one random unit-length direction; it is passed in as an
//! argument, so each material's answer is an exact function of its inputs.

use vstd::prelude::*;
use crate::fixed::{SCALE, fx_mul_spec, iabs};
use crate::hittable::{HitInfo, HitV};
use crate::ray::{Ray, RayV};
use crate::vector3::{
    COORD_LIM, REFL_LIM, UNIT_LIM, V3, Vector3, lemma_dot_bound, lemma_scale_bound,
    lemma_sq_len_nonneg, near_zero_spec, reflect_spec, v3_add, v3_bounded, v3_dot, v3_len,
    v3_mul, v3_neg, v3_scale, v3_sq_len, v3_unit,
};

verus! {

/// A channel of a color lies in the unit interval.
pub open spec fn color_wf(c: V3) -> bool {
    0 <= c.x <= SCALE as int && 0 <= c.y <= SCALE as int && 0 <= c.z <= SCALE as int
}

/// A diffuse surface: scatters into the hemisphere around the normal,
/// attenuating by its albedo. Never absorbs.
#[derive(Clone, Copy, Debug, PartialEq, Eq, Structural)]
pub struct Lambertian {
    pub albedo: Vector3,
}

/// A reflective surface: mirrors the incoming direction about the normal,
/// perturbed by `fuzz` (in `[0, SCALE]`) times a random unit vector.
#[derive(Clone, Copy, Debug, PartialEq, Eq, Structural)]
pub struct Metal {
    pub albedo: Vector3,
    pub fuzz: i128,
}

/// The closed set of materials a surface can have.
#[derive(Clone, Copy, Debug, PartialEq, Eq, Structural)]
pub enum MaterialKind {
    Lambertian(Lambertian),
    Metal(Metal),
}

/// A material the tracer can work over: color channels in the unit interval,
/// fuzz in the unit interval.
pub open spec fn mat_wf(m: MaterialKind) -> bool {
    match m {
        MaterialKind::Lambertian(l) => color_wf(l.albedo@),
        MaterialKind::Metal(mt) => color_wf(mt.albedo@) && 0 <= mt.fuzz <= SCALE,
    }
}

/// The mathematical value of a scatter result.
pub open spec fn scatter_view(r: Option<(Vector3, Ray)>) -> Option<(V3, RayV)> {
    match r {
        Some((c, ray)) => Some((c@, ray@)),
        None => None,
    }
}

/// What a diffuse surface scatters: the new direction is the hit normal plus
/// the random unit vector, falling back to the normal alone when that sum is
/// degenerate (near zero). Always scatters; attenuation is the albedo.
pub open spec fn lambertian_scatter_spec(albedo: V3, info: HitV, rand_unit: V3) -> Option<
    (V3, RayV),
> {
    let sum = v3_add(info.normal, rand_unit);
    let dir = if near_zero_spec(sum) {
        info.normal
    } else {
        sum
    };
    Some((albedo, RayV { origin: info.point, direction: dir }))
}

/// What a reflective surface scatters: the incoming direction is mirrored
/// about the normal, normalized, and perturbed by `fuzz` times the random
/// unit vector. Absorbed when the reflection is too short to normalize, or
/// when the perturbed direction leaves the surface on the wrong side
/// (grazing absorption: `dot(direction, normal) <= 0`).
pub open spec fn metal_scatter_spec(
    albedo: V3,
    fuzz: int,
    ray: RayV,
    info: HitV,
    rand_unit: V3,
) -> Option<(V3, RayV)> {
    let refl = reflect_spec(ray.direction, info.normal);
    if v3_sq_len(refl) < 1 {
        None
    } else {
        let dir = v3_add(v3_unit(refl), v3_scale(rand_unit, fuzz));
        if v3_dot(dir, info.normal) > 0 {
            Some((albedo, RayV { origin: info.point, direction: dir }))
        } else {
            None
        }
    }
}

/// Polymorphic scattering behavior.
pub trait Material {
    /// The inputs the implementation can work over without overflow.
    spec fn scatter_ok(&self, ray: RayV, info: HitV, rand_unit: V3) -> bool;

    /// What the implementation returns.
    spec fn scatter_spec(&self, ray: RayV, info: HitV, rand_unit: V3) -> Option<(V3, RayV)>;

    /// The material's answer to `ray` striking the surface as `info` says,
    /// with `rand_unit` the random unit direction to perturb by. `None`
    /// means the ray is absorbed.
    fn scatter(&self, ray: &Ray, info: &HitInfo, rand_unit: Vector3) -> (r: Option<(Vector3, Ray)>)
        requires
            self.scatter_ok(ray@, info@, rand_unit@),
        ensures
            scatter_view(r) == self.scatter_spec(ray@, info@, rand_unit@),
    ;
}

impl Material for Lambertian {
    open spec fn scatter_ok(&self, ray: RayV, info: HitV, rand_unit: V3) -> bool {
        v3_bounded(info.normal, UNIT_LIM as int) && v3_bounded(rand_unit, UNIT_LIM as int)
    }

    open spec fn scatter_spec(&self, ray: RayV, info: HitV, rand_unit: V3) -> Option<(V3, RayV)> {
        lambertian_scatter_spec(self.albedo@, info, rand_unit)
    }

    fn scatter(&self, ray: &Ray, info: &HitInfo, rand_unit: Vector3) -> (r: Option<(Vector3, Ray)>) {
        let sum = info.normal.add(rand_unit);
        let dir = if sum.near_zero() {
            info.normal
        } else {
            sum
        };
        Some((self.albedo, Ray::new(info.point, dir)))
    }
}

impl Material for Metal {
    open spec fn scatter_ok(&self, ray: RayV, info: HitV, rand_unit: V3) -> bool {
        v3_bounded(ray.direction, COORD_LIM as int) && v3_bounded(info.normal, UNIT_LIM as int)
            && v3_bounded(rand_unit, UNIT_LIM as int) && 0 <= self.fuzz <= SCALE
    }

    open spec fn scatter_spec(&self, ray: RayV, info: HitV, rand_unit: V3) -> Option<(V3, RayV)> {
        metal_scatter_spec(self.albedo@, self.fuzz as int, ray, info, rand_unit)
    }

    fn scatter(&self, ray: &Ray, info: &HitInfo, rand_unit: Vector3) -> (r: Option<(Vector3, Ray)>) {
        let refl = ray.direction.reflect(&info.normal);
        proof {
            lemma_dot_bound(refl@, refl@, REFL_LIM as int, REFL_LIM as int);
            lemma_sq_len_nonneg(refl@);
        }
        let refl_sq = refl.sq_len();
        if refl_sq < 1 {
            return None;
        }
        proof {
            lemma_scale_bound(refl@, SCALE as int, REFL_LIM as int, SCALE as int);
        }
        let unit_refl = refl.unit();
        proof {
            lemma_unit_refl_bound(refl@);
            lemma_scale_bound(rand_unit@, self.fuzz as int, UNIT_LIM as int, SCALE as int);
        }
        let fuzzed = rand_unit.scale(self.fuzz);
        let dir = unit_refl.add(fuzzed);
        proof {
            lemma_dot_bound(dir@, info.normal@, unit_dir_lim() + UNIT_LIM as int, UNIT_LIM as int);
        }
        let d = dir.dot(info.normal);
        if d > 0 {
            Some((self.albedo, Ray::new(info.point, dir)))
        } else {
            None
        }
    }
}

/// Bound on the components of the normalized reflection: loose, from the
/// magnitude of the numerator alone.
pub open spec fn unit_dir_lim() -> int {
    (REFL_LIM as int) * (SCALE as int)
}

/// The normalization of a reflection within `REFL_LIM` stays within
/// `unit_dir_lim`.
pub proof fn lemma_unit_refl_bound(refl: V3)
    requires
        v3_bounded(refl, REFL_LIM as int),
        v3_sq_len(refl) >= 1,
    ensures
        v3_bounded(v3_unit(refl), unit_dir_lim()),
{
    crate::vector3::lemma_len_pos(refl);
    crate::fixed::lemma_fx_div_bound(refl.x, v3_len(refl), REFL_LIM as int, 1);
    crate::fixed::lemma_fx_div_bound(refl.y, v3_len(refl), REFL_LIM as int, 1);
    crate::fixed::lemma_fx_div_bound(refl.z, v3_len(refl), REFL_LIM as int, 1);
}

impl Material for MaterialKind {
    open spec fn scatter_ok(&self, ray: RayV, info: HitV, rand_unit: V3) -> bool {
        match *self {
            MaterialKind::Lambertian(l) => l.scatter_ok(ray, info, rand_unit),
            MaterialKind::Metal(m) => m.scatter_ok(ray, info, rand_unit),
        }
    }

    open spec fn scatter_spec(&self, ray: RayV, info: HitV, rand_unit: V3) -> Option<(V3, RayV)> {
        match *self {
            MaterialKind::Lambertian(l) => l.scatter_spec(ray, info, rand_unit),
            MaterialKind::Metal(m) => m.scatter_spec(ray, info, rand_unit),
        }
    }

    fn scatter(&self, ray: &Ray, info: &HitInfo, rand_unit: Vector3) -> (r: Option<(Vector3, Ray)>) {
        match self {
            MaterialKind::Lambertian(l) => l.scatter(ray, info, rand_unit),
            MaterialKind::Metal(m) => m.scatter(ray, info, rand_unit),
        }
    }
}

/// Colors in the unit cube are closed under componentwise multiplication,
/// and the products fit in a machine word.
pub proof fn lemma_color_mul(a: V3, b: V3)
    requires
        color_wf(a),
        color_wf(b),
    ensures
        color_wf(v3_mul(a, b)),
        iabs(a.x * b.x) <= i128::MAX as int,
        iabs(a.y * b.y) <= i128::MAX as int,
        iabs(a.z * b.z) <= i128::MAX as int,
{
    lemma_channel_mul(a.x, b.x);
    lemma_channel_mul(a.y, b.y);
    lemma_channel_mul(a.z, b.z);
}

/// One channel of that product: the fixed-point product of two unit-interval
/// scalars stays in the unit interval.
pub proof fn lemma_channel_mul(x: int, y: int)
    requires
        0 <= x <= SCALE as int,
        0 <= y <= SCALE as int,
    ensures
        0 <= fx_mul_spec(x, y) <= SCALE as int,
        iabs(x * y) <= i128::MAX as int,
{
    assert(0 <= x * y <= (SCALE as int) * (SCALE as int)) by (nonlinear_arith)
        requires
            0 <= x <= SCALE as int,
            0 <= y <= SCALE as int,
    ;
    crate::fixed::lemma_tdiv_monotone(x * y, (SCALE as int) * (SCALE as int), SCALE as int);
    vstd::arithmetic::div_mod::lemma_div_multiples_vanish(SCALE as int, SCALE as int);
    vstd::arithmetic::div_mod::lemma_div_pos_is_pos(x * y, SCALE as int);
}

/// A diffuse surface never absorbs: for every hit and every random unit
/// vector its scatter is a ray, attenuated by the albedo.
pub proof fn lemma_lambertian_always_scatters(albedo: V3, info: HitV, rand_unit: V3)
    ensures
        lambertian_scatter_spec(albedo, info, rand_unit) is Some,
        lambertian_scatter_spec(albedo, info, rand_unit)->Some_0.0 == albedo,
{
}

/// A fuzz-free metal struck dead-on along its normal scatters, and the
/// scattered direction is the unit vector along the exact negation of the
/// incoming direction, whatever the random perturbation input was. The
/// incoming magnitude is a whole number of thousandths of a world unit, so
/// the fixed-point normalization is exact; magnitudes below one thousandth
/// lose their squared length to truncation and are absorbed instead.
pub proof fn lemma_metal_mirror_dead_on(
    albedo: V3,
    ray: RayV,
    info: HitV,
    rand_unit: V3,
    k: int,
)
    requires
        1 <= k <= 1_000_000,
        ray.direction == (V3 { x: 0, y: 0, z: -1000 * k }),
        info.normal == (V3 { x: 0, y: 0, z: SCALE as int }),
    ensures
        metal_scatter_spec(albedo, 0, ray, info, rand_unit) == Some(
            (albedo, RayV { origin: info.point, direction: V3 { x: 0, y: 0, z: SCALE as int } }),
        ),
        (V3 { x: 0, y: 0, z: SCALE as int }) == v3_unit(v3_neg(ray.direction)),
{
    let c = 1000 * k;
    let d = ray.direction;
    let n = info.normal;
    crate::fixed::lemma_fx_mul_zero(0);
    crate::fixed::lemma_fx_mul_one(-c);
    assert(v3_dot(d, n) == -c);
    let s = 2 * v3_dot(d, n);
    crate::fixed::lemma_fx_mul_zero(s);
    crate::fixed::lemma_fx_mul_one(s);
    let refl = reflect_spec(d, n);
    assert(refl == (V3 { x: 0, y: 0, z: c }));
    crate::fixed::lemma_fx_mul_zero(c);
    assert(c * c == (k * k) * (SCALE as int)) by (nonlinear_arith)
        requires
            c == 1000 * k,
    ;
    crate::fixed::lemma_tdiv_exact(k * k, SCALE as int);
    assert(k * k >= 1) by (nonlinear_arith)
        requires
            k >= 1,
    ;
    assert(v3_sq_len(refl) == k * k);
    assert((k * k) * (SCALE as int) >= 0) by (nonlinear_arith)
        requires
            k * k >= 1,
    ;
    assert(c * c == ((k * k) * (SCALE as int)) as nat as int) by (nonlinear_arith)
        requires
            c * c == (k * k) * (SCALE as int),
            (k * k) * (SCALE as int) >= 0,
    ;
    assert(c * c < (c + 1) * (c + 1)) by (nonlinear_arith)
        requires
            c >= 1,
    ;
    crate::fixed::lemma_isqrt_unique(((k * k) * (SCALE as int)) as nat, c as nat);
    assert(v3_len(refl) == c);
    crate::fixed::lemma_tdiv_zero(c);
    crate::fixed::lemma_tdiv_exact(SCALE as int, c);
    assert(c * (SCALE as int) == (SCALE as int) * c) by (nonlinear_arith);
    assert(v3_unit(refl) == (V3 { x: 0, y: 0, z: SCALE as int }));
    crate::fixed::lemma_fx_mul_zero(rand_unit.x);
    crate::fixed::lemma_fx_mul_zero(rand_unit.y);
    crate::fixed::lemma_fx_mul_zero(rand_unit.z);
    let dir = v3_add(v3_unit(refl), v3_scale(rand_unit, 0));
    assert(dir == (V3 { x: 0, y: 0, z: SCALE as int }));
    crate::fixed::lemma_fx_mul_one(SCALE as int);
    assert(v3_dot(dir, n) == SCALE as int);
    assert(v3_neg(d) == (V3 { x: 0, y: 0, z: c }));
}

} // verus!
