//! The camera: viewport geometry from an aspect ratio and an image width,
//! per-pixel jittered ray generation, recursive light transport with a bounce
//! limit, and the multi-sample render loop.

use vstd::prelude::*;
use crate::fixed::{
    SCALE, fx_div, fx_div_spec, fx_mul, fx_mul_spec, lemma_fx_div_bound, lemma_fx_mul_bound,
    lemma_fx_mul_one, lemma_tdiv_monotone, tdiv, tdiv_spec,
};
use crate::hittable::{Hittable, T_EPS, T_INF};
use crate::hittable_list::{HittableList, lemma_list_hit_nearest, list_hit_spec, list_wf};
use crate::image::{Image, Pixel};
use crate::material::{Material, MaterialKind, color_wf, lemma_color_mul, mat_wf};
use crate::ray::{Ray, RayV, ray_wf};
use crate::rng::{rng_in_range, rng_with_seed};
use crate::sphere::{lemma_sphere_hit_material, sphere_hit_spec};
use crate::vector3::{
    COORD_LIM, Point3, UNIT_LIM, V3, Vector3, lemma_dot_bound, lemma_scale_bound, v3_add,
    v3_bounded, v3_div_scalar, v3_scale, v3_sub, v3_unit,
};

verus! {

/// One half, in fixed point.
pub const HALF: i128 = 500_000;

/// Bound on the components of the per-pixel delta vectors and of the
/// viewport itself.
pub const DELTA_LIM: i128 = 200_000_000_000;

/// The sample count a camera starts with.
pub const DEFAULT_SAMPLES: u32 = 32;

/// The bounce limit a camera starts with.
pub const DEFAULT_MAX_DEPTH: u16 = 10;

/// The seed a camera starts with; rendering is deterministic per seed.
pub const DEFAULT_SEED: u64 = 1;

/// Black: the color of an exhausted or absorbed path.
pub open spec fn black_v() -> V3 {
    V3 { x: 0, y: 0, z: 0 }
}

/// White: the bottom of the background gradient.
pub open spec fn white_v() -> V3 {
    V3 { x: SCALE as int, y: SCALE as int, z: SCALE as int }
}

/// Sky blue: the top of the background gradient.
pub open spec fn sky_v() -> V3 {
    V3 { x: HALF as int, y: 700_000, z: SCALE as int }
}

/// The mathematical value of a camera's configuration (the random state is
/// not part of it).
pub ghost struct CamV {
    pub aspect: int,
    pub width: int,
    pub height: int,
    pub pos: V3,
    pub pixel00: V3,
    pub delta_u: V3,
    pub delta_v: V3,
    pub samples: int,
    pub max_depth: int,
}

/// The camera: immutable viewport geometry plus a private random state for
/// sub-pixel jitter and scattering.
pub struct Camera {
    aspect_ratio: i128,
    image_width: u32,
    image_height: u32,
    pos: Point3,
    pixel00_pos: Point3,
    pixel_delta_u: Vector3,
    pixel_delta_v: Vector3,
    samples_pp: u32,
    max_depth: u16,
    rng: fastrand::Rng,
}

impl View for Camera {
    type V = CamV;

    closed spec fn view(&self) -> CamV {
        CamV {
            aspect: self.aspect_ratio as int,
            width: self.image_width as int,
            height: self.image_height as int,
            pos: self.pos@,
            pixel00: self.pixel00_pos@,
            delta_u: self.pixel_delta_u@,
            delta_v: self.pixel_delta_v@,
            samples: self.samples_pp as int,
            max_depth: self.max_depth as int,
        }
    }
}

/// The image height: the width over the aspect ratio, truncated.
pub open spec fn cam_height(aspect: int, width: int) -> int {
    tdiv_spec(width * (SCALE as int), aspect)
}

/// The whole viewport geometry, computed from the aspect ratio and image
/// width exactly as the constructor computes it: a viewport two world units
/// tall at focal length one, centered one unit in front of the origin along
/// the negative z axis, spanned in x (rightwards) and negative y
/// (downwards), with pixel (0, 0) half a delta in from the upper left.
pub open spec fn cam_geom(aspect: int, width: int, samples: int, depth: int) -> CamV {
    let h = cam_height(aspect, width);
    let w_fx = width * (SCALE as int);
    let h_fx = h * (SCALE as int);
    let vw = fx_mul_spec(2 * SCALE as int, fx_div_spec(w_fx, h_fx));
    let vu = V3 { x: vw, y: 0, z: 0 };
    let vv = V3 { x: 0, y: -2 * SCALE as int, z: 0 };
    let du = v3_div_scalar(vu, w_fx);
    let dv = v3_div_scalar(vv, h_fx);
    let pos = V3 { x: 0, y: 0, z: 0 };
    let ul = v3_sub(
        v3_sub(v3_sub(pos, V3 { x: 0, y: 0, z: SCALE as int }), v3_div_scalar(vu, 2 * SCALE as int)),
        v3_div_scalar(vv, 2 * SCALE as int),
    );
    let p00 = v3_add(ul, v3_scale(v3_add(du, dv), HALF as int));
    CamV {
        aspect,
        width,
        height: h,
        pos,
        pixel00: p00,
        delta_u: du,
        delta_v: dv,
        samples,
        max_depth: depth,
    }
}

/// The bounds the rendering loops need of a camera; the constructor
/// establishes them.
pub open spec fn cam_wf(c: CamV) -> bool {
    &&& 1 <= c.width <= 100_000
    &&& 1 <= c.height <= 1_000_000
    &&& 1 <= c.samples <= 100_000
    &&& 0 <= c.max_depth
    &&& v3_bounded(c.pos, COORD_LIM as int)
    &&& v3_bounded(c.pixel00, COORD_LIM as int)
    &&& v3_bounded(c.delta_u, DELTA_LIM as int)
    &&& v3_bounded(c.delta_v, DELTA_LIM as int)
}

/// The ray through pixel `(i, j)` at sub-pixel jitter `(ox, oy)`: from the
/// camera position toward the jittered sample point on the viewport.
pub open spec fn cam_ray_spec(c: CamV, i: int, j: int, ox: int, oy: int) -> RayV {
    let sample = v3_add(
        v3_add(c.pixel00, v3_scale(c.delta_u, i * (SCALE as int) + ox)),
        v3_scale(c.delta_v, j * (SCALE as int) + oy),
    );
    RayV { origin: c.pos, direction: v3_sub(sample, c.pos) }
}

/// The background gradient: linear from white at the bottom to sky blue at
/// the top, in the unit direction's vertical coordinate. A direction whose
/// normalization leaves the unit box (impossible for the rays the camera
/// builds) is treated as pointing down.
pub open spec fn background_spec(r: RayV) -> V3 {
    let ud = v3_unit(r.direction);
    if v3_bounded(ud, SCALE as int) {
        let t = fx_mul_spec(HALF as int, ud.y + SCALE as int);
        v3_add(v3_scale(white_v(), SCALE as int - t), v3_scale(sky_v(), t))
    } else {
        white_v()
    }
}

/// The blend parameter of the background lies in the unit interval, and the
/// blend of white and sky blue by it is a color in the unit cube.
proof fn lemma_lerp_wf(t: int)
    requires
        0 <= t <= SCALE as int,
    ensures
        color_wf(v3_add(v3_scale(white_v(), SCALE as int - t), v3_scale(sky_v(), t))),
{
    lemma_fx_mul_one(SCALE as int - t);
    lemma_blend_channel(HALF as int, t);
    lemma_blend_channel(700_000, t);
    lemma_blend_channel(SCALE as int, t);
}

/// `c * t` (fixed point) lies in `[0, t]` for a unit-interval channel `c`.
proof fn lemma_blend_channel(c: int, t: int)
    requires
        0 <= c <= SCALE as int,
        0 <= t <= SCALE as int,
    ensures
        0 <= fx_mul_spec(c, t) <= t,
{
    assert(0 <= c * t <= (SCALE as int) * t) by (nonlinear_arith)
        requires
            0 <= c <= SCALE as int,
            0 <= t,
    ;
    lemma_tdiv_monotone(c * t, (SCALE as int) * t, SCALE as int);
    vstd::arithmetic::div_mod::lemma_div_multiples_vanish(t, SCALE as int);
    vstd::arithmetic::div_mod::lemma_div_pos_is_pos(c * t, SCALE as int);
}

/// The truncating mean of a sum of at most `n` unit-interval samples lies in
/// the unit interval.
proof fn lemma_mean_in_unit(sum: int, n: int)
    requires
        0 <= sum <= n * (SCALE as int),
        1 <= n,
    ensures
        0 <= tdiv_spec(sum * (SCALE as int), n * (SCALE as int)) <= SCALE as int,
{
    let d = n * (SCALE as int);
    assert(n * (SCALE as int) >= SCALE as int) by (nonlinear_arith)
        requires
            n >= 1,
    ;
    assert(sum * (SCALE as int) <= (n * (SCALE as int)) * (SCALE as int)) by (nonlinear_arith)
        requires
            sum <= n * (SCALE as int),
    ;
    lemma_tdiv_monotone(sum * (SCALE as int), d * (SCALE as int), d);
    vstd::arithmetic::div_mod::lemma_div_multiples_vanish(SCALE as int, d);
    assert(d * (SCALE as int) == (SCALE as int) * d) by (nonlinear_arith);
    assert(sum * (SCALE as int) >= 0) by (nonlinear_arith)
        requires
            sum >= 0,
    ;
    vstd::arithmetic::div_mod::lemma_div_pos_is_pos(sum * (SCALE as int), d);
}

/// For an aspect ratio of at least a tenth, the image height is at most ten
/// times the width.
proof fn lemma_height_bounds(a: int, w: int)
    requires
        1 <= w <= 100_000,
        100_000 <= a <= 100_000_000,
    ensures
        cam_height(a, w) == (w * (SCALE as int)) / a,
        cam_height(a, w) <= 1_000_000,
{
    let x = w * (SCALE as int);
    assert(x >= 0);
    assert(tdiv_spec(x, a) == x / a);
    vstd::arithmetic::div_mod::lemma_div_is_ordered_by_denominator(x, 100_000, a);
    assert(x == (10 * w) * 100_000);
    vstd::arithmetic::div_mod::lemma_div_multiples_vanish(10 * w, 100_000);
    assert(x / 100_000 == 10 * w);
}

impl Camera {
    /// A camera from every tunable: aspect ratio (fixed point), image width,
    /// samples per pixel, bounce limit and random seed. The bounds on the
    /// inputs are what keeps the fixed-point geometry inside a machine word;
    /// the height requirement rules out an image of no rows.
    pub fn with_params(
        aspect_ratio: i128,
        image_w: u32,
        samples_pp: u32,
        max_depth: u16,
        seed: u64,
    ) -> (cam: Self)
        requires
            1 <= image_w <= 100_000,
            100_000 <= aspect_ratio <= 100_000_000,
            1 <= cam_height(aspect_ratio as int, image_w as int),
            1 <= samples_pp <= 100_000,
        ensures
            cam@ == cam_geom(
                aspect_ratio as int,
                image_w as int,
                samples_pp as int,
                max_depth as int,
            ),
            cam_wf(cam@),
    {
        let w_fx: i128 = (image_w as i128) * SCALE;
        proof {
            lemma_height_bounds(aspect_ratio as int, image_w as int);
        }
        let image_h_wide: i128 = tdiv(w_fx, aspect_ratio);
        let image_h: u32 = image_h_wide as u32;
        let h_fx: i128 = image_h_wide * SCALE;

        proof {
            lemma_fx_div_bound(w_fx as int, h_fx as int, 100_000_000_000int, SCALE as int);
        }
        let ratio = fx_div(w_fx, h_fx);
        proof {
            lemma_fx_mul_bound(2 * SCALE as int, ratio as int, 2 * SCALE as int, 100_000_000_000int);
        }
        let viewport_w = fx_mul(2 * SCALE, ratio);
        let viewport_u = Vector3::new(viewport_w, 0, 0);
        let viewport_v = Vector3::new(0, -2 * SCALE, 0);
        proof {
            lemma_fx_div_bound(viewport_w as int, w_fx as int, DELTA_LIM as int, SCALE as int);
            lemma_fx_div_bound(0, w_fx as int, 0, SCALE as int);
            lemma_fx_div_bound(-2 * SCALE as int, h_fx as int, 2 * SCALE as int, SCALE as int);
            lemma_fx_div_bound(0, h_fx as int, 0, SCALE as int);
            lemma_fx_div_bound(viewport_w as int, 2 * SCALE as int, DELTA_LIM as int, SCALE as int);
            lemma_fx_div_bound(-2 * SCALE as int, 2 * SCALE as int, 2 * SCALE as int, SCALE as int);
        }
        let pixel_delta_u = viewport_u.div_scalar(w_fx);
        let pixel_delta_v = viewport_v.div_scalar(h_fx);
        let pos = Vector3::from_scalar(0);
        let upper_left = pos.sub(Vector3::new(0, 0, SCALE)).sub(
            viewport_u.div_scalar(2 * SCALE),
        ).sub(viewport_v.div_scalar(2 * SCALE));
        proof {
            lemma_scale_bound(
                v3_add(pixel_delta_u@, pixel_delta_v@),
                HALF as int,
                DELTA_LIM as int + 2 * SCALE as int,
                HALF as int,
            );
        }
        let pixel00_pos = upper_left.add(pixel_delta_u.add(pixel_delta_v).scale(HALF));

        Self {
            aspect_ratio,
            image_width: image_w,
            image_height: image_h,
            pos,
            pixel00_pos,
            pixel_delta_u,
            pixel_delta_v,
            samples_pp,
            max_depth,
            rng: rng_with_seed(seed),
        }
    }

    /// A camera from an aspect ratio and an image width, with the default
    /// sample count, bounce limit and seed.
    pub fn new(aspect_ratio: i128, image_w: u32) -> (cam: Self)
        requires
            1 <= image_w <= 100_000,
            100_000 <= aspect_ratio <= 100_000_000,
            1 <= cam_height(aspect_ratio as int, image_w as int),
        ensures
            cam@ == cam_geom(
                aspect_ratio as int,
                image_w as int,
                DEFAULT_SAMPLES as int,
                DEFAULT_MAX_DEPTH as int,
            ),
            cam_wf(cam@),
    {
        Self::with_params(aspect_ratio, image_w, DEFAULT_SAMPLES, DEFAULT_MAX_DEPTH, DEFAULT_SEED)
    }

    /// The image width in pixels.
    pub fn width(&self) -> (r: u32)
        ensures
            r as int == self@.width,
    {
        self.image_width
    }

    /// The image height in pixels.
    pub fn height(&self) -> (r: u32)
        ensures
            r as int == self@.height,
    {
        self.image_height
    }

    /// The sub-pixel jitter: both coordinates uniform in `[-1/2, 1/2)`, no
    /// vertical component.
    fn sample_square(&mut self) -> (o: Vector3)
        ensures
            final(self)@ == old(self)@,
            -HALF <= o@.x < HALF as int,
            -HALF <= o@.y < HALF as int,
            o@.z == 0,
    {
        let x = rng_in_range(&mut self.rng, -HALF, HALF - 1);
        let y = rng_in_range(&mut self.rng, -HALF, HALF - 1);
        Vector3::new(x, y, 0)
    }

    /// The ray for pixel `(i, j)`: from the camera position toward the
    /// pixel's center displaced by a fresh sub-pixel jitter.
    pub fn get_ray(&mut self, i: u32, j: u32) -> (r: Ray)
        requires
            cam_wf(old(self)@),
            i < old(self)@.width,
            j < old(self)@.height,
        ensures
            final(self)@ == old(self)@,
            r@.origin == old(self)@.pos,
            exists|ox: int, oy: int|
                -HALF <= ox < HALF as int && -HALF <= oy < HALF as int && r@ == #[trigger]
                cam_ray_spec(old(self)@, i as int, j as int, ox, oy),
    {
        let offset = self.sample_square();
        let iu: i128 = (i as i128) * SCALE + offset.x;
        let jv: i128 = (j as i128) * SCALE + offset.y;
        proof {
            lemma_scale_bound(
                self.pixel_delta_u@,
                iu as int,
                DELTA_LIM as int,
                100_001_000_000_000int,
            );
            lemma_scale_bound(
                self.pixel_delta_v@,
                jv as int,
                DELTA_LIM as int,
                1_000_001_000_000_000int,
            );
        }
        let su = self.pixel_delta_u.scale(iu);
        let sv = self.pixel_delta_v.scale(jv);
        let sample = self.pixel00_pos.add(su).add(sv);
        let dir = sample.sub(self.pos);
        let r = Ray::new(self.pos, dir);
        proof {
            assert(r@ == cam_ray_spec(old(self)@, i as int, j as int, offset@.x, offset@.y));
        }
        r
    }

    /// The background gradient for a ray that hits nothing.
    pub fn background(ray: &Ray) -> (c: Vector3)
        requires
            ray_wf(ray@),
        ensures
            c@ == background_spec(ray@),
            color_wf(c@),
    {
        proof {
            lemma_dot_bound(ray.direction@, ray.direction@, COORD_LIM as int, COORD_LIM as int);
            crate::vector3::lemma_sq_len_nonneg(ray.direction@);
        }
        let ud = ray.direction.unit();
        if ud.bounded_by(SCALE) {
            let t = fx_mul(HALF, ud.y + SCALE);
            proof {
                lemma_tdiv_monotone(
                    (HALF as int) * (ud@.y + SCALE as int),
                    (SCALE as int) * (SCALE as int),
                    SCALE as int,
                );
                vstd::arithmetic::div_mod::lemma_div_multiples_vanish(SCALE as int, SCALE as int);
                vstd::arithmetic::div_mod::lemma_div_pos_is_pos(
                    (HALF as int) * (ud@.y + SCALE as int),
                    SCALE as int,
                );
                lemma_lerp_wf(t as int);
                lemma_fx_mul_one(SCALE as int - t as int);
            }
            let white = Vector3::from_scalar(SCALE);
            let sky = Vector3::new(HALF, 700_000, SCALE);
            let wpart = white.scale(SCALE - t);
            let spart = sky.scale(t);
            wpart.add(spart)
        } else {
            Vector3::from_scalar(SCALE)
        }
    }

    /// The color carried back along a ray: black once the bounce budget is
    /// spent or the path is absorbed (or the ray is degenerate), the
    /// attenuated color of the scattered path on a hit, and the background
    /// gradient on a miss.
    pub fn ray_color(ray: &Ray, depth: u16, world: &HittableList, rng: &mut fastrand::Rng) -> (c:
        Vector3)
        requires
            list_wf(world@),
        ensures
            color_wf(c@),
            depth == 0 ==> c@ == black_v(),
            (depth > 0 && ray_wf(ray@) && list_hit_spec(world@, ray@, T_EPS as int, T_INF as int)
                is None) ==> c@ == background_spec(ray@),
        decreases depth,
    {
        if depth == 0 {
            return Vector3::from_scalar(0);
        }
        if !ray.is_wf() {
            return Vector3::from_scalar(0);
        }
        let found = world.hit(ray, T_EPS, T_INF);
        match found {
            Some(info) => {
                proof {
                    lemma_list_hit_nearest(world@, ray@, T_EPS as int, T_INF as int);
                    let idx = choose|i: int|
                        0 <= i < world@.len() && sphere_hit_spec(
                            #[trigger] world@[i],
                            ray@,
                            T_EPS as int,
                            T_INF as int,
                        ) == Some(info@);
                    lemma_sphere_hit_material(world@[idx], ray@, T_EPS as int, T_INF as int);
                    assert(mat_wf(info@.material));
                }
                if !info.normal.bounded_by(UNIT_LIM) {
                    return Vector3::from_scalar(0);
                }
                let rand_unit = Vector3::random_unit(rng);
                let scat = info.material.scatter(ray, &info, rand_unit);
                match scat {
                    Some((attenuation, scattered)) => {
                        proof {
                            match info@.material {
                                MaterialKind::Lambertian(l) => {
                                    assert(attenuation@ == l.albedo@);
                                },
                                MaterialKind::Metal(m) => {
                                    assert(attenuation@ == m.albedo@);
                                },
                            }
                        }
                        let rec = Self::ray_color(&scattered, depth - 1, world, rng);
                        proof {
                            lemma_color_mul(attenuation@, rec@);
                        }
                        attenuation.mul(rec)
                    },
                    None => Vector3::from_scalar(0),
                }
            },
            None => Self::background(ray),
        }
    }

    /// The color of pixel `(x, y)`: the truncating mean of `samples` traced
    /// jittered rays, a color in the unit cube.
    fn render_pixel(&mut self, world: &HittableList, x: u32, y: u32) -> (p: Pixel)
        requires
            cam_wf(old(self)@),
            list_wf(world@),
            x < old(self)@.width,
            y < old(self)@.height,
        ensures
            final(self)@ == old(self)@,
            color_wf(p@),
    {
        let samples = self.samples_pp;
        let depth = self.max_depth;
        let mut sum = Vector3::from_scalar(0);
        let mut s: u32 = 0;
        let ghost c0 = self@;
        while s < samples
            invariant
                s <= samples,
                samples as int == c0.samples,
                self@ == c0,
                cam_wf(c0),
                list_wf(world@),
                x < c0.width,
                y < c0.height,
                0 <= sum@.x <= (s as int) * (SCALE as int),
                0 <= sum@.y <= (s as int) * (SCALE as int),
                0 <= sum@.z <= (s as int) * (SCALE as int),
            decreases samples - s,
        {
            let r = self.get_ray(x, y);
            let c = Self::ray_color(&r, depth, world, &mut self.rng);
            proof {
                assert(((s + 1) as int) * (SCALE as int) == (s as int) * (SCALE as int) + (
                SCALE as int)) by (nonlinear_arith);
            }
            sum = sum.add(c);
            s = s + 1;
        }
        proof {
            lemma_mean_in_unit(sum@.x, samples as int);
            lemma_mean_in_unit(sum@.y, samples as int);
            lemma_mean_in_unit(sum@.z, samples as int);
        }
        let denom: i128 = (samples as i128) * SCALE;
        sum.div_scalar(denom)
    }

    /// One scanline of the image, left to right.
    pub fn render_row(&mut self, world: &HittableList, y: u32) -> (row: Vec<Pixel>)
        requires
            cam_wf(old(self)@),
            list_wf(world@),
            y < old(self)@.height,
        ensures
            final(self)@ == old(self)@,
            row@.len() == old(self)@.width,
            forall|k: int| 0 <= k < row@.len() ==> color_wf((#[trigger] row@[k])@),
    {
        let w = self.image_width;
        let mut row: Vec<Pixel> = Vec::new();
        let mut x: u32 = 0;
        let ghost c0 = self@;
        while x < w
            invariant
                x <= w,
                w as int == c0.width,
                self@ == c0,
                cam_wf(c0),
                list_wf(world@),
                y < c0.height,
                row@.len() == x as int,
                forall|k: int| 0 <= k < row@.len() ==> color_wf((#[trigger] row@[k])@),
            decreases w - x,
        {
            let p = self.render_pixel(world, x, y);
            row.push(p);
            x = x + 1;
        }
        row
    }

    /// The rendered image: every pixel traced with `samples` jittered rays
    /// and averaged, row-major, one linear color in the unit cube per pixel.
    pub fn render(&mut self, world: &HittableList) -> (img: Image)
        requires
            cam_wf(old(self)@),
            list_wf(world@),
        ensures
            final(self)@ == old(self)@,
            img.w as int == old(self)@.width,
            img.h as int == old(self)@.height,
            img.data@.len() == old(self)@.width * old(self)@.height,
            forall|k: int| 0 <= k < img.data@.len() ==> color_wf((#[trigger] img.data@[k])@),
    {
        let w = self.image_width;
        let h = self.image_height;
        let mut data: Vec<Pixel> = Vec::new();
        let mut y: u32 = 0;
        let ghost c0 = self@;
        while y < h
            invariant
                y <= h,
                w as int == c0.width,
                h as int == c0.height,
                self@ == c0,
                cam_wf(c0),
                list_wf(world@),
                data@.len() == (y as int) * (w as int),
                forall|k: int| 0 <= k < data@.len() ==> color_wf((#[trigger] data@[k])@),
            decreases h - y,
        {
            let mut row = self.render_row(world, y);
            data.append(&mut row);
            proof {
                assert(((y + 1) as int) * (w as int) == (y as int) * (w as int) + (w as int))
                    by (nonlinear_arith);
            }
            y = y + 1;
        }
        proof {
            assert((h as int) * (w as int) == (w as int) * (h as int)) by (nonlinear_arith);
        }
        Image { data, w, h }
    }
}

} // verus!
