//! Three-component fixed-point vectors, used for points, directions and
//! colors. Every operation is exact integer arithmetic over the scalar model
//! in `fixed`, so each method's result is a function of its arguments.

use vstd::prelude::*;
use crate::fixed::{
    SCALE, fx_mul, fx_div, fx_sqrt, fx_mul_spec, fx_div_spec, fx_sqrt_spec, iabs,
    lemma_isqrt_bounds, tdiv_spec,
};
use crate::rng::rng_in_range;

verus! {

/// The mathematical value of a vector: three unbounded fixed-point scalars.
pub ghost struct V3 {
    pub x: int,
    pub y: int,
    pub z: int,
}

/// A vector of three fixed-point scalars (see `fixed::SCALE`).
#[derive(Clone, Copy, Debug, PartialEq, Eq, Structural)]
pub struct Vector3 {
    pub x: i128,
    pub y: i128,
    pub z: i128,
}

/// A vector used as a position.
pub type Point3 = Vector3;

/// Bound on the coordinates the tracer works over: one million world units.
/// Positions, directions and sphere centers handed to the tracer stay within
/// it, which keeps every intermediate product inside `i128`.
pub const COORD_LIM: i128 = 1_000_000_000_000;

/// Bound on the components of unit-length vectors (normals, sampled unit
/// directions), with room for rounding.
pub const UNIT_LIM: i128 = 2_000_000;

/// Components smaller than this in magnitude count as a degenerate,
/// near-zero direction (one ten-thousandth of a world unit).
pub const NEAR_ZERO_EPS: i128 = 100;

/// Bound on the components of a reflected direction: a bounded incoming
/// direction reflected about a near-unit normal stays within it.
pub const REFL_LIM: i128 = 30_000_000_000_000;

/// All components smaller in magnitude than `NEAR_ZERO_EPS`.
pub open spec fn near_zero_spec(a: V3) -> bool {
    iabs(a.x) < NEAR_ZERO_EPS as int && iabs(a.y) < NEAR_ZERO_EPS as int && iabs(a.z)
        < NEAR_ZERO_EPS as int
}

impl View for Vector3 {
    type V = V3;

    open spec fn view(&self) -> V3 {
        V3 { x: self.x as int, y: self.y as int, z: self.z as int }
    }
}

/// Componentwise sum.
pub open spec fn v3_add(a: V3, b: V3) -> V3 {
    V3 { x: a.x + b.x, y: a.y + b.y, z: a.z + b.z }
}

/// Componentwise difference.
pub open spec fn v3_sub(a: V3, b: V3) -> V3 {
    V3 { x: a.x - b.x, y: a.y - b.y, z: a.z - b.z }
}

/// Componentwise negation.
pub open spec fn v3_neg(a: V3) -> V3 {
    V3 { x: -a.x, y: -a.y, z: -a.z }
}

/// Componentwise fixed-point product.
pub open spec fn v3_mul(a: V3, b: V3) -> V3 {
    V3 {
        x: fx_mul_spec(a.x, b.x),
        y: fx_mul_spec(a.y, b.y),
        z: fx_mul_spec(a.z, b.z),
    }
}

/// Fixed-point product with a scalar.
pub open spec fn v3_scale(a: V3, s: int) -> V3 {
    V3 { x: fx_mul_spec(a.x, s), y: fx_mul_spec(a.y, s), z: fx_mul_spec(a.z, s) }
}

/// Fixed-point quotient by a scalar.
pub open spec fn v3_div_scalar(a: V3, s: int) -> V3 {
    V3 { x: fx_div_spec(a.x, s), y: fx_div_spec(a.y, s), z: fx_div_spec(a.z, s) }
}

/// Fixed-point dot product: the sum of the componentwise products.
pub open spec fn v3_dot(a: V3, b: V3) -> int {
    fx_mul_spec(a.x, b.x) + fx_mul_spec(a.y, b.y) + fx_mul_spec(a.z, b.z)
}

/// The squared length: the dot product of a vector with itself.
pub open spec fn v3_sq_len(a: V3) -> int {
    v3_dot(a, a)
}

/// The length: the fixed-point square root of the squared length.
pub open spec fn v3_len(a: V3) -> int {
    fx_sqrt_spec(v3_sq_len(a))
}

/// The vector scaled to unit length (defined for nonzero length).
pub open spec fn v3_unit(a: V3) -> V3 {
    v3_div_scalar(a, v3_len(a))
}

/// Fixed-point cross product.
pub open spec fn v3_cross(a: V3, b: V3) -> V3 {
    V3 {
        x: fx_mul_spec(a.y, b.z) - fx_mul_spec(a.z, b.y),
        y: fx_mul_spec(a.z, b.x) - fx_mul_spec(a.x, b.z),
        z: fx_mul_spec(a.x, b.y) - fx_mul_spec(a.y, b.x),
    }
}

/// Every component's magnitude is at most `m`.
pub open spec fn v3_bounded(a: V3, m: int) -> bool {
    iabs(a.x) <= m && iabs(a.y) <= m && iabs(a.z) <= m
}

/// The componentwise products of two vectors, and their sum, fit in `i128`.
pub open spec fn dot_fits(a: V3, b: V3) -> bool {
    iabs(a.x * b.x) + iabs(a.y * b.y) + iabs(a.z * b.z) <= i128::MAX as int
}

impl Vector3 {
    /// A vector from its three components.
    pub fn new(x: i128, y: i128, z: i128) -> (r: Self)
        ensures
            r@ == (V3 { x: x as int, y: y as int, z: z as int }),
    {
        Self { x, y, z }
    }

    /// A vector with the same scalar in every component.
    pub fn from_scalar(s: i128) -> (r: Self)
        ensures
            r@ == (V3 { x: s as int, y: s as int, z: s as int }),
    {
        Self { x: s, y: s, z: s }
    }

    /// Componentwise sum.
    pub fn add(&self, rhs: Self) -> (r: Self)
        requires
            i128::MIN <= self.x + rhs.x <= i128::MAX,
            i128::MIN <= self.y + rhs.y <= i128::MAX,
            i128::MIN <= self.z + rhs.z <= i128::MAX,
        ensures
            r@ == v3_add(self@, rhs@),
    {
        Self { x: self.x + rhs.x, y: self.y + rhs.y, z: self.z + rhs.z }
    }

    /// Componentwise difference.
    pub fn sub(&self, rhs: Self) -> (r: Self)
        requires
            i128::MIN <= self.x - rhs.x <= i128::MAX,
            i128::MIN <= self.y - rhs.y <= i128::MAX,
            i128::MIN <= self.z - rhs.z <= i128::MAX,
        ensures
            r@ == v3_sub(self@, rhs@),
    {
        Self { x: self.x - rhs.x, y: self.y - rhs.y, z: self.z - rhs.z }
    }

    /// Componentwise negation.
    pub fn neg(&self) -> (r: Self)
        requires
            self.x != i128::MIN,
            self.y != i128::MIN,
            self.z != i128::MIN,
        ensures
            r@ == v3_neg(self@),
    {
        Self { x: -self.x, y: -self.y, z: -self.z }
    }

    /// Componentwise fixed-point product.
    pub fn mul(&self, rhs: Self) -> (r: Self)
        requires
            iabs(self.x * rhs.x) <= i128::MAX as int,
            iabs(self.y * rhs.y) <= i128::MAX as int,
            iabs(self.z * rhs.z) <= i128::MAX as int,
        ensures
            r@ == v3_mul(self@, rhs@),
    {
        Self {
            x: fx_mul(self.x, rhs.x),
            y: fx_mul(self.y, rhs.y),
            z: fx_mul(self.z, rhs.z),
        }
    }

    /// Fixed-point product with a scalar.
    pub fn scale(&self, s: i128) -> (r: Self)
        requires
            iabs(self.x * s) <= i128::MAX as int,
            iabs(self.y * s) <= i128::MAX as int,
            iabs(self.z * s) <= i128::MAX as int,
        ensures
            r@ == v3_scale(self@, s as int),
    {
        Self { x: fx_mul(self.x, s), y: fx_mul(self.y, s), z: fx_mul(self.z, s) }
    }

    /// Fixed-point quotient by a nonzero scalar.
    pub fn div_scalar(&self, s: i128) -> (r: Self)
        requires
            s != 0,
            s != i128::MIN,
            iabs(self.x * (SCALE as int)) <= i128::MAX as int,
            iabs(self.y * (SCALE as int)) <= i128::MAX as int,
            iabs(self.z * (SCALE as int)) <= i128::MAX as int,
        ensures
            r@ == v3_div_scalar(self@, s as int),
    {
        Self {
            x: fx_div(self.x, s),
            y: fx_div(self.y, s),
            z: fx_div(self.z, s),
        }
    }

    /// Fixed-point dot product.
    pub fn dot(&self, rhs: Self) -> (r: i128)
        requires
            dot_fits(self@, rhs@),
        ensures
            r == v3_dot(self@, rhs@),
    {
        let px = fx_mul(self.x, rhs.x);
        let py = fx_mul(self.y, rhs.y);
        let pz = fx_mul(self.z, rhs.z);
        px + py + pz
    }

    /// The squared length; always nonnegative.
    pub fn sq_len(&self) -> (r: i128)
        requires
            dot_fits(self@, self@),
        ensures
            r == v3_sq_len(self@),
            r >= 0,
    {
        proof {
            lemma_sq_len_nonneg(self@);
        }
        self.dot(*self)
    }

    /// The length; always nonnegative.
    pub fn len(&self) -> (r: i128)
        requires
            dot_fits(self@, self@),
            v3_sq_len(self@) * (SCALE as int) <= i128::MAX as int,
        ensures
            r == v3_len(self@),
            r >= 0,
    {
        let s = self.sq_len();
        fx_sqrt(s)
    }

    /// Fixed-point cross product.
    pub fn cross(&self, rhs: Self) -> (r: Self)
        requires
            iabs(self.y * rhs.z) + iabs(self.z * rhs.y) <= i128::MAX as int,
            iabs(self.z * rhs.x) + iabs(self.x * rhs.z) <= i128::MAX as int,
            iabs(self.x * rhs.y) + iabs(self.y * rhs.x) <= i128::MAX as int,
        ensures
            r@ == v3_cross(self@, rhs@),
    {
        let x = fx_mul(self.y, rhs.z) - fx_mul(self.z, rhs.y);
        let y = fx_mul(self.z, rhs.x) - fx_mul(self.x, rhs.z);
        let z = fx_mul(self.x, rhs.y) - fx_mul(self.y, rhs.x);
        Self { x, y, z }
    }

    /// The vector scaled to unit length. The squared length must be at least
    /// one fixed-point unit: normalizing a vector of (near-)zero length is a
    /// caller error, not a handled case.
    pub fn unit(&self) -> (r: Self)
        requires
            dot_fits(self@, self@),
            v3_sq_len(self@) >= 1,
            v3_sq_len(self@) * (SCALE as int) <= i128::MAX as int,
            iabs(self.x * (SCALE as int)) <= i128::MAX as int,
            iabs(self.y * (SCALE as int)) <= i128::MAX as int,
            iabs(self.z * (SCALE as int)) <= i128::MAX as int,
        ensures
            r@ == v3_unit(self@),
    {
        let l = self.len();
        proof {
            lemma_len_pos(self@);
        }
        self.div_scalar(l)
    }
}

/// The reflection of a direction `d` about a normal `n`:
/// `d - n * (2 * dot(d, n))`.
pub open spec fn reflect_spec(d: V3, n: V3) -> V3 {
    v3_sub(d, v3_scale(n, 2 * v3_dot(d, n)))
}

impl Vector3 {
    /// The reflection of this direction about the normal `n`.
    pub fn reflect(&self, n: &Vector3) -> (r: Vector3)
        requires
            v3_bounded(self@, COORD_LIM as int),
            v3_bounded(n@, UNIT_LIM as int),
        ensures
            r@ == reflect_spec(self@, n@),
            v3_bounded(r@, REFL_LIM as int),
    {
        proof {
            lemma_dot_bound(self@, n@, COORD_LIM as int, UNIT_LIM as int);
        }
        let d = self.dot(*n);
        let s = 2 * d;
        proof {
            lemma_scale_bound(n@, s as int, UNIT_LIM as int, 12_000_000_000_000int);
        }
        let scaled = n.scale(s);
        self.sub(scaled)
    }

    /// Whether every component is smaller in magnitude than `NEAR_ZERO_EPS`.
    pub fn near_zero(&self) -> (r: bool)
        ensures
            r == near_zero_spec(self@),
    {
        -NEAR_ZERO_EPS < self.x && self.x < NEAR_ZERO_EPS && -NEAR_ZERO_EPS < self.y && self.y
            < NEAR_ZERO_EPS && -NEAR_ZERO_EPS < self.z && self.z < NEAR_ZERO_EPS
    }

    /// Whether every component's magnitude is at most `m`; `m` must be small
    /// enough that negation cannot overflow.
    pub fn bounded_by(&self, m: i128) -> (r: bool)
        requires
            0 <= m < i128::MAX,
        ensures
            r == v3_bounded(self@, m as int),
    {
        -m <= self.x && self.x <= m && -m <= self.y && self.y <= m && -m <= self.z && self.z <= m
    }
}

/// Magnitude bounds on two vectors bound their dot product and show that its
/// intermediate products fit in a machine word.
pub proof fn lemma_dot_bound(a: V3, b: V3, m1: int, m2: int)
    requires
        v3_bounded(a, m1),
        v3_bounded(b, m2),
        3 * (m1 * m2) <= i128::MAX as int,
    ensures
        dot_fits(a, b),
        iabs(v3_dot(a, b)) <= 3 * (m1 * m2 / (SCALE as int)),
        iabs(v3_dot(a, b)) <= 3 * (m1 * m2),
{
    crate::fixed::lemma_fx_mul_bound(a.x, b.x, m1, m2);
    crate::fixed::lemma_fx_mul_bound(a.y, b.y, m1, m2);
    crate::fixed::lemma_fx_mul_bound(a.z, b.z, m1, m2);
    vstd::arithmetic::div_mod::lemma_div_is_ordered_by_denominator(m1 * m2, 1, SCALE as int);
    vstd::arithmetic::div_mod::lemma_div_basics(m1 * m2);
}

/// Magnitude bounds on a vector and a scalar bound their product.
pub proof fn lemma_scale_bound(a: V3, s: int, m1: int, m2: int)
    requires
        v3_bounded(a, m1),
        iabs(s) <= m2,
    ensures
        iabs(a.x * s) <= m1 * m2,
        iabs(a.y * s) <= m1 * m2,
        iabs(a.z * s) <= m1 * m2,
        v3_bounded(v3_scale(a, s), m1 * m2 / (SCALE as int)),
        v3_bounded(v3_scale(a, s), m1 * m2),
{
    crate::fixed::lemma_fx_mul_bound(a.x, s, m1, m2);
    crate::fixed::lemma_fx_mul_bound(a.y, s, m1, m2);
    crate::fixed::lemma_fx_mul_bound(a.z, s, m1, m2);
}

/// Draws whose squared length falls below this are discarded before
/// normalizing, to avoid division instability.
pub const RAND_EPS_SQ: i128 = 10_000;

/// How many draws the rejection samplers make before falling back to a fixed
/// direction; rejection succeeds almost surely long before this.
pub const MAX_DRAWS: u32 = 64;

impl Vector3 {
    /// A vector with each component drawn uniformly from `[0, 1)`.
    pub fn random(rng: &mut fastrand::Rng) -> (r: Self)
        ensures
            0 <= r@.x < SCALE as int,
            0 <= r@.y < SCALE as int,
            0 <= r@.z < SCALE as int,
    {
        Self {
            x: rng_in_range(rng, 0, SCALE - 1),
            y: rng_in_range(rng, 0, SCALE - 1),
            z: rng_in_range(rng, 0, SCALE - 1),
        }
    }

    /// A vector with each component drawn uniformly from `[min, max]`.
    pub fn random_range(rng: &mut fastrand::Rng, min: i128, max: i128) -> (r: Self)
        requires
            min <= max,
        ensures
            min <= r@.x <= max,
            min <= r@.y <= max,
            min <= r@.z <= max,
    {
        Self {
            x: rng_in_range(rng, min, max),
            y: rng_in_range(rng, min, max),
            z: rng_in_range(rng, min, max),
        }
    }

    /// A point strictly inside the unit sphere, by rejection sampling;
    /// after `MAX_DRAWS` rejections it falls back to the origin.
    pub fn random_in_unit_sphere(rng: &mut fastrand::Rng) -> (r: Self)
        ensures
            v3_bounded(r@, SCALE as int),
            v3_sq_len(r@) < SCALE as int,
    {
        let mut k: u32 = 0;
        while k < MAX_DRAWS
            decreases MAX_DRAWS - k,
        {
            let p = Self::random_range(rng, -SCALE, SCALE);
            proof {
                lemma_dot_bound(p@, p@, SCALE as int, SCALE as int);
            }
            let sq = p.sq_len();
            if sq < SCALE {
                return p;
            }
            k = k + 1;
        }
        Self::from_scalar(0)
    }

    /// A unit-length direction, uniformly distributed: a point from the
    /// unit sphere (discarding near-zero draws) scaled to unit length.
    /// After `MAX_DRAWS` rejections it falls back to a fixed axis.
    pub fn random_unit(rng: &mut fastrand::Rng) -> (r: Self)
        ensures
            v3_bounded(r@, UNIT_LIM as int),
    {
        let mut k: u32 = 0;
        while k < MAX_DRAWS
            decreases MAX_DRAWS - k,
        {
            let p = Self::random_range(rng, -SCALE, SCALE);
            proof {
                lemma_dot_bound(p@, p@, SCALE as int, SCALE as int);
                lemma_sq_len_nonneg(p@);
            }
            let sq = p.sq_len();
            if RAND_EPS_SQ <= sq && sq < SCALE {
                let u = p.unit();
                if u.bounded_by(UNIT_LIM) {
                    return u;
                }
            }
            k = k + 1;
        }
        Self::new(0, 0, SCALE)
    }

    /// A unit-length direction in the hemisphere around `normal`: a random
    /// unit vector, flipped when it points against the normal. Its dot
    /// product with the normal is never negative.
    pub fn random_on_hemisphere(rng: &mut fastrand::Rng, normal: &Vector3) -> (r: Self)
        requires
            v3_bounded(normal@, UNIT_LIM as int),
        ensures
            v3_bounded(r@, UNIT_LIM as int),
            v3_dot(r@, normal@) >= 0,
    {
        let u = Self::random_unit(rng);
        proof {
            lemma_dot_bound(u@, normal@, UNIT_LIM as int, UNIT_LIM as int);
        }
        let d = u.dot(*normal);
        if d >= 0 {
            u
        } else {
            proof {
                lemma_neg_dot(u@, normal@);
            }
            u.neg()
        }
    }
}

/// Negating one argument negates the dot product.
pub proof fn lemma_neg_dot(a: V3, b: V3)
    ensures
        v3_dot(v3_neg(a), b) == -v3_dot(a, b),
{
    assert((-a.x) * b.x == -(a.x * b.x)) by (nonlinear_arith);
    assert((-a.y) * b.y == -(a.y * b.y)) by (nonlinear_arith);
    assert((-a.z) * b.z == -(a.z * b.z)) by (nonlinear_arith);
    crate::fixed::lemma_tdiv_neg(a.x * b.x, SCALE as int);
    crate::fixed::lemma_tdiv_neg(a.y * b.y, SCALE as int);
    crate::fixed::lemma_tdiv_neg(a.z * b.z, SCALE as int);
}

/// A dot product of a vector with itself is nonnegative: each fixed-point
/// square is nonnegative.
pub proof fn lemma_sq_len_nonneg(a: V3)
    ensures
        v3_sq_len(a) >= 0,
        fx_mul_spec(a.x, a.x) >= 0,
        fx_mul_spec(a.y, a.y) >= 0,
        fx_mul_spec(a.z, a.z) >= 0,
{
    assert(a.x * a.x >= 0) by (nonlinear_arith);
    assert(a.y * a.y >= 0) by (nonlinear_arith);
    assert(a.z * a.z >= 0) by (nonlinear_arith);
}

/// A vector whose squared length is at least one fixed-point unit has a
/// strictly positive length.
pub proof fn lemma_len_pos(a: V3)
    requires
        v3_sq_len(a) >= 1,
    ensures
        v3_len(a) >= 1,
{
    let m = (v3_sq_len(a) * (SCALE as int)) as nat;
    assert(v3_sq_len(a) * (SCALE as int) >= SCALE as int) by (nonlinear_arith)
        requires
            v3_sq_len(a) >= 1,
    ;
    lemma_isqrt_bounds(m);
    let r = crate::fixed::isqrt_spec(m);
    if r == 0 {
        assert((r + 1) * (r + 1) == 1) by (nonlinear_arith)
            requires
                r == 0nat,
        ;
        assert(m < 1);
    }
}

/// Normalizing a vector of exactly representable length yields a vector of
/// length exactly one: shown for an axis-aligned vector whose magnitude is a
/// whole number of thousandths of a world unit, where no fixed-point
/// truncation occurs. (For other vectors the length of the normalization is
/// only close to one, by an amount the truncations decide.)
pub proof fn lemma_unit_len_exact_axis(k: int)
    requires
        1 <= k <= 1_000_000,
    ensures
        v3_len(v3_unit(V3 { x: 0, y: 0, z: 1000 * k })) == SCALE as int,
{
    let c = 1000 * k;
    let a = V3 { x: 0, y: 0, z: c };
    crate::fixed::lemma_fx_mul_zero(0);
    assert(c * c == (k * k) * (SCALE as int)) by (nonlinear_arith)
        requires
            c == 1000 * k,
    ;
    crate::fixed::lemma_tdiv_exact(k * k, SCALE as int);
    assert(k * k >= 1) by (nonlinear_arith)
        requires
            k >= 1,
    ;
    assert(v3_sq_len(a) == k * k);
    assert((k * k) * (SCALE as int) >= 0) by (nonlinear_arith)
        requires
            k * k >= 1,
    ;
    assert(c * c < (c + 1) * (c + 1)) by (nonlinear_arith)
        requires
            c >= 1,
    ;
    crate::fixed::lemma_isqrt_unique(((k * k) * (SCALE as int)) as nat, c as nat);
    assert(v3_len(a) == c);
    crate::fixed::lemma_tdiv_zero(c);
    crate::fixed::lemma_tdiv_exact(SCALE as int, c);
    assert(c * (SCALE as int) == (SCALE as int) * c) by (nonlinear_arith);
    let u = v3_unit(a);
    assert(u == (V3 { x: 0, y: 0, z: SCALE as int }));
    crate::fixed::lemma_fx_mul_one(SCALE as int);
    assert(v3_sq_len(u) == SCALE as int);
    assert((SCALE as int) * (SCALE as int) >= 0) by (nonlinear_arith);
    assert((SCALE as int) * (SCALE as int) < (SCALE as int + 1) * (SCALE as int + 1))
        by (nonlinear_arith);
    crate::fixed::lemma_isqrt_unique(((SCALE as int) * (SCALE as int)) as nat, SCALE as nat);
}

/// One channel of a normalization: its square, against the square of the
/// exact quotient. Writing `m` for `|x| * SCALE` and `v` for the truncated
/// quotient `m / l`, the square `v * v` is at most `x^2 * SCALE^2 / l^2` and
/// falls short of it by at most `2 m l / l^2`.
proof fn lemma_unit_channel(x: int, l: int)
    requires
        l >= 1,
    ensures
        fx_div_spec(x, l) * fx_div_spec(x, l) == tdiv_spec(iabs(x) * (SCALE as int), l)
            * tdiv_spec(iabs(x) * (SCALE as int), l),
        (l * l) * (tdiv_spec(iabs(x) * (SCALE as int), l) * tdiv_spec(
            iabs(x) * (SCALE as int),
            l,
        )) <= (x * x) * ((SCALE as int) * (SCALE as int)),
        (x * x) * ((SCALE as int) * (SCALE as int)) - 2 * ((iabs(x) * (SCALE as int)) * l) <= (l
            * l) * (tdiv_spec(iabs(x) * (SCALE as int), l) * tdiv_spec(
            iabs(x) * (SCALE as int),
            l,
        )),
{
    let s = SCALE as int;
    let m = iabs(x) * s;
    let v = tdiv_spec(m, l);
    let u = fx_div_spec(x, l);
    assert(iabs(x * s) == iabs(x) * s);
    crate::fixed::lemma_tdiv_abs(x * s, l);
    assert(iabs(u) == m / l);
    crate::fixed::lemma_tdiv_nonneg_bounds(m, l);
    assert(v == m / l);
    assert(u * u == iabs(u) * iabs(u)) by (nonlinear_arith);
    assert(u * u == v * v);
    assert(0 <= l * v) by (nonlinear_arith)
        requires
            l >= 1,
            v >= 0,
    ;
    assert((l * v) * (l * v) <= m * m) by (nonlinear_arith)
        requires
            0 <= l * v,
            l * v <= m,
    ;
    assert((l * v) * (l * v) == (l * l) * (v * v)) by (nonlinear_arith);
    assert(m * m == (iabs(x) * iabs(x)) * (s * s)) by (nonlinear_arith)
        requires
            m == iabs(x) * s,
    ;
    assert(iabs(x) * iabs(x) == x * x) by (nonlinear_arith);
    if m >= l {
        assert(m - l <= l * v);
        assert((m - l) * (m - l) <= (l * v) * (l * v)) by (nonlinear_arith)
            requires
                0 <= m - l,
                m - l <= l * v,
        ;
        assert((m - l) * (m - l) == m * m - 2 * (m * l) + l * l) by (nonlinear_arith);
        assert(0 <= l * l) by (nonlinear_arith);
    } else {
        assert(m * m - 2 * (m * l) <= 0) by (nonlinear_arith)
            requires
                0 <= m,
                m < l,
        ;
        assert(0 <= (l * l) * (v * v)) by (nonlinear_arith)
            requires
                l >= 1,
                v >= 0,
        ;
    }
}

/// Normalizing any vector whose squared length is at least one leaves a
/// squared length within ten millionths of one: the fixed-point form of
/// "a normalized vector has length one, up to rounding". Below one unit of
/// squared length the truncations can distort the result badly: normalizing
/// the vector `(1414, 0, 0)` yields one of squared length near two, so those
/// inputs are left out.
pub proof fn lemma_unit_sq_len_tolerance(a: V3)
    requires
        v3_sq_len(a) >= SCALE as int,
    ensures
        SCALE as int - 10 <= v3_sq_len(v3_unit(a)),
        v3_sq_len(v3_unit(a)) <= SCALE as int + 5,
{
    let s = SCALE as int;
    let sq = v3_sq_len(a);
    let l = v3_len(a);
    let u = v3_unit(a);
    assert(a.x * a.x >= 0) by (nonlinear_arith);
    assert(a.y * a.y >= 0) by (nonlinear_arith);
    assert(a.z * a.z >= 0) by (nonlinear_arith);
    let bigp = a.x * a.x + a.y * a.y + a.z * a.z;
    crate::fixed::lemma_tdiv_nonneg_bounds(a.x * a.x, s);
    crate::fixed::lemma_tdiv_nonneg_bounds(a.y * a.y, s);
    crate::fixed::lemma_tdiv_nonneg_bounds(a.z * a.z, s);
    assert(s * sq <= bigp);
    assert(bigp < s * sq + 3 * s);
    lemma_isqrt_bounds((sq * s) as nat);
    assert(l * l <= sq * s);
    assert(sq * s < (l + 1) * (l + 1));
    assert((l + 1) * (l + 1) == l * l + 2 * l + 1) by (nonlinear_arith);
    if l < s {
        assert((l + 1) * (l + 1) <= s * s) by (nonlinear_arith)
            requires
                0 <= l + 1 <= s,
        ;
        assert(false);
    }
    lemma_unit_channel(a.x, l);
    lemma_unit_channel(a.y, l);
    lemma_unit_channel(a.z, l);
    let vx = tdiv_spec(iabs(a.x) * s, l);
    let vy = tdiv_spec(iabs(a.y) * s, l);
    let vz = tdiv_spec(iabs(a.z) * s, l);
    let ww = vx * vx + vy * vy + vz * vz;
    assert(s * sq <= l * l + 2 * l);
    lemma_norm_upper(l, s, ww, bigp, sq, a.x * a.x, a.y * a.y, a.z * a.z, vx * vx, vy * vy, vz
        * vz);
    assert(u.x * u.x == vx * vx);
    assert(u.y * u.y == vy * vy);
    assert(u.z * u.z == vz * vz);
    assert(vx * vx >= 0) by (nonlinear_arith);
    assert(vy * vy >= 0) by (nonlinear_arith);
    assert(vz * vz >= 0) by (nonlinear_arith);
    crate::fixed::lemma_tdiv_nonneg_bounds(vx * vx, s);
    crate::fixed::lemma_tdiv_nonneg_bounds(vy * vy, s);
    crate::fixed::lemma_tdiv_nonneg_bounds(vz * vz, s);
    let out = v3_sq_len(u);
    assert(s * out <= ww);
    assert(ww < s * out + 3 * s);
    // The lower side: each channel's shortfall is at most `2 m l`, and the
    // magnitudes are at most `l + 3`.
    lemma_channel_magnitude(a.x, l, bigp);
    lemma_channel_magnitude(a.y, l, bigp);
    lemma_channel_magnitude(a.z, l, bigp);
    assert(iabs(a.x) * s <= (l + 3) * s) by (nonlinear_arith)
        requires
            iabs(a.x) <= l + 3,
            s >= 1,
    ;
    assert(iabs(a.y) * s <= (l + 3) * s) by (nonlinear_arith)
        requires
            iabs(a.y) <= l + 3,
            s >= 1,
    ;
    assert(iabs(a.z) * s <= (l + 3) * s) by (nonlinear_arith)
        requires
            iabs(a.z) <= l + 3,
            s >= 1,
    ;
    lemma_norm_lower(
        l,
        s,
        ww,
        bigp,
        sq,
        a.x * a.x,
        a.y * a.y,
        a.z * a.z,
        vx * vx,
        vy * vy,
        vz * vz,
        iabs(a.x) * s,
        iabs(a.y) * s,
        iabs(a.z) * s,
    );
    lemma_norm_out(s, out, ww);
}

/// Normalizing any vector whose squared length is at least one leaves a
/// length within ten millionths of one.
pub proof fn lemma_unit_len_tolerance(a: V3)
    requires
        v3_sq_len(a) >= SCALE as int,
    ensures
        SCALE as int - 6 <= v3_len(v3_unit(a)),
        v3_len(v3_unit(a)) <= SCALE as int + 2,
{
    lemma_unit_sq_len_tolerance(a);
    let s = SCALE as int;
    let out = v3_sq_len(v3_unit(a));
    lemma_isqrt_bounds((out * s) as nat);
    let r = v3_len(v3_unit(a));
    assert(out * s >= (s - 10) * s) by (nonlinear_arith)
        requires
            out >= s - 10,
            s >= 1,
    ;
    assert(out * s <= (s + 5) * s) by (nonlinear_arith)
        requires
            out <= s + 5,
            s >= 1,
    ;
    if r < s - 6 {
        assert((r + 1) * (r + 1) <= (s - 6) * (s - 6)) by (nonlinear_arith)
            requires
                0 <= r + 1 <= s - 6,
        ;
        assert((s - 6) * (s - 6) <= (s - 10) * s) by (nonlinear_arith)
            requires
                s >= 18,
        ;
    }
    if r > s + 2 {
        assert((s + 3) * (s + 3) <= r * r) by (nonlinear_arith)
            requires
                0 <= s + 3 <= r,
        ;
        assert((s + 5) * s < (s + 3) * (s + 3)) by (nonlinear_arith)
            requires
                s >= 1,
        ;
    }
}

/// Combining the three channels' upper bounds: the sum of the squared
/// quotients is at most one plus five rounding quanta.
proof fn lemma_norm_upper(
    l: int,
    s: int,
    ww: int,
    bigp: int,
    sq: int,
    px: int,
    py: int,
    pz: int,
    wx: int,
    wy: int,
    wz: int,
)
    requires
        1 <= s <= l,
        ww == wx + wy + wz,
        bigp == px + py + pz,
        (l * l) * wx <= px * (s * s),
        (l * l) * wy <= py * (s * s),
        (l * l) * wz <= pz * (s * s),
        bigp < s * sq + 3 * s,
        s * sq <= l * l + 2 * l,
    ensures
        ww <= s * s + 5 * s,
{
    assert((l * l) * ww <= bigp * (s * s)) by (nonlinear_arith)
        requires
            ww == wx + wy + wz,
            bigp == px + py + pz,
            (l * l) * wx <= px * (s * s),
            (l * l) * wy <= py * (s * s),
            (l * l) * wz <= pz * (s * s),
    ;
    assert(bigp * (s * s) <= (l * l + 2 * l + 3 * s) * (s * s)) by (nonlinear_arith)
        requires
            s >= 1,
            bigp < s * sq + 3 * s,
            s * sq <= l * l + 2 * l,
    ;
    assert((l * l + 2 * l + 3 * s) * (s * s) <= (s * s + 5 * s) * (l * l)) by (nonlinear_arith)
        requires
            1 <= s <= l,
    ;
    assert(ww <= s * s + 5 * s) by (nonlinear_arith)
        requires
            (l * l) * ww <= (s * s + 5 * s) * (l * l),
            l >= 1,
    ;
}

/// Combining the three channels' lower bounds: the sum of the squared
/// quotients falls short of one by at most a few rounding quanta.
proof fn lemma_norm_lower(
    l: int,
    s: int,
    ww: int,
    bigp: int,
    sq: int,
    px: int,
    py: int,
    pz: int,
    wx: int,
    wy: int,
    wz: int,
    mx: int,
    my: int,
    mz: int,
)
    requires
        1 <= s <= l,
        ww == wx + wy + wz,
        bigp == px + py + pz,
        px * (s * s) - 2 * (mx * l) <= (l * l) * wx,
        py * (s * s) - 2 * (my * l) <= (l * l) * wy,
        pz * (s * s) - 2 * (mz * l) <= (l * l) * wz,
        0 <= mx <= (l + 3) * s,
        0 <= my <= (l + 3) * s,
        0 <= mz <= (l + 3) * s,
        bigp >= s * sq,
        l * l <= sq * s,
    ensures
        ww >= s * s - 6 * s - 18,
{
    assert((l * l) * ww >= bigp * (s * s) - 2 * (mx * l) - 2 * (my * l) - 2 * (mz * l))
        by (nonlinear_arith)
        requires
            ww == wx + wy + wz,
            bigp == px + py + pz,
            px * (s * s) - 2 * (mx * l) <= (l * l) * wx,
            py * (s * s) - 2 * (my * l) <= (l * l) * wy,
            pz * (s * s) - 2 * (mz * l) <= (l * l) * wz,
    ;
    assert(bigp * (s * s) >= (l * l) * (s * s)) by (nonlinear_arith)
        requires
            s >= 1,
            bigp >= s * sq,
            l * l <= sq * s,
    ;
    assert(2 * (mx * l) + 2 * (my * l) + 2 * (mz * l) <= (6 * s) * (l * l) + 18 * (l * l))
        by (nonlinear_arith)
        requires
            1 <= s <= l,
            0 <= mx <= (l + 3) * s,
            0 <= my <= (l + 3) * s,
            0 <= mz <= (l + 3) * s,
    ;
    assert((l * l) * ww >= (s * s - 6 * s - 18) * (l * l)) by (nonlinear_arith)
        requires
            (l * l) * ww >= bigp * (s * s) - 2 * (mx * l) - 2 * (my * l) - 2 * (mz * l),
            bigp * (s * s) >= (l * l) * (s * s),
            2 * (mx * l) + 2 * (my * l) + 2 * (mz * l) <= (6 * s) * (l * l) + 18 * (l * l),
    ;
    assert(ww >= s * s - 6 * s - 18) by (nonlinear_arith)
        requires
            (s * s - 6 * s - 18) * (l * l) <= (l * l) * ww,
            l >= 1,
    ;
}

/// The truncating division by one quantum keeps the sum within ten quanta
/// of one.
proof fn lemma_norm_out(s: int, out: int, ww: int)
    requires
        s >= 17,
        s * out <= ww,
        ww < s * out + 3 * s,
        ww <= s * s + 5 * s,
        ww >= s * s - 6 * s - 18,
    ensures
        s - 10 <= out <= s + 5,
{
    assert(out <= s + 5) by (nonlinear_arith)
        requires
            s >= 1,
            s * out <= s * s + 5 * s,
    ;
    assert(out >= s - 10) by (nonlinear_arith)
        requires
            s >= 17,
            s * out + 3 * s > s * s - 6 * s - 18,
    ;
}

/// No channel magnitude exceeds the length by more than three.
proof fn lemma_channel_magnitude(x: int, l: int, bigp: int)
    requires
        l >= 1,
        x * x <= bigp,
        bigp <= l * l + 5 * l,
    ensures
        iabs(x) <= l + 3,
{
    if iabs(x) > l + 3 {
        assert((l + 3) * (l + 3) < iabs(x) * iabs(x)) by (nonlinear_arith)
            requires
                0 <= l + 3 < iabs(x),
        ;
        assert((l + 3) * (l + 3) == l * l + 6 * l + 9) by (nonlinear_arith);
        assert(iabs(x) * iabs(x) == x * x) by (nonlinear_arith);
    }
}

/// Vector addition is commutative.
pub proof fn lemma_add_comm(a: V3, b: V3)
    ensures
        v3_add(a, b) == v3_add(b, a),
{
}

/// Vector addition is associative.
pub proof fn lemma_add_assoc(a: V3, b: V3, c: V3)
    ensures
        v3_add(v3_add(a, b), c) == v3_add(a, v3_add(b, c)),
{
}

/// The dot product is symmetric.
pub proof fn lemma_dot_comm(a: V3, b: V3)
    ensures
        v3_dot(a, b) == v3_dot(b, a),
{
    assert(a.x * b.x == b.x * a.x) by (nonlinear_arith);
    assert(a.y * b.y == b.y * a.y) by (nonlinear_arith);
    assert(a.z * b.z == b.z * a.z) by (nonlinear_arith);
}

/// The cross product is antisymmetric.
pub proof fn lemma_cross_antisym(a: V3, b: V3)
    ensures
        v3_cross(a, b) == v3_neg(v3_cross(b, a)),
{
    assert(a.x * b.y == b.y * a.x) by (nonlinear_arith);
    assert(a.y * b.x == b.x * a.y) by (nonlinear_arith);
    assert(a.y * b.z == b.z * a.y) by (nonlinear_arith);
    assert(a.z * b.y == b.y * a.z) by (nonlinear_arith);
    assert(a.z * b.x == b.x * a.z) by (nonlinear_arith);
    assert(a.x * b.z == b.z * a.x) by (nonlinear_arith);
}

} // verus!
