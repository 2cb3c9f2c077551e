//! A small offline path tracer over fixed-point arithmetic.
//!
//! Scalars are signed 64.64-style fixed-point numbers held in `i128`, with a
//! decimal scale: the integer `v` stands for the real number `v / 1_000_000`.
//! Every geometric and shading computation is exact integer arithmetic, so
//! each function's result is pinned down by its contract.

pub mod camera;
pub mod fixed;
pub mod hittable;
pub mod hittable_list;
pub mod image;
pub mod material;
pub mod ray;
pub mod rng;
pub mod sphere;
pub mod vector3;

pub use fixed::SCALE;
