//! A path-tracing core over exact fixed-point arithmetic.
//!
//! Scene geometry (spheres), an axis-aligned-bounding-box hierarchy built
//! with a surface-area heuristic, material scattering and the recursive
//! integrator are all verified. Scalars are fixed-point numbers: an `i64`
//! raw value counts units of `1 / FX_ONE`. Arithmetic saturates at
//! `FX_MAX` / `FX_MIN`, which act as consistent signed infinities.

pub mod fixed;
pub mod vec3;
pub mod ray;
pub mod aabb;
pub mod hit;
pub mod sphere;
pub mod bvh;
pub mod material;
pub mod rng;
pub mod tracer;
pub mod scene;
pub mod laws;
