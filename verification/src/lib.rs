//! A small ray tracer over saturating fixed-point arithmetic.
//!
//! Scalars are `i64` values scaled by [`fixed::SCALE`]: the raw value `v`
//! stands for the real number `v / SCALE`. Every arithmetic operation is
//! specified exactly, so the whole rendering pipeline -- vectors, rays,
//! sphere intersection, material scattering and the recursive radiance
//! estimator -- carries machine-checked contracts.

pub mod camera;
pub mod fixed;
pub mod hitable;
pub mod integrator;
pub mod materials;
pub mod random;
pub mod ray;
pub mod sphere;
pub mod vec3;
