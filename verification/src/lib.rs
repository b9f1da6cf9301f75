//! A recursive Monte-Carlo ray tracer over binary fixed-point arithmetic.
//!
//! All scalar quantities (coordinates, colors, ray parameters) are carried as
//! `i64` values scaled by `fx::SCALE`, so every computation is exact integer
//! arithmetic with explicit truncation, and every function's behaviour is
//! stated and proved against integer-valued specifications.

pub mod fx;
pub mod sampler;
pub mod vec3;
pub mod interval;
pub mod ray;
pub mod color;
pub mod material;
pub mod hittable;
pub mod sphere;
pub mod hittable_list;
pub mod camera;
