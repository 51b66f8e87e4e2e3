//! A deterministic path tracer for scenes of spheres, built on a decimal
//! fixed-point number model: every coordinate, color channel and ray
//! parameter is an `i64` holding millionths, and every arithmetic step is
//! specified exactly, saturation included.

pub mod camera;
pub mod fixed;
pub mod trig;
pub mod geometry;
pub mod image;
pub mod material;
pub mod ppm;
pub mod ray;
pub mod render;
pub mod rng;
pub mod scene;

pub use fixed::ONE;
