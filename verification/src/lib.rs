//! A path-tracing core verified with Verus.
//!
//! Geometry, bounding-volume traversal, material scattering and the
//! importance-sampling machinery are all carried out in exact fixed-point
//! integer arithmetic, so that every operation has a precise contract.

pub mod fx;
pub mod vec3;
pub mod ray;
pub mod aabb;
pub mod rng;
pub mod onb;
pub mod texture;
pub mod hittable;
pub mod material;
pub mod pdf;
pub mod sphere;
pub mod aarect;
pub mod object;
pub mod bvh;
pub mod integrator;
pub mod color;
pub mod medium;
pub mod boxes;
pub mod triangle;
pub mod ring;
