//! The deciding half of a path tracer.
//!
//! A path tracer computes in binary32 arithmetic, about which little can be
//! proved, and decides by comparing what it computed. This library holds the
//! decisions: how a bounding-volume hierarchy is built and searched, which
//! root of an intersection counts, what a material does with a ray, how far
//! a path of light is followed, and how a raster is written out. Numbers
//! come in as bit patterns ([`scalar::Scalar`]), are ordered exactly as the
//! machine orders them, and go out unchanged; the arithmetic between two
//! decisions is the caller's, handed in as a value or as a closure.
//!
//! [`nearest`] proves the property on which a hierarchy rests: a search of
//! the hierarchy reports the same nearest hit as a scan of all primitives.

pub mod aabb;
pub mod bvh;
pub mod camera;
pub mod hittable;
pub mod image;
pub mod material;
pub mod nearest;
pub mod ray;
pub mod scalar;
pub mod sphere;
pub mod texture;
pub mod vec3;
