//! A small ray tracer, verified: fixed-point vector geometry, rays,
//! ray-sphere intersection with nearest-root selection, hit-record normal
//! orientation, and color resolution against a scene of primitives.
//!
//! All geometric quantities are fixed-point integers at scale `SCALE`
//! (raw value = real value * SCALE), so every step of the intersection and
//! shading arithmetic is exact and carries a contract.

pub mod fixed;
pub mod vec3;
pub mod ray;
pub mod hittable;
pub mod object;
pub mod render;
