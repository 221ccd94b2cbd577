//! The deciding core of a small ray tracer: which crossing of a ray with a
//! scene counts as the hit, which way a surface normal is stored, which
//! camera settings are accepted, and how a grid of pixels is written out as
//! a plain-text image.
pub mod camera;
pub mod hittable;
pub mod ppm;
pub mod scalar;
pub mod text;
pub mod types;
