//! A synthetic radar sweep renderer over a square elevation grid.
//!
//! A beam origin and a set of interference options are turned into an RGBA
//! pixel buffer: rays are cast outward at fixed angular increments, terrain
//! echoes are detected by tracking the occlusion horizon along each ray, and
//! two noise passes (electronic interference speckle and range-dependent rain
//! clutter) are composited on top.
//!
//! All geometry is carried in Q16.16 fixed point and all elevations in Q8
//! fixed point, so that every computation is exact integer arithmetic.  The
//! host that owns the source image, the drawing surface and the random
//! source hands plain values in and takes the finished buffer back.

pub mod buffer;
pub mod entropy;
pub mod fixed;
pub mod heightmap;
pub mod rain;
pub mod ray;
pub mod render;
