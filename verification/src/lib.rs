//! A verified 3D transform-and-project pipeline for a spinning wireframe cube.
//!
//! Scalars are fixed-point numbers: an `i64` mantissa denoting the real value
//! `mantissa / SCALE`.  Every operation states exactly which mantissa it
//! returns, so the whole pipeline — quaternion algebra, axis-aligned rotation,
//! perspective projection, screen mapping and the frame-driver update — is
//! specified and proved down to the rounding.  The rendering loop and the
//! evaluation of sines and cosines live outside the library and hand in plain
//! mantissas.

pub mod anim;
pub mod cube;
pub mod fixed;
pub mod geom;
pub mod quat;
pub mod screen;

pub use fixed::SCALE;
