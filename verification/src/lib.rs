//! A minimal real-time raytracer core, verified with Verus.
//!
//! Every quantity is fixed-point: an `i64` holding the world value times
//! [`fixed::SCALE`].  The camera maps pixel coordinates to world-space
//! ray directions, the render module intersects each ray with a sphere
//! and shades by surface normal or by a sky gradient, and `render::draw`
//! fills a whole RGBA frame; each step carries an exact contract.
//! Windowing and presentation are the host's business: a host calls
//! `render::draw` once per redraw and shows the bytes.

pub mod camera;
pub mod fixed;
pub mod math;
pub mod render;
