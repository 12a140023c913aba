//! Procedural 2D point-cloud art, verified.
//!
//! A closed control polygon is perturbed by a bounded random walk, smoothed
//! with a tension-parameterized cubic spline each step, and composited into a
//! pixel buffer under premultiplied alpha blending.  All geometry and color
//! arithmetic is fixed-point: a coordinate of `FP_ONE` stands for 1.0, so the
//! unit square is `[0, FP_ONE)` on each axis.

pub mod errors;
pub mod fixed;
pub mod geom;
pub mod screen;
pub mod spline;
pub mod walker;
pub mod pathgen;
pub mod fills;
pub mod paint;
pub mod rng;
