//! Error taxonomy: configuration faults are fatal before generation starts;
//! generation faults abort a single step and leave everything else alone.

use vstd::prelude::*;

verus! {

/// A generation step failed; the batch it would have produced is never
/// composited and no other state is touched.
#[derive(Clone, Copy, PartialEq, Eq, Structural, Debug)]
pub enum GenerationError {
    /// The control polygon carries fewer than two points.
    TooFewPoints,
    /// Two consecutive control points coincide: a degenerate spline fit.
    DegeneratePolygon,
    /// A coordinate left the representable fixed-point range.
    OutOfRange,
}

/// A generation configuration was rejected at construction.
#[derive(Clone, Copy, PartialEq, Eq, Structural, Debug)]
pub enum ConfigError {
    /// The point-count range is empty or too large.
    InvalidPointRange,
    /// Fewer than two interpolation segments, or too many.
    InvalidSegments,
    /// The step size is not positive, or too large for the point count.
    InvalidStep,
}

} // verus!
