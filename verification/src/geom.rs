//! Points and point sequences of the unit square.

use vstd::prelude::*;
use crate::fixed::{FP_ONE, abs_s};

verus! {

/// Largest coordinate magnitude a control polygon handed to the spline may
/// carry; base polygons and accumulated noise each stay within half of it.
pub const COORD_LIMIT: i64 = 4294967296;

/// Largest coordinate magnitude of a walker's base polygon.
pub const BASE_LIMIT: i64 = 1073741824;

/// Largest coordinate magnitude of a walker's accumulated noise.
pub const NOISE_LIMIT: i64 = 1073741824;

/// Most control points a polygon may carry.
pub const PNUM_LIMIT: usize = 65536;

/// Most output segments one spline fit may be asked for.
pub const SEG_LIMIT: u32 = 1048576;

/// A point of the plane, in fixed-point coordinates: the unit square is
/// `[0, FP_ONE)` on each axis.
#[derive(Clone, Copy, PartialEq, Eq, Structural, Debug)]
pub struct Point2D {
    pub x: i64,
    pub y: i64,
}

impl Point2D {
    /// True when the point lies in the unit square and so maps to a pixel.
    pub open spec fn in_unit_s(self) -> bool {
        0 <= self.x < FP_ONE && 0 <= self.y < FP_ONE
    }

    /// True when both coordinate magnitudes stay within `bound`.
    pub open spec fn bounded_s(self, bound: int) -> bool {
        abs_s(self.x as int) <= bound && abs_s(self.y as int) <= bound
    }
}

/// True when every point of the sequence is bounded by `bound`.
pub open spec fn all_bounded_s(pts: Seq<Point2D>, bound: int) -> bool {
    forall|i: int| 0 <= i < pts.len() ==> #[trigger] pts[i].bounded_s(bound)
}

/// True when two consecutive points of the sequence coincide; such a polygon
/// is a degenerate spline input.
pub open spec fn has_dup_s(pts: Seq<Point2D>) -> bool {
    exists|i: int| 0 <= i < pts.len() - 1 && #[trigger] pts[i] == pts[i + 1]
}

/// Reports whether two consecutive points of the polygon coincide.
pub fn find_dup(pts: &Vec<Point2D>) -> (r: bool)
    ensures
        r == has_dup_s(pts@),
{
    let n = pts.len();
    if n < 2 {
        return false;
    }
    let mut i: usize = 0;
    while i < n - 1
        invariant
            n == pts@.len(),
            2 <= n,
            0 <= i <= n - 1,
            forall|j: int| 0 <= j < i ==> #[trigger] pts@[j] != pts@[j + 1],
        decreases n - 1 - i,
    {
        if pts[i].x == pts[i + 1].x && pts[i].y == pts[i + 1].y {
            assert(pts@[i as int] == pts@[i as int + 1]);
            return true;
        }
        i = i + 1;
    }
    false
}

} // verus!
