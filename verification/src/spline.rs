//! The interpolator: a tension-parameterized Catmull-Rom-family cubic spline
//! through an ordered point sequence, sampled at a fixed number of output
//! segments.
//!
//! The curve is not implicitly closed: a caller that wants a closed curve
//! repeats the first point as the last.  Tangents at the ends are clamped by
//! repeating the end points.

use vstd::prelude::*;
use crate::errors::GenerationError;
use crate::fixed::{FP_ONE, FP_BOUND, abs_s, div_f_s, fmul_s, fmul, div_f_i128};
use crate::fixed::{lemma_abs_mul_bound, lemma_div_f_abs};
use crate::geom::{Point2D, COORD_LIMIT, PNUM_LIMIT, SEG_LIMIT, all_bounded_s, has_dup_s, find_dup};

verus! {

/// Largest coordinate magnitude a sampled spline point can reach, given
/// control coordinates within `COORD_LIMIT`.
pub const FIT_LIMIT: i64 = 51539607552;

/// Fixed-point square of the local parameter.
pub open spec fn t2_s(t: int) -> int {
    (t * t) / (FP_ONE as int)
}

/// Fixed-point cube of the local parameter.
pub open spec fn t3_s(t: int) -> int {
    (t2_s(t) * t) / (FP_ONE as int)
}

/// Hermite basis weight of the segment's first point.
pub open spec fn h1_s(t: int) -> int {
    2 * t3_s(t) - 3 * t2_s(t) + FP_ONE as int
}

/// Hermite basis weight of the segment's second point.
pub open spec fn h2_s(t: int) -> int {
    3 * t2_s(t) - 2 * t3_s(t)
}

/// Hermite basis weight of the incoming tangent.
pub open spec fn h3_s(t: int) -> int {
    t3_s(t) - 2 * t2_s(t) + t
}

/// Hermite basis weight of the outgoing tangent.
pub open spec fn h4_s(t: int) -> int {
    t3_s(t) - t2_s(t)
}

/// One axis of a spline sample: a cubic Hermite blend of the two segment
/// ends with tension-scaled neighbor-difference tangents.
pub open spec fn herm_axis_s(a0: int, a1: int, a2: int, a3: int, t: int, g: int) -> int {
    let m1 = fmul_s(a2 - a0, g);
    let m2 = fmul_s(a3 - a1, g);
    div_f_s(h1_s(t) * a1 + h2_s(t) * a2 + h3_s(t) * m1 + h4_s(t) * m2)
}

/// Sample `j` of `s` segments over the whole curve: the global parameter is
/// split into a segment index (clamped to the last segment so the final
/// sample lands on the last point) and a local parameter in `[0, FP_ONE]`.
pub open spec fn fit_at_s(poly: Seq<Point2D>, g: int, s: int, j: int) -> Point2D {
    let n = poly.len() as int;
    let u = (j * ((n - 1) * (FP_ONE as int))) / s;
    let k0 = u / (FP_ONE as int);
    let k = if k0 > n - 2 {
        n - 2
    } else {
        k0
    };
    let t = u - k * (FP_ONE as int);
    let i0 = if k >= 1 {
        k - 1
    } else {
        0
    };
    let i3 = if k + 2 <= n - 1 {
        k + 2
    } else {
        n - 1
    };
    Point2D {
        x: herm_axis_s(poly[i0].x as int, poly[k].x as int, poly[k + 1].x as int,
            poly[i3].x as int, t, g) as i64,
        y: herm_axis_s(poly[i0].y as int, poly[k].y as int, poly[k + 1].y as int,
            poly[i3].y as int, t, g) as i64,
    }
}

/// The Hermite weights stay within three units for any local parameter.
proof fn lemma_hermite_weight_bounds(t: int)
    requires
        0 <= t <= FP_ONE,
    ensures
        0 <= t2_s(t) <= FP_ONE,
        0 <= t3_s(t) <= FP_ONE,
        abs_s(h1_s(t)) <= 3 * (FP_ONE as int),
        abs_s(h2_s(t)) <= 3 * (FP_ONE as int),
        abs_s(h3_s(t)) <= 2 * (FP_ONE as int),
        abs_s(h4_s(t)) <= FP_ONE as int,
{
    assert(0 <= t * t && t * t <= (FP_ONE as int) * (FP_ONE as int)) by (nonlinear_arith)
        requires
            0 <= t <= FP_ONE as int,
    ;
    assert(((FP_ONE as int) * (FP_ONE as int)) / (FP_ONE as int) == FP_ONE as int)
        by (nonlinear_arith);
    vstd::arithmetic::div_mod::lemma_div_is_ordered(
        t * t,
        (FP_ONE as int) * (FP_ONE as int),
        FP_ONE as int,
    );
    vstd::arithmetic::div_mod::lemma_div_pos_is_pos(t * t, FP_ONE as int);
    let w2 = t2_s(t);
    assert(0 <= w2 * t && w2 * t <= (FP_ONE as int) * (FP_ONE as int)) by (nonlinear_arith)
        requires
            0 <= w2 <= FP_ONE as int,
            0 <= t <= FP_ONE as int,
    ;
    vstd::arithmetic::div_mod::lemma_div_is_ordered(
        w2 * t,
        (FP_ONE as int) * (FP_ONE as int),
        FP_ONE as int,
    );
    vstd::arithmetic::div_mod::lemma_div_pos_is_pos(w2 * t, FP_ONE as int);
}

/// One axis of a spline sample; mirrors `herm_axis_s` exactly.
fn herm_axis(a0: i64, a1: i64, a2: i64, a3: i64, t: i64, g: i64) -> (r: i64)
    requires
        abs_s(a0 as int) <= COORD_LIMIT,
        abs_s(a1 as int) <= COORD_LIMIT,
        abs_s(a2 as int) <= COORD_LIMIT,
        abs_s(a3 as int) <= COORD_LIMIT,
        0 <= t <= FP_ONE,
        0 <= g <= FP_ONE,
    ensures
        r == herm_axis_s(a0 as int, a1 as int, a2 as int, a3 as int, t as int, g as int),
        abs_s(r as int) <= FIT_LIMIT,
{
    let d20: i64 = a2 - a0;
    let d31: i64 = a3 - a1;
    proof {
        lemma_abs_mul_bound(d20 as int, g as int, 2 * (COORD_LIMIT as int), FP_ONE as int);
        lemma_div_f_abs(d20 as int * g as int, 2 * (COORD_LIMIT as int) * (FP_ONE as int));
        assert((2 * (COORD_LIMIT as int) * (FP_ONE as int)) / (FP_ONE as int) == 2 * (
        COORD_LIMIT as int)) by (nonlinear_arith);
        lemma_abs_mul_bound(d31 as int, g as int, 2 * (COORD_LIMIT as int), FP_ONE as int);
        lemma_div_f_abs(d31 as int * g as int, 2 * (COORD_LIMIT as int) * (FP_ONE as int));
    }
    let m1: i64 = fmul(d20, g);
    let m2: i64 = fmul(d31, g);
    proof {
        assert(0 <= t as int * t as int && t as int * t as int <= (FP_ONE as int) * (
        FP_ONE as int)) by (nonlinear_arith)
            requires
                0 <= t as int <= FP_ONE as int,
        ;
        assert(((FP_ONE as int) * (FP_ONE as int)) / (FP_ONE as int) == FP_ONE as int)
            by (nonlinear_arith);
        vstd::arithmetic::div_mod::lemma_div_is_ordered(
            t as int * t as int,
            (FP_ONE as int) * (FP_ONE as int),
            FP_ONE as int,
        );
        vstd::arithmetic::div_mod::lemma_div_pos_is_pos(t as int * t as int, FP_ONE as int);
    }
    let tt2: i64 = (t * t) / FP_ONE;
    proof {
        assert(0 <= tt2 as int * t as int && tt2 as int * t as int <= (FP_ONE as int) * (
        FP_ONE as int)) by (nonlinear_arith)
            requires
                0 <= tt2 as int <= FP_ONE as int,
                0 <= t as int <= FP_ONE as int,
        ;
        vstd::arithmetic::div_mod::lemma_div_is_ordered(
            tt2 as int * t as int,
            (FP_ONE as int) * (FP_ONE as int),
            FP_ONE as int,
        );
        vstd::arithmetic::div_mod::lemma_div_pos_is_pos(tt2 as int * t as int, FP_ONE as int);
    }
    let tt3: i64 = (tt2 * t) / FP_ONE;
    let w1: i64 = 2 * tt3 - 3 * tt2 + FP_ONE;
    let w2: i64 = 3 * tt2 - 2 * tt3;
    let w3: i64 = tt3 - 2 * tt2 + t;
    let w4: i64 = tt3 - tt2;
    proof {
        lemma_hermite_weight_bounds(t as int);
        lemma_abs_mul_bound(w1 as int, a1 as int, 3 * (FP_ONE as int), COORD_LIMIT as int);
        lemma_abs_mul_bound(w2 as int, a2 as int, 3 * (FP_ONE as int), COORD_LIMIT as int);
        lemma_abs_mul_bound(w3 as int, m1 as int, 2 * (FP_ONE as int), 2 * (COORD_LIMIT as int));
        lemma_abs_mul_bound(w4 as int, m2 as int, FP_ONE as int, 2 * (COORD_LIMIT as int));
        assert(3 * (FP_ONE as int) * (COORD_LIMIT as int) + 3 * (FP_ONE as int) * (
        COORD_LIMIT as int) + 2 * (FP_ONE as int) * (2 * (COORD_LIMIT as int)) + (FP_ONE as int)
            * (2 * (COORD_LIMIT as int)) == 12 * (FP_ONE as int) * (COORD_LIMIT as int))
            by (nonlinear_arith);
        assert(12 * (FP_ONE as int) * (COORD_LIMIT as int) <= (FP_BOUND as int) * (
        FP_BOUND as int)) by (nonlinear_arith);
    }
    let sum: i128 = (w1 as i128) * (a1 as i128) + (w2 as i128) * (a2 as i128) + (w3 as i128)
        * (m1 as i128) + (w4 as i128) * (m2 as i128);
    proof {
        lemma_div_f_abs(sum as int, 12 * (FP_ONE as int) * (COORD_LIMIT as int));
        assert((12 * (FP_ONE as int) * (COORD_LIMIT as int)) / (FP_ONE as int) == 12 * (
        COORD_LIMIT as int)) by (nonlinear_arith);
    }
    div_f_i128(sum)
}

/// Fits the spline and samples it: on success the result carries exactly
/// `segments + 1` points, sample `j` being `fit_at_s(points, tension,
/// segments, j)`.  Fewer than two control points, or two coincident
/// consecutive control points, are the two generation errors; nothing else
/// fails.
pub fn fit(points: &Vec<Point2D>, tension: i64, segments: u32) -> (r: Result<
    Vec<Point2D>,
    GenerationError,
>)
    requires
        all_bounded_s(points@, COORD_LIMIT as int),
        0 <= tension <= FP_ONE,
        2 <= segments <= SEG_LIMIT,
        points@.len() <= PNUM_LIMIT,
    ensures
        r.is_ok() <==> points@.len() >= 2 && !has_dup_s(points@),
        points@.len() < 2 ==> r == Result::<Vec<Point2D>, GenerationError>::Err(
            GenerationError::TooFewPoints,
        ),
        points@.len() >= 2 && has_dup_s(points@) ==> r == Result::<Vec<Point2D>,
            GenerationError>::Err(GenerationError::DegeneratePolygon),
        r matches Ok(v) ==> {
            &&& v@.len() == segments + 1
            &&& forall|j: int|
                0 <= j <= segments ==> #[trigger] v@[j] == fit_at_s(
                    points@,
                    tension as int,
                    segments as int,
                    j,
                )
            &&& all_bounded_s(v@, FIT_LIMIT as int)
        },
{
    let n: usize = points.len();
    if n < 2 {
        return Err(GenerationError::TooFewPoints);
    }
    if find_dup(points) {
        return Err(GenerationError::DegeneratePolygon);
    }
    let mut out: Vec<Point2D> = Vec::new();
    let mut j: u32 = 0;
    while j <= segments
        invariant
            2 <= n == points@.len() <= PNUM_LIMIT,
            all_bounded_s(points@, COORD_LIMIT as int),
            0 <= tension <= FP_ONE,
            2 <= segments <= SEG_LIMIT,
            0 <= j <= segments + 1,
            out@.len() == j,
            forall|jj: int|
                0 <= jj < j ==> #[trigger] out@[jj] == fit_at_s(
                    points@,
                    tension as int,
                    segments as int,
                    jj,
                ),
            all_bounded_s(out@, FIT_LIMIT as int),
        decreases segments + 1 - j,
    {
        proof {
            assert((j as int) * (((n as int) - 1) * (FP_ONE as int)) <= (segments as int) * (((
            n as int) - 1) * (FP_ONE as int)) && 0 <= (j as int) * (((n as int) - 1) * (
            FP_ONE as int)) && (segments as int) * (((n as int) - 1) * (FP_ONE as int)) < (
            0x8000_0000_0000_0000int)) by (nonlinear_arith)
                requires
                    0 <= j as int <= segments as int,
                    2 <= n as int <= PNUM_LIMIT as int,
                    segments as int <= SEG_LIMIT as int,
            ;
            assert(((segments as int) * (((n as int) - 1) * (FP_ONE as int))) / (segments as int)
                == ((n as int) - 1) * (FP_ONE as int)) by (nonlinear_arith)
                requires
                    segments as int >= 2,
            ;
            vstd::arithmetic::div_mod::lemma_div_is_ordered(
                (j as int) * (((n as int) - 1) * (FP_ONE as int)),
                (segments as int) * (((n as int) - 1) * (FP_ONE as int)),
                segments as int,
            );
            vstd::arithmetic::div_mod::lemma_div_pos_is_pos(
                (j as int) * (((n as int) - 1) * (FP_ONE as int)),
                segments as int,
            );
        }
        let u: u64 = ((j as u64) * (((n as u64) - 1) * (FP_ONE as u64))) / (segments as u64);
        let k0: u64 = u / (FP_ONE as u64);
        proof {
            vstd::arithmetic::div_mod::lemma_div_is_ordered(
                u as int,
                ((n as int) - 1) * (FP_ONE as int),
                FP_ONE as int,
            );
            assert((((n as int) - 1) * (FP_ONE as int)) / (FP_ONE as int) == (n as int) - 1)
                by (nonlinear_arith);
            vstd::arithmetic::div_mod::lemma_div_pos_is_pos(u as int, FP_ONE as int);
        }
        let k: usize = if k0 > (n - 2) as u64 {
            n - 2
        } else {
            k0 as usize
        };
        proof {
            vstd::arithmetic::div_mod::lemma_fundamental_div_mod(u as int, FP_ONE as int);
            vstd::arithmetic::div_mod::lemma_mod_division_less_than_divisor(
                u as int,
                FP_ONE as int,
            );
            if (k0 as int) > (n as int) - 2 {
                assert(k0 as int == (n as int) - 1);
                assert(u as int >= ((n as int) - 1) * (FP_ONE as int)) by (nonlinear_arith)
                    requires
                        u as int >= (k0 as int) * (FP_ONE as int),
                        k0 as int == (n as int) - 1,
                ;
            }
            assert((k as int) * (FP_ONE as int) <= u as int && u as int - (k as int) * (
            FP_ONE as int) <= FP_ONE as int) by (nonlinear_arith)
                requires
                    (k0 as int) * (FP_ONE as int) <= u as int,
                    (u as int) < ((k0 as int) + 1) * (FP_ONE as int),
                    u as int <= ((n as int) - 1) * (FP_ONE as int),
                    k as int == if (k0 as int) > (n as int) - 2 {
                        (n as int) - 2
                    } else {
                        k0 as int
                    },
                    2 <= n as int,
            ;
        }
        let t: i64 = (u - (k as u64) * (FP_ONE as u64)) as i64;
        let i0: usize = if k >= 1 {
            k - 1
        } else {
            0
        };
        let i3: usize = if k + 2 <= n - 1 {
            k + 2
        } else {
            n - 1
        };
        let p0 = points[i0];
        let p1 = points[k];
        let p2 = points[k + 1];
        let p3 = points[i3];
        proof {
            assert(points@[i0 as int].bounded_s(COORD_LIMIT as int));
            assert(points@[k as int].bounded_s(COORD_LIMIT as int));
            assert(points@[k as int + 1].bounded_s(COORD_LIMIT as int));
            assert(points@[i3 as int].bounded_s(COORD_LIMIT as int));
        }
        let hx: i64 = herm_axis(p0.x, p1.x, p2.x, p3.x, t, tension);
        let hy: i64 = herm_axis(p0.y, p1.y, p2.y, p3.y, t, tension);
        out.push(Point2D { x: hx, y: hy });
        proof {
            assert(out@[j as int] == fit_at_s(points@, tension as int, segments as int, j as int));
        }
        j = j + 1;
    }
    Ok(out)
}

} // verus!
