//! Path generators: the base control polygons a walker starts from.
//!
//! A circle samples evenly spaced angles over one turn; a harmonic curve is
//! a weighted sum of rotating complex exponentials evaluated over the closed
//! turn.  Both are deterministic for fixed parameters; any randomness (a
//! one-time radius or phase draw) happens in the caller.

use vstd::prelude::*;
use crate::errors::GenerationError;
use crate::fixed::{EXP_ARG_MAX, FP_BOUND, FP_ONE, FULL_TURN, abs_s, cos_s, div_f_s, exp_s,
    fmul_s, sin_s};
use crate::fixed::{div_f_i128, fmul, fxcos, fxexp, fxsin, reduce_turn};
use crate::fixed::{lemma_abs_mul_bound, lemma_div_f_abs};
use crate::geom::{BASE_LIMIT, PNUM_LIMIT, Point2D, all_bounded_s};

verus! {

/// Most harmonics one curve may sum.
pub const HARMONIC_LIMIT: usize = 16;

/// Largest coordinate magnitude a generated harmonic curve can reach.
pub const HARM_LIMIT: i64 = 18000000000000;

/// Point `i` of a generated circle: the angle `i / n` of a turn plus the
/// phase, resolved at the given radius.
pub open spec fn circle_pt_s(n: int, radius: i64, phase: i64, i: int) -> Point2D {
    let ang = (phase + (i * (FULL_TURN as int)) / n) % (FULL_TURN as int);
    Point2D {
        x: fmul_s(radius as int, cos_s(ang)) as i64,
        y: fmul_s(radius as int, sin_s(ang)) as i64,
    }
}

/// Samples `point_count` angles evenly over one open turn, shifted by
/// `phase`, and scales the direction vectors by `radius`.
pub fn generate_circle(point_count: usize, radius: i64, phase: i64) -> (r: Result<
    Vec<Point2D>,
    GenerationError,
>)
    requires
        0 <= radius <= BASE_LIMIT,
        0 <= phase < FULL_TURN,
        point_count <= PNUM_LIMIT,
    ensures
        r.is_ok() <==> point_count >= 2,
        point_count < 2 ==> r == Result::<Vec<Point2D>, GenerationError>::Err(
            GenerationError::TooFewPoints,
        ),
        r matches Ok(v) ==> {
            &&& v@.len() == point_count
            &&& forall|i: int|
                0 <= i < point_count ==> #[trigger] v@[i] == circle_pt_s(
                    point_count as int,
                    radius,
                    phase,
                    i,
                )
            &&& all_bounded_s(v@, radius as int)
        },
{
    if point_count < 2 {
        return Err(GenerationError::TooFewPoints);
    }
    let n: usize = point_count;
    let mut out: Vec<Point2D> = Vec::new();
    let mut i: usize = 0;
    while i < n
        invariant
            2 <= n <= PNUM_LIMIT,
            0 <= radius <= BASE_LIMIT,
            0 <= phase < FULL_TURN,
            0 <= i <= n,
            out@.len() == i,
            forall|k: int|
                0 <= k < i ==> #[trigger] out@[k] == circle_pt_s(n as int, radius, phase, k),
            all_bounded_s(out@, radius as int),
        decreases n - i,
    {
        proof {
            vstd::arithmetic::div_mod::lemma_div_pos_is_pos(
                (i as int) * (FULL_TURN as int),
                n as int,
            );
            vstd::arithmetic::div_mod::lemma_div_is_ordered(
                (i as int) * (FULL_TURN as int),
                (PNUM_LIMIT as int) * (FULL_TURN as int),
                n as int,
            );
            vstd::arithmetic::mul::lemma_mul_inequality(i as int, PNUM_LIMIT as int,
                FULL_TURN as int);
            vstd::arithmetic::mul::lemma_mul_is_commutative(i as int, FULL_TURN as int);
            vstd::arithmetic::mul::lemma_mul_is_commutative(PNUM_LIMIT as int, FULL_TURN as int);
        }
        let raw: i64 = phase + ((i as i64) * FULL_TURN) / (n as i64);
        let ang: i64 = reduce_turn(raw);
        proof {
            lemma_abs_mul_bound(radius as int, cos_s(ang as int), BASE_LIMIT as int,
                FP_ONE as int);
            lemma_div_f_abs(
                (radius as int) * cos_s(ang as int),
                (BASE_LIMIT as int) * (FP_ONE as int),
            );
            lemma_abs_mul_bound(radius as int, sin_s(ang as int), BASE_LIMIT as int,
                FP_ONE as int);
            lemma_div_f_abs(
                (radius as int) * sin_s(ang as int),
                (BASE_LIMIT as int) * (FP_ONE as int),
            );
            lemma_abs_mul_bound(radius as int, cos_s(ang as int), radius as int, FP_ONE as int);
            lemma_div_f_abs((radius as int) * cos_s(ang as int), (radius as int) * (FP_ONE as int));
            lemma_abs_mul_bound(radius as int, sin_s(ang as int), radius as int, FP_ONE as int);
            lemma_div_f_abs((radius as int) * sin_s(ang as int), (radius as int) * (FP_ONE as int));
            assert(((radius as int) * (FP_ONE as int)) / (FP_ONE as int) == radius as int)
                by (nonlinear_arith);
        }
        let c: i64 = fxcos(ang);
        let s: i64 = fxsin(ang);
        let p = Point2D { x: fmul(radius, c), y: fmul(radius, s) };
        out.push(p);
        proof {
            assert(out@[i as int] == circle_pt_s(n as int, radius, phase, i as int));
        }
        i = i + 1;
    }
    Ok(out)
}

/// One rotating complex-exponential term of a seed curve.
#[derive(Clone, Copy, PartialEq, Eq, Structural, Debug)]
pub struct Harmonic {
    /// Log-magnitude: the term's magnitude is `weight * e^amp`.
    pub amp: i64,
    /// Rotations per turn of the curve parameter, in fixed point.
    pub freq: i64,
    /// Linear weight of the term.
    pub weight: i64,
}

impl Harmonic {
    /// Ranges under which every intermediate product stays representable.
    pub open spec fn valid_s(self) -> bool {
        &&& -EXP_ARG_MAX <= self.amp <= EXP_ARG_MAX
        &&& abs_s(self.freq as int) <= 1024 * (FP_ONE as int)
        &&& abs_s(self.weight as int) <= FP_ONE
    }
}

/// The magnitude of one harmonic term.
pub open spec fn harm_mag_s(h: Harmonic) -> int {
    fmul_s(h.weight as int, exp_s(h.amp as int))
}

/// The reduced angle of one harmonic term at curve parameter `th`.
pub open spec fn harm_angle_s(h: Harmonic, th: int) -> int {
    div_f_s((h.freq as int) * th) % (FULL_TURN as int)
}

/// The x contribution of the first `k` harmonics at parameter `th`.
pub open spec fn harm_sum_x_s(hs: Seq<Harmonic>, th: int, k: int) -> int
    decreases k,
{
    if k <= 0 {
        0
    } else {
        harm_sum_x_s(hs, th, k - 1) + fmul_s(harm_mag_s(hs[k - 1]), cos_s(harm_angle_s(hs[k - 1],
            th)))
    }
}

/// The y contribution of the first `k` harmonics at parameter `th`.
pub open spec fn harm_sum_y_s(hs: Seq<Harmonic>, th: int, k: int) -> int
    decreases k,
{
    if k <= 0 {
        0
    } else {
        harm_sum_y_s(hs, th, k - 1) + fmul_s(harm_mag_s(hs[k - 1]), sin_s(harm_angle_s(hs[k - 1],
            th)))
    }
}

/// Point `j` of a harmonic curve of `n` points: the parameter runs over the
/// closed turn, and the fixed recentering shift is added to both axes.
pub open spec fn harmonic_pt_s(hs: Seq<Harmonic>, n: int, sx: i64, sy: i64, j: int) -> Point2D {
    let th = (j * (FULL_TURN as int)) / (n - 1);
    Point2D {
        x: (harm_sum_x_s(hs, th, hs.len() as int) + sx) as i64,
        y: (harm_sum_y_s(hs, th, hs.len() as int) + sy) as i64,
    }
}

/// The parameter list of one harmonic seed curve.
#[derive(PartialEq, Eq, Debug)]
pub struct ComplexEquationParams {
    /// The harmonics summed into the curve, in order.
    pub params: Vec<Harmonic>,
}

impl ComplexEquationParams {
    /// At least one harmonic, not too many, every one within range.
    pub open spec fn valid_s(self) -> bool {
        &&& 1 <= self.params@.len() <= HARMONIC_LIMIT
        &&& forall|k: int| 0 <= k < self.params@.len() ==> (#[trigger] self.params@[k]).valid_s()
    }

    /// The closed seed curve these harmonics describe, shifted as asked.
    pub fn complex_circle(&self, point_count: usize, shift_x: i64, shift_y: i64) -> (r: Result<
        Vec<Point2D>,
        GenerationError,
    >)
        requires
            self.valid_s(),
            abs_s(shift_x as int) <= BASE_LIMIT,
            abs_s(shift_y as int) <= BASE_LIMIT,
            point_count <= PNUM_LIMIT,
        ensures
            r.is_ok() <==> point_count >= 2,
            point_count < 2 ==> r == Result::<Vec<Point2D>, GenerationError>::Err(
                GenerationError::TooFewPoints,
            ),
            r matches Ok(v) ==> {
                &&& v@.len() == point_count
                &&& forall|j: int|
                    0 <= j < point_count ==> #[trigger] v@[j] == harmonic_pt_s(
                        self.params@,
                        point_count as int,
                        shift_x,
                        shift_y,
                        j,
                    )
                &&& all_bounded_s(v@, HARM_LIMIT as int)
            },
    {
        generate_harmonic(point_count, &self.params, shift_x, shift_y)
    }
}

/// Evaluates the weighted sum of rotating complex exponentials at
/// `point_count` parameters spaced evenly over the closed turn, plus the
/// fixed recentering shift.
pub fn generate_harmonic(
    point_count: usize,
    harmonics: &Vec<Harmonic>,
    shift_x: i64,
    shift_y: i64,
) -> (r: Result<Vec<Point2D>, GenerationError>)
    requires
        1 <= harmonics@.len() <= HARMONIC_LIMIT,
        forall|k: int| 0 <= k < harmonics@.len() ==> (#[trigger] harmonics@[k]).valid_s(),
        abs_s(shift_x as int) <= BASE_LIMIT,
        abs_s(shift_y as int) <= BASE_LIMIT,
        point_count <= PNUM_LIMIT,
    ensures
        r.is_ok() <==> point_count >= 2,
        point_count < 2 ==> r == Result::<Vec<Point2D>, GenerationError>::Err(
            GenerationError::TooFewPoints,
        ),
        r matches Ok(v) ==> {
            &&& v@.len() == point_count
            &&& forall|j: int|
                0 <= j < point_count ==> #[trigger] v@[j] == harmonic_pt_s(
                    harmonics@,
                    point_count as int,
                    shift_x,
                    shift_y,
                    j,
                )
            &&& all_bounded_s(v@, HARM_LIMIT as int)
        },
{
    if point_count < 2 {
        return Err(GenerationError::TooFewPoints);
    }
    let n: usize = point_count;
    let hn: usize = harmonics.len();
    let mut out: Vec<Point2D> = Vec::new();
    let mut j: usize = 0;
    while j < n
        invariant
            2 <= n <= PNUM_LIMIT,
            1 <= hn == harmonics@.len() <= HARMONIC_LIMIT,
            forall|k: int| 0 <= k < harmonics@.len() ==> (#[trigger] harmonics@[k]).valid_s(),
            abs_s(shift_x as int) <= BASE_LIMIT,
            abs_s(shift_y as int) <= BASE_LIMIT,
            0 <= j <= n,
            out@.len() == j,
            forall|jj: int|
                0 <= jj < j ==> #[trigger] out@[jj] == harmonic_pt_s(
                    harmonics@,
                    n as int,
                    shift_x,
                    shift_y,
                    jj,
                ),
            all_bounded_s(out@, HARM_LIMIT as int),
        decreases n - j,
    {
        proof {
            vstd::arithmetic::div_mod::lemma_div_pos_is_pos(
                (j as int) * (FULL_TURN as int),
                (n as int) - 1,
            );
            vstd::arithmetic::mul::lemma_mul_inequality(j as int, (n as int) - 1,
                FULL_TURN as int);
            vstd::arithmetic::mul::lemma_mul_is_commutative(j as int, FULL_TURN as int);
            vstd::arithmetic::mul::lemma_mul_is_commutative((n as int) - 1, FULL_TURN as int);
            vstd::arithmetic::div_mod::lemma_div_is_ordered(
                (j as int) * (FULL_TURN as int),
                ((n as int) - 1) * (FULL_TURN as int),
                (n as int) - 1,
            );
            assert((((n as int) - 1) * (FULL_TURN as int)) / ((n as int) - 1) == FULL_TURN as int)
                by (nonlinear_arith)
                requires
                    (n as int) - 1 >= 1,
            ;
        }
        let th: i64 = ((j as i64) * FULL_TURN) / ((n as i64) - 1);
        let mut ax: i64 = 0;
        let mut ay: i64 = 0;
        let mut k: usize = 0;
        while k < hn
            invariant
                1 <= hn == harmonics@.len() <= HARMONIC_LIMIT,
                forall|kk: int| 0 <= kk < harmonics@.len() ==> (#[trigger] harmonics@[kk]).valid_s(),
                0 <= k <= hn,
                0 <= th <= FULL_TURN,
                ax == harm_sum_x_s(harmonics@, th as int, k as int),
                ay == harm_sum_y_s(harmonics@, th as int, k as int),
                abs_s(ax as int) <= (k as int) * 1096453324800int,
                abs_s(ay as int) <= (k as int) * 1096453324800int,
            decreases hn - k,
        {
            let h = harmonics[k];
            proof {
                assert(harmonics@[k as int].valid_s());
                lemma_abs_mul_bound(h.freq as int, th as int, 1024 * (FP_ONE as int),
                    FULL_TURN as int);
                assert(1024 * (FP_ONE as int) * (FULL_TURN as int) < 0x4000_0000_0000_0000int)
                    by (nonlinear_arith);
                assert(1024 * (FP_ONE as int) * (FULL_TURN as int) <= (FP_BOUND as int) * (
                FP_BOUND as int)) by (nonlinear_arith);
            }
            let ev: i64 = fxexp(h.amp);
            proof {
                lemma_abs_mul_bound(h.weight as int, ev as int, FP_ONE as int, 1096453324800int);
                lemma_div_f_abs((h.weight as int) * (ev as int), (FP_ONE as int)
                    * 1096453324800int);
                assert(((FP_ONE as int) * 1096453324800int) / (FP_ONE as int) == 1096453324800int)
                    by (nonlinear_arith);
            }
            let mag: i64 = fmul(h.weight, ev);
            let rawang: i64 = div_f_i128((h.freq as i128) * (th as i128));
            let ang: i64 = reduce_turn(rawang);
            let c: i64 = fxcos(ang);
            let s: i64 = fxsin(ang);
            proof {
                lemma_abs_mul_bound(mag as int, c as int, 1096453324800int, FP_ONE as int);
                lemma_div_f_abs((mag as int) * (c as int), 1096453324800int * (FP_ONE as int));
                lemma_abs_mul_bound(mag as int, s as int, 1096453324800int, FP_ONE as int);
                lemma_div_f_abs((mag as int) * (s as int), 1096453324800int * (FP_ONE as int));
                assert((1096453324800int * (FP_ONE as int)) / (FP_ONE as int) == 1096453324800int)
                    by (nonlinear_arith);
            }
            let tx: i64 = fmul(mag, c);
            let ty: i64 = fmul(mag, s);
            proof {
                assert((k as int) * 1096453324800int + 1096453324800int == ((k as int) + 1)
                    * 1096453324800int) by (nonlinear_arith);
                assert(((k as int) + 1) * 1096453324800int <= 16 * 1096453324800int)
                    by (nonlinear_arith)
                    requires
                        (k as int) + 1 <= 16,
                ;
            }
            ax = ax + tx;
            ay = ay + ty;
            k = k + 1;
        }
        proof {
            assert((hn as int) * 1096453324800int <= 16 * 1096453324800int) by (nonlinear_arith)
                requires
                    hn as int <= 16,
            ;
        }
        let px: i64 = ax + shift_x;
        let py: i64 = ay + shift_y;
        out.push(Point2D { x: px, y: py });
        proof {
            assert(out@[j as int] == harmonic_pt_s(harmonics@, n as int, shift_x, shift_y,
                j as int));
        }
        j = j + 1;
    }
    Ok(out)
}

} // verus!
