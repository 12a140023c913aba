//! The stateful random-walk generator.
//!
//! A walker owns an immutable base control polygon, a per-point noise
//! accumulator, and a per-point scale profile.  Each step draws one bounded
//! polar increment per point, accumulates it, fits the spline through the
//! perturbed polygon, and returns the recentered dense batch.  A failed step
//! leaves the walker exactly as it was.

use vstd::prelude::*;
use crate::errors::GenerationError;
use crate::fixed::{FP_ONE, FP_HALF, FULL_TURN, abs_s, fmul_s, cos_s, sin_s, fmul, fxcos, fxsin};
use crate::fixed::{lemma_abs_mul_bound, lemma_div_f_abs};
use crate::geom::{Point2D, BASE_LIMIT, COORD_LIMIT, NOISE_LIMIT, PNUM_LIMIT, SEG_LIMIT,
    all_bounded_s, has_dup_s};
use crate::rng::rng_range_i64;
use crate::spline::{FIT_LIMIT, fit, fit_at_s};

verus! {

/// The polygon a step hands to the spline: base plus accumulated noise,
/// point by point.
pub open spec fn perturbed_s(base: Seq<Point2D>, noise: Seq<Point2D>) -> Seq<Point2D> {
    Seq::new(
        base.len(),
        |i: int|
            Point2D {
                x: (base[i].x + noise[i].x) as i64,
                y: (base[i].y + noise[i].y) as i64,
            },
    )
}

/// One polar increment: the radius scaled by the point's profile entry, then
/// resolved along the drawn angle.
pub open spec fn increment_s(radius: i64, angle: i64, sc: i64) -> Point2D {
    Point2D {
        x: fmul_s(fmul_s(radius as int, sc as int), cos_s(angle as int)) as i64,
        y: fmul_s(fmul_s(radius as int, sc as int), sin_s(angle as int)) as i64,
    }
}

/// The noise accumulator after one step's increments.
pub open spec fn noise_step_s(
    noise: Seq<Point2D>,
    radii: Seq<i64>,
    angles: Seq<i64>,
    scale: Seq<i64>,
) -> Seq<Point2D> {
    Seq::new(
        noise.len(),
        |i: int|
            Point2D {
                x: (noise[i].x + increment_s(radii[i], angles[i], scale[i]).x) as i64,
                y: (noise[i].y + increment_s(radii[i], angles[i], scale[i]).y) as i64,
            },
    )
}

/// All samples of one spline fit, in order.
pub open spec fn fit_seq_s(poly: Seq<Point2D>, g: int, s: int) -> Seq<Point2D> {
    Seq::new((s + 1) as nat, |j: int| fit_at_s(poly, g, s, j))
}

/// A batch with the fixed recentering offset added to every point.
pub open spec fn recenter_s(pts: Seq<Point2D>) -> Seq<Point2D> {
    Seq::new(
        pts.len(),
        |i: int| Point2D { x: (pts[i].x + FP_HALF) as i64, y: (pts[i].y + FP_HALF) as i64 },
    )
}

/// One polar increment; mirrors `increment_s` and stays within three units.
fn polar_increment(radius: i64, angle: i64, sc: i64) -> (p: Point2D)
    requires
        FP_ONE < radius <= 3 * (FP_ONE as int),
        0 <= angle < FULL_TURN,
        abs_s(sc as int) <= FP_ONE,
    ensures
        p == increment_s(radius, angle, sc),
        p.bounded_s(3 * (FP_ONE as int)),
{
    proof {
        lemma_abs_mul_bound(radius as int, sc as int, 3 * (FP_ONE as int), FP_ONE as int);
        lemma_div_f_abs(radius as int * sc as int, 3 * (FP_ONE as int) * (FP_ONE as int));
        assert((3 * (FP_ONE as int) * (FP_ONE as int)) / (FP_ONE as int) == 3 * (FP_ONE as int))
            by (nonlinear_arith);
    }
    let rs: i64 = fmul(radius, sc);
    let c: i64 = fxcos(angle);
    let s: i64 = fxsin(angle);
    proof {
        lemma_abs_mul_bound(rs as int, c as int, 3 * (FP_ONE as int), FP_ONE as int);
        lemma_div_f_abs(rs as int * c as int, 3 * (FP_ONE as int) * (FP_ONE as int));
        lemma_abs_mul_bound(rs as int, s as int, 3 * (FP_ONE as int), FP_ONE as int);
        lemma_div_f_abs(rs as int * s as int, 3 * (FP_ONE as int) * (FP_ONE as int));
        assert((3 * (FP_ONE as int) * (FP_ONE as int)) / (FP_ONE as int) == 3 * (FP_ONE as int))
            by (nonlinear_arith);
    }
    Point2D { x: fmul(rs, c), y: fmul(rs, s) }
}

/// Draws the raw magnitude of one increment: a uniform value in `[-2, 0)`
/// subtracted from one, so the magnitude always lies in `(1, 3]` before any
/// scaling.
pub fn draw_radius(rng: &mut rand::rngs::StdRng) -> (r: i64)
    ensures
        FP_ONE < r <= 3 * (FP_ONE as int),
{
    let u: i64 = rng_range_i64(rng, -2 * FP_ONE, 0);
    FP_ONE - u
}

/// Draws one uniform angle, reduced to `[0, FULL_TURN)`.
pub fn draw_angle(rng: &mut rand::rngs::StdRng) -> (r: i64)
    ensures
        0 <= r < FULL_TURN,
{
    rng_range_i64(rng, 0, FULL_TURN)
}

/// The random-walk generator's whole state.
pub struct NoiseWalker {
    /// The immutable base control polygon; never mutated after construction.
    pub base: Vec<Point2D>,
    /// One cumulative offset per control point; starts at zero, never reset.
    pub noise: Vec<Point2D>,
    /// Per-point cap profile for each step's increment.
    pub scale: Vec<i64>,
    /// Output segments of every spline fit.
    pub segments: u32,
    /// Spline tension.
    pub tension: i64,
    /// Steps taken so far.
    pub step: u64,
    /// The last interpolated snapshot, before recentering.
    pub interp: Vec<Point2D>,
}

impl NoiseWalker {
    /// Well-formed: the three per-point sequences share one fixed length,
    /// every stored value stays in its range, and the snapshot has one point
    /// per sampled segment boundary.
    pub open spec fn wf(self) -> bool {
        &&& 2 <= self.base@.len() <= PNUM_LIMIT
        &&& self.noise@.len() == self.base@.len()
        &&& self.scale@.len() == self.base@.len()
        &&& all_bounded_s(self.base@, BASE_LIMIT as int)
        &&& all_bounded_s(self.noise@, NOISE_LIMIT as int)
        &&& forall|i: int|
            0 <= i < self.scale@.len() ==> abs_s(#[trigger] self.scale@[i] as int) <= FP_ONE
        &&& 0 <= self.tension <= FP_ONE
        &&& 2 <= self.segments <= SEG_LIMIT
        &&& self.interp@.len() == self.segments + 1
    }

    /// Everything a step never touches.
    pub open spec fn same_config_s(self, other: NoiseWalker) -> bool {
        &&& self.base@ == other.base@
        &&& self.scale@ == other.scale@
        &&& self.segments == other.segments
        &&& self.tension == other.tension
    }
}

/// A freshly constructed walker: the given base polygon and scale profile,
/// zero noise, the configured spline parameters, and no steps taken.
pub open spec fn walker_init_s(
    w: NoiseWalker,
    base: Seq<Point2D>,
    scale: Seq<i64>,
    segments: u32,
    tension: i64,
) -> bool {
    &&& w.base@ == base
    &&& w.scale@ == scale
    &&& w.segments == segments
    &&& w.tension == tension
    &&& w.step == 0
    &&& w.noise@.len() == base.len()
    &&& forall|i: int| 0 <= i < w.noise@.len() ==> #[trigger] w.noise@[i] == (Point2D { x: 0, y: 0 })
}

/// One chain link: the later state and the batch arise from the earlier
/// state by one step under some in-range draws.
pub open spec fn chain_step_s(pre: NoiseWalker, post: NoiseWalker, batch: Seq<Point2D>) -> bool {
    exists|radii: Seq<i64>, angles: Seq<i64>| advance_rel_s(pre, post, batch, radii, angles)
}

/// A completed run of walker steps: state `k + 1` and batch `k` arise from
/// state `k` by one step under some in-range draws.
pub open spec fn walk_chain_s(states: Seq<NoiseWalker>, batches: Seq<Seq<Point2D>>) -> bool {
    &&& states.len() == batches.len() + 1
    &&& forall|k: int|
        0 <= k < batches.len() ==> #[trigger] chain_step_s(states[k], states[k + 1], batches[k])
}

/// An empty run is a chain of its initial state alone.
pub proof fn lemma_walk_chain_empty(w: NoiseWalker)
    ensures
        walk_chain_s(seq![w], Seq::<Seq<Point2D>>::empty()),
{
}

/// Extending a run by one step extends its chain.
pub proof fn lemma_walk_chain_snoc(
    states: Seq<NoiseWalker>,
    hist: Seq<Seq<Point2D>>,
    w2: NoiseWalker,
    b: Seq<Point2D>,
)
    requires
        walk_chain_s(states, hist),
        chain_step_s(states[states.len() - 1], w2, b),
    ensures
        walk_chain_s(states.push(w2), hist.push(b)),
{
    assert forall|k: int|
        0 <= k < hist.push(b).len() implies #[trigger] chain_step_s(
        states.push(w2)[k],
        states.push(w2)[k + 1],
        hist.push(b)[k],
    ) by {
        if k < hist.len() {
            assert(states.push(w2)[k] == states[k]);
            assert(states.push(w2)[k + 1] == states[k + 1]);
            assert(hist.push(b)[k] == hist[k]);
            assert(chain_step_s(states[k], states[k + 1], hist[k]));
        } else {
            assert(states.push(w2)[k] == states[states.len() - 1]);
            assert(states.push(w2)[k + 1] == w2);
            assert(hist.push(b)[k] == b);
        }
    }
}

/// One draw per control point, each magnitude in the walk's open-closed
/// interval, each angle reduced to one turn.
pub open spec fn draws_in_range_s(n: int, radii: Seq<i64>, angles: Seq<i64>) -> bool {
    &&& radii.len() == n
    &&& angles.len() == n
    &&& forall|i: int| 0 <= i < radii.len() ==> FP_ONE < #[trigger] radii[i] <= 3 * (FP_ONE as int)
    &&& forall|i: int| 0 <= i < angles.len() ==> 0 <= #[trigger] angles[i] < FULL_TURN
}

/// In-range draws whose accumulated increments would leave the noise range:
/// the step that draws them fails with `OutOfRange`.
pub open spec fn draws_escape_s(pre: NoiseWalker, radii: Seq<i64>, angles: Seq<i64>) -> bool {
    &&& draws_in_range_s(pre.base@.len() as int, radii, angles)
    &&& !all_bounded_s(noise_step_s(pre.noise@, radii, angles, pre.scale@), NOISE_LIMIT as int)
}

/// In-range draws under which the perturbed polygon carries two coincident
/// consecutive points: the step that draws them fails as a degenerate fit.
pub open spec fn draws_degenerate_s(pre: NoiseWalker, radii: Seq<i64>, angles: Seq<i64>) -> bool {
    &&& draws_in_range_s(pre.base@.len() as int, radii, angles)
    &&& all_bounded_s(noise_step_s(pre.noise@, radii, angles, pre.scale@), NOISE_LIMIT as int)
    &&& has_dup_s(perturbed_s(pre.base@, noise_step_s(pre.noise@, radii, angles, pre.scale@)))
}

/// One whole step given its draws: `radii` and `angles` carry one value per
/// control point.  Relates the pre- and post-state and the returned batch.
pub open spec fn advance_rel_s(
    pre: NoiseWalker,
    post: NoiseWalker,
    batch: Seq<Point2D>,
    radii: Seq<i64>,
    angles: Seq<i64>,
) -> bool {
    &&& draws_in_range_s(pre.base@.len() as int, radii, angles)
    &&& post.noise@ == noise_step_s(pre.noise@, radii, angles, pre.scale@)
    &&& post.interp@ == fit_seq_s(
        perturbed_s(pre.base@, post.noise@),
        pre.tension as int,
        pre.segments as int,
    )
    &&& batch == recenter_s(post.interp@)
    &&& post.step == pre.step + 1
}

impl NoiseWalker {
    /// Builds a walker: zero noise, the given profile and spline parameters,
    /// and the first interpolated snapshot computed immediately.
    pub fn new(path: Vec<Point2D>, segments: u32, scale: Vec<i64>, tension: i64) -> (r: Result<
        NoiseWalker,
        GenerationError,
    >)
        requires
            all_bounded_s(path@, BASE_LIMIT as int),
            scale@.len() == path@.len(),
            forall|i: int| 0 <= i < scale@.len() ==> abs_s(#[trigger] scale@[i] as int) <= FP_ONE,
            0 <= tension <= FP_ONE,
            2 <= segments <= SEG_LIMIT,
            path@.len() <= PNUM_LIMIT,
        ensures
            r.is_ok() <==> path@.len() >= 2 && !has_dup_s(path@),
            path@.len() < 2 ==> r == Result::<NoiseWalker, GenerationError>::Err(
                GenerationError::TooFewPoints,
            ),
            path@.len() >= 2 && has_dup_s(path@) ==> r == Result::<NoiseWalker,
                GenerationError>::Err(GenerationError::DegeneratePolygon),
            r matches Ok(w) ==> {
                &&& w.wf()
                &&& walker_init_s(w, path@, scale@, segments, tension)
                &&& w.interp@ == fit_seq_s(path@, tension as int, segments as int)
            },
    {
        proof {
            assert forall|k: int|
                0 <= k < path@.len() implies #[trigger] path@[k].bounded_s(COORD_LIMIT as int) by {
                assert(path@[k].bounded_s(BASE_LIMIT as int));
            }
        }
        let first = fit(&path, tension, segments);
        match first {
            Err(e) => Err(e),
            Ok(interp) => {
                let n: usize = path.len();
                let mut noise: Vec<Point2D> = Vec::new();
                let mut i: usize = 0;
                while i < n
                    invariant
                        0 <= i <= n,
                        noise@.len() == i,
                        forall|j: int|
                            0 <= j < i ==> #[trigger] noise@[j] == (Point2D { x: 0, y: 0 }),
                    decreases n - i,
                {
                    noise.push(Point2D { x: 0, y: 0 });
                    i = i + 1;
                }
                proof {
                    assert(interp@ =~= fit_seq_s(path@, tension as int, segments as int));
                }
                Ok(
                    NoiseWalker {
                        base: path,
                        noise,
                        scale,
                        segments,
                        tension,
                        step: 0,
                        interp,
                    },
                )
            },
        }
    }

    /// One step with its draws supplied: accumulates the increments, fits
    /// the spline through the perturbed polygon, and returns the recentered
    /// batch.  On any error the walker is left exactly as it was: an
    /// increment that would leave the representable range is `OutOfRange`,
    /// and a perturbed polygon with coincident consecutive points is a
    /// degenerate fit.
    pub fn advance_with(&mut self, radii: &Vec<i64>, angles: &Vec<i64>) -> (r: Result<
        Vec<Point2D>,
        GenerationError,
    >)
        requires
            old(self).wf(),
            old(self).step < 0xffff_ffff_ffff_ffff,
            radii@.len() == old(self).base@.len(),
            angles@.len() == old(self).base@.len(),
            forall|i: int|
                0 <= i < radii@.len() ==> FP_ONE < #[trigger] radii@[i] <= 3 * (FP_ONE as int),
            forall|i: int| 0 <= i < angles@.len() ==> 0 <= #[trigger] angles@[i] < FULL_TURN,
        ensures
            final(self).wf(),
            old(self).same_config_s(*final(self)),
            r matches Err(e) ==> {
                &&& *final(self) == *old(self)
                &&& (e == GenerationError::OutOfRange || e == GenerationError::DegeneratePolygon)
                &&& (e == GenerationError::OutOfRange <==> !all_bounded_s(
                    noise_step_s(old(self).noise@, radii@, angles@, old(self).scale@),
                    NOISE_LIMIT as int,
                ))
                &&& (e == GenerationError::DegeneratePolygon <==> draws_degenerate_s(
                    *old(self),
                    radii@,
                    angles@,
                ))
            },
            r matches Ok(batch) ==> {
                &&& advance_rel_s(*old(self), *final(self), batch@, radii@, angles@)
                &&& batch@.len() == old(self).segments + 1
            },
    {
        let n: usize = self.base.len();
        let ghost nn = noise_step_s(old(self).noise@, radii@, angles@, old(self).scale@);
        let mut new_noise: Vec<Point2D> = Vec::new();
        let mut i: usize = 0;
        while i < n
            invariant
                0 <= i <= n,
                self == old(self),
                old(self).wf(),
                n == old(self).base@.len(),
                radii@.len() == n,
                angles@.len() == n,
                forall|k: int|
                    0 <= k < radii@.len() ==> FP_ONE < #[trigger] radii@[k] <= 3 * (
                    FP_ONE as int),
                forall|k: int| 0 <= k < angles@.len() ==> 0 <= #[trigger] angles@[k] < FULL_TURN,
                nn == noise_step_s(old(self).noise@, radii@, angles@, old(self).scale@),
                new_noise@.len() == i,
                forall|k: int| 0 <= k < i ==> #[trigger] new_noise@[k] == nn[k],
                all_bounded_s(new_noise@, NOISE_LIMIT as int),
            decreases n - i,
        {
            proof {
                assert(old(self).noise@[i as int].bounded_s(NOISE_LIMIT as int));
                assert(abs_s(old(self).scale@[i as int] as int) <= FP_ONE);
            }
            let inc = polar_increment(radii[i], angles[i], self.scale[i]);
            let nx: i64 = self.noise[i].x + inc.x;
            let ny: i64 = self.noise[i].y + inc.y;
            if nx > NOISE_LIMIT || nx < -NOISE_LIMIT || ny > NOISE_LIMIT || ny < -NOISE_LIMIT {
                proof {
                    assert(nn[i as int].x == nx && nn[i as int].y == ny);
                    assert(!nn[i as int].bounded_s(NOISE_LIMIT as int));
                }
                return Err(GenerationError::OutOfRange);
            }
            new_noise.push(Point2D { x: nx, y: ny });
            proof {
                assert(new_noise@[i as int] == nn[i as int]);
            }
            i = i + 1;
        }
        proof {
            assert(new_noise@ =~= nn);
        }
        let mut perturbed: Vec<Point2D> = Vec::new();
        let mut i2: usize = 0;
        while i2 < n
            invariant
                0 <= i2 <= n,
                self == old(self),
                old(self).wf(),
                n == old(self).base@.len(),
                new_noise@ == nn,
                new_noise@.len() == n,
                all_bounded_s(new_noise@, NOISE_LIMIT as int),
                perturbed@.len() == i2,
                forall|k: int|
                    0 <= k < i2 ==> #[trigger] perturbed@[k] == perturbed_s(
                        old(self).base@,
                        nn,
                    )[k],
                all_bounded_s(perturbed@, (BASE_LIMIT + NOISE_LIMIT) as int),
            decreases n - i2,
        {
            proof {
                assert(old(self).base@[i2 as int].bounded_s(BASE_LIMIT as int));
                assert(new_noise@[i2 as int].bounded_s(NOISE_LIMIT as int));
            }
            let px: i64 = self.base[i2].x + new_noise[i2].x;
            let py: i64 = self.base[i2].y + new_noise[i2].y;
            perturbed.push(Point2D { x: px, y: py });
            proof {
                assert(perturbed@[i2 as int] == perturbed_s(old(self).base@, nn)[i2 as int]);
            }
            i2 = i2 + 1;
        }
        proof {
            assert(perturbed@ =~= perturbed_s(old(self).base@, nn));
            assert forall|k: int|
                0 <= k < perturbed@.len() implies #[trigger] perturbed@[k].bounded_s(
                COORD_LIMIT as int) by {
                assert(perturbed@[k].bounded_s((BASE_LIMIT + NOISE_LIMIT) as int));
            }
        }
        let fitted = fit(&perturbed, self.tension, self.segments);
        match fitted {
            Err(e) => {
                proof {
                    assert(perturbed@.len() >= 2);
                }
                Err(e)
            },
            Ok(v) => {
                proof {
                    assert(v@ =~= fit_seq_s(
                        perturbed_s(old(self).base@, nn),
                        old(self).tension as int,
                        old(self).segments as int,
                    ));
                }
                let m: usize = v.len();
                let mut batch: Vec<Point2D> = Vec::new();
                let mut i3: usize = 0;
                while i3 < m
                    invariant
                        0 <= i3 <= m,
                        m == v@.len(),
                        all_bounded_s(v@, FIT_LIMIT as int),
                        batch@.len() == i3,
                        forall|k: int| 0 <= k < i3 ==> #[trigger] batch@[k] == recenter_s(v@)[k],
                    decreases m - i3,
                {
                    proof {
                        assert(v@[i3 as int].bounded_s(FIT_LIMIT as int));
                    }
                    let bx: i64 = v[i3].x + FP_HALF;
                    let by: i64 = v[i3].y + FP_HALF;
                    batch.push(Point2D { x: bx, y: by });
                    proof {
                        assert(batch@[i3 as int] == recenter_s(v@)[i3 as int]);
                    }
                    i3 = i3 + 1;
                }
                proof {
                    assert(batch@ =~= recenter_s(v@));
                }
                self.noise = new_noise;
                self.interp = v;
                self.step = self.step + 1;
                Ok(batch)
            },
        }
    }

    /// One step with a fresh draw per point from the supplied random source.
    /// Whatever the draws were, the step either fails leaving the walker
    /// unchanged, or relates the old and new state by `advance_rel_s` for
    /// the drawn magnitudes and angles.
    pub fn advance(&mut self, rng: &mut rand::rngs::StdRng) -> (r: Result<
        Vec<Point2D>,
        GenerationError,
    >)
        requires
            old(self).wf(),
            old(self).step < 0xffff_ffff_ffff_ffff,
        ensures
            final(self).wf(),
            old(self).same_config_s(*final(self)),
            r matches Err(e) ==> {
                &&& *final(self) == *old(self)
                &&& (e == GenerationError::OutOfRange || e == GenerationError::DegeneratePolygon)
                &&& (e == GenerationError::OutOfRange ==> exists|radii: Seq<i64>, angles: Seq<i64>|
                    draws_escape_s(*old(self), radii, angles))
                &&& (e == GenerationError::DegeneratePolygon ==> exists|
                    radii: Seq<i64>,
                    angles: Seq<i64>,
                |
                    draws_degenerate_s(*old(self), radii, angles))
            },
            r matches Ok(batch) ==> {
                &&& batch@.len() == old(self).segments + 1
                &&& final(self).step == old(self).step + 1
                &&& exists|radii: Seq<i64>, angles: Seq<i64>|
                    advance_rel_s(*old(self), *final(self), batch@, radii, angles)
            },
    {
        let n: usize = self.base.len();
        let mut radii: Vec<i64> = Vec::new();
        let mut angles: Vec<i64> = Vec::new();
        let mut i: usize = 0;
        while i < n
            invariant
                0 <= i <= n,
                self == old(self),
                radii@.len() == i,
                angles@.len() == i,
                forall|k: int|
                    0 <= k < i ==> FP_ONE < #[trigger] radii@[k] <= 3 * (FP_ONE as int),
                forall|k: int| 0 <= k < i ==> 0 <= #[trigger] angles@[k] < FULL_TURN,
            decreases n - i,
        {
            let r = draw_radius(rng);
            let a = draw_angle(rng);
            radii.push(r);
            angles.push(a);
            i = i + 1;
        }
        let out = self.advance_with(&radii, &angles);
        proof {
            if out is Ok {
                let batch = out->Ok_0;
                assert(advance_rel_s(*old(self), *self, batch@, radii@, angles@));
            } else {
                let e = out->Err_0;
                if e == GenerationError::OutOfRange {
                    assert(draws_escape_s(*old(self), radii@, angles@));
                } else {
                    assert(draws_degenerate_s(*old(self), radii@, angles@));
                }
            }
        }
        out
    }
}

} // verus!
