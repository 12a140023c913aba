//! The fill drivers: each one runs a generator against a screen, batch by
//! batch.  A generation failure aborts the one driver that hit it and leaves
//! the screen with whatever was already composited; nothing is retried.

use vstd::prelude::*;
use crate::errors::{ConfigError, GenerationError};
use crate::fixed::{FP_HALF, FP_ONE, FULL_TURN, abs_s};
use crate::geom::{BASE_LIMIT, PNUM_LIMIT, Point2D, SEG_LIMIT, all_bounded_s};
use crate::pathgen::{Harmonic, generate_circle, generate_harmonic, harmonic_pt_s};
use crate::rng::{rng_range_i64, rng_range_usize};
use crate::screen::{Screen, composite_seq_s, composited_from_s,
    drove_batches_s, lemma_composite_batches_snoc, lemma_composited_refl, lemma_composited_trans};
use crate::spline::fit;
use crate::walker::{NoiseWalker, chain_step_s, fit_seq_s, recenter_s, walk_chain_s,
    walker_init_s};

verus! {

/// The generation configuration of the circle- and harmonic-spline drivers.
#[derive(Clone, Copy, PartialEq, Eq, Structural, Debug)]
pub struct CircleSplineOpts {
    /// Step size of the scale profile, in fixed point.
    pub stp: i64,
    /// Interpolation segments of every spline fit.
    pub inum: u32,
    /// Lower bound (inclusive) of the control-point count draw.
    pub pnum_from: usize,
    /// Upper bound (exclusive) of the control-point count draw.
    pub pnum_to: usize,
    /// Walker steps to run.
    pub iterations: usize,
}

impl CircleSplineOpts {
    /// A usable configuration: a nonempty point-count range of at least two
    /// points, at least two segments, a positive step small enough that the
    /// scale profile stays within one unit.
    pub open spec fn valid_s(self) -> bool {
        &&& 2 <= self.pnum_from < self.pnum_to
        &&& self.pnum_to <= PNUM_LIMIT
        &&& 2 <= self.inum <= SEG_LIMIT
        &&& 1 <= self.stp
        &&& (self.pnum_to as int) * (self.stp as int) <= 2 * (FP_ONE as int)
    }

    /// Validates the configuration, as construction-time checking: every
    /// violated rule is fatal before any generation starts.
    pub fn validate(&self) -> (r: Result<(), ConfigError>)
        ensures
            r.is_ok() <==> self.valid_s(),
            !(2 <= self.pnum_from < self.pnum_to && self.pnum_to <= PNUM_LIMIT) ==> r
                == Result::<(), ConfigError>::Err(ConfigError::InvalidPointRange),
            (2 <= self.pnum_from < self.pnum_to && self.pnum_to <= PNUM_LIMIT) && !(2 <= self.inum
                <= SEG_LIMIT) ==> r == Result::<(), ConfigError>::Err(ConfigError::InvalidSegments),
            (2 <= self.pnum_from < self.pnum_to && self.pnum_to <= PNUM_LIMIT) && (2 <= self.inum
                <= SEG_LIMIT) && !(1 <= self.stp && (self.pnum_to as int) * (self.stp as int) <= 2
                * (FP_ONE as int)) ==> r == Result::<(), ConfigError>::Err(
                ConfigError::InvalidStep,
            ),
    {
        if !(2 <= self.pnum_from && self.pnum_from < self.pnum_to && self.pnum_to <= PNUM_LIMIT) {
            return Err(ConfigError::InvalidPointRange);
        }
        if !(2 <= self.inum && self.inum <= SEG_LIMIT) {
            return Err(ConfigError::InvalidSegments);
        }
        if self.stp < 1 {
            return Err(ConfigError::InvalidStep);
        }
        if self.stp > 2 * FP_ONE {
            proof {
                assert((self.pnum_to as int) * (self.stp as int) > 2 * (FP_ONE as int))
                    by (nonlinear_arith)
                    requires
                        self.pnum_to as int >= 2,
                        self.stp as int > 2 * (FP_ONE as int),
                ;
            }
            return Err(ConfigError::InvalidStep);
        }
        proof {
            assert(0 <= (self.pnum_to as int) * (self.stp as int) <= 0x7fff_ffff_ffff_ffffint)
                by (nonlinear_arith)
                requires
                    2 <= self.pnum_to as int <= PNUM_LIMIT as int,
                    1 <= self.stp as int <= 2 * (FP_ONE as int),
            ;
        }
        if (self.pnum_to as i64) * self.stp > 2 * FP_ONE {
            return Err(ConfigError::InvalidStep);
        }
        Ok(())
    }
}

/// Entry `i` of the scale profile: a symmetric linear range around zero with
/// step `stp`.
pub open spec fn profile_at_s(n: int, stp: i64, i: int) -> i64 {
    (-((n * (stp as int)) / 2) + i * (stp as int)) as i64
}

/// Builds the scale profile for `n` points: `n` values stepping by `stp`
/// from minus half the total span, each within one unit.
pub fn scale_profile(n: usize, stp: i64) -> (v: Vec<i64>)
    requires
        1 <= stp,
        2 <= n <= PNUM_LIMIT,
        (n as int) * (stp as int) <= 2 * (FP_ONE as int),
    ensures
        v@.len() == n,
        forall|i: int| 0 <= i < n ==> #[trigger] v@[i] == profile_at_s(n as int, stp, i),
        forall|i: int| 0 <= i < n ==> abs_s(#[trigger] v@[i] as int) <= FP_ONE,
{
    proof {
        vstd::arithmetic::mul::lemma_mul_strictly_positive(n as int, stp as int);
    }
    let total: i64 = (n as i64) * stp;
    let start: i64 = -(total / 2);
    let mut v: Vec<i64> = Vec::new();
    let mut i: usize = 0;
    while i < n
        invariant
            1 <= stp,
            2 <= n <= PNUM_LIMIT,
            0 < total == (n as int) * (stp as int) <= 2 * (FP_ONE as int),
            start == -((total as int) / 2),
            0 <= i <= n,
            v@.len() == i,
            forall|k: int| 0 <= k < i ==> #[trigger] v@[k] == profile_at_s(n as int, stp, k),
            forall|k: int| 0 <= k < i ==> abs_s(#[trigger] v@[k] as int) <= FP_ONE,
        decreases n - i,
    {
        proof {
            vstd::arithmetic::mul::lemma_mul_nonnegative(i as int, stp as int);
            vstd::arithmetic::mul::lemma_mul_inequality(i as int, (n as int) - 1, stp as int);
            assert(((n as int) - 1) * (stp as int) <= (n as int) * (stp as int))
                by (nonlinear_arith)
                requires
                    stp >= 1,
                    n as int >= 1,
            ;
            vstd::arithmetic::div_mod::lemma_fundamental_div_mod(total as int, 2);
            vstd::arithmetic::div_mod::lemma_mod_division_less_than_divisor(total as int, 2);
        }
        let entry: i64 = start + (i as i64) * stp;
        v.push(entry);
        proof {
            assert(v@[i as int] == profile_at_s(n as int, stp, i as int));
            assert(abs_s(entry as int) <= FP_ONE);
        }
        i = i + 1;
    }
    v
}

/// The batch the circle feeder computes for one radius and phase draw: the
/// ten-thousand-point circle, recentered by half a unit on both axes.
pub open spec fn circle_batch_s(radius: i64, phase: i64) -> Seq<Point2D> {
    recenter_s(Seq::new(10000nat, |i: int| crate::pathgen::circle_pt_s(10000, radius, phase, i)))
}

/// The walker behind one circle-spline run, with everything that seeded it:
/// a circle base polygon of `pnum` points at the drawn radius and phase, the
/// symmetric scale profile, the configured segment count, and the default
/// tension; each history batch is one of its steps, in order.
pub open spec fn circle_seeded_s(
    opts: CircleSplineOpts,
    radius: i64,
    pnum: usize,
    phase: i64,
    states: Seq<NoiseWalker>,
    hist: Seq<Seq<Point2D>>,
) -> bool {
    &&& FP_ONE / 10 <= radius < 2 * ((FP_ONE as int) / 5)
    &&& opts.pnum_from <= pnum < opts.pnum_to
    &&& 0 <= phase < FULL_TURN
    &&& states.len() == hist.len() + 1
    &&& walker_init_s(
        states[0],
        Seq::new(pnum as nat, |j: int| crate::pathgen::circle_pt_s(pnum as int, radius, phase, j)),
        Seq::new(pnum as nat, |j: int| profile_at_s(pnum as int, opts.stp, j)),
        opts.inum,
        FP_HALF,
    )
    &&& walk_chain_s(states, hist)
}

/// Some drawn seed and walker chain produced this history.
pub open spec fn circle_walk_s(opts: CircleSplineOpts, hist: Seq<Seq<Point2D>>) -> bool {
    exists|radius: i64, pnum: usize, phase: i64, states: Seq<NoiseWalker>|
        #[trigger] circle_seeded_s(opts, radius, pnum, phase, states, hist)
}

/// The whole observable behaviour of one circle-spline driver run: the
/// screen advanced by compositing exactly the batches of some history, one
/// walker step each; a successful run composited one batch per configured
/// iteration; a failed step composited nothing of its own.
pub open spec fn circle_splines_run_s(
    pre: Screen,
    post: Screen,
    opts: CircleSplineOpts,
    ok: bool,
) -> bool {
    exists|hist: Seq<Seq<Point2D>>|
        {
            &&& #[trigger] drove_batches_s(pre, post, hist)
            &&& hist.len() <= opts.iterations
            &&& (ok ==> hist.len() == opts.iterations)
            &&& forall|k: int| 0 <= k < hist.len() ==> (#[trigger] hist[k]).len() == opts.inum + 1
            &&& (ok || hist.len() > 0 ==> circle_walk_s(opts, hist))
        }
}

/// The computed part of the circle feeder: one recentered circle path of ten
/// thousand points, with a one-time radius and phase draw.  Whatever was
/// drawn, the radius stays in `[0.1, 0.5)` and every point is the circle
/// point for those draws, shifted by half a unit on both axes.
pub fn fill_circle(rng: &mut rand::rngs::StdRng) -> (v: Vec<Point2D>)
    ensures
        v@.len() == 10000,
        exists|radius: i64, phase: i64|
            {
                &&& FP_ONE / 10 <= radius < FP_ONE / 2
                &&& 0 <= phase < FULL_TURN
                &&& v@ == #[trigger] circle_batch_s(radius, phase)
            },
{
    let radius: i64 = rng_range_i64(rng, FP_ONE / 10, FP_ONE / 2);
    let phase: i64 = rng_range_i64(rng, 0, FULL_TURN);
    let path = match generate_circle(10000, radius, phase) {
        Ok(p) => p,
        Err(_) => {
            proof {
                assert(false);
            }
            Vec::new()
        },
    };
    let ghost circle = Seq::new(10000nat, |i: int| crate::pathgen::circle_pt_s(10000, radius,
        phase, i));
    proof {
        assert(path@ =~= circle);
        assert forall|k: int|
            0 <= k < path@.len() implies (#[trigger] path@[k]).bounded_s(BASE_LIMIT as int) by {
            assert(path@[k].bounded_s(radius as int));
        }
    }
    let n: usize = path.len();
    let mut v: Vec<Point2D> = Vec::new();
    let mut i: usize = 0;
    while i < n
        invariant
            0 <= i <= n,
            n == path@.len() == 10000,
            all_bounded_s(path@, BASE_LIMIT as int),
            v@.len() == i,
            forall|k: int| 0 <= k < i ==> #[trigger] v@[k] == recenter_s(path@)[k],
        decreases n - i,
    {
        proof {
            assert(path@[i as int].bounded_s(BASE_LIMIT as int));
        }
        v.push(Point2D { x: path[i].x + FP_HALF, y: path[i].y + FP_HALF });
        proof {
            assert(v@[i as int] == recenter_s(path@)[i as int]);
        }
        i = i + 1;
    }
    proof {
        assert(v@ =~= recenter_s(path@));
        assert(path@ =~= Seq::new(10000nat, |k: int| crate::pathgen::circle_pt_s(10000, radius,
            phase, k)));
        assert(v@ == circle_batch_s(radius, phase));
    }
    v
}

/// The computed part of the random feeder: five points drawn uniformly from
/// the unit square, every one of them in range.
pub fn fill_rand(rng: &mut rand::rngs::StdRng) -> (v: Vec<Point2D>)
    ensures
        v@.len() == 5,
        forall|i: int| 0 <= i < v@.len() ==> (#[trigger] v@[i]).in_unit_s(),
{
    let mut v: Vec<Point2D> = Vec::new();
    let mut i: usize = 0;
    while i < 5
        invariant
            0 <= i <= 5,
            v@.len() == i,
            forall|k: int| 0 <= k < i ==> (#[trigger] v@[k]).in_unit_s(),
        decreases 5 - i,
    {
        let x: i64 = rng_range_i64(rng, 0, FP_ONE);
        let y: i64 = rng_range_i64(rng, 0, FP_ONE);
        v.push(Point2D { x, y });
        i = i + 1;
    }
    v
}

/// Runs one circle-seeded walker against the screen: a one-time radius,
/// point-count and phase draw, then `iterations` steps, each composited as
/// one batch.  A failed step stops this driver; the screen keeps what was
/// already composited, and every change to it was a blend under the
/// foreground color.
pub fn fill_circle_splines(
    screen: &mut Screen,
    opts: &CircleSplineOpts,
    rng: &mut rand::rngs::StdRng,
) -> (r: Result<(), GenerationError>)
    requires
        old(screen).wf(),
        opts.valid_s(),
    ensures
        final(screen).wf(),
        composited_from_s(*old(screen), *final(screen)),
        circle_splines_run_s(*old(screen), *final(screen), *opts, r.is_ok()),
        r matches Err(e) ==> (e == GenerationError::DegeneratePolygon || e
            == GenerationError::OutOfRange),
{
    proof {
        lemma_composited_refl(*old(screen));
    }
    let radius: i64 = rng_range_i64(rng, FP_ONE / 10, 2 * (FP_ONE / 5));
    let pnum: usize = rng_range_usize(rng, opts.pnum_from, opts.pnum_to);
    let phase: i64 = rng_range_i64(rng, 0, FULL_TURN);
    let ghost base_seq = Seq::new(pnum as nat, |j: int| crate::pathgen::circle_pt_s(pnum as int,
        radius, phase, j));
    let ghost prof_seq = Seq::new(pnum as nat, |j: int| profile_at_s(pnum as int, opts.stp, j));
    let path = match generate_circle(pnum, radius, phase) {
        Ok(p) => p,
        Err(e) => {
            proof {
                assert(false);
            }
            return Err(e);
        },
    };
    proof {
        vstd::arithmetic::mul::lemma_mul_inequality(pnum as int, opts.pnum_to as int,
            opts.stp as int);
    }
    let profile = scale_profile(pnum, opts.stp);
    proof {
        assert(path@ =~= base_seq);
        assert(profile@ =~= prof_seq);
        assert forall|k: int|
            0 <= k < path@.len() implies (#[trigger] path@[k]).bounded_s(BASE_LIMIT as int) by {
            assert(path@[k].bounded_s(radius as int));
        }
    }
    let mut walker = match NoiseWalker::new(path, opts.inum, profile, FP_HALF) {
        Ok(w) => w,
        Err(e) => {
            proof {
                let hist0 = Seq::<Seq<Point2D>>::empty();
                assert(drove_batches_s(*old(screen), *screen, hist0));
                assert(circle_splines_run_s(*old(screen), *screen, *opts, false));
            }
            return Err(e);
        },
    };
    let ghost mut hist: Seq<Seq<Point2D>> = Seq::empty();
    let ghost mut states: Seq<NoiseWalker> = seq![walker];
    proof {
        crate::walker::lemma_walk_chain_empty(walker);
        assert(drove_batches_s(*old(screen), *screen, hist));
    }
    let mut it: usize = 0;
    while it < opts.iterations
        invariant
            0 <= it <= opts.iterations,
            opts.valid_s(),
            walker.wf(),
            walker.step == it,
            walker.segments == opts.inum,
            screen.wf(),
            old(screen).wf(),
            composited_from_s(*old(screen), *screen),
            FP_ONE / 10 <= radius < 2 * ((FP_ONE as int) / 5),
            opts.pnum_from <= pnum < opts.pnum_to,
            0 <= phase < FULL_TURN,
            base_seq == Seq::new(pnum as nat, |j: int| crate::pathgen::circle_pt_s(pnum as int,
                radius, phase, j)),
            prof_seq == Seq::new(pnum as nat, |j: int| profile_at_s(pnum as int, opts.stp, j)),
            hist.len() == it,
            states.len() == it + 1,
            states[it as int] == walker,
            walker_init_s(states[0], base_seq, prof_seq, opts.inum, FP_HALF),
            walk_chain_s(states, hist),
            forall|k: int| 0 <= k < hist.len() ==> (#[trigger] hist[k]).len() == opts.inum + 1,
            drove_batches_s(*old(screen), *screen, hist),
        decreases opts.iterations - it,
    {
        let ghost pre = *screen;
        let ghost wpre = walker;
        let batch = match walker.advance(rng) {
            Ok(b) => b,
            Err(e) => {
                proof {
                    assert(circle_seeded_s(*opts, radius, pnum, phase, states, hist));
                    assert(circle_walk_s(*opts, hist));
                    assert(circle_splines_run_s(*old(screen), *screen, *opts, false));
                }
                return Err(e);
            },
        };
        screen.send_buf(&batch);
        proof {
            assert(composited_from_s(pre, *screen)) by {
                assert(screen.buffer@ == composite_seq_s(
                    pre.buffer@,
                    pre.width as int,
                    pre.height as int,
                    pre.fg,
                    batch@,
                ));
            }
            lemma_composited_trans(*old(screen), pre, *screen);
            lemma_composite_batches_snoc(
                old(screen).buffer@,
                old(screen).width as int,
                old(screen).height as int,
                old(screen).fg,
                hist,
                batch@,
            );
            assert(chain_step_s(wpre, walker, batch@));
            crate::walker::lemma_walk_chain_snoc(states, hist, walker, batch@);
            hist = hist.push(batch@);
            states = states.push(walker);
            assert(states[it + 1] == walker);
            assert(walker_init_s(states[0], base_seq, prof_seq, opts.inum, FP_HALF));
        }
        it = it + 1;
    }
    proof {
        assert(circle_seeded_s(*opts, radius, pnum, phase, states, hist));
        assert(circle_walk_s(*opts, hist));
        assert(circle_splines_run_s(*old(screen), *screen, *opts, true));
    }
    Ok(())
}

/// Composites one deterministic harmonic curve of ten thousand points,
/// recentered to the middle of the unit square; the screen's new contents
/// are exactly the old ones with that curve blended in.
pub fn fill_complex_circle(screen: &mut Screen, params: &Vec<Harmonic>) -> (r: Result<
    (),
    GenerationError,
>)
    requires
        old(screen).wf(),
        1 <= params@.len() <= crate::pathgen::HARMONIC_LIMIT,
        forall|k: int| 0 <= k < params@.len() ==> (#[trigger] params@[k]).valid_s(),
    ensures
        final(screen).wf(),
        r.is_ok(),
        final(screen).buffer@ == composite_seq_s(
            old(screen).buffer@,
            old(screen).width as int,
            old(screen).height as int,
            old(screen).fg,
            Seq::new(10000nat, |j: int| harmonic_pt_s(params@, 10000, FP_HALF, FP_HALF, j)),
        ),
        final(screen).width == old(screen).width,
        final(screen).height == old(screen).height,
        final(screen).fg == old(screen).fg,
{
    let path = match generate_harmonic(10000, params, FP_HALF, FP_HALF) {
        Ok(p) => p,
        Err(_) => {
            proof {
                assert(false);
            }
            Vec::new()
        },
    };
    proof {
        assert(path@ =~= Seq::new(10000nat, |j: int| harmonic_pt_s(params@, 10000, FP_HALF,
            FP_HALF, j)));
    }
    screen.send_buf(&path);
    Ok(())
}

/// The four-fifths factor every harmonic seed curve is scaled by.
pub const SEED_SCALE: i64 = 13369344;

/// A point scaled by the harmonic driver's seed factor.
pub open spec fn seed_scaled_s(p: Point2D) -> Point2D {
    Point2D {
        x: crate::fixed::fmul_s(p.x as int, SEED_SCALE as int) as i64,
        y: crate::fixed::fmul_s(p.y as int, SEED_SCALE as int) as i64,
    }
}

/// The walker behind one harmonic-spline run, with everything that seeded
/// it: the four-fifths-scaled harmonic curve over a drawn point count, the
/// symmetric scale profile, the configured segment count, and the default
/// tension; each history batch is one of its steps, in order.
pub open spec fn complex_seeded_s(
    opts: CircleSplineOpts,
    params: Seq<Harmonic>,
    pnum: usize,
    states: Seq<NoiseWalker>,
    hist: Seq<Seq<Point2D>>,
) -> bool {
    &&& opts.pnum_from <= pnum < opts.pnum_to
    &&& states.len() == hist.len() + 1
    &&& walker_init_s(
        states[0],
        Seq::new(pnum as nat, |j: int| seed_scaled_s(harmonic_pt_s(params, pnum as int, 0, 0, j))),
        Seq::new(pnum as nat, |j: int| profile_at_s(pnum as int, opts.stp, j)),
        opts.inum,
        FP_HALF,
    )
    &&& walk_chain_s(states, hist)
}

/// Some drawn point count and walker chain produced this history.
pub open spec fn complex_walk_s(
    opts: CircleSplineOpts,
    params: Seq<Harmonic>,
    hist: Seq<Seq<Point2D>>,
) -> bool {
    exists|pnum: usize, states: Seq<NoiseWalker>|
        #[trigger] complex_seeded_s(opts, params, pnum, states, hist)
}

/// The whole observable behaviour of one harmonic-spline driver run: the
/// screen advanced by compositing exactly the batches of some history, one
/// walker step each; a successful run composited one batch per configured
/// iteration; a failed step composited nothing of its own.
pub open spec fn complex_spline_run_s(
    pre: Screen,
    post: Screen,
    opts: CircleSplineOpts,
    params: Seq<Harmonic>,
    ok: bool,
) -> bool {
    exists|hist: Seq<Seq<Point2D>>|
        {
            &&& #[trigger] drove_batches_s(pre, post, hist)
            &&& hist.len() <= opts.iterations
            &&& (ok ==> hist.len() == opts.iterations)
            &&& forall|k: int| 0 <= k < hist.len() ==> (#[trigger] hist[k]).len() == opts.inum + 1
            &&& (ok || hist.len() > 0 ==> complex_walk_s(opts, params, hist))
        }
}

/// Runs one harmonic-seeded walker against the screen: the seed curve is the
/// weighted harmonic sum scaled by four fifths, the rest is the circle
/// driver's walk.  A coordinate outside the walker's range is a generation
/// error before anything is composited.
pub fn fill_complex_spline(
    screen: &mut Screen,
    opts: &CircleSplineOpts,
    params: &Vec<Harmonic>,
    rng: &mut rand::rngs::StdRng,
) -> (r: Result<(), GenerationError>)
    requires
        old(screen).wf(),
        opts.valid_s(),
        1 <= params@.len() <= crate::pathgen::HARMONIC_LIMIT,
        forall|k: int| 0 <= k < params@.len() ==> (#[trigger] params@[k]).valid_s(),
    ensures
        final(screen).wf(),
        composited_from_s(*old(screen), *final(screen)),
        complex_spline_run_s(*old(screen), *final(screen), *opts, params@, r.is_ok()),
        r matches Err(e) ==> (e == GenerationError::DegeneratePolygon || e
            == GenerationError::OutOfRange),
{
    proof {
        lemma_composited_refl(*old(screen));
    }
    let pnum: usize = rng_range_usize(rng, opts.pnum_from, opts.pnum_to);
    let ghost base_seq = Seq::new(pnum as nat, |j: int| seed_scaled_s(harmonic_pt_s(params@,
        pnum as int, 0, 0, j)));
    let ghost prof_seq = Seq::new(pnum as nat, |j: int| profile_at_s(pnum as int, opts.stp, j));
    let path0 = match generate_harmonic(pnum, params, 0, 0) {
        Ok(p) => p,
        Err(e) => {
            proof {
                assert(false);
            }
            return Err(e);
        },
    };
    let n: usize = path0.len();
    let mut path: Vec<Point2D> = Vec::new();
    let mut i: usize = 0;
    while i < n
        invariant
            0 <= i <= n,
            n == path0@.len() == pnum,
            all_bounded_s(path0@, crate::pathgen::HARM_LIMIT as int),
            forall|j: int|
                0 <= j < pnum ==> #[trigger] path0@[j] == harmonic_pt_s(params@, pnum as int, 0,
                    0, j),
            path@.len() == i,
            forall|j: int| 0 <= j < i ==> #[trigger] path@[j] == seed_scaled_s(path0@[j]),
            all_bounded_s(path@, BASE_LIMIT as int),
            screen.wf(),
            *screen == *old(screen),
            old(screen).wf(),
        decreases n - i,
    {
        proof {
            assert(path0@[i as int].bounded_s(crate::pathgen::HARM_LIMIT as int));
        }
        let p = path0[i];
        if p.x > BASE_LIMIT || p.x < -BASE_LIMIT || p.y > BASE_LIMIT || p.y < -BASE_LIMIT {
            proof {
                let hist0 = Seq::<Seq<Point2D>>::empty();
                assert(drove_batches_s(*old(screen), *screen, hist0));
                assert(complex_spline_run_s(*old(screen), *screen, *opts, params@, false));
                lemma_composited_refl(*old(screen));
            }
            return Err(GenerationError::OutOfRange);
        }
        let sx: i64 = crate::fixed::fmul(p.x, SEED_SCALE);
        let sy: i64 = crate::fixed::fmul(p.y, SEED_SCALE);
        proof {
            crate::fixed::lemma_abs_mul_bound(p.x as int, SEED_SCALE as int, BASE_LIMIT as int,
                FP_ONE as int);
            crate::fixed::lemma_div_f_abs((p.x as int) * (SEED_SCALE as int), (BASE_LIMIT as int)
                * (FP_ONE as int));
            crate::fixed::lemma_abs_mul_bound(p.y as int, SEED_SCALE as int, BASE_LIMIT as int,
                FP_ONE as int);
            crate::fixed::lemma_div_f_abs((p.y as int) * (SEED_SCALE as int), (BASE_LIMIT as int)
                * (FP_ONE as int));
            assert(((BASE_LIMIT as int) * (FP_ONE as int)) / (FP_ONE as int) == BASE_LIMIT as int)
                by (nonlinear_arith);
        }
        path.push(Point2D { x: sx, y: sy });
        proof {
            assert(path@[i as int] == seed_scaled_s(path0@[i as int]));
        }
        i = i + 1;
    }
    proof {
        assert(path@ =~= base_seq);
        vstd::arithmetic::mul::lemma_mul_inequality(pnum as int, opts.pnum_to as int,
            opts.stp as int);
    }
    let profile = scale_profile(pnum, opts.stp);
    proof {
        assert(profile@ =~= prof_seq);
    }
    let mut walker = match NoiseWalker::new(path, opts.inum, profile, FP_HALF) {
        Ok(w) => w,
        Err(e) => {
            proof {
                let hist0 = Seq::<Seq<Point2D>>::empty();
                assert(drove_batches_s(*old(screen), *screen, hist0));
                assert(complex_spline_run_s(*old(screen), *screen, *opts, params@, false));
            }
            return Err(e);
        },
    };
    let ghost mut hist: Seq<Seq<Point2D>> = Seq::empty();
    let ghost mut states: Seq<NoiseWalker> = seq![walker];
    proof {
        crate::walker::lemma_walk_chain_empty(walker);
        assert(drove_batches_s(*old(screen), *screen, hist));
    }
    let mut it: usize = 0;
    while it < opts.iterations
        invariant
            0 <= it <= opts.iterations,
            opts.valid_s(),
            walker.wf(),
            walker.step == it,
            walker.segments == opts.inum,
            screen.wf(),
            old(screen).wf(),
            composited_from_s(*old(screen), *screen),
            opts.pnum_from <= pnum < opts.pnum_to,
            base_seq == Seq::new(pnum as nat, |j: int| seed_scaled_s(harmonic_pt_s(params@,
                pnum as int, 0, 0, j))),
            prof_seq == Seq::new(pnum as nat, |j: int| profile_at_s(pnum as int, opts.stp, j)),
            hist.len() == it,
            states.len() == it + 1,
            states[it as int] == walker,
            walker_init_s(states[0], base_seq, prof_seq, opts.inum, FP_HALF),
            walk_chain_s(states, hist),
            forall|k: int| 0 <= k < hist.len() ==> (#[trigger] hist[k]).len() == opts.inum + 1,
            drove_batches_s(*old(screen), *screen, hist),
        decreases opts.iterations - it,
    {
        let ghost pre = *screen;
        let ghost wpre = walker;
        let batch = match walker.advance(rng) {
            Ok(b) => b,
            Err(e) => {
                proof {
                    assert(complex_seeded_s(*opts, params@, pnum, states, hist));
                    assert(complex_walk_s(*opts, params@, hist));
                    assert(complex_spline_run_s(*old(screen), *screen, *opts, params@, false));
                }
                return Err(e);
            },
        };
        screen.send_buf(&batch);
        proof {
            assert(composited_from_s(pre, *screen)) by {
                assert(screen.buffer@ == composite_seq_s(
                    pre.buffer@,
                    pre.width as int,
                    pre.height as int,
                    pre.fg,
                    batch@,
                ));
            }
            lemma_composited_trans(*old(screen), pre, *screen);
            lemma_composite_batches_snoc(
                old(screen).buffer@,
                old(screen).width as int,
                old(screen).height as int,
                old(screen).fg,
                hist,
                batch@,
            );
            assert(chain_step_s(wpre, walker, batch@));
            crate::walker::lemma_walk_chain_snoc(states, hist, walker, batch@);
            hist = hist.push(batch@);
            states = states.push(walker);
            assert(states[it + 1] == walker);
            assert(walker_init_s(states[0], base_seq, prof_seq, opts.inum, FP_HALF));
        }
        it = it + 1;
    }
    proof {
        assert(complex_seeded_s(*opts, params@, pnum, states, hist));
        assert(complex_walk_s(*opts, params@, hist));
        assert(complex_spline_run_s(*old(screen), *screen, *opts, params@, true));
    }
    Ok(())
}

/// The fixed configuration every run of the random-harmonic session uses.
pub open spec fn rcs_opts_s() -> CircleSplineOpts {
    CircleSplineOpts { stp: 17, inum: 200, pnum_from: 150, pnum_to: 181, iterations: 50 }
}

/// The three harmonics of one random-harmonic run, for its drawn leading
/// amplitude.
pub open spec fn rcs_params_s(amp: i64) -> Seq<Harmonic> {
    seq![
        Harmonic { amp, freq: (10 * FP_ONE) as i64, weight: (FP_ONE / 100) as i64 },
        Harmonic { amp: (3 * FP_ONE) as i64, freq: (-FP_ONE) as i64, weight: (FP_ONE / 100) as i64 },
        Harmonic { amp: FP_HALF, freq: FP_HALF, weight: (FP_ONE / 100) as i64 },
    ]
}

/// One link of the random-harmonic session: a harmonic-spline run under the
/// session configuration with an in-range drawn amplitude.
pub open spec fn rcs_step_s(pre: Screen, post: Screen, amp: i64, ok: bool) -> bool {
    &&& -5 * (FP_ONE as int) <= amp < 5 * (FP_ONE as int)
    &&& complex_spline_run_s(pre, post, rcs_opts_s(), rcs_params_s(amp), ok)
}

/// A chain of harmonic-spline runs over intermediate screens: one link per
/// drawn amplitude; a successful session ran all one hundred links, and a
/// failed session ends with its one failed link.
pub open spec fn rcs_chain_s(
    pre: Screen,
    post: Screen,
    amps: Seq<i64>,
    mids: Seq<Screen>,
    oks: Seq<bool>,
    ok: bool,
) -> bool {
    &&& mids.len() == amps.len() + 1
    &&& oks.len() == amps.len()
    &&& amps.len() <= 100
    &&& mids[0] == pre
    &&& mids[amps.len() as int] == post
    &&& forall|k: int|
        0 <= k < amps.len() ==> rcs_step_s(mids[k], mids[k + 1], #[trigger] amps[k], oks[k])
    &&& (ok ==> amps.len() == 100 && (forall|k: int| 0 <= k < oks.len() ==> #[trigger] oks[k]))
    &&& (!ok ==> amps.len() >= 1 && oks[amps.len() - 1] == false && (forall|k: int|
        0 <= k < oks.len() - 1 ==> #[trigger] oks[k]))
}

/// The whole observable behaviour of the random-harmonic session.
pub open spec fn rcs_session_s(pre: Screen, post: Screen, ok: bool) -> bool {
    exists|amps: Seq<i64>, mids: Seq<Screen>, oks: Seq<bool>|
        #[trigger] rcs_chain_s(pre, post, amps, mids, oks, ok)
}

/// One hundred harmonic-spline runs with a freshly drawn leading amplitude
/// each; the first failure stops the sequence.
pub fn random_complex_splines(screen: &mut Screen, rng: &mut rand::rngs::StdRng) -> (r: Result<
    (),
    GenerationError,
>)
    requires
        old(screen).wf(),
    ensures
        final(screen).wf(),
        composited_from_s(*old(screen), *final(screen)),
        rcs_session_s(*old(screen), *final(screen), r.is_ok()),
        r matches Err(e) ==> (e == GenerationError::DegeneratePolygon || e
            == GenerationError::OutOfRange),
{
    proof {
        lemma_composited_refl(*old(screen));
    }
    let opts = CircleSplineOpts {
        inum: 200,
        stp: 17,
        pnum_from: 150,
        pnum_to: 181,
        iterations: 50,
    };
    let ghost mut amps: Seq<i64> = Seq::empty();
    let ghost mut mids: Seq<Screen> = seq![*screen];
    let ghost mut oks: Seq<bool> = Seq::empty();
    let mut it: usize = 0;
    while it < 100
        invariant
            0 <= it <= 100,
            opts == rcs_opts_s(),
            opts.valid_s(),
            screen.wf(),
            old(screen).wf(),
            composited_from_s(*old(screen), *screen),
            amps.len() == it,
            mids.len() == it + 1,
            oks.len() == it,
            mids[0] == *old(screen),
            mids[it as int] == *screen,
            forall|k: int|
                0 <= k < amps.len() ==> rcs_step_s(mids[k], mids[k + 1], #[trigger] amps[k],
                    oks[k]),
            forall|k: int| 0 <= k < oks.len() ==> #[trigger] oks[k],
        decreases 100 - it,
    {
        let amp: i64 = rng_range_i64(rng, -5 * FP_ONE, 5 * FP_ONE);
        let mut params: Vec<Harmonic> = Vec::new();
        params.push(Harmonic { amp, freq: 10 * FP_ONE, weight: FP_ONE / 100 });
        params.push(Harmonic { amp: 3 * FP_ONE, freq: -FP_ONE, weight: FP_ONE / 100 });
        params.push(Harmonic { amp: FP_HALF, freq: FP_HALF, weight: FP_ONE / 100 });
        proof {
            assert(params@ =~= rcs_params_s(amp));
        }
        let ghost pre = *screen;
        let res = fill_complex_spline(screen, &opts, &params, rng);
        proof {
            lemma_composited_trans(*old(screen), pre, *screen);
            assert(rcs_step_s(pre, *screen, amp, res.is_ok()));
            amps = amps.push(amp);
            mids = mids.push(*screen);
            oks = oks.push(res.is_ok());
            assert(mids[it + 1] == *screen);
            assert forall|k: int|
                0 <= k < amps.len() implies rcs_step_s(mids[k], mids[k + 1], #[trigger] amps[k],
                oks[k]) by {
                if k < amps.len() - 1 {
                    assert(amps[k] == amps.drop_last()[k]);
                    assert(oks[k] == oks.drop_last()[k]);
                    assert(mids[k] == mids.drop_last()[k]);
                    assert(mids[k + 1] == mids.drop_last()[k + 1] || k + 1 == mids.len() - 1);
                }
            }
        }
        match res {
            Ok(_) => {},
            Err(e) => {
                proof {
                    assert(oks[amps.len() - 1] == false);
                    assert(rcs_chain_s(*old(screen), *screen, amps, mids, oks, false));
                    assert(rcs_session_s(*old(screen), *screen, false));
                }
                return Err(e);
            },
        }
        it = it + 1;
    }
    proof {
        assert(rcs_chain_s(*old(screen), *screen, amps, mids, oks, true));
        assert(rcs_session_s(*old(screen), *screen, true));
    }
    Ok(())
}

/// One random stroke: the spline through four points of the unit square,
/// none of them coinciding consecutively, sampled at a drawn segment count.
pub open spec fn rand_stroke_s(batch: Seq<Point2D>, cps: Seq<Point2D>, segments: int) -> bool {
    &&& cps.len() == 4
    &&& forall|m: int| 0 <= m < cps.len() ==> (#[trigger] cps[m]).in_unit_s()
    &&& !crate::geom::has_dup_s(cps)
    &&& 200 <= segments < 1800
    &&& batch == fit_seq_s(cps, FP_HALF as int, segments)
}

/// Every batch of the history is one such stroke.
pub open spec fn rand_strokes_s(
    hist: Seq<Seq<Point2D>>,
    cpss: Seq<Seq<Point2D>>,
    segs: Seq<int>,
) -> bool {
    &&& cpss.len() == hist.len()
    &&& segs.len() == hist.len()
    &&& forall|k: int| 0 <= k < hist.len() ==> rand_stroke_s(#[trigger] hist[k], cpss[k], segs[k])
}

/// The whole observable behaviour of one random-stroke driver run: the
/// screen advanced by compositing exactly some history of strokes; a
/// successful run composited all seven hundred; a degenerate draw composited
/// nothing of its own.
pub open spec fn rand_splines_run_s(pre: Screen, post: Screen, ok: bool) -> bool {
    exists|hist: Seq<Seq<Point2D>>|
        {
            &&& #[trigger] drove_batches_s(pre, post, hist)
            &&& hist.len() <= 700
            &&& (ok ==> hist.len() == 700)
            &&& exists|cpss: Seq<Seq<Point2D>>, segs: Seq<int>|
                #[trigger] rand_strokes_s(hist, cpss, segs)
        }
}

/// Seven hundred random spline strokes: each one fits the spline through
/// four points drawn from the unit square and composites a freshly drawn
/// number of samples.  The first degenerate draw stops the driver.
pub fn fill_rand_splines(screen: &mut Screen, rng: &mut rand::rngs::StdRng) -> (r: Result<
    (),
    GenerationError,
>)
    requires
        old(screen).wf(),
    ensures
        final(screen).wf(),
        composited_from_s(*old(screen), *final(screen)),
        rand_splines_run_s(*old(screen), *final(screen), r.is_ok()),
        r matches Err(e) ==> e == GenerationError::DegeneratePolygon,
{
    proof {
        lemma_composited_refl(*old(screen));
    }
    let ghost mut hist: Seq<Seq<Point2D>> = Seq::empty();
    let ghost mut cpss: Seq<Seq<Point2D>> = Seq::empty();
    let ghost mut segss: Seq<int> = Seq::empty();
    proof {
        assert(drove_batches_s(*old(screen), *screen, hist));
    }
    let mut it: usize = 0;
    while it < 700
        invariant
            0 <= it <= 700,
            screen.wf(),
            old(screen).wf(),
            composited_from_s(*old(screen), *screen),
            hist.len() == it,
            rand_strokes_s(hist, cpss, segss),
            drove_batches_s(*old(screen), *screen, hist),
        decreases 700 - it,
    {
        let mut cps: Vec<Point2D> = Vec::new();
        let mut k: usize = 0;
        while k < 4
            invariant
                0 <= k <= 4,
                cps@.len() == k,
                forall|kk: int| 0 <= kk < k ==> (#[trigger] cps@[kk]).in_unit_s(),
            decreases 4 - k,
        {
            let x: i64 = rng_range_i64(rng, 0, FP_ONE);
            let y: i64 = rng_range_i64(rng, 0, FP_ONE);
            cps.push(Point2D { x, y });
            k = k + 1;
        }
        proof {
            assert forall|kk: int|
                0 <= kk < cps@.len() implies (#[trigger] cps@[kk]).bounded_s(
                crate::geom::COORD_LIMIT as int) by {
                assert(cps@[kk].in_unit_s());
            }
        }
        let segs: usize = rng_range_usize(rng, 200, 1800);
        let d = match fit(&cps, FP_HALF, segs as u32) {
            Ok(d) => d,
            Err(e) => {
                proof {
                    assert(rand_splines_run_s(*old(screen), *screen, false));
                }
                return Err(e);
            },
        };
        let ghost pre = *screen;
        screen.send_buf(&d);
        proof {
            assert(composited_from_s(pre, *screen)) by {
                assert(screen.buffer@ == composite_seq_s(
                    pre.buffer@,
                    pre.width as int,
                    pre.height as int,
                    pre.fg,
                    d@,
                ));
            }
            lemma_composited_trans(*old(screen), pre, *screen);
            lemma_composite_batches_snoc(
                old(screen).buffer@,
                old(screen).width as int,
                old(screen).height as int,
                old(screen).fg,
                hist,
                d@,
            );
            assert(d@ =~= fit_seq_s(cps@, FP_HALF as int, segs as int));
            assert(rand_stroke_s(d@, cps@, segs as int));
            hist = hist.push(d@);
            cpss = cpss.push(cps@);
            segss = segss.push(segs as int);
            assert forall|kk: int|
                0 <= kk < hist.len() implies rand_stroke_s(#[trigger] hist[kk], cpss[kk],
                segss[kk]) by {
                if kk < hist.len() - 1 {
                    assert(hist[kk] == hist.drop_last()[kk]);
                }
            }
        }
        it = it + 1;
    }
    proof {
        assert(rand_splines_run_s(*old(screen), *screen, true));
    }
    Ok(())
}

/// Layout configuration of the glyph-grid driver.
#[derive(Clone, Copy, PartialEq, Eq, Structural, Debug)]
pub struct HieroglyphOpts {
    /// Grid rows.
    pub row_count: usize,
    /// Grid columns.
    pub col_count: usize,
    /// Gap around every cell, in fixed point.
    pub padding: i64,
    /// Cell extent along y, in fixed point.
    pub width: i64,
    /// Cell extent along x, in fixed point.
    pub height: i64,
    /// Control points drawn per glyph.
    pub points: usize,
}

impl HieroglyphOpts {
    /// A grid that stays inside the unit square with drawable cells.
    pub open spec fn valid_s(self) -> bool {
        &&& 1 <= self.row_count <= 1024
        &&& 1 <= self.col_count <= 1024
        &&& 0 <= self.padding
        &&& 1 <= self.width
        &&& 1 <= self.height
        &&& 2 <= self.points <= 64
        &&& self.padding + (self.height + self.padding) * (self.row_count as int) <= BASE_LIMIT
        &&& self.padding + (self.width + self.padding) * (self.col_count as int) <= BASE_LIMIT
    }
}

/// One glyph batch: the spline through `points` control points drawn from
/// the given cell, none coinciding consecutively, sampled at 128 segments.
pub open spec fn glyph_s(
    batch: Seq<Point2D>,
    x1: i64,
    x2: i64,
    y1: i64,
    y2: i64,
    points: int,
) -> bool {
    exists|cps: Seq<Point2D>|
        {
            &&& #[trigger] fit_seq_s(cps, FP_HALF as int, 128) == batch
            &&& cps.len() == points
            &&& forall|m: int|
                0 <= m < cps.len() ==> x1 <= (#[trigger] cps[m]).x < x2 && y1 <= cps[m].y < y2
            &&& !crate::geom::has_dup_s(cps)
        }
}

/// One glyph: `points` control points drawn uniformly from the cell, fitted
/// with the default tension at 128 segments.  Success yields the 129 samples
/// of that fit; the one failure is a coincident consecutive draw.  Cells
/// anywhere in the representable band are accepted; points outside the unit
/// square are valid data that the compositor simply never draws.
pub fn new_spline(
    x1: i64,
    x2: i64,
    y1: i64,
    y2: i64,
    points: usize,
    rng: &mut rand::rngs::StdRng,
) -> (r: Result<Vec<Point2D>, GenerationError>)
    requires
        -BASE_LIMIT <= x1 < x2 <= BASE_LIMIT,
        -BASE_LIMIT <= y1 < y2 <= BASE_LIMIT,
        2 <= points <= 64,
    ensures
        r matches Ok(v) ==> {
            &&& v@.len() == 129
            &&& glyph_s(v@, x1, x2, y1, y2, points as int)
        },
        r matches Err(e) ==> e == GenerationError::DegeneratePolygon,
{
    let mut cps: Vec<Point2D> = Vec::new();
    let mut k: usize = 0;
    while k < points
        invariant
            -BASE_LIMIT <= x1 < x2 <= BASE_LIMIT,
            -BASE_LIMIT <= y1 < y2 <= BASE_LIMIT,
            0 <= k <= points,
            cps@.len() == k,
            forall|kk: int|
                0 <= kk < k ==> x1 <= (#[trigger] cps@[kk]).x < x2 && y1 <= cps@[kk].y < y2,
        decreases points - k,
    {
        let x: i64 = rng_range_i64(rng, x1, x2);
        let y: i64 = rng_range_i64(rng, y1, y2);
        cps.push(Point2D { x, y });
        k = k + 1;
    }
    proof {
        assert forall|kk: int|
            0 <= kk < cps@.len() implies (#[trigger] cps@[kk]).bounded_s(
            crate::geom::COORD_LIMIT as int) by {
            assert(x1 <= cps@[kk].x < x2 && y1 <= cps@[kk].y < y2);
        }
    }
    match fit(&cps, FP_HALF, 128) {
        Ok(v) => {
            proof {
                assert(v@ =~= fit_seq_s(cps@, FP_HALF as int, 128));
                assert(glyph_s(v@, x1, x2, y1, y2, points as int));
            }
            Ok(v)
        },
        Err(e) => Err(e),
    }
}

/// The glyph of one grid cell, with its row and column.
pub open spec fn cell_glyph_s(
    opts: HieroglyphOpts,
    batch: Seq<Point2D>,
    i: int,
    j: int,
) -> bool {
    &&& 0 <= i < opts.row_count
    &&& 0 <= j < opts.col_count
    &&& glyph_s(
        batch,
        (opts.padding + (opts.height + opts.padding) * i) as i64,
        (opts.padding + (opts.height + opts.padding) * i + opts.height) as i64,
        (opts.padding + (opts.width + opts.padding) * j) as i64,
        (opts.padding + (opts.width + opts.padding) * j + opts.width) as i64,
        opts.points as int,
    )
}

/// Batch `m` of a glyph-grid run is the glyph of the cell it indexes, row
/// by row.
pub open spec fn hieroglyph_cell_s(opts: HieroglyphOpts, batch: Seq<Point2D>, m: int) -> bool {
    exists|i: int, j: int|
        #[trigger] cell_glyph_s(opts, batch, i, j) && m == i * (opts.col_count as int) + j
}

/// The whole observable behaviour of one glyph-grid driver run: the screen
/// advanced by compositing exactly some history of glyphs, one per grid
/// cell in order; a successful run filled the whole grid; a degenerate draw
/// composited nothing of its own.
pub open spec fn hieroglyph_run_s(
    pre: Screen,
    post: Screen,
    opts: HieroglyphOpts,
    ok: bool,
) -> bool {
    exists|hist: Seq<Seq<Point2D>>|
        {
            &&& #[trigger] drove_batches_s(pre, post, hist)
            &&& hist.len() <= (opts.row_count as int) * (opts.col_count as int)
            &&& (ok ==> hist.len() == (opts.row_count as int) * (opts.col_count as int))
            &&& forall|m: int| 0 <= m < hist.len() ==> hieroglyph_cell_s(opts, #[trigger] hist[m], m)
        }
}

/// Fills a row-by-column grid of cells, one random spline glyph per cell,
/// each composited as one batch.  The first failed glyph stops the driver.
pub fn fill_spline_hieroglyph(
    screen: &mut Screen,
    opts: HieroglyphOpts,
    rng: &mut rand::rngs::StdRng,
) -> (r: Result<(), GenerationError>)
    requires
        old(screen).wf(),
        opts.valid_s(),
    ensures
        final(screen).wf(),
        composited_from_s(*old(screen), *final(screen)),
        hieroglyph_run_s(*old(screen), *final(screen), opts, r.is_ok()),
        r matches Err(e) ==> e == GenerationError::DegeneratePolygon,
{
    proof {
        lemma_composited_refl(*old(screen));
    }
    let ghost mut hist: Seq<Seq<Point2D>> = Seq::empty();
    proof {
        assert(drove_batches_s(*old(screen), *screen, hist));
        vstd::arithmetic::mul::lemma_mul_nonnegative(
            opts.row_count as int,
            opts.col_count as int,
        );
    }
    let mut i: usize = 0;
    while i < opts.row_count
        invariant
            opts.valid_s(),
            0 <= i <= opts.row_count,
            screen.wf(),
            old(screen).wf(),
            composited_from_s(*old(screen), *screen),
            hist.len() == (i as int) * (opts.col_count as int),
            forall|m: int| 0 <= m < hist.len() ==> hieroglyph_cell_s(opts, #[trigger] hist[m], m),
            drove_batches_s(*old(screen), *screen, hist),
        decreases opts.row_count - i,
    {
        let mut j: usize = 0;
        while j < opts.col_count
            invariant
                opts.valid_s(),
                0 <= i < opts.row_count,
                0 <= j <= opts.col_count,
                screen.wf(),
                old(screen).wf(),
                composited_from_s(*old(screen), *screen),
                hist.len() == (i as int) * (opts.col_count as int) + j,
                forall|m: int|
                    0 <= m < hist.len() ==> hieroglyph_cell_s(opts, #[trigger] hist[m], m),
                drove_batches_s(*old(screen), *screen, hist),
            decreases opts.col_count - j,
        {
            proof {
                lemma_cell_range(opts.height as int, opts.padding as int, i as int, opts.row_count as int);
                lemma_cell_range(opts.width as int, opts.padding as int, j as int, opts.col_count as int);
                assert((i as int) * (opts.col_count as int) + (opts.col_count as int) <= (
                opts.row_count as int) * (opts.col_count as int)) by (nonlinear_arith)
                    requires
                        0 <= i as int && (i as int) < (opts.row_count as int),
                        0 <= opts.col_count as int,
                ;
            }
            let x1: i64 = opts.padding + (opts.height + opts.padding) * (i as i64);
            let x2: i64 = x1 + opts.height;
            let y1: i64 = opts.padding + (opts.width + opts.padding) * (j as i64);
            let y2: i64 = y1 + opts.width;
            let d = match new_spline(x1, x2, y1, y2, opts.points, rng) {
                Ok(d) => d,
                Err(e) => {
                    proof {
                        assert(hieroglyph_run_s(*old(screen), *screen, opts, false));
                    }
                    return Err(e);
                },
            };
            let ghost pre = *screen;
            screen.send_buf(&d);
            proof {
                assert(composited_from_s(pre, *screen)) by {
                    assert(screen.buffer@ == composite_seq_s(
                        pre.buffer@,
                        pre.width as int,
                        pre.height as int,
                        pre.fg,
                        d@,
                    ));
                }
                lemma_composited_trans(*old(screen), pre, *screen);
                lemma_composite_batches_snoc(
                    old(screen).buffer@,
                    old(screen).width as int,
                    old(screen).height as int,
                    old(screen).fg,
                    hist,
                    d@,
                );
                assert(cell_glyph_s(opts, d@, i as int, j as int));
                assert(hieroglyph_cell_s(opts, d@, (i as int) * (opts.col_count as int) + j));
                hist = hist.push(d@);
                assert forall|m: int|
                    0 <= m < hist.len() implies hieroglyph_cell_s(opts, #[trigger] hist[m],
                    m) by {
                    if m < hist.len() - 1 {
                        assert(hist[m] == hist.drop_last()[m]);
                    }
                }
            }
            j = j + 1;
        }
        proof {
            assert((i as int) * (opts.col_count as int) + (opts.col_count as int) == ((i as int)
                + 1) * (opts.col_count as int)) by (nonlinear_arith);
        }
        i = i + 1;
    }
    proof {
        assert(hieroglyph_run_s(*old(screen), *screen, opts, true));
    }
    Ok(())
}

/// A cell at index `i` of a padded grid of `count` cells lies inside the
/// representable band.
proof fn lemma_cell_range(extent: int, padding: int, i: int, count: int)
    requires
        0 <= padding,
        1 <= extent,
        0 <= i < count,
        padding + (extent + padding) * count <= BASE_LIMIT,
    ensures
        0 <= padding + (extent + padding) * i,
        padding + (extent + padding) * i + extent <= BASE_LIMIT,
{
    vstd::arithmetic::mul::lemma_mul_nonnegative(extent + padding, i);
    assert((extent + padding) * i + extent <= (extent + padding) * count) by (nonlinear_arith)
        requires
            0 <= padding,
            1 <= extent,
            0 <= i < count,
    ;
}

/// Layout configuration of the script-row driver.
#[derive(Clone, Copy, PartialEq, Eq, Structural, Debug)]
pub struct ScriptOpts {
    /// Text rows.
    pub row_count: usize,
    /// Glyph slots per row.
    pub col_count: usize,
    /// Gap around rows, in fixed point.
    pub padding: i64,
    /// Glyph advance along y, in fixed point.
    pub char_width: i64,
    /// Row extent along x, in fixed point.
    pub height: i64,
    /// Nominal control points per glyph; the drawn count varies by up to two.
    pub points: usize,
}

impl ScriptOpts {
    /// Rows that stay inside the representable band, with enough points per
    /// glyph that even the smallest draw can be fitted.
    pub open spec fn valid_s(self) -> bool {
        &&& 1 <= self.row_count <= 1024
        &&& 1 <= self.col_count <= 64
        &&& 0 <= self.padding
        &&& 1 <= self.height
        &&& 1 <= self.char_width
        &&& 4 <= self.points && self.points + 2 <= 64
        &&& self.padding + (self.height + self.padding) * (self.row_count as int) <= BASE_LIMIT
        &&& self.padding + self.char_width * ((self.col_count as int) + 2) <= BASE_LIMIT
        &&& ((self.points as int) + 2) * (self.col_count as int) <= PNUM_LIMIT
    }
}

/// The incline transform applied to a fitted row: each y is doubled and a
/// linearly decaying offset added.
pub open spec fn incline_seq_s(pts: Seq<Point2D>, inc0: int, chg: int) -> Seq<Point2D> {
    Seq::new(
        pts.len(),
        |i: int| Point2D { x: pts[i].x, y: (2 * pts[i].y + inc0 - i * chg) as i64 },
    )
}

/// The control points of one script row: exactly `iters` clusters of a
/// drawn count `pc`, cluster `k` confined to the row's x band and to the
/// k-th repetition of the glyph band along y, none coinciding consecutively.
pub open spec fn script_points_s(
    cps: Seq<Point2D>,
    pc: int,
    x1: i64,
    x2: i64,
    y1: i64,
    y2: i64,
    points: int,
    iters: int,
) -> bool {
    &&& points - 2 <= pc < points + 2
    &&& cps.len() == iters * pc
    &&& forall|m: int|
        0 <= m < cps.len() ==> {
            &&& x1 <= (#[trigger] cps[m]).x < x2
            &&& y1 + (m / pc) * ((y2 - y1) as int) <= cps[m].y < y2 + (m / pc) * ((y2 - y1) as int)
        }
    &&& !crate::geom::has_dup_s(cps)
}

/// One script-row batch: the spline through such a cluster run, sampled at
/// 128 segments, then sheared by the incline transform.
pub open spec fn script_row_s(
    v: Seq<Point2D>,
    x1: i64,
    x2: i64,
    y1: i64,
    y2: i64,
    points: int,
    iters: int,
) -> bool {
    let inc0 = (y2 as int) - crate::fixed::tdiv_s(y1 as int, 2);
    exists|cps: Seq<Point2D>, pc: int|
        #[trigger] script_points_s(cps, pc, x1, x2, y1, y2, points, iters) && v == incline_seq_s(
            fit_seq_s(cps, FP_HALF as int, 128),
            inc0,
            crate::fixed::tdiv_s(inc0, 129),
        )
}

/// One row of script: a run of glyph slots' worth of random points fitted as
/// one spline, then sheared by the incline transform.  Bands anywhere in the
/// representable range are accepted; points outside the unit square are
/// valid data that the compositor simply never draws.
pub fn new_spline_row(
    x1: i64,
    x2: i64,
    y1: i64,
    y2: i64,
    points: usize,
    iterations: usize,
    rng: &mut rand::rngs::StdRng,
) -> (r: Result<Vec<Point2D>, GenerationError>)
    requires
        -BASE_LIMIT <= x1 < x2 <= BASE_LIMIT,
        -BASE_LIMIT <= y1 < y2,
        (y2 as int) + (iterations as int) * ((y2 - y1) as int) <= BASE_LIMIT,
        4 <= points && points + 2 <= 64,
        1 <= iterations <= 64,
        ((points as int) + 2) * (iterations as int) <= PNUM_LIMIT,
    ensures
        r matches Ok(v) ==> {
            &&& v@.len() == 129
            &&& script_row_s(v@, x1, x2, y1, y2, points as int, iterations as int)
        },
        r matches Err(e) ==> e == GenerationError::DegeneratePolygon,
{
    let pc: usize = rng_range_usize(rng, points - 2, points + 2);
    let mut cps: Vec<Point2D> = Vec::new();
    let mut it2: usize = 0;
    while it2 < iterations
        invariant
            -BASE_LIMIT <= x1 < x2 <= BASE_LIMIT,
            -BASE_LIMIT <= y1 < y2,
            (y2 as int) + (iterations as int) * ((y2 - y1) as int) <= BASE_LIMIT,
            2 <= pc,
            (pc as int) <= (points as int) + 2,
            ((points as int) + 2) * (iterations as int) <= PNUM_LIMIT,
            0 <= it2 <= iterations,
            iterations <= 64,
            cps@.len() == (it2 as int) * (pc as int),
            forall|m: int|
                0 <= m < cps@.len() ==> {
                    &&& x1 <= (#[trigger] cps@[m]).x < x2
                    &&& y1 + (m / (pc as int)) * ((y2 - y1) as int) <= cps@[m].y < y2 + (m / (
                    pc as int)) * ((y2 - y1) as int)
                },
        decreases iterations - it2,
    {
        proof {
            assert(0 <= (it2 as int) * ((y2 - y1) as int) && (y2 as int) + (it2 as int) * ((y2
                - y1) as int) <= BASE_LIMIT) by (nonlinear_arith)
                requires
                    0 <= it2 as int && (it2 as int) < (iterations as int),
                    (y1 as int) < (y2 as int),
                    (y2 as int) + (iterations as int) * ((y2 - y1) as int) <= BASE_LIMIT as int,
            ;
        }
        let shift: i64 = (it2 as i64) * (y2 - y1);
        let mut k: usize = 0;
        while k < pc
            invariant
                -BASE_LIMIT <= x1 < x2 <= BASE_LIMIT,
                -BASE_LIMIT <= y1 < y2,
                0 <= shift == (it2 as int) * ((y2 - y1) as int),
                (y2 as int) + (shift as int) <= BASE_LIMIT,
                2 <= pc,
                0 <= k <= pc,
                0 <= it2,
                cps@.len() == (it2 as int) * (pc as int) + k,
                forall|m: int|
                    0 <= m < cps@.len() ==> {
                        &&& x1 <= (#[trigger] cps@[m]).x < x2
                        &&& y1 + (m / (pc as int)) * ((y2 - y1) as int) <= cps@[m].y < y2 + (m / (
                        pc as int)) * ((y2 - y1) as int)
                    },
            decreases pc - k,
        {
            let x: i64 = rng_range_i64(rng, x1, x2);
            let y: i64 = rng_range_i64(rng, y1, y2) + shift;
            cps.push(Point2D { x, y });
            proof {
                let m = cps@.len() - 1;
                vstd::arithmetic::mul::lemma_mul_is_commutative(it2 as int, pc as int);
                vstd::arithmetic::div_mod::lemma_div_multiples_vanish_fancy(
                    it2 as int,
                    k as int,
                    pc as int,
                );
                assert(m / (pc as int) == it2 as int);
                assert(cps@[m].y == y);
            }
            k = k + 1;
        }
        proof {
            assert((it2 as int) * (pc as int) + (pc as int) == ((it2 as int) + 1) * (pc as int))
                by (nonlinear_arith);
        }
        it2 = it2 + 1;
    }
    proof {
        assert(2 <= (iterations as int) * (pc as int)) by (nonlinear_arith)
            requires
                1 <= iterations as int,
                2 <= pc as int,
        ;
        assert((iterations as int) * (pc as int) <= (iterations as int) * ((points as int) + 2))
            by (nonlinear_arith)
            requires
                0 <= iterations as int,
                (pc as int) <= (points as int) + 2,
        ;
        vstd::arithmetic::mul::lemma_mul_is_commutative(
            iterations as int,
            (points as int) + 2,
        );
        assert forall|m: int|
            0 <= m < cps@.len() implies (#[trigger] cps@[m]).bounded_s(
            crate::geom::COORD_LIMIT as int) by {
            assert(x1 <= cps@[m].x < x2);
            let c = m / (pc as int);
            vstd::arithmetic::div_mod::lemma_div_pos_is_pos(m, pc as int);
            assert(0 <= c);
            assert(cps@[m].y < y2 + c * ((y2 - y1) as int));
            assert(y1 + c * ((y2 - y1) as int) <= cps@[m].y);
            assert(0 <= c * ((y2 - y1) as int)) by (nonlinear_arith)
                requires
                    0 <= c,
                    (y1 as int) < (y2 as int),
            ;
            assert(c < iterations as int) by {
                vstd::arithmetic::mul::lemma_mul_is_commutative(iterations as int, pc as int);
                vstd::arithmetic::div_mod::lemma_multiply_divide_lt(m, pc as int,
                    iterations as int);
            }
            assert(c * ((y2 - y1) as int) <= (iterations as int) * ((y2 - y1) as int))
                by (nonlinear_arith)
                requires
                    0 <= c && c < iterations as int,
                    (y1 as int) < (y2 as int),
            ;
        }
    }
    let fitted = match fit(&cps, FP_HALF, 128) {
        Ok(v) => v,
        Err(e) => {
            return Err(e);
        },
    };
    proof {
        assert(fitted@ =~= fit_seq_s(cps@, FP_HALF as int, 128));
    }
    let inc0: i64 = y2 - crate::fixed::tdiv64(y1, 2);
    let chg: i64 = crate::fixed::tdiv64(inc0, 129);
    let m: usize = fitted.len();
    let mut out: Vec<Point2D> = Vec::new();
    let mut cur: i64 = inc0;
    let mut i: usize = 0;
    while i < m
        invariant
            m == fitted@.len() == 129,
            all_bounded_s(fitted@, crate::spline::FIT_LIMIT as int),
            abs_s(inc0 as int) <= 2 * (BASE_LIMIT as int),
            abs_s(chg as int) <= 2 * (BASE_LIMIT as int),
            0 <= i <= m,
            cur == inc0 - (i as int) * (chg as int),
            out@.len() == i,
            forall|k: int|
                0 <= k < i ==> #[trigger] out@[k] == incline_seq_s(fitted@, inc0 as int,
                    chg as int)[k],
        decreases m - i,
    {
        proof {
            assert(fitted@[i as int].bounded_s(crate::spline::FIT_LIMIT as int));
            crate::fixed::lemma_abs_mul_bound(i as int, chg as int, 129, 2 * (BASE_LIMIT as int));
            crate::fixed::lemma_abs_mul_bound((i as int) + 1, chg as int, 129, 2 * (
            BASE_LIMIT as int));
            assert((i as int) * (chg as int) + (chg as int) == ((i as int) + 1) * (chg as int))
                by (nonlinear_arith);
        }
        let p = fitted[i];
        out.push(Point2D { x: p.x, y: 2 * p.y + cur });
        proof {
            assert(out@[i as int] == incline_seq_s(fitted@, inc0 as int, chg as int)[i as int]);
        }
        cur = cur - chg;
        i = i + 1;
    }
    proof {
        assert(out@ =~= incline_seq_s(fitted@, inc0 as int, chg as int));
        assert(script_points_s(cps@, pc as int, x1, x2, y1, y2, points as int,
            iterations as int));
        assert(script_row_s(out@, x1, x2, y1, y2, points as int, iterations as int));
    }
    Ok(out)
}

/// Batch `i` of a script run: the sheared row spline of text row `i`.
pub open spec fn script_band_s(opts: ScriptOpts, batch: Seq<Point2D>, i: int) -> bool {
    &&& 0 <= i < opts.row_count
    &&& script_row_s(
        batch,
        (opts.padding + (opts.height + opts.padding) * i) as i64,
        (opts.padding + (opts.height + opts.padding) * i + opts.height) as i64,
        opts.padding,
        (opts.padding + opts.char_width) as i64,
        opts.points as int,
        opts.col_count as int,
    )
}

/// The whole observable behaviour of one script driver run: the screen
/// advanced by compositing exactly some history of sheared row splines, one
/// per text row in order; a successful run wrote every row; a degenerate
/// draw composited nothing of its own.
pub open spec fn script_run_s(pre: Screen, post: Screen, opts: ScriptOpts, ok: bool) -> bool {
    exists|hist: Seq<Seq<Point2D>>|
        {
            &&& #[trigger] drove_batches_s(pre, post, hist)
            &&& hist.len() <= opts.row_count
            &&& (ok ==> hist.len() == opts.row_count)
            &&& forall|i: int| 0 <= i < hist.len() ==> script_band_s(opts, #[trigger] hist[i], i)
        }
}

/// Fills rows of script: one sheared random spline per row, each composited
/// as one batch.  The first failed row stops the driver.
pub fn fill_spline_script(
    screen: &mut Screen,
    opts: ScriptOpts,
    rng: &mut rand::rngs::StdRng,
) -> (r: Result<(), GenerationError>)
    requires
        old(screen).wf(),
        opts.valid_s(),
    ensures
        final(screen).wf(),
        composited_from_s(*old(screen), *final(screen)),
        script_run_s(*old(screen), *final(screen), opts, r.is_ok()),
        r matches Err(e) ==> e == GenerationError::DegeneratePolygon,
{
    proof {
        lemma_composited_refl(*old(screen));
    }
    let ghost mut hist: Seq<Seq<Point2D>> = Seq::empty();
    proof {
        assert(drove_batches_s(*old(screen), *screen, hist));
    }
    let mut i: usize = 0;
    while i < opts.row_count
        invariant
            opts.valid_s(),
            0 <= i <= opts.row_count,
            screen.wf(),
            old(screen).wf(),
            composited_from_s(*old(screen), *screen),
            hist.len() == i,
            forall|k: int| 0 <= k < hist.len() ==> script_band_s(opts, #[trigger] hist[k], k),
            drove_batches_s(*old(screen), *screen, hist),
        decreases opts.row_count - i,
    {
        proof {
            lemma_cell_range(opts.height as int, opts.padding as int, i as int, opts.row_count as int);
            assert((opts.padding as int) + (opts.char_width as int) + (opts.col_count as int) * (
            opts.char_width as int) <= BASE_LIMIT as int) by (nonlinear_arith)
                requires
                    (opts.padding as int) + (opts.char_width as int) * ((opts.col_count as int)
                        + 2) <= BASE_LIMIT as int,
                    1 <= opts.char_width as int,
                    1 <= opts.col_count as int,
            ;
        }
        let x1: i64 = opts.padding + (opts.height + opts.padding) * (i as i64);
        let x2: i64 = x1 + opts.height;
        let y1: i64 = opts.padding;
        let y2: i64 = y1 + opts.char_width;
        let d = match new_spline_row(x1, x2, y1, y2, opts.points, opts.col_count, rng) {
            Ok(d) => d,
            Err(e) => {
                proof {
                    assert(script_run_s(*old(screen), *screen, opts, false));
                }
                return Err(e);
            },
        };
        let ghost pre = *screen;
        screen.send_buf(&d);
        proof {
            assert(composited_from_s(pre, *screen)) by {
                assert(screen.buffer@ == composite_seq_s(
                    pre.buffer@,
                    pre.width as int,
                    pre.height as int,
                    pre.fg,
                    d@,
                ));
            }
            lemma_composited_trans(*old(screen), pre, *screen);
            lemma_composite_batches_snoc(
                old(screen).buffer@,
                old(screen).width as int,
                old(screen).height as int,
                old(screen).fg,
                hist,
                d@,
            );
            assert(script_band_s(opts, d@, i as int));
            hist = hist.push(d@);
            assert forall|k: int|
                0 <= k < hist.len() implies script_band_s(opts, #[trigger] hist[k], k) by {
                if k < hist.len() - 1 {
                    assert(hist[k] == hist.drop_last()[k]);
                }
            }
        }
        i = i + 1;
    }
    proof {
        assert(script_run_s(*old(screen), *screen, opts, true));
    }
    Ok(())
}

} // verus!
