use rand::SeedableRng;
use splinewalk::errors::{ConfigError, GenerationError};
use splinewalk::fills::{scale_profile, CircleSplineOpts};
use splinewalk::fixed::{FP_HALF, FP_ONE};
use splinewalk::geom::Point2D;
use splinewalk::walker::{draw_radius, NoiseWalker};

fn pt(x: i64, y: i64) -> Point2D {
    Point2D { x, y }
}

fn square_walker(scale: i64, segments: u32) -> NoiseWalker {
    let path = vec![pt(0, 0), pt(FP_ONE, 0), pt(FP_ONE, FP_ONE), pt(0, FP_ONE)];
    NoiseWalker::new(path, segments, vec![scale; 4], FP_HALF).unwrap()
}

#[test]
fn raw_radius_always_in_one_to_three() {
    // Ten thousand draws; every raw magnitude lies in (1, 3] before scaling.
    let mut rng = rand::rngs::StdRng::seed_from_u64(0xC0FFEE);
    for _ in 0..10000 {
        let r = draw_radius(&mut rng);
        assert!(r > FP_ONE);
        assert!(r <= 3 * FP_ONE);
    }
}

#[test]
fn walker_starts_with_zero_noise_and_a_snapshot() {
    let w = square_walker(100, 16);
    assert_eq!(w.step, 0);
    assert_eq!(w.noise.len(), 4);
    for n in &w.noise {
        assert_eq!((n.x, n.y), (0, 0));
    }
    assert_eq!(w.interp.len(), 17);
}

#[test]
fn walker_rejects_degenerate_polygons() {
    let e = NoiseWalker::new(vec![pt(1, 1)], 16, vec![100], FP_HALF);
    assert_eq!(e.err(), Some(GenerationError::TooFewPoints));
    let e2 = NoiseWalker::new(
        vec![pt(1, 1), pt(1, 1), pt(2, 2)],
        16,
        vec![100; 3],
        FP_HALF,
    );
    assert_eq!(e2.err(), Some(GenerationError::DegeneratePolygon));
}

#[test]
fn advance_returns_dense_batches_and_counts_steps() {
    let mut w = square_walker(100, 32);
    let mut rng = rand::rngs::StdRng::seed_from_u64(7);
    for step in 1..=20u64 {
        let batch = w.advance(&mut rng).unwrap();
        assert_eq!(batch.len(), 33);
        assert_eq!(w.step, step);
    }
}

#[test]
fn advance_with_is_deterministic() {
    let radii = vec![2 * FP_ONE; 4];
    let angles = vec![4096i64, 8192, 12288, 16384];
    let mut w1 = square_walker(1000, 16);
    let mut w2 = square_walker(1000, 16);
    let b1 = w1.advance_with(&radii, &angles).unwrap();
    let b2 = w2.advance_with(&radii, &angles).unwrap();
    assert_eq!(b1, b2);
    assert_eq!(w1.noise, w2.noise);
}

#[test]
fn advance_with_never_mutates_the_base() {
    let radii = vec![2 * FP_ONE; 4];
    let angles = vec![0i64; 4];
    let mut w = square_walker(1000, 16);
    let base_before = w.base.clone();
    w.advance_with(&radii, &angles).unwrap();
    w.advance_with(&radii, &angles).unwrap();
    assert_eq!(w.base, base_before);
    // The noise accumulator did move.
    assert_ne!((w.noise[0].x, w.noise[0].y), (0, 0));
}

#[test]
fn advance_with_reports_out_of_range_and_keeps_state() {
    // Maximum radius, full-unit scale, angle zero: the x offset grows by
    // three units per step and must eventually leave the representable
    // range, failing that step without touching the walker.
    let radii = vec![3 * FP_ONE; 4];
    let angles = vec![0i64; 4];
    let mut w = square_walker(FP_ONE, 8);
    let mut failed = false;
    for _ in 0..40 {
        match w.advance_with(&radii, &angles) {
            Ok(batch) => {
                assert_eq!(batch.len(), 9);
            }
            Err(e) => {
                assert_eq!(e, GenerationError::OutOfRange);
                failed = true;
                break;
            }
        }
    }
    assert!(failed);
    let noise_at_failure = w.noise.clone();
    let step_at_failure = w.step;
    // A failed step leaves the walker exactly as it was.
    assert_eq!(
        w.advance_with(&radii, &angles).err(),
        Some(GenerationError::OutOfRange)
    );
    assert_eq!(w.noise, noise_at_failure);
    assert_eq!(w.step, step_at_failure);
}

#[test]
fn scale_profile_is_symmetric_around_zero() {
    let v = scale_profile(5, 100);
    assert_eq!(v, vec![-250, -150, -50, 50, 150]);
    let w = scale_profile(4, 10);
    assert_eq!(w, vec![-20, -10, 0, 10]);
}

#[test]
fn config_validation_reports_each_fault() {
    let good = CircleSplineOpts { stp: 33, inum: 200, pnum_from: 100, pnum_to: 151, iterations: 80 };
    assert!(good.validate().is_ok());
    let empty_range = CircleSplineOpts { pnum_from: 150, pnum_to: 150, ..good };
    assert_eq!(empty_range.validate(), Err(ConfigError::InvalidPointRange));
    let tiny_range = CircleSplineOpts { pnum_from: 1, pnum_to: 2, ..good };
    assert_eq!(tiny_range.validate(), Err(ConfigError::InvalidPointRange));
    let one_segment = CircleSplineOpts { inum: 1, ..good };
    assert_eq!(one_segment.validate(), Err(ConfigError::InvalidSegments));
    let zero_step = CircleSplineOpts { stp: 0, ..good };
    assert_eq!(zero_step.validate(), Err(ConfigError::InvalidStep));
    let huge_step = CircleSplineOpts { stp: FP_ONE, ..good };
    assert_eq!(huge_step.validate(), Err(ConfigError::InvalidStep));
}
