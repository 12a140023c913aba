use rand::SeedableRng;
use splinewalk::errors::GenerationError;
use splinewalk::fills::{fill_circle, fill_rand};
use splinewalk::fixed::{fxcos, fxexp, fxsin, reduce_turn, FP_HALF, FP_ONE, FULL_TURN};
use splinewalk::paint::{
    paint_complex_circle, paint_complex_spline, paint_hieroglyphs, paint_rand_splines,
    paint_script,
};
use splinewalk::pathgen::{generate_circle, generate_harmonic, Harmonic};

#[test]
fn cosine_hits_the_axes() {
    assert_eq!(fxcos(0), FP_ONE);
    assert_eq!(fxcos(32768), -FP_ONE);
    // A quarter turn is zero up to the series' resolution.
    assert!(fxcos(16384).abs() <= 8);
    assert!(fxcos(49152).abs() <= 8);
    assert_eq!(fxsin(16384), FP_ONE);
}

#[test]
fn cosine_of_an_eighth_turn() {
    // cos 45 degrees, exact under the fixed-point series.
    assert_eq!(fxcos(8192), 11816944);
}

#[test]
fn angles_reduce_to_one_turn() {
    assert_eq!(reduce_turn(0), 0);
    assert_eq!(reduce_turn(FULL_TURN), 0);
    assert_eq!(reduce_turn(-1), FULL_TURN - 1);
    assert_eq!(reduce_turn(3 * FULL_TURN + 17), 17);
    assert_eq!(reduce_turn(-FULL_TURN - 5), FULL_TURN - 5);
}

#[test]
fn exponential_exact_values() {
    assert_eq!(fxexp(0), FP_ONE);
    // One unit up is e, one unit down is 1 / e, in fixed point.
    assert_eq!(fxexp(FP_ONE), 45427056);
    assert_eq!(fxexp(-FP_ONE), 6147883);
    assert_eq!(fxexp(FP_HALF), 27552900);
}

#[test]
fn circle_of_four_points_hits_the_axes() {
    let v = generate_circle(4, FP_ONE, 0).unwrap();
    assert_eq!(v.len(), 4);
    let got: Vec<(i64, i64)> = v.iter().map(|p| (p.x, p.y)).collect();
    assert_eq!(
        got,
        vec![
            (16711680, -6),
            (6, 16711680),
            (-16711680, 6),
            (-6, -16711680),
        ]
    );
}

#[test]
fn circle_rejects_fewer_than_two_points() {
    assert_eq!(
        generate_circle(1, FP_ONE, 0).err(),
        Some(GenerationError::TooFewPoints)
    );
}

#[test]
fn harmonic_constant_term() {
    // One harmonic with zero amplitude and zero frequency contributes its
    // weight along the cosine axis at every parameter.
    let hs = vec![Harmonic { amp: 0, freq: 0, weight: FP_ONE }];
    let v = generate_harmonic(3, &hs, 0, 0).unwrap();
    assert_eq!(v.len(), 3);
    for p in &v {
        assert_eq!(p.x, FP_ONE);
        assert!(p.y.abs() <= 8);
    }
}

#[test]
fn complex_equation_params_evaluate_like_the_free_generator() {
    let hs = vec![
        Harmonic { amp: FP_ONE, freq: FP_ONE, weight: FP_ONE / 100 },
        Harmonic { amp: 0, freq: -FP_ONE, weight: FP_ONE / 100 },
    ];
    let cc = splinewalk::pathgen::ComplexEquationParams { params: hs.clone() };
    let direct = generate_harmonic(16, &hs, FP_HALF, FP_HALF).unwrap();
    let through = cc.complex_circle(16, FP_HALF, FP_HALF).unwrap();
    assert_eq!(direct, through);
    assert_eq!(direct.len(), 16);
}

#[test]
fn harmonic_rejects_fewer_than_two_points() {
    let hs = vec![Harmonic { amp: 0, freq: 0, weight: FP_ONE }];
    assert_eq!(
        generate_harmonic(1, &hs, 0, 0).err(),
        Some(GenerationError::TooFewPoints)
    );
}

#[test]
fn circle_feeder_emits_ten_thousand_points() {
    let mut rng = rand::rngs::StdRng::seed_from_u64(11);
    let v = fill_circle(&mut rng);
    assert_eq!(v.len(), 10000);
}

#[test]
fn random_feeder_emits_five_unit_points() {
    let mut rng = rand::rngs::StdRng::seed_from_u64(12);
    let v = fill_rand(&mut rng);
    assert_eq!(v.len(), 5);
    for p in &v {
        assert!(0 <= p.x && p.x < FP_ONE);
        assert!(0 <= p.y && p.y < FP_ONE);
    }
}

#[test]
fn complex_circle_session_is_deterministic() {
    let s1 = paint_complex_circle();
    let s2 = paint_complex_circle();
    assert_eq!(s1.width, 1000);
    assert_eq!(s1.height, 1000);
    assert_eq!(s1.buffer, s2.buffer);
    // The ground is opaque black, so every untouched pixel keeps full alpha.
    assert_eq!(s1.buffer[0] & 0xff, 0xff);
}

#[test]
fn rand_splines_session_paints_a_thousand_square() {
    let mut rng = rand::rngs::StdRng::seed_from_u64(21);
    let s = paint_rand_splines(&mut rng);
    assert_eq!(s.width, 1000);
    assert_eq!(s.height, 1000);
    assert_eq!(s.buffer.len(), 1000000);
}

#[test]
fn complex_spline_session_paints_a_thousand_square() {
    let mut rng = rand::rngs::StdRng::seed_from_u64(22);
    let s = paint_complex_spline(&mut rng);
    assert_eq!(s.width, 1000);
    assert_eq!(s.height, 1000);
}

#[test]
fn script_session_paints_a_thousand_square() {
    let mut rng = rand::rngs::StdRng::seed_from_u64(23);
    let s = paint_script(&mut rng);
    assert_eq!(s.width, 1000);
    assert_eq!(s.height, 1000);
}

#[test]
fn hieroglyph_session_paints_a_thousand_square() {
    let mut rng = rand::rngs::StdRng::seed_from_u64(24);
    let s = paint_hieroglyphs(&mut rng);
    assert_eq!(s.width, 1000);
    assert_eq!(s.height, 1000);
}
