use rand::SeedableRng;
use splinewalk::fills::{
    fill_circle_splines, fill_complex_circle, fill_rand_splines, fill_spline_hieroglyph,
    fill_spline_script, new_spline, random_complex_splines, CircleSplineOpts, HieroglyphOpts,
    ScriptOpts,
};
use splinewalk::fixed::{FP_HALF, FP_ONE};
use splinewalk::pathgen::Harmonic;
use splinewalk::screen::{new, Color};

fn small_screen(w: usize, h: usize) -> splinewalk::screen::Screen {
    let mut s = new(w, h);
    s.set_color(Color { r: FP_ONE, g: FP_HALF, b: FP_HALF, a: FP_HALF });
    s.set_bg(Color { r: 0, g: 0, b: 0, a: FP_ONE });
    s
}

#[test]
fn circle_spline_driver_runs_to_completion() {
    let mut s = small_screen(64, 64);
    let opts = CircleSplineOpts { stp: 33, inum: 50, pnum_from: 20, pnum_to: 40, iterations: 10 };
    assert!(opts.validate().is_ok());
    let mut rng = rand::rngs::StdRng::seed_from_u64(31);
    let before_fg = s.fg;
    fill_circle_splines(&mut s, &opts, &mut rng).unwrap();
    assert_eq!(s.width, 64);
    assert_eq!(s.height, 64);
    assert_eq!(s.fg, before_fg);
}

#[test]
fn rand_spline_driver_touches_the_screen() {
    let mut s = small_screen(64, 64);
    let untouched = s.buffer.clone();
    let mut rng = rand::rngs::StdRng::seed_from_u64(32);
    fill_rand_splines(&mut s, &mut rng).unwrap();
    // Seven hundred strokes over the unit square cannot all miss it.
    assert_ne!(s.buffer, untouched);
}

#[test]
fn complex_circle_driver_is_exact_and_total() {
    let mut s1 = small_screen(32, 32);
    let mut s2 = small_screen(32, 32);
    let params = vec![Harmonic { amp: FP_ONE, freq: FP_ONE, weight: FP_ONE }];
    fill_complex_circle(&mut s1, &params).unwrap();
    fill_complex_circle(&mut s2, &params).unwrap();
    assert_eq!(s1.buffer, s2.buffer);
}

#[test]
fn random_complex_spline_driver_preserves_the_screen_frame() {
    let mut s = small_screen(32, 32);
    let mut rng = rand::rngs::StdRng::seed_from_u64(33);
    let before_fg = s.fg;
    let _outcome = random_complex_splines(&mut s, &mut rng);
    assert_eq!(s.width, 32);
    assert_eq!(s.height, 32);
    assert_eq!(s.fg, before_fg);
}

#[test]
fn one_glyph_is_a_dense_sample() {
    let mut rng = rand::rngs::StdRng::seed_from_u64(34);
    let v = new_spline(0, FP_HALF, FP_HALF, FP_ONE, 6, &mut rng).unwrap();
    assert_eq!(v.len(), 129);
}

#[test]
fn glyph_cells_may_leave_the_unit_square() {
    // Coordinates outside [0, 1) are valid data; the compositor simply
    // never draws them.
    let mut rng = rand::rngs::StdRng::seed_from_u64(37);
    let v = new_spline(-FP_ONE, 2 * FP_ONE, -FP_HALF, FP_HALF, 6, &mut rng).unwrap();
    assert_eq!(v.len(), 129);
    let mut s = small_screen(16, 16);
    s.send_buf(&v);
    assert_eq!(s.width, 16);
}

#[test]
fn hieroglyph_driver_runs_a_small_grid() {
    let mut s = small_screen(64, 64);
    let opts = HieroglyphOpts {
        row_count: 4,
        col_count: 4,
        padding: 334234,
        width: 668467,
        height: 501350,
        points: 6,
    };
    let mut rng = rand::rngs::StdRng::seed_from_u64(35);
    fill_spline_hieroglyph(&mut s, opts, &mut rng).unwrap();
    assert_eq!(s.width, 64);
}

#[test]
fn script_driver_runs_small_rows() {
    let mut s = small_screen(64, 64);
    let opts = ScriptOpts {
        row_count: 3,
        col_count: 8,
        padding: 668467,
        char_width: 334234,
        height: 501350,
        points: 6,
    };
    let mut rng = rand::rngs::StdRng::seed_from_u64(36);
    fill_spline_script(&mut s, opts, &mut rng).unwrap();
    assert_eq!(s.height, 64);
}
