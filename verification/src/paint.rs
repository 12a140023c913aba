//! The painting sessions: each builds a fresh thousand-by-thousand screen,
//! sets its color state once before generation starts, and runs one fill
//! driver to completion or to its first generation failure.  The screen is
//! returned either way, holding everything composited so far; presenting it
//! is the caller's business.

use vstd::prelude::*;
use crate::fills::{CircleSplineOpts, HieroglyphOpts, ScriptOpts, complex_spline_run_s,
    fill_complex_circle, fill_complex_spline, fill_rand_splines, fill_spline_hieroglyph,
    fill_spline_script, hieroglyph_run_s, rand_splines_run_s, script_run_s};
use crate::fixed::{FP_HALF, FP_ONE};
use crate::geom::Point2D;
use crate::pathgen::{Harmonic, harmonic_pt_s};
use crate::screen::{Color, Screen, bg_pixel_s, composite_seq_s, composited_from_s, new, premul_s};

verus! {

/// The thousand-by-thousand buffer a session starts from: every pixel the
/// packed background color.
pub open spec fn bg_buffer_s(bgc: Color) -> Seq<u32> {
    Seq::new(1000000nat, |i: int| bg_pixel_s(bgc) as u32)
}

/// A freshly painted session screen: a thousand-pixel square, the given
/// foreground stored premultiplied, and contents that are exactly the given
/// background fill with some batches composited over it.
pub open spec fn painted_s(s: Screen, fgc: Color, bgc: Color) -> bool {
    &&& s.wf()
    &&& s.width == 1000
    &&& s.height == 1000
    &&& s.fg == premul_s(fgc)
    &&& exists|pts: Seq<Point2D>|
        s.buffer@ == #[trigger] composite_seq_s(bg_buffer_s(bgc), 1000, 1000, premul_s(fgc), pts)
}

/// Builds the session screen and applies its color state.
fn session_screen(fgc: Color, bgc: Color) -> (s: Screen)
    requires
        fgc.valid_s(),
        bgc.valid_s(),
    ensures
        s.wf(),
        s.width == 1000,
        s.height == 1000,
        s.fg == premul_s(fgc),
        s.buffer@ == bg_buffer_s(bgc),
{
    let mut s = new(1000, 1000);
    s.set_color(fgc);
    s.set_bg(bgc);
    proof {
        assert(s.buffer@ =~= bg_buffer_s(bgc));
    }
    s
}

/// Seven hundred random spline strokes in pale cyan over a near-black wash.
pub fn paint_rand_splines(rng: &mut rand::rngs::StdRng) -> (s: Screen)
    ensures
        painted_s(
            s,
            Color { r: FP_ONE, g: FP_ONE, b: FP_ONE, a: 5013504 },
            Color { r: 835584, g: 835584, b: 835584, a: 334234 },
        ),
        exists|mid: Screen, ok: bool|
            {
                &&& mid.width == 1000
                &&& mid.height == 1000
                &&& mid.fg == premul_s(Color { r: FP_ONE, g: FP_ONE, b: FP_ONE, a: 5013504 })
                &&& mid.buffer@ == bg_buffer_s(
                    Color { r: 835584, g: 835584, b: 835584, a: 334234 },
                )
                &&& #[trigger] rand_splines_run_s(mid, s, ok)
            },
{
    let fgc = Color { r: FP_ONE, g: FP_ONE, b: FP_ONE, a: 5013504 };
    let bgc = Color { r: 835584, g: 835584, b: 835584, a: 334234 };
    let mut s = session_screen(fgc, bgc);
    let ghost pre = s;
    let outcome = fill_rand_splines(&mut s, rng);
    proof {
        lemma_painted_from(pre, s, fgc, bgc);
        assert(rand_splines_run_s(pre, s, outcome.is_ok()));
    }
    s
}

/// One deterministic harmonic circle in translucent blue over a transparent
/// red ground; the resulting buffer is pinned exactly.
pub fn paint_complex_circle() -> (s: Screen)
    ensures
        painted_s(
            s,
            Color { r: 10027008, g: FP_ONE, b: FP_HALF, a: 3342336 },
            Color { r: 0, g: 0, b: 0, a: FP_ONE },
        ),
        s.buffer@ == composite_seq_s(
            bg_buffer_s(Color { r: 0, g: 0, b: 0, a: FP_ONE }),
            1000,
            1000,
            premul_s(Color { r: 10027008, g: FP_ONE, b: FP_HALF, a: 3342336 }),
            Seq::new(
                10000nat,
                |j: int|
                    harmonic_pt_s(
                        seq![Harmonic { amp: FP_ONE, freq: FP_ONE, weight: FP_ONE }],
                        10000,
                        FP_HALF,
                        FP_HALF,
                        j,
                    ),
            ),
        ),
{
    let fgc = Color { r: 10027008, g: FP_ONE, b: FP_HALF, a: 3342336 };
    let bgc = Color { r: 0, g: 0, b: 0, a: FP_ONE };
    let mut s = session_screen(fgc, bgc);
    let mut params: Vec<Harmonic> = Vec::new();
    params.push(Harmonic { amp: FP_ONE, freq: FP_ONE, weight: FP_ONE });
    let ghost pre = s;
    let _outcome = fill_complex_circle(&mut s, &params);
    proof {
        assert(params@ =~= seq![Harmonic { amp: FP_ONE, freq: FP_ONE, weight: FP_ONE }]);
        lemma_painted_from(pre, s, fgc, bgc);
    }
    s
}

/// The three harmonics of the fixed harmonic-walk session.
pub open spec fn complex_session_params_s() -> Seq<Harmonic> {
    seq![
        Harmonic { amp: 51806208, freq: FP_ONE, weight: 167116 },
        Harmonic { amp: (3 * FP_ONE) as i64, freq: (-3 * FP_ONE) as i64, weight: 167116 },
        Harmonic { amp: FP_HALF, freq: FP_HALF, weight: 167116 },
    ]
}

/// Eighty harmonic-walk steps in translucent blue over a transparent red
/// ground.
pub fn paint_complex_spline(rng: &mut rand::rngs::StdRng) -> (s: Screen)
    ensures
        painted_s(
            s,
            Color { r: 10027008, g: FP_ONE, b: FP_HALF, a: 3342336 },
            Color { r: 0, g: 0, b: 0, a: FP_ONE },
        ),
        exists|mid: Screen, ok: bool|
            {
                &&& mid.width == 1000
                &&& mid.height == 1000
                &&& mid.fg == premul_s(Color { r: 10027008, g: FP_ONE, b: FP_HALF, a: 3342336 })
                &&& mid.buffer@ == bg_buffer_s(Color { r: 0, g: 0, b: 0, a: FP_ONE })
                &&& #[trigger] complex_spline_run_s(
                    mid,
                    s,
                    CircleSplineOpts {
                        stp: 33,
                        inum: 200,
                        pnum_from: 100,
                        pnum_to: 151,
                        iterations: 80,
                    },
                    complex_session_params_s(),
                    ok,
                )
            },
{
    let fgc = Color { r: 10027008, g: FP_ONE, b: FP_HALF, a: 3342336 };
    let bgc = Color { r: 0, g: 0, b: 0, a: FP_ONE };
    let mut s = session_screen(fgc, bgc);
    let opts = CircleSplineOpts {
        inum: 200,
        stp: 33,
        pnum_from: 100,
        pnum_to: 151,
        iterations: 80,
    };
    let mut params: Vec<Harmonic> = Vec::new();
    params.push(Harmonic { amp: 51806208, freq: FP_ONE, weight: 167116 });
    params.push(Harmonic { amp: 3 * FP_ONE, freq: -3 * FP_ONE, weight: 167116 });
    params.push(Harmonic { amp: FP_HALF, freq: FP_HALF, weight: 167116 });
    let ghost pre = s;
    let outcome = fill_complex_spline(&mut s, &opts, &params, rng);
    proof {
        lemma_painted_from(pre, s, fgc, bgc);
        assert(params@ =~= complex_session_params_s());
        assert(complex_spline_run_s(pre, s, opts, params@, outcome.is_ok()));
    }
    s
}

/// Rows of sheared spline script in pale cyan over a dim blue-gray wash.
pub fn paint_script(rng: &mut rand::rngs::StdRng) -> (s: Screen)
    ensures
        painted_s(
            s,
            Color { r: FP_ONE, g: FP_ONE, b: FP_ONE, a: 1671168 },
            Color { r: 1671168, g: 2506752, b: 1671168, a: 1671168 },
        ),
        exists|mid: Screen, ok: bool|
            {
                &&& mid.width == 1000
                &&& mid.height == 1000
                &&& mid.fg == premul_s(Color { r: FP_ONE, g: FP_ONE, b: FP_ONE, a: 1671168 })
                &&& mid.buffer@ == bg_buffer_s(
                    Color { r: 1671168, g: 2506752, b: 1671168, a: 1671168 },
                )
                &&& #[trigger] script_run_s(
                    mid,
                    s,
                    ScriptOpts {
                        row_count: 12,
                        col_count: 20,
                        padding: 668467,
                        char_width: 334234,
                        height: 501350,
                        points: 6,
                    },
                    ok,
                )
            },
{
    let fgc = Color { r: FP_ONE, g: FP_ONE, b: FP_ONE, a: 1671168 };
    let bgc = Color { r: 1671168, g: 2506752, b: 1671168, a: 1671168 };
    let mut s = session_screen(fgc, bgc);
    let opts = ScriptOpts {
        row_count: 12,
        col_count: 20,
        padding: 668467,
        char_width: 334234,
        height: 501350,
        points: 6,
    };
    let ghost pre = s;
    let outcome = fill_spline_script(&mut s, opts, rng);
    proof {
        lemma_painted_from(pre, s, fgc, bgc);
        assert(script_run_s(pre, s, opts, outcome.is_ok()));
    }
    s
}

/// A grid of spline glyphs in pale cyan over a dim blue wash.
pub fn paint_hieroglyphs(rng: &mut rand::rngs::StdRng) -> (s: Screen)
    ensures
        painted_s(
            s,
            Color { r: FP_ONE, g: FP_ONE, b: FP_ONE, a: 1671168 },
            Color { r: 2506752, g: 5849088, b: 6684672, a: 1671168 },
        ),
        exists|mid: Screen, ok: bool|
            {
                &&& mid.width == 1000
                &&& mid.height == 1000
                &&& mid.fg == premul_s(Color { r: FP_ONE, g: FP_ONE, b: FP_ONE, a: 1671168 })
                &&& mid.buffer@ == bg_buffer_s(
                    Color { r: 2506752, g: 5849088, b: 6684672, a: 1671168 },
                )
                &&& #[trigger] hieroglyph_run_s(
                    mid,
                    s,
                    HieroglyphOpts {
                        row_count: 16,
                        col_count: 16,
                        padding: 334234,
                        width: 668467,
                        height: 501350,
                        points: 10,
                    },
                    ok,
                )
            },
{
    let fgc = Color { r: FP_ONE, g: FP_ONE, b: FP_ONE, a: 1671168 };
    let bgc = Color { r: 2506752, g: 5849088, b: 6684672, a: 1671168 };
    let mut s = session_screen(fgc, bgc);
    let opts = HieroglyphOpts {
        row_count: 16,
        col_count: 16,
        padding: 334234,
        width: 668467,
        height: 501350,
        points: 10,
    };
    let ghost pre = s;
    let outcome = fill_spline_hieroglyph(&mut s, opts, rng);
    proof {
        lemma_painted_from(pre, s, fgc, bgc);
        assert(hieroglyph_run_s(pre, s, opts, outcome.is_ok()));
    }
    s
}

/// A screen composited from a freshly background-filled session screen is a
/// painted session screen.
proof fn lemma_painted_from(pre: Screen, post: Screen, fgc: Color, bgc: Color)
    requires
        pre.width == 1000,
        pre.height == 1000,
        pre.fg == premul_s(fgc),
        pre.buffer@ == bg_buffer_s(bgc),
        post.wf(),
        composited_from_s(pre, post),
    ensures
        painted_s(post, fgc, bgc),
{
    let pts = choose|pts: Seq<Point2D>|
        post.buffer@ == composite_seq_s(
            pre.buffer@,
            pre.width as int,
            pre.height as int,
            pre.fg,
            pts,
        );
    assert(post.buffer@ == composite_seq_s(bg_buffer_s(bgc), 1000, 1000, premul_s(fgc), pts));
}

} // verus!
