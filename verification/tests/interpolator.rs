use splinewalk::errors::GenerationError;
use splinewalk::fixed::{FP_HALF, FP_ONE};
use splinewalk::geom::Point2D;
use splinewalk::spline::fit;

fn pt(x: i64, y: i64) -> Point2D {
    Point2D { x, y }
}

fn unit_square_corners() -> Vec<Point2D> {
    vec![pt(0, 0), pt(FP_ONE, 0), pt(FP_ONE, FP_ONE), pt(0, FP_ONE)]
}

#[test]
fn fit_returns_segments_plus_one_points() {
    let v = fit(&unit_square_corners(), FP_HALF, 10).unwrap();
    assert_eq!(v.len(), 11);
}

#[test]
fn fit_length_is_shape_independent() {
    // The same segment count gives the same output length whatever the
    // points are, as long as the polygon is non-degenerate.
    let shapes = vec![
        vec![pt(0, 0), pt(FP_ONE, FP_ONE)],
        vec![pt(-FP_ONE, 5), pt(3, 4), pt(FP_ONE, -17)],
        vec![pt(1, 2), pt(3, 4), pt(5, 6), pt(7, 8), pt(9, 10), pt(11, 12)],
    ];
    for segments in [2u32, 3, 10, 128, 1000] {
        for shape in &shapes {
            let v = fit(shape, FP_HALF, segments).unwrap();
            assert_eq!(v.len(), (segments + 1) as usize);
        }
    }
}

#[test]
fn fit_starts_and_ends_on_the_end_points() {
    let v = fit(&unit_square_corners(), FP_HALF, 10).unwrap();
    assert_eq!((v[0].x, v[0].y), (0, 0));
    assert_eq!((v[10].x, v[10].y), (0, FP_ONE));
}

#[test]
fn fit_unit_square_golden_regression() {
    // Fixed once from the spline formula; the exact fixed-point samples of
    // the square-corner fit at tension one half and ten segments.
    let v = fit(&unit_square_corners(), FP_HALF, 10).unwrap();
    let expected: [(i64, i64); 11] = [
        (0, 0),
        (4311613, -526418),
        (10428088, -1203241),
        (15642132, -676823),
        (18048614, 2540175),
        (18800640, 8355840),
        (18048614, 14171504),
        (15642133, 17388503),
        (10428089, 17914921),
        (4311613, 17238098),
        (0, 16711680),
    ];
    for (i, (x, y)) in expected.iter().enumerate() {
        assert_eq!((v[i].x, v[i].y), (*x, *y), "sample {}", i);
    }
}

#[test]
fn fit_rejects_fewer_than_two_points() {
    assert_eq!(fit(&vec![], FP_HALF, 10), Err(GenerationError::TooFewPoints));
    assert_eq!(fit(&vec![pt(5, 5)], FP_HALF, 10), Err(GenerationError::TooFewPoints));
}

#[test]
fn fit_rejects_coincident_consecutive_points() {
    let dup = vec![pt(0, 0), pt(7, 7), pt(7, 7), pt(FP_ONE, FP_ONE)];
    assert_eq!(fit(&dup, FP_HALF, 10), Err(GenerationError::DegeneratePolygon));
}

#[test]
fn fit_allows_equal_non_consecutive_points() {
    // A closed curve repeats its first point as its last; only consecutive
    // coincidence is degenerate.
    let closed = vec![pt(0, 0), pt(FP_ONE, 0), pt(FP_ONE, FP_ONE), pt(0, 0)];
    let v = fit(&closed, FP_HALF, 8).unwrap();
    assert_eq!(v.len(), 9);
    assert_eq!((v[8].x, v[8].y), (0, 0));
}
