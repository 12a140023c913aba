use splinewalk::fixed::{FP_HALF, FP_ONE};
use splinewalk::geom::Point2D;
use splinewalk::screen::{as_u32_be, new, u32_to_u8, Color};

fn pt(x: i64, y: i64) -> Point2D {
    Point2D { x, y }
}

#[test]
fn pack_bytes_big_endian() {
    assert_eq!(as_u32_be(&[0x12, 0x34, 0x56, 0x78]), 0x12345678);
    assert_eq!(as_u32_be(&[0xff, 0, 0, 0xff]), 0xff0000ff);
    assert_eq!(as_u32_be(&[0, 0, 0, 0]), 0);
}

#[test]
fn unpack_bytes_big_endian() {
    assert_eq!(u32_to_u8(0x12345678), [0x12, 0x34, 0x56, 0x78]);
    assert_eq!(u32_to_u8(0xff0000ff), [0xff, 0, 0, 0xff]);
}

#[test]
fn pack_unpack_round_trip() {
    for x in [0u32, 1, 0xff, 0x1000, 0xdeadbeef, u32::MAX] {
        assert_eq!(as_u32_be(&u32_to_u8(x)), x);
    }
    let bytes = [7u8, 250, 0, 128];
    assert_eq!(u32_to_u8(as_u32_be(&bytes)), bytes);
}

#[test]
fn set_color_stores_premultiplied() {
    let mut s = new(4, 4);
    s.set_color(Color { r: FP_ONE, g: FP_HALF, b: 0, a: FP_HALF });
    assert_eq!(s.fg.r, FP_HALF);
    assert_eq!(s.fg.g, FP_HALF / 2);
    assert_eq!(s.fg.b, 0);
    assert_eq!(s.fg.a, FP_HALF);
}

#[test]
fn set_bg_fills_every_pixel_premultiplied() {
    let mut s = new(3, 2);
    // Half-opaque white premultiplies to half-gray.
    s.set_bg(Color { r: FP_ONE, g: FP_ONE, b: FP_ONE, a: FP_HALF });
    for p in &s.buffer {
        assert_eq!(*p, 0x7f7f7f7f);
    }
    assert_eq!(s.buffer.len(), 6);
}

#[test]
fn composite_scenario_four_by_four() {
    // Background fully transparent black, foreground fully opaque red.
    let mut s = new(4, 4);
    s.set_bg(Color { r: 0, g: 0, b: 0, a: 0 });
    s.set_color(Color { r: FP_ONE, g: 0, b: 0, a: FP_ONE });
    let tenth = FP_ONE / 10;
    s.send_buf(&vec![pt(tenth, tenth)]);
    assert_eq!(s.buffer[0], 0xff0000ff);
    for i in 1..16 {
        assert_eq!(s.buffer[i], 0);
    }
    // A point with x outside [0, 1) changes nothing.
    let before = s.buffer.clone();
    s.send_buf(&vec![pt(FP_ONE + FP_HALF, tenth)]);
    assert_eq!(s.buffer, before);
}

#[test]
fn out_of_range_points_leave_buffer_unchanged() {
    let mut s = new(8, 8);
    s.set_bg(Color { r: FP_HALF, g: FP_ONE, b: 0, a: FP_ONE });
    s.set_color(Color { r: FP_ONE, g: FP_ONE, b: FP_ONE, a: FP_ONE });
    let before = s.buffer.clone();
    let batch = vec![
        pt(-1, FP_HALF),
        pt(FP_ONE, FP_HALF),
        pt(FP_HALF, -FP_ONE),
        pt(FP_HALF, FP_ONE),
        pt(i64::MIN + 1, i64::MAX),
    ];
    s.send_buf(&batch);
    assert_eq!(s.buffer, before);
}

#[test]
fn boundary_point_just_inside_is_drawn() {
    let mut s = new(4, 4);
    s.set_bg(Color { r: 0, g: 0, b: 0, a: 0 });
    s.set_color(Color { r: FP_ONE, g: 0, b: 0, a: FP_ONE });
    s.send_buf(&vec![pt(FP_ONE - 1, FP_ONE - 1)]);
    assert_eq!(s.buffer[15], 0xff0000ff);
}

#[test]
fn opaque_foreground_overwrites_any_pixel() {
    let mut s = new(4, 4);
    s.set_bg(Color { r: FP_HALF, g: FP_ONE, b: FP_HALF / 2, a: FP_ONE });
    s.set_color(Color { r: 3342336, g: 6684672, b: 10027008, a: FP_ONE });
    s.send_buf(&vec![pt(0, 0), pt(FP_HALF, FP_HALF)]);
    // 0.2, 0.4, 0.6 of full scale are bytes 51, 102, 153.
    assert_eq!(s.buffer[0], 0x336699ff);
    assert_eq!(s.buffer[4 * 2 + 2], 0x336699ff);
}

#[test]
fn transparent_foreground_changes_nothing() {
    let mut s = new(4, 4);
    s.set_bg(Color { r: FP_HALF, g: FP_ONE, b: 0, a: FP_ONE });
    s.set_color(Color { r: FP_ONE, g: FP_ONE, b: FP_ONE, a: 0 });
    let before = s.buffer.clone();
    s.send_buf(&vec![pt(0, 0), pt(FP_HALF, FP_HALF), pt(FP_ONE - 1, 7)]);
    assert_eq!(s.buffer, before);
}

#[test]
fn half_alpha_blend_exact_value() {
    let mut s = new(2, 2);
    s.set_bg(Color { r: 0, g: 0, b: 0, a: 0 });
    s.set_color(Color { r: FP_ONE, g: 0, b: 0, a: FP_HALF });
    s.send_buf(&vec![pt(0, 0)]);
    // Premultiplied half-red over transparent black: byte 127 red, 127 alpha.
    assert_eq!(s.buffer[0], 0x7f00007f);
}

#[test]
fn empty_batch_changes_nothing() {
    let mut s = new(4, 4);
    s.set_bg(Color { r: FP_HALF, g: 0, b: FP_ONE, a: FP_ONE });
    s.set_color(Color { r: FP_ONE, g: FP_ONE, b: FP_ONE, a: FP_ONE });
    let before = s.buffer.clone();
    s.send_buf(&vec![]);
    assert_eq!(s.buffer, before);
}

#[test]
fn batches_compose_sequentially() {
    // One batch after another equals their concatenation in one batch.
    let b1 = vec![pt(0, 0), pt(FP_HALF, FP_HALF)];
    let b2 = vec![pt(FP_HALF, FP_HALF), pt(FP_ONE - 1, 0)];
    let mut joined = b1.clone();
    joined.extend_from_slice(&b2);

    let mut s1 = new(4, 4);
    s1.set_bg(Color { r: 0, g: FP_HALF, b: 0, a: FP_ONE });
    s1.set_color(Color { r: FP_ONE, g: 0, b: FP_HALF, a: FP_HALF });
    let mut s2 = new(4, 4);
    s2.set_bg(Color { r: 0, g: FP_HALF, b: 0, a: FP_ONE });
    s2.set_color(Color { r: FP_ONE, g: 0, b: FP_HALF, a: FP_HALF });

    s1.send_buf(&b1);
    s1.send_buf(&b2);
    s2.send_buf(&joined);
    assert_eq!(s1.buffer, s2.buffer);
}
