//! The shared framebuffer and its alpha compositor.
//!
//! Pixels are packed big-endian RGBA bytes in a `u32`.  The foreground color
//! is stored premultiplied: each color channel scaled by alpha at assignment
//! time, so one blend is a single multiply-add per channel.

use vstd::prelude::*;
use crate::fixed::FP_ONE;
use crate::geom::Point2D;

verus! {

/// Fixed-point units per byte step: `FP_ONE / 255`.
pub const CHAN_STEP: i64 = 65536;

/// An RGBA color; each channel is a fixed-point value in `[0, FP_ONE]`.
#[derive(Clone, Copy, PartialEq, Eq, Structural, Debug)]
pub struct Color {
    pub r: i64,
    pub g: i64,
    pub b: i64,
    pub a: i64,
}

impl Color {
    /// All four channels lie in `[0, FP_ONE]`.
    pub open spec fn valid_s(self) -> bool {
        &&& 0 <= self.r <= FP_ONE
        &&& 0 <= self.g <= FP_ONE
        &&& 0 <= self.b <= FP_ONE
        &&& 0 <= self.a <= FP_ONE
    }

    /// A premultiplied color: no color channel exceeds its alpha.
    pub open spec fn premul_valid_s(self) -> bool {
        &&& 0 <= self.r <= self.a
        &&& 0 <= self.g <= self.a
        &&& 0 <= self.b <= self.a
        &&& 0 <= self.a <= FP_ONE
    }
}

/// The color with every channel scaled by its alpha.
pub open spec fn premul_s(c: Color) -> Color {
    Color {
        r: (((c.r as int) * (c.a as int)) / (FP_ONE as int)) as i64,
        g: (((c.g as int) * (c.a as int)) / (FP_ONE as int)) as i64,
        b: (((c.b as int) * (c.a as int)) / (FP_ONE as int)) as i64,
        a: c.a,
    }
}

/// Highest byte of a packed pixel.
pub open spec fn byte0_s(x: u32) -> int {
    (x as int) / 0x1000000
}

/// Second byte of a packed pixel.
pub open spec fn byte1_s(x: u32) -> int {
    ((x as int) / 0x10000) % 0x100
}

/// Third byte of a packed pixel.
pub open spec fn byte2_s(x: u32) -> int {
    ((x as int) / 0x100) % 0x100
}

/// Lowest byte of a packed pixel.
pub open spec fn byte3_s(x: u32) -> int {
    (x as int) % 0x100
}

/// Four bytes packed big-endian.
pub open spec fn pack_bytes_s(b0: int, b1: int, b2: int, b3: int) -> int {
    b0 * 0x1000000 + b1 * 0x10000 + b2 * 0x100 + b3
}

/// Repacking a pixel's own bytes returns the pixel.
pub proof fn lemma_pack_unpack(x: u32)
    ensures
        pack_bytes_s(byte0_s(x), byte1_s(x), byte2_s(x), byte3_s(x)) == x,
{
    assert((x / 0x1000000) * 0x1000000 + ((x / 0x10000) % 0x100) * 0x10000 + ((x / 0x100)
        % 0x100) * 0x100 + (x % 0x100) == x) by (bit_vector);
}

/// Packs four bytes big-endian into one `u32`, highest byte first.
pub fn as_u32_be(array: &[u8; 4]) -> (r: u32)
    ensures
        r == pack_bytes_s(array[0] as int, array[1] as int, array[2] as int, array[3] as int),
{
    let b0: u32 = array[0] as u32;
    let b1: u32 = array[1] as u32;
    let b2: u32 = array[2] as u32;
    let b3: u32 = array[3] as u32;
    proof {
        assert(b0 << 24 == b0 * 0x1000000) by (bit_vector)
            requires
                b0 < 256,
        ;
        assert(b1 << 16 == b1 * 0x10000) by (bit_vector)
            requires
                b1 < 256,
        ;
        assert(b2 << 8 == b2 * 0x100) by (bit_vector)
            requires
                b2 < 256,
        ;
    }
    (b0 << 24) + (b1 << 16) + (b2 << 8) + b3
}

/// Splits one packed `u32` into its four bytes, highest byte first.
pub fn u32_to_u8(x: u32) -> (r: [u8; 4])
    ensures
        r[0] == byte0_s(x),
        r[1] == byte1_s(x),
        r[2] == byte2_s(x),
        r[3] == byte3_s(x),
{
    proof {
        assert((x >> 24) & 0xff == x / 0x1000000) by (bit_vector);
        assert((x >> 16) & 0xff == (x / 0x10000) % 0x100) by (bit_vector);
        assert((x >> 8) & 0xff == (x / 0x100) % 0x100) by (bit_vector);
        assert(x & 0xff == x % 0x100) by (bit_vector);
        assert(x / 0x1000000 < 256) by (bit_vector);
    }
    let b1: u8 = ((x >> 24) & 0xff) as u8;
    let b2: u8 = ((x >> 16) & 0xff) as u8;
    let b3: u8 = ((x >> 8) & 0xff) as u8;
    let b4: u8 = (x & 0xff) as u8;
    [b1, b2, b3, b4]
}

/// One blended channel, as a byte: the premultiplied foreground channel plus
/// the current byte's fixed-point value scaled by one minus alpha.
pub open spec fn blend_channel_s(fgc: int, fga: int, curb: int) -> int {
    (fgc + ((curb * (CHAN_STEP as int)) * ((FP_ONE as int) - fga)) / (FP_ONE as int)) / (
    CHAN_STEP as int)
}

/// One pixel blended under the premultiplied foreground color.
pub open spec fn blend_pixel_s(fg: Color, pix: u32) -> int {
    pack_bytes_s(
        blend_channel_s(fg.r as int, fg.a as int, byte0_s(pix)),
        blend_channel_s(fg.g as int, fg.a as int, byte1_s(pix)),
        blend_channel_s(fg.b as int, fg.a as int, byte2_s(pix)),
        blend_channel_s(fg.a as int, fg.a as int, byte3_s(pix)),
    )
}

/// A blended channel is again a byte.
pub proof fn lemma_blend_channel_bounds(fgc: int, fga: int, curb: int)
    requires
        0 <= fgc <= fga <= FP_ONE,
        0 <= curb < 256,
    ensures
        0 <= blend_channel_s(fgc, fga, curb) <= 255,
{
    let curf = curb * (CHAN_STEP as int);
    let inv = (FP_ONE as int) - fga;
    assert(0 <= curf <= FP_ONE as int);
    vstd::arithmetic::mul::lemma_mul_nonnegative(curf, inv);
    assert(curf * inv <= (FP_ONE as int) * inv) by (nonlinear_arith)
        requires
            0 <= curf <= FP_ONE as int,
            0 <= inv,
    ;
    assert(((FP_ONE as int) * inv) / (FP_ONE as int) == inv) by (nonlinear_arith);
    vstd::arithmetic::div_mod::lemma_div_is_ordered(
        curf * inv,
        (FP_ONE as int) * inv,
        FP_ONE as int,
    );
    vstd::arithmetic::div_mod::lemma_div_pos_is_pos(curf * inv, FP_ONE as int);
    vstd::arithmetic::div_mod::lemma_div_pos_is_pos(
        fgc + (curf * inv) / (FP_ONE as int),
        CHAN_STEP as int,
    );
    vstd::arithmetic::div_mod::lemma_div_is_ordered(
        fgc + (curf * inv) / (FP_ONE as int),
        FP_ONE as int,
        CHAN_STEP as int,
    );
}

/// One blended channel; mirrors `blend_channel_s` exactly.
fn blend_channel(fgc: i64, fga: i64, curb: i64) -> (r: i64)
    requires
        0 <= fgc <= fga <= FP_ONE,
        0 <= curb < 256,
    ensures
        r == blend_channel_s(fgc as int, fga as int, curb as int),
        0 <= r <= 255,
{
    proof {
        lemma_blend_channel_bounds(fgc as int, fga as int, curb as int);
        crate::fixed::lemma_abs_mul_bound(
            curb as int * (CHAN_STEP as int),
            (FP_ONE as int) - fga as int,
            FP_ONE as int,
            FP_ONE as int,
        );
        vstd::arithmetic::mul::lemma_mul_nonnegative(
            curb as int * (CHAN_STEP as int),
            (FP_ONE as int) - fga as int,
        );
        vstd::arithmetic::div_mod::lemma_div_pos_is_pos(
            (curb as int * (CHAN_STEP as int)) * ((FP_ONE as int) - fga as int),
            FP_ONE as int,
        );
    }
    (fgc + ((curb * CHAN_STEP) * (FP_ONE - fga)) / FP_ONE) / CHAN_STEP
}

/// The packed pixel a valid color fills the background with: its channels
/// premultiplied, then taken down to bytes.
pub open spec fn bg_pixel_s(c: Color) -> int {
    let p = premul_s(c);
    pack_bytes_s(
        (p.r as int) / (CHAN_STEP as int),
        (p.g as int) / (CHAN_STEP as int),
        (p.b as int) / (CHAN_STEP as int),
        (p.a as int) / (CHAN_STEP as int),
    )
}

/// Premultiplying a valid color yields a premultiplied-valid color.
pub proof fn lemma_premul_valid(c: Color)
    requires
        c.valid_s(),
    ensures
        premul_s(c).premul_valid_s(),
        premul_s(c).a == c.a,
{
    lemma_premul_channel(c.r as int, c.a as int);
    lemma_premul_channel(c.g as int, c.a as int);
    lemma_premul_channel(c.b as int, c.a as int);
}

/// A premultiplied channel lies between zero and its alpha, and the product
/// it divides stays well inside the machine range.
proof fn lemma_premul_channel(ch: int, al: int)
    requires
        0 <= ch <= FP_ONE,
        0 <= al <= FP_ONE,
    ensures
        0 <= (ch * al) / (FP_ONE as int) <= al,
        0 <= ch * al <= 279280248422400,
{
    assert(ch * al <= 279280248422400) by (nonlinear_arith)
        requires
            0 <= ch <= FP_ONE as int,
            0 <= al <= FP_ONE as int,
    ;
    vstd::arithmetic::mul::lemma_mul_nonnegative(ch, al);
    vstd::arithmetic::div_mod::lemma_div_pos_is_pos(ch * al, FP_ONE as int);
    assert(ch * al <= (FP_ONE as int) * al) by (nonlinear_arith)
        requires
            0 <= ch <= FP_ONE as int,
            0 <= al,
    ;
    assert(((FP_ONE as int) * al) / (FP_ONE as int) == al) by (nonlinear_arith);
    vstd::arithmetic::div_mod::lemma_div_is_ordered(ch * al, (FP_ONE as int) * al, FP_ONE as int);
}

/// Column (or row) a coordinate maps to: scale by the extent, floor, and as a
/// final guard against boundary error clamp to the last column.
pub open spec fn pix_coord_s(extent: int, v: int) -> int {
    let c = (v * extent) / (FP_ONE as int);
    if c >= extent {
        extent - 1
    } else {
        c
    }
}

/// The buffer index an in-range point touches.
pub open spec fn pix_index_s(w: int, h: int, p: Point2D) -> int {
    pix_coord_s(h, p.y as int) * w + pix_coord_s(w, p.x as int)
}

/// The buffer after compositing one point: unchanged unless the point lies in
/// the unit square, in which case its pixel is blended.
pub open spec fn composite_point_s(buf: Seq<u32>, w: int, h: int, fg: Color, p: Point2D) -> Seq<
    u32,
> {
    if p.in_unit_s() {
        let idx = pix_index_s(w, h, p);
        buf.update(idx, blend_pixel_s(fg, buf[idx]) as u32)
    } else {
        buf
    }
}

/// The buffer after compositing a whole batch, first point first.
pub open spec fn composite_seq_s(
    buf: Seq<u32>,
    w: int,
    h: int,
    fg: Color,
    pts: Seq<Point2D>,
) -> Seq<u32>
    decreases pts.len(),
{
    if pts.len() == 0 {
        buf
    } else {
        composite_seq_s(composite_point_s(buf, w, h, fg, pts[0]), w, h, fg, pts.drop_first())
    }
}

/// An in-range coordinate maps to a column inside the extent, and the clamp
/// in `pix_coord_s` never fires.
pub proof fn lemma_pix_coord_in_range(extent: int, v: int)
    requires
        1 <= extent,
        0 <= v < FP_ONE,
    ensures
        0 <= pix_coord_s(extent, v) < extent,
        pix_coord_s(extent, v) == (v * extent) / (FP_ONE as int),
{
    vstd::arithmetic::mul::lemma_mul_nonnegative(v, extent);
    vstd::arithmetic::div_mod::lemma_div_pos_is_pos(v * extent, FP_ONE as int);
    assert(v * extent < (FP_ONE as int) * extent) by (nonlinear_arith)
        requires
            0 <= v < FP_ONE as int,
            1 <= extent,
    ;
    assert(v * extent <= ((FP_ONE as int) - 1) * extent) by (nonlinear_arith)
        requires
            0 <= v <= (FP_ONE as int) - 1,
            1 <= extent,
    ;
    assert((((FP_ONE as int) - 1) * extent) / (FP_ONE as int) < extent) by (nonlinear_arith)
        requires
            1 <= extent,
    ;
    vstd::arithmetic::div_mod::lemma_div_is_ordered(
        v * extent,
        ((FP_ONE as int) - 1) * extent,
        FP_ONE as int,
    );
}

/// Composing a batch point by point: compositing `pts.take(i + 1)` is
/// compositing `pts.take(i)`, then the point `pts[i]`.
pub proof fn lemma_composite_seq_snoc(
    buf: Seq<u32>,
    w: int,
    h: int,
    fg: Color,
    pts: Seq<Point2D>,
    i: int,
)
    requires
        0 <= i < pts.len(),
    ensures
        composite_seq_s(buf, w, h, fg, pts.take(i + 1)) == composite_point_s(
            composite_seq_s(buf, w, h, fg, pts.take(i)),
            w,
            h,
            fg,
            pts[i],
        ),
{
    let single = seq![pts[i]];
    assert(pts.take(i + 1) =~= pts.take(i) + single);
    lemma_composite_seq_app(buf, w, h, fg, pts.take(i), single);
    let mid = composite_seq_s(buf, w, h, fg, pts.take(i));
    assert(single.drop_first().len() == 0);
    assert(composite_seq_s(composite_point_s(mid, w, h, fg, single[0]), w, h, fg,
        single.drop_first()) == composite_point_s(mid, w, h, fg, single[0]));
    assert(composite_seq_s(mid, w, h, fg, single) == composite_point_s(mid, w, h, fg, pts[i]));
}

/// Batches compose sequentially: compositing a concatenation equals
/// compositing the first batch, then the second, with no interleaving.
pub proof fn lemma_composite_seq_app(
    buf: Seq<u32>,
    w: int,
    h: int,
    fg: Color,
    s1: Seq<Point2D>,
    s2: Seq<Point2D>,
)
    ensures
        composite_seq_s(buf, w, h, fg, s1 + s2) == composite_seq_s(
            composite_seq_s(buf, w, h, fg, s1),
            w,
            h,
            fg,
            s2,
        ),
    decreases s1.len(),
{
    if s1.len() == 0 {
        assert(s1 + s2 =~= s2);
    } else {
        assert((s1 + s2)[0] == s1[0]);
        assert((s1 + s2).drop_first() =~= s1.drop_first() + s2);
        lemma_composite_seq_app(
            composite_point_s(buf, w, h, fg, s1[0]),
            w,
            h,
            fg,
            s1.drop_first(),
            s2,
        );
    }
}

/// Every in-range point maps to an index inside the buffer.
pub proof fn lemma_pix_index_in_range(w: int, h: int, p: Point2D)
    requires
        1 <= w,
        1 <= h,
        p.in_unit_s(),
    ensures
        0 <= pix_index_s(w, h, p) < w * h,
{
    lemma_pix_coord_in_range(w, p.x as int);
    lemma_pix_coord_in_range(h, p.y as int);
    let px = pix_coord_s(w, p.x as int);
    let py = pix_coord_s(h, p.y as int);
    assert(0 <= py * w + px && py * w + px < h * w) by (nonlinear_arith)
        requires
            0 <= py && py <= h - 1,
            0 <= px && px < w,
            1 <= w,
            1 <= h,
    ;
    vstd::arithmetic::mul::lemma_mul_is_commutative(h, w);
}

/// Compositing never changes the length of a well-sized buffer.
pub proof fn lemma_composite_seq_len(
    buf: Seq<u32>,
    w: int,
    h: int,
    fg: Color,
    pts: Seq<Point2D>,
)
    requires
        1 <= w,
        1 <= h,
        buf.len() == w * h,
    ensures
        composite_seq_s(buf, w, h, fg, pts).len() == buf.len(),
    decreases pts.len(),
{
    if pts.len() > 0 {
        if pts[0].in_unit_s() {
            lemma_pix_index_in_range(w, h, pts[0]);
        }
        lemma_composite_seq_len(composite_point_s(buf, w, h, fg, pts[0]), w, h, fg,
            pts.drop_first());
    }
}

/// A batch whose every point lies outside the unit square leaves the buffer
/// byte for byte unchanged.
pub proof fn lemma_composite_out_of_range(
    buf: Seq<u32>,
    w: int,
    h: int,
    fg: Color,
    pts: Seq<Point2D>,
)
    requires
        forall|i: int| 0 <= i < pts.len() ==> !(#[trigger] pts[i]).in_unit_s(),
    ensures
        composite_seq_s(buf, w, h, fg, pts) == buf,
    decreases pts.len(),
{
    if pts.len() > 0 {
        assert(!pts[0].in_unit_s());
        lemma_composite_out_of_range(buf, w, h, fg, pts.drop_first());
    }
}

/// A fully opaque foreground paints every touched pixel with exactly the
/// foreground color's bytes, whatever the pixel held before.
pub proof fn lemma_blend_opaque(fg: Color, pix: u32)
    requires
        fg.premul_valid_s(),
        fg.a == FP_ONE,
    ensures
        blend_pixel_s(fg, pix) == pack_bytes_s(
            (fg.r as int) / (CHAN_STEP as int),
            (fg.g as int) / (CHAN_STEP as int),
            (fg.b as int) / (CHAN_STEP as int),
            255,
        ),
{
    lemma_blend_opaque_channel(fg.r as int, byte0_s(pix));
    lemma_blend_opaque_channel(fg.g as int, byte1_s(pix));
    lemma_blend_opaque_channel(fg.b as int, byte2_s(pix));
    lemma_blend_opaque_channel(fg.a as int, byte3_s(pix));
    assert((FP_ONE as int) / (CHAN_STEP as int) == 255);
}

/// With alpha one the blend returns the foreground channel's byte alone.
proof fn lemma_blend_opaque_channel(fgc: int, curb: int)
    requires
        0 <= fgc <= FP_ONE,
        0 <= curb < 256,
    ensures
        blend_channel_s(fgc, FP_ONE as int, curb) == fgc / (CHAN_STEP as int),
{
    assert((curb * (CHAN_STEP as int)) * ((FP_ONE as int) - (FP_ONE as int)) == 0)
        by (nonlinear_arith);
}

/// A fully transparent premultiplied foreground leaves every pixel unchanged.
pub proof fn lemma_blend_transparent(fg: Color, pix: u32)
    requires
        fg.premul_valid_s(),
        fg.a == 0,
    ensures
        blend_pixel_s(fg, pix) == pix,
{
    lemma_blend_transparent_channel(byte0_s(pix));
    lemma_blend_transparent_channel(byte1_s(pix));
    lemma_blend_transparent_channel(byte2_s(pix));
    lemma_blend_transparent_channel(byte3_s(pix));
    lemma_pack_unpack(pix);
}

/// With alpha zero the blend returns the current byte.
proof fn lemma_blend_transparent_channel(curb: int)
    requires
        0 <= curb < 256,
    ensures
        blend_channel_s(0, 0, curb) == curb,
{
    let curf = curb * (CHAN_STEP as int);
    assert((curf * (FP_ONE as int)) / (FP_ONE as int) == curf) by (nonlinear_arith);
    assert((curb * (CHAN_STEP as int)) / (CHAN_STEP as int) == curb) by (nonlinear_arith);
}

/// The buffer after compositing a whole sequence of batches, first batch
/// first: the complete history of a driver's `send_buf` calls.
pub open spec fn composite_batches_s(
    buf: Seq<u32>,
    w: int,
    h: int,
    fg: Color,
    batches: Seq<Seq<Point2D>>,
) -> Seq<u32>
    decreases batches.len(),
{
    if batches.len() == 0 {
        buf
    } else {
        composite_batches_s(
            composite_seq_s(buf, w, h, fg, batches[0]),
            w,
            h,
            fg,
            batches.drop_first(),
        )
    }
}

/// Extending a batch history by one batch composites that batch onto the
/// history's result.
pub proof fn lemma_composite_batches_snoc(
    buf: Seq<u32>,
    w: int,
    h: int,
    fg: Color,
    batches: Seq<Seq<Point2D>>,
    b: Seq<Point2D>,
)
    ensures
        composite_batches_s(buf, w, h, fg, batches.push(b)) == composite_seq_s(
            composite_batches_s(buf, w, h, fg, batches),
            w,
            h,
            fg,
            b,
        ),
    decreases batches.len(),
{
    if batches.len() == 0 {
        assert(batches.push(b)[0] == b);
        assert(batches.push(b).drop_first().len() == 0);
        assert(composite_batches_s(
            composite_seq_s(buf, w, h, fg, b),
            w,
            h,
            fg,
            batches.push(b).drop_first(),
        ) == composite_seq_s(buf, w, h, fg, b));
        assert(composite_batches_s(buf, w, h, fg, batches) == buf);
    } else {
        assert(batches.push(b)[0] == batches[0]);
        assert(batches.push(b).drop_first() =~= batches.drop_first().push(b));
        lemma_composite_batches_snoc(
            composite_seq_s(buf, w, h, fg, batches[0]),
            w,
            h,
            fg,
            batches.drop_first(),
            b,
        );
        assert(composite_batches_s(buf, w, h, fg, batches.push(b)) == composite_batches_s(
            composite_seq_s(buf, w, h, fg, batches[0]),
            w,
            h,
            fg,
            batches.drop_first().push(b),
        ));
    }
}

/// The later screen holds exactly the earlier screen's contents with the
/// batches of `hist` composited over them, in order, under unchanged
/// dimensions and color state.
pub open spec fn drove_batches_s(pre: Screen, post: Screen, hist: Seq<Seq<Point2D>>) -> bool {
    &&& post.width == pre.width
    &&& post.height == pre.height
    &&& post.fg == pre.fg
    &&& post.buffer@ == composite_batches_s(
        pre.buffer@,
        pre.width as int,
        pre.height as int,
        pre.fg,
        hist,
    )
}

/// The later screen differs from the earlier one only by compositing some
/// batch of points under the unchanged foreground color: dimensions and
/// color state are untouched, and every pixel write was a blend.
pub open spec fn composited_from_s(pre: Screen, post: Screen) -> bool {
    &&& post.width == pre.width
    &&& post.height == pre.height
    &&& post.fg == pre.fg
    &&& exists|pts: Seq<Point2D>|
        post.buffer@ == composite_seq_s(
            pre.buffer@,
            pre.width as int,
            pre.height as int,
            pre.fg,
            pts,
        )
}

/// A screen is composited from itself, by the empty batch.
pub proof fn lemma_composited_refl(s: Screen)
    ensures
        composited_from_s(s, s),
{
    let pts = Seq::<Point2D>::empty();
    assert(s.buffer@ == composite_seq_s(s.buffer@, s.width as int, s.height as int, s.fg, pts));
}

/// Compositing steps chain: batches applied one after the other are one
/// composited history.
pub proof fn lemma_composited_trans(a: Screen, b: Screen, c: Screen)
    requires
        composited_from_s(a, b),
        composited_from_s(b, c),
    ensures
        composited_from_s(a, c),
{
    let pts1 = choose|pts: Seq<Point2D>|
        b.buffer@ == composite_seq_s(a.buffer@, a.width as int, a.height as int, a.fg, pts);
    let pts2 = choose|pts: Seq<Point2D>|
        c.buffer@ == composite_seq_s(b.buffer@, b.width as int, b.height as int, b.fg, pts);
    lemma_composite_seq_app(a.buffer@, a.width as int, a.height as int, a.fg, pts1, pts2);
    assert(c.buffer@ == composite_seq_s(a.buffer@, a.width as int, a.height as int, a.fg,
        pts1 + pts2));
}

/// The shared pixel grid with its foreground color state.  One `Screen` is
/// created per session; its dimensions never change afterwards.
pub struct Screen {
    pub width: usize,
    pub height: usize,
    pub buffer: Vec<u32>,
    pub fg: Color,
}

impl Screen {
    /// Well-formed: positive bounded dimensions, a buffer of exactly
    /// width * height pixels, and a premultiplied foreground color.
    pub open spec fn wf(self) -> bool {
        &&& 1 <= self.width <= 32768
        &&& 1 <= self.height <= 32768
        &&& self.buffer@.len() == self.width * self.height
        &&& self.fg.premul_valid_s()
    }
}

/// Creates a screen of the given dimensions with every pixel zero and a
/// fully transparent foreground.
pub fn new(w: usize, h: usize) -> (s: Screen)
    requires
        1 <= w <= 32768,
        1 <= h <= 32768,
    ensures
        s.wf(),
        s.width == w,
        s.height == h,
        s.fg == (Color { r: 0, g: 0, b: 0, a: 0 }),
        s.buffer@.len() == w * h,
        forall|i: int| 0 <= i < s.buffer@.len() ==> s.buffer@[i] == 0u32,
{
    proof {
        assert((w as int) * (h as int) <= 0x40000000) by (nonlinear_arith)
            requires
                1 <= (w as int) <= 32768,
                1 <= (h as int) <= 32768,
        ;
    }
    let n: usize = w * h;
    let mut buffer: Vec<u32> = Vec::new();
    let mut i: usize = 0;
    while i < n
        invariant
            0 <= i <= n,
            buffer@.len() == i,
            forall|j: int| 0 <= j < i ==> buffer@[j] == 0u32,
        decreases n - i,
    {
        buffer.push(0u32);
        i = i + 1;
    }
    Screen { width: w, height: h, buffer, fg: Color { r: 0, g: 0, b: 0, a: 0 } }
}

impl Screen {
    /// Stores the foreground color, premultiplied: each color channel scaled
    /// by alpha at assignment time.
    pub fn set_color(&mut self, c: Color)
        requires
            old(self).wf(),
            c.valid_s(),
        ensures
            final(self).wf(),
            final(self).width == old(self).width,
            final(self).height == old(self).height,
            final(self).buffer@ == old(self).buffer@,
            final(self).fg == premul_s(c),
    {
        proof {
            lemma_premul_valid(c);
            lemma_premul_channel(c.r as int, c.a as int);
            lemma_premul_channel(c.g as int, c.a as int);
            lemma_premul_channel(c.b as int, c.a as int);
        }
        let r: i64 = (c.r * c.a) / FP_ONE;
        let g: i64 = (c.g * c.a) / FP_ONE;
        let b: i64 = (c.b * c.a) / FP_ONE;
        self.fg = Color { r, g, b, a: c.a };
    }

    /// Fills every pixel with the given color, premultiplied the same way;
    /// prior contents are overwritten unconditionally.
    pub fn set_bg(&mut self, c: Color)
        requires
            old(self).wf(),
            c.valid_s(),
        ensures
            final(self).wf(),
            final(self).width == old(self).width,
            final(self).height == old(self).height,
            final(self).fg == old(self).fg,
            final(self).buffer@.len() == old(self).buffer@.len(),
            forall|i: int|
                0 <= i < final(self).buffer@.len() ==> #[trigger] final(self).buffer@[i]
                    == bg_pixel_s(c),
    {
        proof {
            lemma_premul_valid(c);
            lemma_premul_channel(c.r as int, c.a as int);
            lemma_premul_channel(c.g as int, c.a as int);
            lemma_premul_channel(c.b as int, c.a as int);
        }
        let pr: i64 = (c.r * c.a) / FP_ONE;
        let pg: i64 = (c.g * c.a) / FP_ONE;
        let pb: i64 = (c.b * c.a) / FP_ONE;
        let pix: u32 = ((pr / CHAN_STEP) as u32) * 0x1000000 + ((pg / CHAN_STEP) as u32) * 0x10000
            + ((pb / CHAN_STEP) as u32) * 0x100 + ((c.a / CHAN_STEP) as u32);
        let n: usize = self.buffer.len();
        let mut i: usize = 0;
        while i < n
            invariant
                0 <= i <= n,
                self.buffer@.len() == n,
                n == old(self).buffer@.len(),
                self.width == old(self).width,
                self.height == old(self).height,
                self.fg == old(self).fg,
                old(self).wf(),
                pix == bg_pixel_s(c),
                forall|j: int| 0 <= j < i ==> #[trigger] self.buffer@[j] == bg_pixel_s(c),
            decreases n - i,
        {
            self.buffer.set(i, pix);
            i = i + 1;
        }
    }

    /// Composites one batch: every in-range point is blended into its pixel
    /// in order, out-of-range points are dropped, never clamped.  The whole
    /// batch is applied under this one exclusive borrow.
    pub fn send_buf(&mut self, pts: &Vec<Point2D>)
        requires
            old(self).wf(),
        ensures
            final(self).wf(),
            final(self).width == old(self).width,
            final(self).height == old(self).height,
            final(self).fg == old(self).fg,
            final(self).buffer@ == composite_seq_s(
                old(self).buffer@,
                old(self).width as int,
                old(self).height as int,
                old(self).fg,
                pts@,
            ),
    {
        let n: usize = pts.len();
        let w: usize = self.width;
        let h: usize = self.height;
        let mut i: usize = 0;
        while i < n
            invariant
                0 <= i <= n,
                n == pts@.len(),
                w == old(self).width,
                h == old(self).height,
                self.width == w,
                self.height == h,
                self.fg == old(self).fg,
                self.wf(),
                self.buffer@ == composite_seq_s(
                    old(self).buffer@,
                    w as int,
                    h as int,
                    old(self).fg,
                    pts@.take(i as int),
                ),
            decreases n - i,
        {
            let p = pts[i];
            proof {
                lemma_composite_seq_snoc(
                    old(self).buffer@,
                    w as int,
                    h as int,
                    old(self).fg,
                    pts@,
                    i as int,
                );
            }
            if 0 <= p.x && p.x < FP_ONE && 0 <= p.y && p.y < FP_ONE {
                proof {
                    lemma_pix_coord_in_range(w as int, p.x as int);
                    lemma_pix_coord_in_range(h as int, p.y as int);
                }
                let mut px: usize = (((p.x as u64) * (w as u64)) / (FP_ONE as u64)) as usize;
                if px >= w {
                    px = w - 1;
                }
                let mut py: usize = (((p.y as u64) * (h as u64)) / (FP_ONE as u64)) as usize;
                if py >= h {
                    py = h - 1;
                }
                proof {
                    assert((py as int) * (w as int) + (px as int) < (h as int) * (w as int)
                        && (h as int) * (w as int) <= 0x40000000) by (nonlinear_arith)
                        requires
                            0 <= (py as int) && (py as int) <= (h as int) - 1,
                            0 <= (px as int) && (px as int) < (w as int),
                            1 <= (w as int) <= 32768,
                            1 <= (h as int) <= 32768,
                    ;
                    vstd::arithmetic::mul::lemma_mul_is_commutative(h as int, w as int);
                }
                let idx: usize = py * w + px;
                let cur: u32 = self.buffer[idx];
                let b0: i64 = (cur / 0x1000000) as i64;
                let b1: i64 = ((cur / 0x10000) % 0x100) as i64;
                let b2: i64 = ((cur / 0x100) % 0x100) as i64;
                let b3: i64 = (cur % 0x100) as i64;
                let nr: i64 = blend_channel(self.fg.r, self.fg.a, b0);
                let ng: i64 = blend_channel(self.fg.g, self.fg.a, b1);
                let nb: i64 = blend_channel(self.fg.b, self.fg.a, b2);
                let na: i64 = blend_channel(self.fg.a, self.fg.a, b3);
                let pix: u32 = (nr as u32) * 0x1000000 + (ng as u32) * 0x10000 + (nb as u32)
                    * 0x100 + (na as u32);
                self.buffer.set(idx, pix);
            }
            i = i + 1;
        }
        proof {
            assert(pts@.take(n as int) =~= pts@);
        }
    }
}

} // verus!
