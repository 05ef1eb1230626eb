//! Thumbnails: from the bytes of a captured window to the pixels that are kept, and where they
//! are drawn inside a tile.
use vstd::prelude::*;

use crate::argb;
use crate::layout;
use crate::layout::LABEL_H;
use crate::pixels;
use crate::rounding;
use crate::rounding::Ratio;
use crate::wire;

verus! {

/// Windows wider or taller than this are not captured.
pub const MAX_CAPTURE: u32 = 8192;

/// Where scaled pixels go: the destination rectangle, and how many source pixels (in 16.16 fixed
/// point) one destination pixel stands for.
#[derive(Debug, Clone, Copy, PartialEq, Eq)]
pub struct Placement {
    pub x: i16,
    pub y: i16,
    pub w: u16,
    pub h: u16,
    pub sx: i32,
    pub sy: i32,
}

/// Width of a tile's content area.
pub open spec fn content_w(tile_w: int, pad: int) -> int {
    layout::minus(tile_w, 2 * pad)
}

/// Height of a tile's content area, above the label.
pub open spec fn content_h(tile_h: int, pad: int) -> int {
    layout::minus(tile_h, LABEL_H + 2 * pad)
}

/// Width and height of a tile's content area.
pub fn content_size(tile_w: u32, tile_h: u32, pad: u32) -> (r: (u32, u32))
    ensures
        r.0 == content_w(tile_w as int, pad as int),
        r.1 == content_h(tile_h as int, pad as int),
{
    let w: u64 = (tile_w as u64).saturating_sub(2 * pad as u64);
    let h: u64 = (tile_h as u64).saturating_sub(LABEL_H as u64 + 2 * pad as u64);
    (w as u32, h as u32)
}

/// `x`, but at least 1.
pub open spec fn at_least_one(x: int) -> int {
    if x < 1 {
        1
    } else {
        x
    }
}

/// The size of a capture that is worth keeping.
pub open spec fn capture_size_ok(w: int, h: int) -> bool {
    1 <= w <= MAX_CAPTURE && 1 <= h <= MAX_CAPTURE
}

/// Skips unreasonably large or empty pixmaps.
pub fn is_capture_size(w: u32, h: u32) -> (r: bool)
    ensures
        r == capture_size_ok(w as int, h as int),
{
    w >= 1 && h >= 1 && w <= MAX_CAPTURE && h <= MAX_CAPTURE
}

/// Pixel `i` of a captured image: four bytes, blue first. Only a depth of 32 carries alpha.
pub open spec fn captured_pixel(data: Seq<u8>, depth: u8, i: int) -> int {
    argb::argb(
        if depth == 32 {
            data[4 * i + 3] as int
        } else {
            0xff
        },
        data[4 * i + 2] as int,
        data[4 * i + 1] as int,
        data[4 * i] as int,
    )
}

/// The first `n` pixels of a captured image.
pub open spec fn captured_pixels(data: Seq<u8>, depth: u8, n: nat) -> Seq<u32> {
    Seq::new(n, |i: int| captured_pixel(data, depth, i) as u32)
}

/// Converts captured bytes to packed ARGB.
fn captured_to_argb(data: &[u8], depth: u8, n: usize) -> (r: Vec<u32>)
    requires
        4 * n <= data.len(),
    ensures
        r@ == captured_pixels(data@, depth, n as nat),
{
    let mut r: Vec<u32> = Vec::new();
    let mut i: usize = 0;
    while i < n
        invariant
            i <= n,
            4 * n <= data.len(),
            r@ == captured_pixels(data@, depth, i as nat),
        decreases n - i,
    {
        let k: usize = 4 * i;
        let a: u8 = if depth == 32 { data[k + 3] } else { 0xff };
        let p: u32 = argb::pack_argb(a, data[k + 2], data[k + 1], data[k]);
        r.push(p);
        i = i + 1;
        assert(r@ =~= captured_pixels(data@, depth, i as nat));
    }
    r
}

/// How much larger than the available area a source is, in the tighter direction.
pub open spec fn fit_scale(w: int, h: int, avail_w: int, avail_h: int) -> (int, int) {
    rounding::larger(rounding::quot(w, avail_w), rounding::quot(h, avail_h))
}

/// A source length shrunk by `scale`, at least one pixel.
pub open spec fn shrunk(len: int, scale: (int, int)) -> int {
    at_least_one(rounding::nearest(rounding::divided(len, scale)))
}

/// The size at which a `w` by `h` capture is kept: never larger than captured, and shrunk to the
/// available area with its aspect ratio.
pub open spec fn stored_size(w: int, h: int, avail_w: int, avail_h: int) -> (int, int) {
    let scale = fit_scale(w, h, avail_w, avail_h);
    if scale.0 > scale.1 {
        (shrunk(w, scale), shrunk(h, scale))
    } else {
        (w, h)
    }
}

/// The pixels kept of a capture.
pub open spec fn stored_pixels(px: Seq<u32>, w: int, h: int, avail_w: int, avail_h: int) -> Seq<
    u32,
> {
    let scale = fit_scale(w, h, avail_w, avail_h);
    let (sw, sh) = stored_size(w, h, avail_w, avail_h);
    if scale.0 > scale.1 {
        Seq::new(
            (sw * sh) as nat,
            |i: int| pixels::downscaled(px, w, h, sw, sh, i % sw, i / sw) as u32,
        )
    } else {
        px
    }
}

fn fit_scale_of(w: u32, h: u32, avail_w: u32, avail_h: u32) -> (r: Ratio)
    requires
        1 <= w,
        1 <= h,
        1 <= avail_w,
        1 <= avail_h,
    ensures
        r@ == fit_scale(w as int, h as int, avail_w as int, avail_h as int),
        rounding::MIN_SIGNIFICAND <= r.significand <= 2 * rounding::MIN_SIGNIFICAND,
        1 <= r.scale < 0x20_0000_0000_0000_0000_0000,
{
    let a: Ratio = rounding::ratio(w, avail_w);
    let b: Ratio = rounding::ratio(h, avail_h);
    a.max_of(&b)
}

/// A length divided by a scale above one does not grow.
proof fn lemma_shrunk_is_smaller(len: int, scale: (int, int))
    requires
        1 <= len,
        1 <= scale.1 <= scale.0,
    ensures
        1 <= shrunk(len, scale) <= len,
{
    rounding::lemma_divided_is_smaller(len, scale);
}

fn shrunk_of(len: u32, scale: &Ratio) -> (r: u32)
    requires
        1 <= len,
        rounding::MIN_SIGNIFICAND <= scale.significand <= 2 * rounding::MIN_SIGNIFICAND,
        1 <= scale.scale < 0x20_0000_0000_0000_0000_0000,
        scale.scale <= scale.significand,
    ensures
        r == shrunk(len as int, scale@),
        1 <= r <= len,
{
    proof {
        lemma_shrunk_is_smaller(len as int, scale@);
    }
    let q: u128 = scale.divide(len).nearest_int();
    if q < 1 {
        1
    } else {
        q as u32
    }
}

/// The thumbnail kept of a captured window image, downscaled to a content area of `avail_w` by
/// `avail_h`. There is none when the size is not acceptable or the data is too short.
pub fn thumb_of_capture(
    data: &[u8],
    w: u32,
    h: u32,
    depth: u8,
    avail_w: u32,
    avail_h: u32,
) -> (r: Option<(u32, u32, Vec<u32>)>)
    requires
        1 <= avail_w,
        1 <= avail_h,
    ensures
        r is Some <==> capture_size_ok(w as int, h as int) && data.len() >= 4 * (w * h),
        r matches Some(t) ==> {
            &&& (t.0 as int, t.1 as int) == stored_size(
                w as int,
                h as int,
                avail_w as int,
                avail_h as int,
            )
            &&& t.2@ == stored_pixels(
                captured_pixels(data@, depth, (w * h) as nat),
                w as int,
                h as int,
                avail_w as int,
                avail_h as int,
            )
            &&& t.2.len() == t.0 * t.1
            &&& 1 <= t.0 <= w
            &&& 1 <= t.1 <= h
        },
{
    if !is_capture_size(w, h) {
        return None;
    }
    proof {
        assert(1 <= w * h <= 8192 * 8192) by (nonlinear_arith)
            requires
                1 <= w <= 8192,
                1 <= h <= 8192,
        ;
    }
    let n: usize = w as usize * h as usize;
    if data.len() < n * 4 {
        return None;
    }
    let px = captured_to_argb(data, depth, n);
    let scale: Ratio = fit_scale_of(w, h, avail_w, avail_h);
    if scale.significand > scale.scale {
        let sw: u32 = shrunk_of(w, &scale);
        let sh: u32 = shrunk_of(h, &scale);
        proof {
            assert(1 <= sw * sh <= 8192 * 8192) by (nonlinear_arith)
                requires
                    1 <= sw <= 8192,
                    1 <= sh <= 8192,
            ;
        }
        let small = pixels::downscale_argb(px.as_slice(), w, h, sw, sh);
        proof {
            let want = stored_pixels(px@, w as int, h as int, avail_w as int, avail_h as int);
            assert(want.len() == small.len());
            assert forall|i: int| 0 <= i < want.len() implies small@[i] == want[i] by {
                let (a, b) = (i / sw as int, i % sw as int);
                vstd::arithmetic::div_mod::lemma_fundamental_div_mod(i, sw as int);
                assert(0 <= a < sh) by (nonlinear_arith)
                    requires
                        i == sw * a + b,
                        0 <= b,
                        0 <= i < sw * sh,
                        0 <= b < sw,
                ;
                assert(sw * a == a * sw) by (nonlinear_arith);
                assert(small[a * sw + b] == small@[i]);
            }
            assert(small@ =~= want);
        }
        Some((sw, sh, small))
    } else {
        Some((w, h, px))
    }
}

/// A kept thumbnail fits the content area of a tile, and is never larger than the capture.
pub proof fn law_thumbnails_fit_the_tile(w: int, h: int, avail_w: int, avail_h: int)
    requires
        1 <= w < 0x1_0000_0000,
        1 <= h < 0x1_0000_0000,
        1 <= avail_w < 0x1_0000_0000,
        1 <= avail_h < 0x1_0000_0000,
    ensures
        ({
            let (sw, sh) = stored_size(w, h, avail_w, avail_h);
            1 <= sw <= avail_w && 1 <= sh <= avail_h && sw <= w && sh <= h
        }),
{
    let (a, b) = (rounding::quot(w, avail_w), rounding::quot(h, avail_h));
    let v = fit_scale(w, h, avail_w, avail_h);
    rounding::law_larger_is_maximum(w, avail_w, h, avail_h);
    rounding::lemma_ratio_is_normalised(w, avail_w);
    rounding::lemma_ratio_is_normalised(h, avail_h);
    if v.0 > v.1 {
        rounding::lemma_divided_fits(w, avail_w, v);
        rounding::lemma_divided_fits(h, avail_h, v);
        lemma_shrunk_is_smaller(w, v);
        lemma_shrunk_is_smaller(h, v);
    } else {
        assert(a.0 <= a.1) by (nonlinear_arith)
            requires
                v.0 * a.1 >= a.0 * v.1,
                v.0 <= v.1,
                v.1 >= 1,
                a.1 >= 1,
        ;
        assert(b.0 <= b.1) by (nonlinear_arith)
            requires
                v.0 * b.1 >= b.0 * v.1,
                v.0 <= v.1,
                v.1 >= 1,
                b.1 >= 1,
        ;
        rounding::lemma_small_ratio_fits(w, avail_w);
        rounding::lemma_small_ratio_fits(h, avail_h);
    }
}

/// A source length scaled to the available area: at least one pixel and never more than there is.
pub open spec fn fitted(len: int, scale: (int, int), avail: int) -> int {
    let s = shrunk(len, scale);
    if s < avail {
        s
    } else {
        avail
    }
}

fn fitted_of(len: u32, scale: &Ratio, avail: u32) -> (r: u32)
    requires
        1 <= len,
        1 <= avail,
        rounding::MIN_SIGNIFICAND <= scale.significand <= 2 * rounding::MIN_SIGNIFICAND,
        1 <= scale.scale < 0x20_0000_0000_0000_0000_0000,
    ensures
        r == fitted(len as int, scale@, avail as int),
        1 <= r <= avail,
{
    let q: u128 = scale.divide(len).nearest_int();
    if q < 1 {
        1
    } else if q < avail as u128 {
        q as u32
    } else {
        avail
    }
}

/// Source pixels per destination pixel in 16.16 fixed point, held at the largest `i32`.
pub open spec fn step(src: int, dst: int) -> int {
    let q = rounding::quot(src, dst);
    let s = rounding::nearest((q.0 * 0x1_0000, q.1));
    if s < i32::MAX {
        s
    } else {
        i32::MAX as int
    }
}

fn step_of(src: u32, dst: u32) -> (r: i32)
    requires
        1 <= src,
        1 <= dst,
    ensures
        r == step(src as int, dst as int),
{
    let q: Ratio = rounding::ratio(src, dst);
    let wide = Ratio { significand: q.significand * 0x1_0000, scale: q.scale };
    let s: u128 = wide.nearest_int();
    if s < i32::MAX as u128 {
        s as i32
    } else {
        i32::MAX
    }
}

/// Where the left (or top) edge goes when a length `len` is centred in `avail` after the padding.
pub open spec fn centred(origin: int, pad: int, avail: int, len: int) -> int {
    wire::w16(origin + pad + layout::minus(avail, len) / 2)
}

/// The left (or top) edge of a length centred in the available one.
pub fn centred_at(origin: i16, pad: u32, avail: u32, len: u32) -> (r: i16)
    ensures
        r == centred(origin as int, pad as int, avail as int, len as int),
{
    let off: i64 = if avail < len { 0 } else { (avail - len) as i64 / 2 };
    wire::coord(origin as i64 + pad as i64 + off)
}

/// The placement of an image in a tile's content area.
pub open spec fn placement(
    src: (int, int),
    tile: (int, int),
    avail: (int, int),
    pad: int,
) -> Placement {
    let scale = fit_scale(src.0, src.1, avail.0, avail.1);
    let dst_w = fitted(src.0, scale, avail.0);
    let dst_h = fitted(src.1, scale, avail.1);
    Placement {
        x: centred(tile.0, pad, avail.0, dst_w) as i16,
        y: centred(tile.1, pad, avail.1, dst_h) as i16,
        w: wire::u16_of(dst_w) as u16,
        h: wire::u16_of(dst_h) as u16,
        sx: step(src.0, dst_w) as i32,
        sy: step(src.1, dst_h) as i32,
    }
}

/// Where an image is drawn inside a tile: scaled to fit the content area with its aspect ratio,
/// and centred there. An empty image is not drawn.
pub fn place_pixels(
    src: (u32, u32),
    tile: (i16, i16),
    avail: (u32, u32),
    pad: u32,
) -> (r: Option<Placement>)
    requires
        1 <= avail.0,
        1 <= avail.1,
    ensures
        r is None <==> src.0 == 0 || src.1 == 0,
        r matches Some(p) ==> p == placement(
            (src.0 as int, src.1 as int),
            (tile.0 as int, tile.1 as int),
            (avail.0 as int, avail.1 as int),
            pad as int,
        ),
{
    if src.0 == 0 || src.1 == 0 {
        return None;
    }
    let scale: Ratio = fit_scale_of(src.0, src.1, avail.0, avail.1);
    let dst_w: u32 = fitted_of(src.0, &scale, avail.0);
    let dst_h: u32 = fitted_of(src.1, &scale, avail.1);
    Some(
        Placement {
            x: centred_at(tile.0, pad, avail.0, dst_w),
            y: centred_at(tile.1, pad, avail.1, dst_h),
            w: wire::extent(dst_w),
            h: wire::extent(dst_h),
            sx: step_of(src.0, dst_w),
            sy: step_of(src.1, dst_h),
        },
    )
}

/// Where the picture in a tile comes from.
#[derive(Debug, Clone, Copy, PartialEq, Eq)]
pub enum ThumbSource {
    /// The window as it is now, in the given picture format.
    Live { format: u32, place: Option<Placement> },
    /// The thumbnail that was kept.
    Cached { place: Option<Placement> },
    /// The icon.
    Icon,
}

/// What the display says of a window that is about to be captured. `None` and `false` stand for
/// requests that failed.
#[derive(Debug, Clone, Copy, PartialEq, Eq)]
pub struct LiveWindow {
    pub visual: Option<u32>,
    /// The compositor gave out the window's backing pixmap.
    pub named: bool,
    /// The size of that pixmap.
    pub size: Option<(u32, u32)>,
    /// The picture format of the visual.
    pub format: Option<u32>,
}

pub open spec fn place_of(
    src: (u32, u32),
    tile: (i16, i16),
    avail: (u32, u32),
    pad: u32,
) -> Option<Placement> {
    if src.0 == 0 || src.1 == 0 {
        None
    } else {
        Some(
            placement(
                (src.0 as int, src.1 as int),
                (tile.0 as int, tile.1 as int),
                (avail.0 as int, avail.1 as int),
                pad as int,
            ),
        )
    }
}

/// The source of a tile's picture when windows are captured as they are drawn: the live window
/// where everything about it is known, the kept thumbnail where something is not, and the icon
/// where there is none, where the window has no size, or where the tile has no room.
pub open spec fn source_of(
    live: LiveWindow,
    cached: Option<(u32, u32)>,
    tile: (i16, i16),
    avail: (u32, u32),
    pad: u32,
) -> ThumbSource {
    let fallback = match cached {
        Some(c) => ThumbSource::Cached { place: place_of(c, tile, avail, pad) },
        None => ThumbSource::Icon,
    };
    if avail.0 == 0 || avail.1 == 0 {
        ThumbSource::Icon
    } else if live.visual is None || !live.named {
        fallback
    } else {
        match live.size {
            None => fallback,
            Some(size) => if size.0 == 0 || size.1 == 0 {
                ThumbSource::Icon
            } else {
                match live.format {
                    None => fallback,
                    Some(format) => ThumbSource::Live {
                        format,
                        place: place_of(size, tile, avail, pad),
                    },
                }
            },
        }
    }
}

/// The source of a tile's picture when windows are captured as they are drawn.
pub fn thumb_source(
    live: &LiveWindow,
    cached: Option<(u32, u32)>,
    tile: (i16, i16),
    avail: (u32, u32),
    pad: u32,
) -> (r: ThumbSource)
    ensures
        r == source_of(*live, cached, tile, avail, pad),
{
    if avail.0 == 0 || avail.1 == 0 {
        return ThumbSource::Icon;
    }
    let known = live.visual.is_some() && live.named;
    if known {
        if let Some(size) = live.size {
            if size.0 == 0 || size.1 == 0 {
                return ThumbSource::Icon;
            }
            if let Some(format) = live.format {
                return ThumbSource::Live { format, place: place_pixels(size, tile, avail, pad) };
            }
        }
    }
    match cached {
        Some(c) => ThumbSource::Cached { place: place_pixels(c, tile, avail, pad) },
        None => ThumbSource::Icon,
    }
}

// ---------------------------------------------------------------- what thumbnails look like

/// `n` is `num / den` rounded to the nearest integer, but at least one.
pub open spec fn is_rounded(n: int, num: int, den: int) -> bool {
    -den <= 2 * (n * den - num) <= den || (n == 1 && 2 * num <= den)
}

/// One of two sides is filled, and the other one keeps the proportions.
pub open spec fn fills(dst: (int, int), src: (int, int), avail: (int, int)) -> bool {
    &&& 1 <= dst.0 <= avail.0
    &&& 1 <= dst.1 <= avail.1
    &&& {
        ||| dst.0 == avail.0 && is_rounded(dst.1, src.1 * avail.0, src.0)
        ||| dst.1 == avail.1 && is_rounded(dst.0, src.0 * avail.1, src.1)
    }
}

proof fn lemma_fit(w: int, h: int, aw: int, ah: int)
    requires
        1 <= w <= MAX_CAPTURE,
        1 <= h <= MAX_CAPTURE,
        1 <= aw < 0x1_0000_0000,
        1 <= ah < 0x1_0000_0000,
    ensures
        ({
            let v = fit_scale(w, h, aw, ah);
            &&& fills((shrunk(w, v), shrunk(h, v)), (w, h), (aw, ah))
            &&& (v.0 <= v.1) == (w <= aw && h <= ah)
        }),
{
    let (a, b) = (rounding::quot(w, aw), rounding::quot(h, ah));
    let v = fit_scale(w, h, aw, ah);
    rounding::law_larger_is_maximum(w, aw, h, ah);
    rounding::lemma_ratio_is_normalised(w, aw);
    rounding::lemma_ratio_is_normalised(h, ah);
    rounding::lemma_divided_fits(w, aw, v);
    rounding::lemma_divided_fits(h, ah, v);
    if w <= aw {
        rounding::lemma_ratio_of_smaller(w, aw);
    }
    if h <= ah {
        rounding::lemma_ratio_of_smaller(h, ah);
    }
    if v.0 <= v.1 {
        assert(a.0 <= a.1) by (nonlinear_arith)
            requires
                v.0 * a.1 >= a.0 * v.1,
                v.0 <= v.1,
                v.1 >= 1,
                a.1 >= 1,
        ;
        assert(b.0 <= b.1) by (nonlinear_arith)
            requires
                v.0 * b.1 >= b.0 * v.1,
                v.0 <= v.1,
                v.1 >= 1,
                b.1 >= 1,
        ;
        rounding::lemma_small_ratio_fits(w, aw);
        rounding::lemma_small_ratio_fits(h, ah);
    }
    let (nw, nh) = (
        rounding::nearest(rounding::divided(w, v)),
        rounding::nearest(rounding::divided(h, v)),
    );
    if v == a {
        rounding::law_fits_keep_the_proportions(w, aw, w);
        rounding::law_fits_keep_the_proportions(w, aw, h);
        assert(nw == aw) by (nonlinear_arith)
            requires
                -w <= 2 * (nw * w - w * aw) <= w,
                w >= 1,
        ;
        lemma_at_least_one(nh, h * aw, w);
    } else {
        rounding::law_fits_keep_the_proportions(h, ah, h);
        rounding::law_fits_keep_the_proportions(h, ah, w);
        assert(nh == ah) by (nonlinear_arith)
            requires
                -h <= 2 * (nh * h - h * ah) <= h,
                h >= 1,
        ;
        lemma_at_least_one(nw, w * ah, h);
    }
}

proof fn lemma_at_least_one(n: int, num: int, den: int)
    requires
        -den <= 2 * (n * den - num) <= den,
        den >= 1,
        num >= 0,
    ensures
        is_rounded(at_least_one(n), num, den),
{
    if n < 1 {
        assert(n * den <= 0) by (nonlinear_arith)
            requires
                n <= 0,
                den >= 1,
        ;
    }
}

/// A capture that fits the content area is kept as large as it is. Any other one is shrunk until it
/// just fits: it fills the area in one direction, and keeps its proportions in the other.
pub proof fn law_thumbnails_keep_the_proportions(w: int, h: int, avail_w: int, avail_h: int)
    requires
        1 <= w <= 8192,
        1 <= h <= 8192,
        1 <= avail_w < 0x1_0000_0000,
        1 <= avail_h < 0x1_0000_0000,
    ensures
        w <= avail_w && h <= avail_h ==> stored_size(w, h, avail_w, avail_h) == (w, h),
        !(w <= avail_w && h <= avail_h) ==> fills(
            stored_size(w, h, avail_w, avail_h),
            (w, h),
            (avail_w, avail_h),
        ),
{
    lemma_fit(w, h, avail_w, avail_h);
}

/// A picture of a tile lies in its content area, fills it in one direction with its proportions
/// kept, is centred up to one pixel, and is sampled at the matching steps.
pub proof fn law_pictures_fill_the_content_area(
    src: (int, int),
    tile: (int, int),
    avail: (int, int),
    pad: int,
)
    requires
        1 <= src.0 <= 8192,
        1 <= src.1 <= 8192,
        1 <= avail.0,
        1 <= avail.1,
        0 <= pad,
        -0x8000 <= tile.0,
        -0x8000 <= tile.1,
        tile.0 + pad + avail.0 < 0x8000,
        tile.1 + pad + avail.1 < 0x8000,
    ensures
        ({
            let p = placement(src, tile, avail, pad);
            let (left, top) = (p.x - (tile.0 + pad), p.y - (tile.1 + pad));
            &&& fills((p.w as int, p.h as int), src, avail)
            &&& 0 <= left && 0 <= top
            &&& 0 <= (avail.0 - p.w - left) - left <= 1
            &&& 0 <= (avail.1 - p.h - top) - top <= 1
            &&& -p.w <= 2 * (p.sx * p.w - 0x1_0000 * src.0) <= p.w
            &&& -p.h <= 2 * (p.sy * p.h - 0x1_0000 * src.1) <= p.h
        }),
{
    lemma_fit(src.0, src.1, avail.0, avail.1);
    let scale = fit_scale(src.0, src.1, avail.0, avail.1);
    let (dw, dh) = (fitted(src.0, scale, avail.0), fitted(src.1, scale, avail.1));
    lemma_step(src.0, dw);
    lemma_step(src.1, dh);
    wire::law_coordinates_in_range_are_exact(tile.0 + pad + layout::minus(avail.0, dw) / 2);
    wire::law_coordinates_in_range_are_exact(tile.1 + pad + layout::minus(avail.1, dh) / 2);
    wire::law_coordinates_in_range_are_exact(dw);
    wire::law_coordinates_in_range_are_exact(dh);
}

proof fn lemma_step(src: int, dst: int)
    requires
        1 <= src <= 8192,
        1 <= dst,
    ensures
        0 <= step(src, dst) <= i32::MAX,
        -dst <= 2 * (step(src, dst) * dst - 0x1_0000 * src) <= dst,
{
    rounding::law_steps_are_exact(src, dst);
    let q = rounding::quot(src, dst);
    let n = rounding::nearest((q.0 * 0x1_0000, q.1));
    assert(0 <= n <= 0x2000_0001) by (nonlinear_arith)
        requires
            -dst <= 2 * (n * dst - 0x1_0000 * src) <= dst,
            1 <= src <= 8192,
            dst >= 1,
    ;
}

/// The sum of `f` over the integers from `lo` up to `hi`.
pub open spec fn total(f: spec_fn(int) -> int, lo: int, hi: int) -> int
    decreases hi - lo,
{
    if lo >= hi {
        0
    } else {
        total(f, lo, hi - 1) + f(hi - 1)
    }
}

/// The sum of byte `c` of the pixels in the columns `x0..x1` and rows `y0..y1` of a capture.
pub open spec fn byte_sum(
    data: Seq<u8>,
    w: int,
    c: int,
    x0: int,
    x1: int,
    y0: int,
    y1: int,
) -> int {
    total(|y: int| total(|x: int| data[4 * (y * w + x) + c] as int, x0, x1), y0, y1)
}

/// The lines `lo..hi` are the share of line `d` when `src` lines shrink to `dst`: they run from
/// `d * src / dst` to `(d + 1) * src / dst`, rounded down, and by at most one more where that
/// division leaves no remainder.
pub open spec fn is_share(lo: int, hi: int, d: int, src: int, dst: int) -> bool {
    &&& 0 <= lo < hi <= src
    &&& lo * dst <= d * src <= (lo + 1) * dst
    &&& hi * dst <= (d + 1) * src <= (hi + 1) * dst
}

/// `q` is the average, rounded down, of byte `c` of the pixels of a block of a capture.
pub open spec fn is_average(
    q: int,
    data: Seq<u8>,
    w: int,
    c: int,
    x0: int,
    x1: int,
    y0: int,
    y1: int,
) -> bool {
    let n = (x1 - x0) * (y1 - y0);
    q * n <= byte_sum(data, w, c, x0, x1, y0, y1) < (q + 1) * n
}

/// Byte `c` of a packed pixel, the lowest first.
pub open spec fn byte_of(p: u32, c: int) -> int {
    if c == 0 {
        p as int % 0x100
    } else if c == 1 {
        p as int / 0x100 % 0x100
    } else if c == 2 {
        p as int / 0x1_0000 % 0x100
    } else {
        p as int / 0x100_0000
    }
}

proof fn lemma_captured_bytes(data: Seq<u8>, depth: u8, n: nat, i: int, c: int)
    requires
        0 <= i < n,
        4 * n <= data.len(),
        0 <= c < 4,
    ensures
        pixels::component(3 - c, captured_pixels(data, depth, n)[i]) == if c == 3 && depth != 32 {
            0xff
        } else {
            data[4 * i + c] as int
        },
{
    argb::lemma_unpacked(
        if depth == 32 {
            data[4 * i + 3] as int
        } else {
            0xff
        },
        data[4 * i + 2] as int,
        data[4 * i + 1] as int,
        data[4 * i] as int,
    );
}

proof fn lemma_index(w: int, h: int, x: int, y: int)
    requires
        0 <= x < w,
        0 <= y < h,
    ensures
        0 <= y * w + x < w * h,
{
    assert(0 <= y * w + x < w * h) by (nonlinear_arith)
        requires
            0 <= x < w,
            0 <= y,
            y + 1 <= h,
    ;
}

proof fn lemma_row_of_bytes(
    data: Seq<u8>,
    depth: u8,
    w: int,
    h: int,
    c: int,
    y: int,
    x0: int,
    x1: int,
)
    requires
        0 <= y < h,
        0 <= x0,
        x1 <= w,
        4 * (w * h) <= data.len(),
        0 <= c < 3 || (c == 3 && depth == 32),
    ensures
        pixels::row_sum(captured_pixels(data, depth, (w * h) as nat), 3 - c, y * w, x0, x1) == total(
            |x: int| data[4 * (y * w + x) + c] as int,
            x0,
            x1,
        ),
    decreases x1 - x0,
{
    if x0 < x1 {
        lemma_row_of_bytes(data, depth, w, h, c, y, x0, x1 - 1);
        lemma_index(w, h, x1 - 1, y);
        lemma_captured_bytes(data, depth, (w * h) as nat, y * w + x1 - 1, c);
    }
}

proof fn lemma_block_of_bytes(
    data: Seq<u8>,
    depth: u8,
    w: int,
    h: int,
    c: int,
    x0: int,
    x1: int,
    y0: int,
    y1: int,
)
    requires
        0 <= y0,
        y1 <= h,
        0 <= x0,
        x1 <= w,
        4 * (w * h) <= data.len(),
        0 <= c < 3 || (c == 3 && depth == 32),
    ensures
        pixels::block_sum(captured_pixels(data, depth, (w * h) as nat), 3 - c, w, x0, x1, y0, y1)
            == byte_sum(data, w, c, x0, x1, y0, y1),
    decreases y1 - y0,
{
    if y0 < y1 {
        lemma_block_of_bytes(data, depth, w, h, c, x0, x1, y0, y1 - 1);
        lemma_row_of_bytes(data, depth, w, h, c, y1 - 1, x0, x1);
    }
}

proof fn lemma_share(d: int, src: int, dst: int)
    requires
        1 <= dst <= src <= 8192,
        0 <= d < dst,
    ensures
        is_share(
            pixels::span_start(d, src, dst),
            pixels::span_end(d, src, dst),
            d,
            src,
            dst,
        ),
{
    rounding::law_shrinking_leaves_no_gap(src, dst, d);
    rounding::law_products_follow_the_exact_ones(src, dst, d);
    rounding::law_products_follow_the_exact_ones(src, dst, d + 1);
}

proof fn lemma_quotient(sum: int, n: int)
    requires
        n >= 1,
        0 <= sum <= 255 * n,
    ensures
        (sum / n) * n <= sum < (sum / n + 1) * n,
        0 <= sum / n <= 255,
{
    vstd::arithmetic::div_mod::lemma_fundamental_div_mod(sum, n);
    let (q, r) = (sum / n, sum % n);
    assert(q * n <= sum < (q + 1) * n) by (nonlinear_arith)
        requires
            sum == n * q + r,
            0 <= r < n,
    ;
    assert(0 <= q <= 255) by (nonlinear_arith)
        requires
            q * n <= sum < (q + 1) * n,
            0 <= sum <= 255 * n,
            n >= 1,
    ;
}

proof fn lemma_block_average_bytes(
    data: Seq<u8>,
    depth: u8,
    w: int,
    h: int,
    c: int,
    x0: int,
    x1: int,
    y0: int,
    y1: int,
)
    requires
        0 <= y0 < y1 <= h,
        0 <= x0 < x1 <= w,
        4 * (w * h) <= data.len(),
        0 <= c < 3 || (c == 3 && depth == 32),
    ensures
        ({
            let px = captured_pixels(data, depth, (w * h) as nat);
            let p = pixels::block_average(px, w, x0, x1, y0, y1);
            &&& 0 <= p <= u32::MAX
            &&& is_average(byte_of(p as u32, c), data, w, c, x0, x1, y0, y1)
        }),
{
    let px = captured_pixels(data, depth, (w * h) as nat);
    let n = (x1 - x0) * (y1 - y0);
    assert(n >= 1) by (nonlinear_arith)
        requires
            n == (x1 - x0) * (y1 - y0),
            x1 - x0 >= 1,
            y1 - y0 >= 1,
    ;
    pixels::lemma_block_sum_bounds(px, 0, w, x0, x1, y0, y1);
    pixels::lemma_block_sum_bounds(px, 1, w, x0, x1, y0, y1);
    pixels::lemma_block_sum_bounds(px, 2, w, x0, x1, y0, y1);
    pixels::lemma_block_sum_bounds(px, 3, w, x0, x1, y0, y1);
    lemma_quotient(pixels::block_sum(px, 0, w, x0, x1, y0, y1), n);
    lemma_quotient(pixels::block_sum(px, 1, w, x0, x1, y0, y1), n);
    lemma_quotient(pixels::block_sum(px, 2, w, x0, x1, y0, y1), n);
    lemma_quotient(pixels::block_sum(px, 3, w, x0, x1, y0, y1), n);
    lemma_block_of_bytes(data, depth, w, h, c, x0, x1, y0, y1);
    argb::lemma_unpacked(
        pixels::block_sum(px, 0, w, x0, x1, y0, y1) / n,
        pixels::block_sum(px, 1, w, x0, x1, y0, y1) / n,
        pixels::block_sum(px, 2, w, x0, x1, y0, y1) / n,
        pixels::block_sum(px, 3, w, x0, x1, y0, y1) / n,
    );
}

/// Pixel (`dx`, `dy`) of a kept thumbnail, which stands at `dy * width + dx`, is the average of the
/// pixels of its own share of the captured window, component by component and rounded down. The
/// bytes of a capture are blue, green and red; the fourth is the alpha at a depth of 32.
pub proof fn law_thumbnail_pixels_are_averages(
    data: Seq<u8>,
    depth: u8,
    w: int,
    h: int,
    avail_w: int,
    avail_h: int,
    dx: int,
    dy: int,
    c: int,
)
    requires
        1 <= w <= 8192,
        1 <= h <= 8192,
        1 <= avail_w < 0x1_0000_0000,
        1 <= avail_h < 0x1_0000_0000,
        4 * (w * h) <= data.len(),
        0 <= dx < stored_size(w, h, avail_w, avail_h).0,
        0 <= dy < stored_size(w, h, avail_w, avail_h).1,
        0 <= c < 3 || (c == 3 && depth == 32),
    ensures
        ({
            let (sw, sh) = stored_size(w, h, avail_w, avail_h);
            let px = captured_pixels(data, depth, (w * h) as nat);
            let p = stored_pixels(px, w, h, avail_w, avail_h)[dy * sw + dx];
            exists|x0: int, x1: int, y0: int, y1: int|
                #[trigger] is_share(x0, x1, dx, w, sw) && #[trigger] is_share(y0, y1, dy, h, sh)
                    && is_average(byte_of(p, c), data, w, c, x0, x1, y0, y1)
        }),
{
    let (sw, sh) = stored_size(w, h, avail_w, avail_h);
    let px = captured_pixels(data, depth, (w * h) as nat);
    let scale = fit_scale(w, h, avail_w, avail_h);
    let p = stored_pixels(px, w, h, avail_w, avail_h)[dy * sw + dx];
    law_thumbnails_fit_the_tile(w, h, avail_w, avail_h);
    lemma_index(sw, sh, dx, dy);
    if scale.0 > scale.1 {
        lemma_share(dx, w, sw);
        lemma_share(dy, h, sh);
        let (x0, x1) = (pixels::span_start(dx, w, sw), pixels::span_end(dx, w, sw));
        let (y0, y1) = (pixels::span_start(dy, h, sh), pixels::span_end(dy, h, sh));
        lemma_block_average_bytes(data, depth, w, h, c, x0, x1, y0, y1);
        let i = dy * sw + dx;
        vstd::arithmetic::div_mod::lemma_fundamental_div_mod_converse(i, sw, dy, dx);
        assert(is_share(x0, x1, dx, w, sw) && is_share(y0, y1, dy, h, sh));
    } else {
        let (x0, x1, y0, y1) = (dx, dx + 1, dy, dy + 1);
        lemma_captured_bytes(data, depth, (w * h) as nat, dy * w + dx, c);
        lemma_block_of_bytes(data, depth, w, h, c, x0, x1, y0, y1);
        reveal_with_fuel(total, 2);
        assert(byte_sum(data, w, c, x0, x1, y0, y1) == data[4 * (dy * w + dx) + c]);
        assert(byte_of(p, c) == data[4 * (dy * w + dx) + c]);
        let q = byte_of(p, c);
        assert(q * ((x1 - x0) * (y1 - y0)) == q && (q + 1) * ((x1 - x0) * (y1 - y0)) == q + 1)
            by (nonlinear_arith)
            requires
                x1 - x0 == 1,
                y1 - y0 == 1,
        ;
        assert(dx * w == dx * sw && (dx + 1) * w == x1 * sw);
        assert((x0 + 1) * sw >= dx * w && (x1 + 1) * sw >= (dx + 1) * w) by (nonlinear_arith)
            requires
                x0 == dx,
                x1 == dx + 1,
                sw == w,
                w >= 1,
                dx >= 0,
        ;
        assert((y0 + 1) * sh >= dy * h && (y1 + 1) * sh >= (dy + 1) * h) by (nonlinear_arith)
            requires
                y0 == dy,
                y1 == dy + 1,
                sh == h,
                h >= 1,
                dy >= 0,
        ;
        assert(is_share(x0, x1, dx, w, sw) && is_share(y0, y1, dy, h, sh));
    }
}

proof fn lemma_same_total(f: spec_fn(int) -> int, v: int, lo: int, hi: int)
    requires
        lo <= hi,
        forall|i: int| lo <= i < hi ==> #[trigger] f(i) == v,
    ensures
        total(f, lo, hi) == v * (hi - lo),
    decreases hi - lo,
{
    if lo < hi {
        lemma_same_total(f, v, lo, hi - 1);
        assert(v * (hi - 1 - lo) + v == v * (hi - lo)) by (nonlinear_arith);
    } else {
        assert(v * (hi - lo) == 0) by (nonlinear_arith)
            requires
                hi == lo,
        ;
    }
}

/// Point (`x`, `y`) of the captured window is one that pixel (`dx`, `dy`) of a `sw` by `sh`
/// thumbnail stands for.
pub open spec fn stands_for(
    w: int,
    h: int,
    sw: int,
    sh: int,
    dx: int,
    dy: int,
    x: int,
    y: int,
) -> bool {
    &&& 0 <= x < w && dx * w - sw <= x * sw < (dx + 1) * w
    &&& 0 <= y < h && dy * h - sh <= y * sh < (dy + 1) * h
}

/// A thumbnail shows the window the right way round: where the window has one colour all over the
/// part that a pixel of the thumbnail stands for, that pixel has the colour.
pub proof fn law_thumbnails_show_the_window(
    data: Seq<u8>,
    depth: u8,
    w: int,
    h: int,
    avail_w: int,
    avail_h: int,
    dx: int,
    dy: int,
    blue: u8,
    green: u8,
    red: u8,
    alpha: u8,
)
    requires
        1 <= w <= 8192,
        1 <= h <= 8192,
        1 <= avail_w < 0x1_0000_0000,
        1 <= avail_h < 0x1_0000_0000,
        4 * (w * h) <= data.len(),
        0 <= dx < stored_size(w, h, avail_w, avail_h).0,
        0 <= dy < stored_size(w, h, avail_w, avail_h).1,
        ({
            let (sw, sh) = stored_size(w, h, avail_w, avail_h);
            forall|x: int, y: int|
                #[trigger] stands_for(w, h, sw, sh, dx, dy, x, y) ==> {
                    let i = 4 * (y * w + x);
                    &&& data[i] == blue
                    &&& data[i + 1] == green
                    &&& data[i + 2] == red
                    &&& depth == 32 ==> data[i + 3] == alpha
                }
        }),
        depth != 32 ==> alpha == 0xff,
    ensures
        ({
            let (sw, sh) = stored_size(w, h, avail_w, avail_h);
            let px = captured_pixels(data, depth, (w * h) as nat);
            stored_pixels(px, w, h, avail_w, avail_h)[dy * sw + dx] == alpha * 0x100_0000 + red
                * 0x1_0000 + green * 0x100 + blue
        }),
{
    let (sw, sh) = stored_size(w, h, avail_w, avail_h);
    let px = captured_pixels(data, depth, (w * h) as nat);
    let p = stored_pixels(px, w, h, avail_w, avail_h)[dy * sw + dx];
    lemma_uniform_byte(data, depth, w, h, avail_w, avail_h, dx, dy, 0, blue as int);
    lemma_uniform_byte(data, depth, w, h, avail_w, avail_h, dx, dy, 1, green as int);
    lemma_uniform_byte(data, depth, w, h, avail_w, avail_h, dx, dy, 2, red as int);
    if depth == 32 {
        lemma_uniform_byte(data, depth, w, h, avail_w, avail_h, dx, dy, 3, alpha as int);
    } else {
        lemma_opaque(data, depth, w, h, avail_w, avail_h, dx, dy);
    }
}

proof fn lemma_uniform_byte(
    data: Seq<u8>,
    depth: u8,
    w: int,
    h: int,
    avail_w: int,
    avail_h: int,
    dx: int,
    dy: int,
    c: int,
    v: int,
)
    requires
        1 <= w <= 8192,
        1 <= h <= 8192,
        1 <= avail_w < 0x1_0000_0000,
        1 <= avail_h < 0x1_0000_0000,
        4 * (w * h) <= data.len(),
        0 <= dx < stored_size(w, h, avail_w, avail_h).0,
        0 <= dy < stored_size(w, h, avail_w, avail_h).1,
        0 <= c < 3 || (c == 3 && depth == 32),
        ({
            let (sw, sh) = stored_size(w, h, avail_w, avail_h);
            forall|x: int, y: int|
                #[trigger] stands_for(w, h, sw, sh, dx, dy, x, y) ==> data[4 * (y * w + x) + c]
                    == v
        }),
    ensures
        ({
            let (sw, sh) = stored_size(w, h, avail_w, avail_h);
            let px = captured_pixels(data, depth, (w * h) as nat);
            byte_of(stored_pixels(px, w, h, avail_w, avail_h)[dy * sw + dx], c) == v
        }),
{
    let (sw, sh) = stored_size(w, h, avail_w, avail_h);
    let px = captured_pixels(data, depth, (w * h) as nat);
    let p = stored_pixels(px, w, h, avail_w, avail_h)[dy * sw + dx];
    law_thumbnails_fit_the_tile(w, h, avail_w, avail_h);
    law_thumbnail_pixels_are_averages(data, depth, w, h, avail_w, avail_h, dx, dy, c);
    let (x0, x1, y0, y1) = choose|x0: int, x1: int, y0: int, y1: int|
        #[trigger] is_share(x0, x1, dx, w, sw) && #[trigger] is_share(y0, y1, dy, h, sh)
            && is_average(byte_of(p, c), data, w, c, x0, x1, y0, y1);
    let g = |y: int| total(|x: int| data[4 * (y * w + x) + c] as int, x0, x1);
    assert forall|y: int| y0 <= y < y1 implies #[trigger] g(y) == v * (x1 - x0) by {
        let f = |x: int| data[4 * (y * w + x) + c] as int;
        lemma_inside(y0, y1, dy, h, sh, y);
        assert forall|x: int| x0 <= x < x1 implies #[trigger] f(x) == v by {
            lemma_inside(x0, x1, dx, w, sw, x);
            assert(stands_for(w, h, sw, sh, dx, dy, x, y));
        }
        lemma_same_total(f, v, x0, x1);
    }
    lemma_same_total(g, v * (x1 - x0), y0, y1);
    let n = (x1 - x0) * (y1 - y0);
    let q = byte_of(p, c);
    assert(v * (x1 - x0) * (y1 - y0) == v * n) by (nonlinear_arith)
        requires
            n == (x1 - x0) * (y1 - y0),
    ;
    assert(n >= 1) by (nonlinear_arith)
        requires
            n == (x1 - x0) * (y1 - y0),
            x1 - x0 >= 1,
            y1 - y0 >= 1,
    ;
    assert(q == v) by (nonlinear_arith)
        requires
            q * n <= v * n < (q + 1) * n,
            n >= 1,
    ;
}

/// A line of a share lies where the line stands for it.
proof fn lemma_inside(lo: int, hi: int, d: int, src: int, dst: int, x: int)
    requires
        is_share(lo, hi, d, src, dst),
        lo <= x < hi,
        dst >= 1,
    ensures
        d * src - dst <= x * dst < (d + 1) * src,
{
    assert(lo * dst <= x * dst && (x + 1) * dst <= hi * dst) by (nonlinear_arith)
        requires
            lo <= x,
            x + 1 <= hi,
            dst >= 1,
    ;
    assert((lo + 1) * dst == lo * dst + dst && (x + 1) * dst == x * dst + dst) by (nonlinear_arith);
}

/// A thumbnail of a window without alpha is opaque.
proof fn lemma_opaque(
    data: Seq<u8>,
    depth: u8,
    w: int,
    h: int,
    avail_w: int,
    avail_h: int,
    dx: int,
    dy: int,
)
    requires
        1 <= w <= 8192,
        1 <= h <= 8192,
        1 <= avail_w < 0x1_0000_0000,
        1 <= avail_h < 0x1_0000_0000,
        4 * (w * h) <= data.len(),
        0 <= dx < stored_size(w, h, avail_w, avail_h).0,
        0 <= dy < stored_size(w, h, avail_w, avail_h).1,
        depth != 32,
    ensures
        ({
            let (sw, sh) = stored_size(w, h, avail_w, avail_h);
            let px = captured_pixels(data, depth, (w * h) as nat);
            byte_of(stored_pixels(px, w, h, avail_w, avail_h)[dy * sw + dx], 3) == 0xff
        }),
{
    let (sw, sh) = stored_size(w, h, avail_w, avail_h);
    let px = captured_pixels(data, depth, (w * h) as nat);
    law_thumbnails_fit_the_tile(w, h, avail_w, avail_h);
    lemma_index(sw, sh, dx, dy);
    let scale = fit_scale(w, h, avail_w, avail_h);
    if scale.0 > scale.1 {
        lemma_share(dx, w, sw);
        lemma_share(dy, h, sh);
        let (x0, x1) = (pixels::span_start(dx, w, sw), pixels::span_end(dx, w, sw));
        let (y0, y1) = (pixels::span_start(dy, h, sh), pixels::span_end(dy, h, sh));
        lemma_opaque_block(data, depth, w, h, x0, x1, y0, y1);
        let n = (x1 - x0) * (y1 - y0);
        assert(n >= 1) by (nonlinear_arith)
            requires
                n == (x1 - x0) * (y1 - y0),
                x1 - x0 >= 1,
                y1 - y0 >= 1,
        ;
        vstd::arithmetic::div_mod::lemma_div_multiples_vanish(0xff, n);
        assert(n * 0xff == 0xff * n);
        pixels::lemma_block_sum_bounds(px, 1, w, x0, x1, y0, y1);
        pixels::lemma_block_sum_bounds(px, 2, w, x0, x1, y0, y1);
        pixels::lemma_block_sum_bounds(px, 3, w, x0, x1, y0, y1);
        lemma_quotient(pixels::block_sum(px, 1, w, x0, x1, y0, y1), n);
        lemma_quotient(pixels::block_sum(px, 2, w, x0, x1, y0, y1), n);
        lemma_quotient(pixels::block_sum(px, 3, w, x0, x1, y0, y1), n);
        argb::lemma_unpacked(
            0xff,
            pixels::block_sum(px, 1, w, x0, x1, y0, y1) / n,
            pixels::block_sum(px, 2, w, x0, x1, y0, y1) / n,
            pixels::block_sum(px, 3, w, x0, x1, y0, y1) / n,
        );
        vstd::arithmetic::div_mod::lemma_fundamental_div_mod_converse(dy * sw + dx, sw, dy, dx);
    } else {
        lemma_captured_bytes(data, depth, (w * h) as nat, dy * w + dx, 3);
    }
}

proof fn lemma_opaque_block(
    data: Seq<u8>,
    depth: u8,
    w: int,
    h: int,
    x0: int,
    x1: int,
    y0: int,
    y1: int,
)
    requires
        0 <= x0 <= x1 <= w,
        0 <= y0 <= y1 <= h,
        4 * (w * h) <= data.len(),
        depth != 32,
    ensures
        pixels::block_sum(captured_pixels(data, depth, (w * h) as nat), 0, w, x0, x1, y0, y1)
            == 0xff * ((x1 - x0) * (y1 - y0)),
    decreases y1 - y0,
{
    if y0 < y1 {
        lemma_opaque_block(data, depth, w, h, x0, x1, y0, y1 - 1);
        lemma_opaque_row(data, depth, w, h, y1 - 1, x0, x1);
        let k = x1 - x0;
        assert(k * (y1 - 1 - y0) + k == k * (y1 - y0)) by (nonlinear_arith);
    } else {
        assert((x1 - x0) * (y1 - y0) == 0) by (nonlinear_arith)
            requires
                y1 == y0,
        ;
    }
}

proof fn lemma_opaque_row(
    data: Seq<u8>,
    depth: u8,
    w: int,
    h: int,
    y: int,
    x0: int,
    x1: int,
)
    requires
        0 <= x0 <= x1 <= w,
        0 <= y < h,
        4 * (w * h) <= data.len(),
        depth != 32,
    ensures
        pixels::row_sum(captured_pixels(data, depth, (w * h) as nat), 0, y * w, x0, x1) == 0xff * (
        x1 - x0),
    decreases x1 - x0,
{
    if x0 < x1 {
        lemma_opaque_row(data, depth, w, h, y, x0, x1 - 1);
        lemma_index(w, h, x1 - 1, y);
        lemma_captured_bytes(data, depth, (w * h) as nat, y * w + x1 - 1, 3);
    }
}

/// Windows of up to 8192 pixels in either direction are captured, and no others.
pub proof fn law_captures_have_a_limit(w: int, h: int)
    ensures
        capture_size_ok(w, h) <==> 1 <= w <= 8192 && 1 <= h <= 8192,
{
}

/// A tile shows the live window wherever that is known in full, the kept thumbnail wherever it is
/// not, and the icon where there is no thumbnail either, no room, or a window without a size.
pub proof fn law_the_best_picture_is_shown(
    live: LiveWindow,
    cached: Option<(u32, u32)>,
    tile: (i16, i16),
    avail: (u32, u32),
    pad: u32,
)
    ensures
        ({
            let room = avail.0 > 0 && avail.1 > 0;
            let known = live.visual is Some && live.named && live.size is Some;
            let empty = live.size matches Some(s) && (s.0 == 0 || s.1 == 0);
            let full = known && live.format is Some;
            match source_of(live, cached, tile, avail, pad) {
                ThumbSource::Live { format, place } => {
                    &&& room && full && !empty
                    &&& live.format == Some(format)
                    &&& live.size matches Some(s) && place == Some(
                        placement(
                            (s.0 as int, s.1 as int),
                            (tile.0 as int, tile.1 as int),
                            (avail.0 as int, avail.1 as int),
                            pad as int,
                        ),
                    )
                },
                ThumbSource::Cached { place } => {
                    &&& room && !full && !(known && empty)
                    &&& cached matches Some(s) && {
                        &&& s.0 > 0 && s.1 > 0 ==> place == Some(
                            placement(
                                (s.0 as int, s.1 as int),
                                (tile.0 as int, tile.1 as int),
                                (avail.0 as int, avail.1 as int),
                                pad as int,
                            ),
                        )
                        &&& s.0 == 0 || s.1 == 0 ==> place is None
                    }
                },
                ThumbSource::Icon => !room || (known && empty) || (!full && cached is None),
            }
        }),
{
}

} // verus!
