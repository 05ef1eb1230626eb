//! Window images: downscaling, conversion to packed ARGB, and the size of thumbnails.
use vstd::prelude::*;

use crate::argb;
use crate::rounding;
use crate::rounding::Ratio;

verus! {

/// A component of a packed pixel: 0 is alpha, 1 red, 2 green, 3 blue.
pub open spec fn component(k: int, p: u32) -> int {
    if k == 0 {
        argb::alpha_of(p)
    } else if k == 1 {
        argb::red_of(p)
    } else if k == 2 {
        argb::green_of(p)
    } else {
        argb::blue_of(p)
    }
}

/// Sum of component `k` over the pixels `start + x0 .. start + x1`.
pub open spec fn row_sum(px: Seq<u32>, k: int, start: int, x0: int, x1: int) -> int
    decreases x1 - x0,
{
    if x0 >= x1 {
        0
    } else {
        row_sum(px, k, start, x0, x1 - 1) + component(k, px[start + x1 - 1])
    }
}

/// Sum of component `k` over the columns `x0..x1` of the rows `y0..y1`.
pub open spec fn block_sum(
    px: Seq<u32>,
    k: int,
    src_w: int,
    x0: int,
    x1: int,
    y0: int,
    y1: int,
) -> int
    decreases y1 - y0,
{
    if y0 >= y1 {
        0
    } else {
        block_sum(px, k, src_w, x0, x1, y0, y1 - 1) + row_sum(px, k, (y1 - 1) * src_w, x0, x1)
    }
}

/// The average colour of a block of pixels, each component rounded down; zero for an empty block.
pub open spec fn block_average(
    px: Seq<u32>,
    src_w: int,
    x0: int,
    x1: int,
    y0: int,
    y1: int,
) -> int {
    if x0 >= x1 || y0 >= y1 {
        0
    } else {
        let n = (x1 - x0) * (y1 - y0);
        argb::argb(
            block_sum(px, 0, src_w, x0, x1, y0, y1) / n,
            block_sum(px, 1, src_w, x0, x1, y0, y1) / n,
            block_sum(px, 2, src_w, x0, x1, y0, y1) / n,
            block_sum(px, 3, src_w, x0, x1, y0, y1) / n,
        )
    }
}

/// The first source line of output line `d`, when `src` lines shrink to `dst`.
pub open spec fn span_start(d: int, src: int, dst: int) -> int {
    if src == 0 {
        0
    } else {
        rounding::product_floor(rounding::quot(src, dst), d)
    }
}

/// One past the last source line of output line `d`.
pub open spec fn span_end(d: int, src: int, dst: int) -> int {
    let e = span_start(d + 1, src, dst);
    if e < src {
        e
    } else {
        src
    }
}

/// The output pixel at column `dx` of row `dy`.
pub open spec fn downscaled(
    px: Seq<u32>,
    src_w: int,
    src_h: int,
    dst_w: int,
    dst_h: int,
    dx: int,
    dy: int,
) -> int {
    block_average(
        px,
        src_w,
        span_start(dx, src_w, dst_w),
        span_end(dx, src_w, dst_w),
        span_start(dy, src_h, dst_h),
        span_end(dy, src_h, dst_h),
    )
}

/// The source lines that each of `dst` output lines covers, kept within `src`.
fn spans(src: u32, dst: u32) -> (r: Vec<(u32, u32)>)
    ensures
        r.len() == dst,
        forall|d: int|
            0 <= d < dst ==> {
                &&& (#[trigger] r[d]).1 == span_end(d, src as int, dst as int)
                &&& r[d].0 == span_start(d, src as int, dst as int) || (r[d].0 == src
                    && span_start(d, src as int, dst as int) > src)
            },
{
    let mut r: Vec<(u32, u32)> = Vec::new();
    let mut d: u32 = 0;
    if dst == 0 {
        return r;
    }
    if src == 0 {
        while d < dst
            invariant
                d <= dst,
                src == 0,
                r.len() == d,
                forall|i: int| 0 <= i < d ==> #[trigger] r[i] == (0u32, 0u32),
            decreases dst - d,
        {
            r.push((0, 0));
            d = d + 1;
        }
        return r;
    }
    let ratio: Ratio = rounding::ratio(src, dst);
    let mut start: u128 = ratio.product_floor_of(0);
    while d < dst
        invariant
            d <= dst,
            src >= 1,
            ratio@ == rounding::quot(src as int, dst as int),
            ratio.significand <= 2 * rounding::MIN_SIGNIFICAND,
            1 <= ratio.scale,
            start == span_start(d as int, src as int, dst as int),
            r.len() == d,
            forall|i: int|
                0 <= i < d ==> {
                    &&& (#[trigger] r[i]).1 == span_end(i, src as int, dst as int)
                    &&& r[i].0 == span_start(i, src as int, dst as int) || (r[i].0 == src
                        && span_start(i, src as int, dst as int) > src)
                },
        decreases dst - d,
    {
        let end: u128 = ratio.product_floor_of(d + 1);
        let lo: u32 = if start < src as u128 { start as u32 } else { src };
        let hi: u32 = if end < src as u128 { end as u32 } else { src };
        r.push((lo, hi));
        start = end;
        d = d + 1;
    }
    r
}

proof fn lemma_row_sum_bounds(px: Seq<u32>, k: int, start: int, x0: int, x1: int)
    requires
        x0 <= x1,
    ensures
        0 <= row_sum(px, k, start, x0, x1) <= 255 * (x1 - x0),
    decreases x1 - x0,
{
    if x0 < x1 {
        lemma_row_sum_bounds(px, k, start, x0, x1 - 1);
        argb::lemma_components(px[start + x1 - 1]);
    }
}

pub proof fn lemma_block_sum_bounds(
    px: Seq<u32>,
    k: int,
    src_w: int,
    x0: int,
    x1: int,
    y0: int,
    y1: int,
)
    requires
        x0 <= x1,
        y0 <= y1,
    ensures
        0 <= block_sum(px, k, src_w, x0, x1, y0, y1) <= 255 * ((x1 - x0) * (y1 - y0)),
    decreases y1 - y0,
{
    if y0 < y1 {
        lemma_block_sum_bounds(px, k, src_w, x0, x1, y0, y1 - 1);
        lemma_row_sum_bounds(px, k, (y1 - 1) * src_w, x0, x1);
        assert((x1 - x0) * (y1 - y0) == (x1 - x0) * (y1 - 1 - y0) + (x1 - x0)) by (nonlinear_arith);
    } else {
        assert((x1 - x0) * (y1 - y0) == 0) by (nonlinear_arith)
            requires
                y1 == y0,
        ;
    }
}

/// Sums of the four components over a block of pixels.
fn block_sums(pixels: &[u32], src_w: u32, src_h: u32, x: (u32, u32), y: (u32, u32)) -> (r: (
    u128,
    u128,
    u128,
    u128,
))
    requires
        x.0 <= x.1 <= src_w,
        y.0 <= y.1 <= src_h,
        src_w * src_h <= pixels.len(),
    ensures
        r.0 == block_sum(pixels@, 0, src_w as int, x.0 as int, x.1 as int, y.0 as int, y.1 as int),
        r.1 == block_sum(pixels@, 1, src_w as int, x.0 as int, x.1 as int, y.0 as int, y.1 as int),
        r.2 == block_sum(pixels@, 2, src_w as int, x.0 as int, x.1 as int, y.0 as int, y.1 as int),
        r.3 == block_sum(pixels@, 3, src_w as int, x.0 as int, x.1 as int, y.0 as int, y.1 as int),
{
    let (mut a, mut r, mut g, mut b): (u128, u128, u128, u128) = (0, 0, 0, 0);
    let mut sy: u32 = y.0;
    while sy < y.1
        invariant
            x.0 <= x.1 <= src_w,
            y.0 <= sy <= y.1 <= src_h,
            src_w * src_h <= pixels.len(),
            a == block_sum(pixels@, 0, src_w as int, x.0 as int, x.1 as int, y.0 as int, sy as int),
            r == block_sum(pixels@, 1, src_w as int, x.0 as int, x.1 as int, y.0 as int, sy as int),
            g == block_sum(pixels@, 2, src_w as int, x.0 as int, x.1 as int, y.0 as int, sy as int),
            b == block_sum(pixels@, 3, src_w as int, x.0 as int, x.1 as int, y.0 as int, sy as int),
        decreases y.1 - sy,
    {
        proof {
            assert(sy * src_w + src_w <= src_w * src_h) by (nonlinear_arith)
                requires
                    sy + 1 <= src_h,
                    src_w >= 0,
            ;
            assert(0 <= sy * src_w) by (nonlinear_arith)
                requires
                    sy >= 0,
                    src_w >= 0,
            ;
        }
        let start: usize = sy as usize * src_w as usize;
        let row = row_sums(pixels, start, x);
        proof {
            let (p, w, x0, x1, y0, s) = (
                pixels@,
                src_w as int,
                x.0 as int,
                x.1 as int,
                y.0 as int,
                sy as int,
            );
            lemma_block_sum_bounds(p, 0, w, x0, x1, y0, s);
            lemma_block_sum_bounds(p, 1, w, x0, x1, y0, s);
            lemma_block_sum_bounds(p, 2, w, x0, x1, y0, s);
            lemma_block_sum_bounds(p, 3, w, x0, x1, y0, s);
            lemma_row_sum_bounds(p, 0, start as int, x0, x1);
            lemma_row_sum_bounds(p, 1, start as int, x0, x1);
            lemma_row_sum_bounds(p, 2, start as int, x0, x1);
            lemma_row_sum_bounds(p, 3, start as int, x0, x1);
            assert((x1 - x0) * (s - y0) <= 0x1_0000_0000 * 0x1_0000_0000) by (nonlinear_arith)
                requires
                    0 <= x1 - x0 <= 0x1_0000_0000,
                    0 <= s - y0 <= 0x1_0000_0000,
            ;
        }
        a = a + row.0;
        r = r + row.1;
        g = g + row.2;
        b = b + row.3;
        sy = sy + 1;
    }
    (a, r, g, b)
}

/// Sums of the four components over part of a row.
fn row_sums(pixels: &[u32], start: usize, x: (u32, u32)) -> (r: (u128, u128, u128, u128))
    requires
        x.0 <= x.1,
        start + x.1 <= pixels.len(),
    ensures
        r.0 == row_sum(pixels@, 0, start as int, x.0 as int, x.1 as int),
        r.1 == row_sum(pixels@, 1, start as int, x.0 as int, x.1 as int),
        r.2 == row_sum(pixels@, 2, start as int, x.0 as int, x.1 as int),
        r.3 == row_sum(pixels@, 3, start as int, x.0 as int, x.1 as int),
{
    let (mut a, mut r, mut g, mut b): (u128, u128, u128, u128) = (0, 0, 0, 0);
    let mut sx: u32 = x.0;
    while sx < x.1
        invariant
            x.0 <= sx <= x.1,
            start + x.1 <= pixels.len(),
            a == row_sum(pixels@, 0, start as int, x.0 as int, sx as int),
            r == row_sum(pixels@, 1, start as int, x.0 as int, sx as int),
            g == row_sum(pixels@, 2, start as int, x.0 as int, sx as int),
            b == row_sum(pixels@, 3, start as int, x.0 as int, sx as int),
        decreases x.1 - sx,
    {
        proof {
            lemma_row_sum_bounds(pixels@, 0, start as int, x.0 as int, sx as int);
            lemma_row_sum_bounds(pixels@, 1, start as int, x.0 as int, sx as int);
            lemma_row_sum_bounds(pixels@, 2, start as int, x.0 as int, sx as int);
            lemma_row_sum_bounds(pixels@, 3, start as int, x.0 as int, sx as int);
        }
        let p: u32 = pixels[start + sx as usize];
        a = a + argb::alpha(p) as u128;
        r = r + argb::red(p) as u128;
        g = g + argb::green(p) as u128;
        b = b + argb::blue(p) as u128;
        sx = sx + 1;
    }
    (a, r, g, b)
}

proof fn lemma_average(sum: int, n: int)
    requires
        0 <= sum <= 255 * n,
        n >= 1,
    ensures
        0 <= sum / n <= 255,
{
    assert(0 <= sum / n <= 255) by (nonlinear_arith)
        requires
            0 <= sum <= 255 * n,
            n >= 1,
    ;
}

/// The average colour of a block of pixels.
fn average(pixels: &[u32], src_w: u32, src_h: u32, x: (u32, u32), y: (u32, u32)) -> (r: u32)
    requires
        x.1 <= src_w,
        y.1 <= src_h,
        src_w * src_h <= pixels.len(),
    ensures
        r == block_average(
            pixels@,
            src_w as int,
            x.0 as int,
            x.1 as int,
            y.0 as int,
            y.1 as int,
        ),
{
    if x.0 >= x.1 || y.0 >= y.1 {
        return 0;
    }
    let (a, r, g, b) = block_sums(pixels, src_w, src_h, x, y);
    proof {
        let (p, w, x0, x1, y0, y1) = (
            pixels@,
            src_w as int,
            x.0 as int,
            x.1 as int,
            y.0 as int,
            y.1 as int,
        );
        let n = (x1 - x0) * (y1 - y0);
        assert(1 <= n <= 0x1_0000_0000 * 0x1_0000_0000) by (nonlinear_arith)
            requires
                n == (x1 - x0) * (y1 - y0),
                1 <= x1 - x0 <= 0x1_0000_0000,
                1 <= y1 - y0 <= 0x1_0000_0000,
        ;
        lemma_block_sum_bounds(p, 0, w, x0, x1, y0, y1);
        lemma_block_sum_bounds(p, 1, w, x0, x1, y0, y1);
        lemma_block_sum_bounds(p, 2, w, x0, x1, y0, y1);
        lemma_block_sum_bounds(p, 3, w, x0, x1, y0, y1);
        lemma_average(a as int, n);
        lemma_average(r as int, n);
        lemma_average(g as int, n);
        lemma_average(b as int, n);
    }
    let n: u128 = (x.1 - x.0) as u128 * (y.1 - y.0) as u128;
    argb::pack_argb((a / n) as u8, (r / n) as u8, (g / n) as u8, (b / n) as u8)
}

/// Downscales `pixels` (packed ARGB, `src_w` by `src_h`) to `dst_w` by `dst_h` by averaging each
/// output pixel's contributing source region.
pub fn downscale_argb(pixels: &[u32], src_w: u32, src_h: u32, dst_w: u32, dst_h: u32) -> (r: Vec<
    u32,
>)
    requires
        src_w * src_h <= pixels.len(),
        dst_w * dst_h <= u32::MAX,
    ensures
        r.len() == dst_w * dst_h,
        forall|dy: int, dx: int|
            0 <= dy < dst_h && 0 <= dx < dst_w ==> #[trigger] r[dy * dst_w + dx] == downscaled(
                pixels@,
                src_w as int,
                src_h as int,
                dst_w as int,
                dst_h as int,
                dx,
                dy,
            ),
{
    let xs = spans(src_w, dst_w);
    let ys = spans(src_h, dst_h);
    let mut out: Vec<u32> = Vec::new();
    let mut dy: u32 = 0;
    assert(0 * dst_w == 0) by (nonlinear_arith);
    while dy < dst_h
        invariant
            src_w * src_h <= pixels.len(),
            xs.len() == dst_w,
            ys.len() == dst_h,
            dy <= dst_h,
            forall|d: int|
                0 <= d < dst_w ==> {
                    &&& (#[trigger] xs[d]).1 == span_end(d, src_w as int, dst_w as int)
                    &&& xs[d].0 == span_start(d, src_w as int, dst_w as int) || (xs[d].0 == src_w
                        && span_start(d, src_w as int, dst_w as int) > src_w)
                },
            forall|d: int|
                0 <= d < dst_h ==> {
                    &&& (#[trigger] ys[d]).1 == span_end(d, src_h as int, dst_h as int)
                    &&& ys[d].0 == span_start(d, src_h as int, dst_h as int) || (ys[d].0 == src_h
                        && span_start(d, src_h as int, dst_h as int) > src_h)
                },
            out.len() == dy * dst_w,
            forall|y: int, x: int|
                0 <= y < dy && 0 <= x < dst_w ==> #[trigger] out[y * dst_w + x] == downscaled(
                    pixels@,
                    src_w as int,
                    src_h as int,
                    dst_w as int,
                    dst_h as int,
                    x,
                    y,
                ),
        decreases dst_h - dy,
    {
        let ghost before = out@;
        let mut dx: u32 = 0;
        while dx < dst_w
            invariant
                src_w * src_h <= pixels.len(),
                xs.len() == dst_w,
                ys.len() == dst_h,
                dy < dst_h,
                dx <= dst_w,
                forall|d: int|
                    0 <= d < dst_w ==> {
                        &&& (#[trigger] xs[d]).1 == span_end(d, src_w as int, dst_w as int)
                        &&& xs[d].0 == span_start(d, src_w as int, dst_w as int) || (xs[d].0
                            == src_w && span_start(d, src_w as int, dst_w as int) > src_w)
                    },
                ys[dy as int].1 == span_end(dy as int, src_h as int, dst_h as int),
                ys[dy as int].0 == span_start(dy as int, src_h as int, dst_h as int) || (
                ys[dy as int].0 == src_h && span_start(dy as int, src_h as int, dst_h as int)
                    > src_h),
                before.len() == dy * dst_w,
                out.len() == dy * dst_w + dx,
                forall|i: int| 0 <= i < before.len() ==> out[i] == before[i],
                forall|x: int|
                    0 <= x < dx ==> #[trigger] out[before.len() + x] == downscaled(
                        pixels@,
                        src_w as int,
                        src_h as int,
                        dst_w as int,
                        dst_h as int,
                        x,
                        dy as int,
                    ),
            decreases dst_w - dx,
        {
            let x = xs[dx as usize];
            let y = ys[dy as usize];
            let p: u32 = average(pixels, src_w, src_h, x, y);
            assert(p == downscaled(
                pixels@,
                src_w as int,
                src_h as int,
                dst_w as int,
                dst_h as int,
                dx as int,
                dy as int,
            ));
            out.push(p);
            dx = dx + 1;
        }
        proof {
            assert(dy * dst_w + dst_w == (dy + 1) * dst_w) by (nonlinear_arith);
            assert forall|y: int, x: int| 0 <= y < dy + 1 && 0 <= x < dst_w implies #[trigger] out[y
                * dst_w + x] == downscaled(
                pixels@,
                src_w as int,
                src_h as int,
                dst_w as int,
                dst_h as int,
                x,
                y,
            ) by {
                if y < dy {
                    assert(0 <= y * dst_w + x < dy * dst_w) by (nonlinear_arith)
                        requires
                            0 <= y,
                            y + 1 <= dy,
                            0 <= x < dst_w,
                    ;
                    assert(out[y * dst_w + x] == before[y * dst_w + x]);
                } else {
                    assert(y == dy);
                    assert(out[y * dst_w + x] == out[before.len() + x]);
                }
            }
        }
        dy = dy + 1;
    }
    assert(dst_h * dst_w == dst_w * dst_h) by (nonlinear_arith);
    out
}

proof fn lemma_uniform_row(px: Seq<u32>, c: u32, k: int, start: int, x0: int, x1: int)
    requires
        x0 <= x1,
        0 <= start + x0,
        start + x1 <= px.len(),
        forall|i: int| 0 <= i < px.len() ==> px[i] == c,
    ensures
        row_sum(px, k, start, x0, x1) == component(k, c) * (x1 - x0),
    decreases x1 - x0,
{
    if x0 < x1 {
        lemma_uniform_row(px, c, k, start, x0, x1 - 1);
        let v = component(k, c);
        assert(v * (x1 - 1 - x0) + v == v * (x1 - x0)) by (nonlinear_arith);
    } else {
        assert(component(k, c) * (x1 - x0) == 0) by (nonlinear_arith)
            requires
                x1 == x0,
        ;
    }
}

proof fn lemma_uniform_block(
    px: Seq<u32>,
    c: u32,
    k: int,
    src_w: int,
    x0: int,
    x1: int,
    y0: int,
    y1: int,
)
    requires
        0 <= x0 <= x1 <= src_w,
        0 <= y0 <= y1,
        src_w * y1 <= px.len(),
        forall|i: int| 0 <= i < px.len() ==> px[i] == c,
    ensures
        block_sum(px, k, src_w, x0, x1, y0, y1) == component(k, c) * ((x1 - x0) * (y1 - y0)),
    decreases y1 - y0,
{
    let v = component(k, c);
    let w = x1 - x0;
    if y0 < y1 {
        assert(src_w * (y1 - 1) + src_w == src_w * y1) by (nonlinear_arith);
        assert((y1 - 1) * src_w == src_w * (y1 - 1)) by (nonlinear_arith);
        assert(0 <= (y1 - 1) * src_w) by (nonlinear_arith)
            requires
                y1 >= 1,
                src_w >= 0,
        ;
        lemma_uniform_block(px, c, k, src_w, x0, x1, y0, y1 - 1);
        lemma_uniform_row(px, c, k, (y1 - 1) * src_w, x0, x1);
        assert(v * (w * (y1 - 1 - y0)) + v * w == v * (w * (y1 - y0))) by (nonlinear_arith);
    } else {
        assert(v * (w * (y1 - y0)) == 0) by (nonlinear_arith)
            requires
                y1 == y0,
        ;
    }
}

/// Shrinking an image of one colour gives an image of that colour.
pub proof fn law_uniform_color_is_preserved(
    px: Seq<u32>,
    c: u32,
    src_w: int,
    src_h: int,
    dst_w: int,
    dst_h: int,
    dx: int,
    dy: int,
)
    requires
        1 <= dst_w <= src_w < 0x1_0000_0000,
        1 <= dst_h <= src_h < 0x1_0000_0000,
        0 <= dx < dst_w,
        0 <= dy < dst_h,
        src_w * src_h <= px.len(),
        forall|i: int| 0 <= i < px.len() ==> px[i] == c,
    ensures
        downscaled(px, src_w, src_h, dst_w, dst_h, dx, dy) == c,
{
    rounding::law_shrinking_leaves_no_gap(src_w, dst_w, dx);
    rounding::law_shrinking_leaves_no_gap(src_h, dst_h, dy);
    let (x0, x1) = (span_start(dx, src_w, dst_w), span_end(dx, src_w, dst_w));
    let (y0, y1) = (span_start(dy, src_h, dst_h), span_end(dy, src_h, dst_h));
    let n = (x1 - x0) * (y1 - y0);
    assert(n >= 1) by (nonlinear_arith)
        requires
            n == (x1 - x0) * (y1 - y0),
            x1 - x0 >= 1,
            y1 - y0 >= 1,
    ;
    assert(src_w * y1 <= src_w * src_h) by (nonlinear_arith)
        requires
            y1 <= src_h,
            src_w >= 0,
    ;
    lemma_uniform_block(px, c, 0, src_w, x0, x1, y0, y1);
    lemma_uniform_block(px, c, 1, src_w, x0, x1, y0, y1);
    lemma_uniform_block(px, c, 2, src_w, x0, x1, y0, y1);
    lemma_uniform_block(px, c, 3, src_w, x0, x1, y0, y1);
    vstd::arithmetic::div_mod::lemma_div_multiples_vanish(component(0, c), n);
    vstd::arithmetic::div_mod::lemma_div_multiples_vanish(component(1, c), n);
    vstd::arithmetic::div_mod::lemma_div_multiples_vanish(component(2, c), n);
    vstd::arithmetic::div_mod::lemma_div_multiples_vanish(component(3, c), n);
    lemma_commute(component(0, c), n);
    lemma_commute(component(1, c), n);
    lemma_commute(component(2, c), n);
    lemma_commute(component(3, c), n);
    argb::lemma_components(c);
}

proof fn lemma_commute(a: int, b: int)
    ensures
        a * b == b * a,
{
    assert(a * b == b * a) by (nonlinear_arith);
}

} // verus!
