//! What the popup looks like: the background, the tiles with their content, and the repainting of
//! borders. Everything here decides what to draw; the drawing itself is left to the caller.
use vstd::prelude::*;

use crate::argb;
use crate::config;
use crate::config::Config;
use crate::layout;
use crate::layout::{Metrics, TileGeom};
use crate::shapes;
use crate::shapes::{Area, Corner, Fill, Rect, Ring, Shape, Strips};
use crate::text;
use crate::thumbs;
use crate::thumbs::Placement;
use crate::wire;

verus! {

/// The smallest size of the icon in the corner of a thumbnail.
pub const MIN_OVERLAY: u32 = 8;

/// Distance of the corner icon from the edges of the content area.
pub const OVERLAY_MARGIN: u32 = 6;

/// Opacity of the corner icon: 80 % of 0xffff.
pub const OVERLAY_ALPHA: u16 = 52428;

/// A colour of the configuration as a packed value.
pub open spec fn color(s: Seq<char>) -> u32 {
    config::color_of(s) as u32
}

// ---------------------------------------------------------------- background

/// A gradient, from a first colour to a last one. Coordinates are in 16.16 fixed point.
#[derive(Debug, Clone, Copy, PartialEq, Eq)]
pub enum Gradient {
    /// From the centre outwards.
    Radial { x: i32, y: i32, radius: i32 },
    /// From the origin to the given point.
    Linear { x: i32, y: i32 },
}

/// How the popup's background is painted.
#[derive(Debug, Clone, Copy, PartialEq, Eq)]
pub enum Background {
    /// One colour, in place of what was there.
    Flat { color: (u16, u16, u16, u16) },
    /// Cleared, then a gradient on top.
    Faded { gradient: Gradient, first: (u16, u16, u16, u16), last: (u16, u16, u16, u16) },
}

pub open spec fn gradient(mode: Seq<char>, pw: u16, ph: u16, radius: i32) -> Gradient {
    if mode == "radial"@ {
        Gradient::Radial { x: (pw * 0x8000) as i32, y: (ph * 0x8000) as i32, radius }
    } else if mode == "horizontal"@ {
        Gradient::Linear { x: wire::w32(pw * 0x1_0000) as i32, y: 0 }
    } else {
        Gradient::Linear { x: 0, y: wire::w32(ph * 0x1_0000) as i32 }
    }
}

/// The background of the popup: flat, or fading to transparent. A radial gradient is opaque in
/// the centre; the others are opaque at the far end.
pub open spec fn background(mode: Seq<char>, pw: u16, ph: u16, bg_argb: u32, radius: i32)
    -> Background {
    let bg = argb::render_color(bg_argb);
    let clear = (0u16, 0u16, 0u16, 0u16);
    if mode == "none"@ {
        Background::Flat { color: bg }
    } else if mode == "radial"@ {
        Background::Faded { gradient: gradient(mode, pw, ph, radius), first: bg, last: clear }
    } else {
        Background::Faded { gradient: gradient(mode, pw, ph, radius), first: clear, last: bg }
    }
}

/// How to paint the background of a popup of `pw` by `ph` pixels. `radius` is the distance from
/// the centre to a corner in 16.16 fixed point.
pub fn popup_background(mode: &str, pw: u16, ph: u16, bg_argb: u32, radius: i32) -> (r: Background)
    ensures
        r == background(mode@, pw, ph, bg_argb, radius),
{
    let bg = argb::argb_to_render_color(bg_argb);
    let clear: (u16, u16, u16, u16) = (0, 0, 0, 0);
    proof {
        reveal_strlit("none");
        reveal_strlit("radial");
        reveal_strlit("horizontal");
        assert("none"@.len() == 4 && "radial"@.len() == 6 && "horizontal"@.len() == 10);
    }
    if text::same_text(mode, "none") {
        Background::Flat { color: bg }
    } else if text::same_text(mode, "radial") {
        let gradient = Gradient::Radial {
            x: pw as i32 * 0x8000,
            y: ph as i32 * 0x8000,
            radius,
        };
        Background::Faded { gradient, first: bg, last: clear }
    } else if text::same_text(mode, "horizontal") {
        let gradient = Gradient::Linear { x: wire::fixed(pw as u64 * 0x1_0000), y: 0 };
        Background::Faded { gradient, first: clear, last: bg }
    } else {
        let gradient = Gradient::Linear { x: 0, y: wire::fixed(ph as u64 * 0x1_0000) };
        Background::Faded { gradient, first: clear, last: bg }
    }
}

/// The mask that rounds the popup's own corners.
pub open spec fn popup_mask(pw: u16, ph: u16, radius: int) -> Shape {
    let r = shapes::lesser(shapes::lesser(radius, pw as int / 2), ph as int / 2);
    shapes::rounded(Rect { x: 0, y: 0, w: pw as u32, h: ph as u32 }, r)
}

/// The shape of the mask that rounds the popup's own corners.
pub fn popup_mask_shape(pw: u16, ph: u16, radius: u32) -> (r: Shape)
    ensures
        r == popup_mask(pw, ph, radius as int),
{
    let mut c: u32 = radius;
    if c >= pw as u32 / 2 {
        c = pw as u32 / 2;
    }
    if c >= ph as u32 / 2 {
        c = ph as u32 / 2;
    }
    let whole = Rect { x: 0, y: 0, w: pw as u32, h: ph as u32 };
    shapes::rounded_rect(&whole, c)
}

// ---------------------------------------------------------------- tile frames

/// Corner radius of the outside of a tile's border.
pub open spec fn outer_radius(m: Metrics, br: int) -> int {
    shapes::lesser(
        shapes::lesser(br, (m.tile_w + 2 * m.frame_w) / 2),
        (m.tile_h + 2 * m.frame_w) / 2,
    )
}

/// Corner radius of the inside of a tile's border.
pub open spec fn inner_radius(m: Metrics, br: int) -> int {
    shapes::lesser(
        shapes::lesser(layout::minus(br, m.frame_w as int), m.tile_w as int / 2),
        m.tile_h as int / 2,
    )
}

/// The two corner radii of a tile's border.
pub fn border_radii(m: &Metrics, br: u32) -> (r: (u32, u32))
    ensures
        r.0 == outer_radius(*m, br as int),
        r.1 == inner_radius(*m, br as int),
{
    let mut outer: u64 = br as u64;
    let full_w: u64 = m.tile_w as u64 + 2 * m.frame_w as u64;
    let full_h: u64 = m.tile_h as u64 + 2 * m.frame_w as u64;
    if outer >= full_w / 2 {
        outer = full_w / 2;
    }
    if outer >= full_h / 2 {
        outer = full_h / 2;
    }
    let mut inner: u32 = br.saturating_sub(m.frame_w);
    if inner >= m.tile_w / 2 {
        inner = m.tile_w / 2;
    }
    if inner >= m.tile_h / 2 {
        inner = m.tile_h / 2;
    }
    (outer as u32, inner)
}

/// The outer rectangle of a tile's border.
pub open spec fn frame_rect(t: TileGeom, fw: int) -> Rect {
    Rect {
        x: wire::w16(t.x - fw) as i16,
        y: wire::w16(t.y - fw) as i16,
        w: wire::u32_of(t.w + 2 * fw) as u32,
        h: wire::u32_of(t.h + 2 * fw) as u32,
    }
}

/// The border ring of a tile with rounded corners.
pub open spec fn tile_ring(m: Metrics, t: TileGeom, br: int, color_argb: u32) -> Option<Ring> {
    shapes::ring(
        frame_rect(t, m.frame_w as int),
        outer_radius(m, br),
        m.frame_w as int,
        inner_radius(m, br),
        color_argb,
    )
}

/// The border ring of a tile with rounded corners.
pub fn ring_of_tile(m: &Metrics, t: &TileGeom, br: u32, color_argb: u32) -> (r: Option<Ring>)
    ensures
        r == tile_ring(*m, *t, br as int, color_argb),
{
    let (outer_r, inner_r): (u32, u32) = border_radii(m, br);
    let outer = Rect {
        x: wire::coord(t.x as i64 - m.frame_w as i64),
        y: wire::coord(t.y as i64 - m.frame_w as i64),
        w: ((t.w as u64 + 2 * m.frame_w as u64) % 0x1_0000_0000) as u32,
        h: ((t.h as u64 + 2 * m.frame_w as u64) % 0x1_0000_0000) as u32,
    };
    shapes::border_ring(&outer, outer_r, m.frame_w, inner_r, color_argb)
}

/// A tile's border.
#[derive(Debug, Clone, Copy, PartialEq, Eq)]
pub enum Border {
    /// A ring with rounded corners; nothing when it would be empty.
    Rounded { ring: Option<Ring> },
    /// Four strips.
    Square { strips: Strips, color: (u16, u16, u16, u16) },
}

/// A tile's background and its border. Neither covers the other.
#[derive(Debug, Clone, Copy, PartialEq, Eq)]
pub struct Frame {
    pub fill: Fill,
    pub border: Border,
}

pub open spec fn border(m: Metrics, t: TileGeom, use_rounded: bool, br: int, border_argb: u32)
    -> Border {
    if use_rounded {
        Border::Rounded { ring: tile_ring(m, t, br, border_argb) }
    } else {
        Border::Square {
            strips: shapes::strips(t, m.frame_w as int),
            color: argb::render_color(border_argb),
        }
    }
}

/// A tile's background: its whole content rectangle, with the corners that the border leaves.
pub open spec fn tile_fill(m: Metrics, t: TileGeom, use_rounded: bool, br: int, bg_argb: u32)
    -> Fill {
    let whole = Rect { x: t.x, y: t.y, w: t.w, h: t.h };
    if use_rounded {
        shapes::rounded_fill(whole, inner_radius(m, br), bg_argb)
    } else {
        Fill::Flat {
            area: shapes::area(t.x as int, t.y as int, t.w as int, t.h as int),
            color: argb::render_color(bg_argb),
        }
    }
}

/// A tile's border in the given colour.
pub fn tile_border(m: &Metrics, t: &TileGeom, use_rounded: bool, br: u32, border_argb: u32) -> (r:
    Border)
    ensures
        r == border(*m, *t, use_rounded, br as int, border_argb),
{
    if use_rounded {
        Border::Rounded { ring: ring_of_tile(m, t, br, border_argb) }
    } else {
        Border::Square {
            strips: shapes::border_strips(t, m.frame_w),
            color: argb::argb_to_render_color(border_argb),
        }
    }
}

/// A tile's background and border.
pub fn tile_frame(
    m: &Metrics,
    t: &TileGeom,
    use_rounded: bool,
    br: u32,
    bg_argb: u32,
    border_argb: u32,
) -> (r: Frame)
    ensures
        r.fill == tile_fill(*m, *t, use_rounded, br as int, bg_argb),
        r.border == border(*m, *t, use_rounded, br as int, border_argb),
{
    let fill: Fill = if use_rounded {
        let (_, inner_r): (u32, u32) = border_radii(m, br);
        let whole = Rect { x: t.x, y: t.y, w: t.w, h: t.h };
        shapes::filled_rounded_rect(&whole, inner_r, bg_argb)
    } else {
        Fill::Flat {
            area: shapes::area_at(t.x as i64, t.y as i64, t.w, t.h),
            color: argb::argb_to_render_color(bg_argb),
        }
    };
    Frame { fill, border: tile_border(m, t, use_rounded, br, border_argb) }
}

/// An area moved by (`dx`, `dy`).
#[verifier::opaque]
pub open spec fn moved_area(a: Area, dx: int, dy: int) -> Area {
    Area { x: wire::w16(a.x + dx) as i16, y: wire::w16(a.y + dy) as i16, ..a }
}

/// A corner moved by (`dx`, `dy`).
#[verifier::opaque]
pub open spec fn moved_corner(c: Corner, dx: int, dy: int) -> Corner {
    Corner { x: wire::w16(c.x + dx) as i16, y: wire::w16(c.y + dy) as i16, ..c }
}

/// A shape moved by (`dx`, `dy`).
pub open spec fn moved(s: Shape, dx: int, dy: int) -> Shape {
    match s {
        Shape::Plain { area } => Shape::Plain { area: moved_area(area, dx, dy) },
        Shape::Rounded {
            middle,
            left,
            right,
            top_left,
            top_right,
            bottom_right,
            bottom_left,
        } => Shape::Rounded {
            middle: moved_area(middle, dx, dy),
            left: moved_area(left, dx, dy),
            right: moved_area(right, dx, dy),
            top_left: moved_corner(top_left, dx, dy),
            top_right: moved_corner(top_right, dx, dy),
            bottom_right: moved_corner(bottom_right, dx, dy),
            bottom_left: moved_corner(bottom_left, dx, dy),
        },
    }
}

proof fn lemma_moved_area(x: int, y: int, w: int, h: int, dx: int, dy: int)
    ensures
        moved_area(shapes::area(x, y, w, h), dx, dy) == shapes::area(x + dx, y + dy, w, h),
{
    reveal(moved_area);
    wire::lemma_w16_add(x, dx);
    wire::lemma_w16_add(y, dy);
}

proof fn lemma_moved_corner(x: int, y: int, size: int, angle: int, dx: int, dy: int)
    ensures
        moved_corner(shapes::corner(x, y, size, angle), dx, dy) == shapes::corner(
            x + dx,
            y + dy,
            size,
            angle,
        ),
{
    reveal(moved_corner);
    wire::lemma_w16_add(x, dx);
    wire::lemma_w16_add(y, dy);
}

#[verifier::rlimit(40)]
proof fn lemma_moved_rounded(w: u32, h: u32, radius: int, at: i16)
    ensures
        moved(shapes::rounded(Rect { x: 0, y: 0, w, h }, radius), at as int, at as int)
            == shapes::rounded(Rect { x: at, y: at, w, h }, radius),
{
    let d = at as int;
    let (sw, sh) = (wire::u16_of(w as int), wire::u16_of(h as int));
    let c = shapes::corner_radius(sw, sh, radius);
    let here = shapes::rounded(Rect { x: 0, y: 0, w, h }, radius);
    let there = shapes::rounded(Rect { x: at, y: at, w, h }, radius);
    if c == 0 {
        lemma_moved_area(0, 0, sw, sh, d, d);
        assert(here == Shape::Plain { area: shapes::area(0, 0, sw, sh) });
        assert(there == Shape::Plain { area: shapes::area(0 + d, 0 + d, sw, sh) });
    } else {
        lemma_moved_area(0 + c, 0, sw - 2 * c, sh, d, d);
        lemma_moved_area(0, 0 + c, c, sh - 2 * c, d, d);
        lemma_moved_area(0 + sw - c, 0 + c, c, sh - 2 * c, d, d);
        lemma_moved_corner(0, 0, 2 * c, 5760, d, d);
        lemma_moved_corner(0 + sw - 2 * c, 0, 2 * c, 0, d, d);
        lemma_moved_corner(0 + sw - 2 * c, 0 + sh - 2 * c, 2 * c, 17280, d, d);
        lemma_moved_corner(0, 0 + sh - 2 * c, 2 * c, 11520, d, d);
    }
}

proof fn lemma_back_and_forth(x: i16, fw: int)
    ensures
        wire::w16(wire::w16(x - fw) + wire::w16(fw)) == x,
{
    wire::lemma_w16_add(x - fw, wire::w16(fw));
    wire::lemma_w16_add(fw, x - fw);
    wire::law_coordinates_in_range_are_exact(x as int);
}

proof fn lemma_inside_is_the_tile(t: TileGeom, fw: int)
    requires
        0 <= fw,
        t.w + 2 * fw <= u32::MAX,
        t.h + 2 * fw <= u32::MAX,
    ensures
        shapes::inside(frame_rect(t, fw), fw) == (Rect {
            x: wire::w16(fw) as i16,
            y: wire::w16(fw) as i16,
            w: t.w,
            h: t.h,
        }),
        frame_rect(t, fw).w == t.w + 2 * fw,
        frame_rect(t, fw).h == t.h + 2 * fw,
        wire::w16(frame_rect(t, fw).x as int) == wire::w16(t.x - fw),
        wire::w16(frame_rect(t, fw).y as int) == wire::w16(t.y - fw),
{
    wire::lemma_w16_add(t.x - fw, 0);
    wire::lemma_w16_add(t.y - fw, 0);
}

proof fn lemma_square_corners(x: i16, y: i16, w: u32, h: u32)
    ensures
        shapes::area(x as int, y as int, w as int, h as int).x == x,
        shapes::area(x as int, y as int, w as int, h as int).y == y,
        shapes::rounded(Rect { x: 0, y: 0, w, h }, 0) == (Shape::Plain {
            area: Area { x: 0, y: 0, ..shapes::area(x as int, y as int, w as int, h as int) },
        }),
{
    wire::law_coordinates_in_range_are_exact(x as int);
    wire::law_coordinates_in_range_are_exact(y as int);
    let (sw, sh) = (wire::u16_of(w as int), wire::u16_of(h as int));
    wire::law_coordinates_in_range_are_exact(sw);
    wire::law_coordinates_in_range_are_exact(sh);
    assert(shapes::corner_radius(sw, sh, 0) == 0);
}

/// With rounded corners, too, a tile's border leaves its background alone: the hole in the ring
/// lies on the tile, and it is the very shape in which the background is filled.
#[verifier::rlimit(40)]
pub proof fn law_the_ring_leaves_out_the_background(
    m: Metrics,
    t: TileGeom,
    br: int,
    bg_argb: u32,
    border_argb: u32,
)
    requires
        br >= 0,
        t.w > 0,
        t.h > 0,
        t.w + 2 * m.frame_w <= u32::MAX,
        t.h + 2 * m.frame_w <= u32::MAX,
    ensures
        ({
            let at = wire::w16(m.frame_w as int);
            &&& tile_ring(m, t, br, border_argb) matches Some(ring)
            &&& wire::w16(ring.area.x + at) == t.x
            &&& wire::w16(ring.area.y + at) == t.y
            &&& match tile_fill(m, t, true, br, bg_argb) {
                Fill::Masked { area, shape, .. } => {
                    &&& area.x == t.x && area.y == t.y
                    &&& ring.hole == Some(moved(shape, at, at))
                },
                Fill::Flat { area, .. } => {
                    &&& area.x == t.x && area.y == t.y
                    &&& ring.hole == Some(
                        moved(Shape::Plain { area: Area { x: 0, y: 0, ..area } }, at, at),
                    )
                },
                Fill::Empty => false,
            }
        }),
{
    let at = wire::w16(m.frame_w as int) as i16;
    let whole = Rect { x: t.x, y: t.y, w: t.w, h: t.h };
    assert(tile_fill(m, t, true, br, bg_argb) == shapes::rounded_fill(
        whole,
        inner_radius(m, br),
        bg_argb,
    ));
    lemma_inside_is_the_tile(t, m.frame_w as int);
    lemma_back_and_forth(t.x, m.frame_w as int);
    lemma_back_and_forth(t.y, m.frame_w as int);
    lemma_moved_rounded(t.w, t.h, inner_radius(m, br), at);
    lemma_square_corners(t.x, t.y, t.w, t.h);
}

// ---------------------------------------------------------------- tile content

/// An icon drawn in a square, or the rectangle that stands in for one.
#[derive(Debug, Clone, Copy, PartialEq, Eq)]
pub enum IconPaint {
    /// No icon: a plain square.
    Placeholder { area: Area, color: (u16, u16, u16, u16) },
    /// The icon's own size, the square, and the scale where they differ.
    Image { src_w: u16, src_h: u16, area: Area, scale: Option<(i32, i32)> },
}

/// Source pixels per destination pixel in 16.16 fixed point, the fraction dropped.
pub open spec fn icon_step(src: int, size: int) -> int {
    wire::w32(src * 0x1_0000 / size)
}

/// The scale that brings a source to `size` by `size`; none when it already has that size.
pub open spec fn icon_scale(src_w: int, src_h: int, size: int) -> Option<(i32, i32)> {
    if src_w != size || src_h != size {
        Some((icon_step(src_w, size) as i32, icon_step(src_h, size) as i32))
    } else {
        None
    }
}

fn icon_scale_of(src_w: u32, src_h: u32, size: u32) -> (r: Option<(i32, i32)>)
    requires
        size >= 1,
    ensures
        r == icon_scale(src_w as int, src_h as int, size as int),
{
    if src_w != size || src_h != size {
        Some(
            (
                wire::fixed(src_w as u64 * 0x1_0000 / size as u64),
                wire::fixed(src_h as u64 * 0x1_0000 / size as u64),
            ),
        )
    } else {
        None
    }
}

/// The square in which a tile's icon is drawn: centred in the content area.
pub open spec fn icon_area(t: TileGeom, pad: int, size: int) -> Area {
    Area {
        x: thumbs::centred(t.x as int, pad, thumbs::content_w(t.w as int, pad), size) as i16,
        y: thumbs::centred(t.y as int, pad, thumbs::content_h(t.h as int, pad), size) as i16,
        w: wire::u16_of(size) as u16,
        h: wire::u16_of(size) as u16,
    }
}

/// The icon of a tile. `icon` is the icon's size, if there is one.
pub open spec fn icon_paint(t: TileGeom, pad: int, size: int, icon: Option<(u32, u32)>, fg: u32)
    -> IconPaint {
    match icon {
        None => IconPaint::Placeholder {
            area: icon_area(t, pad, size),
            color: argb::render_color(fg),
        },
        Some((w, h)) => IconPaint::Image {
            src_w: wire::u16_of(w as int) as u16,
            src_h: wire::u16_of(h as int) as u16,
            area: icon_area(t, pad, size),
            scale: icon_scale(w as int, h as int, size),
        },
    }
}

/// How to draw a tile's icon.
pub fn tile_icon(t: &TileGeom, pad: u32, size: u32, icon: Option<(u32, u32)>, fg_argb: u32) -> (r:
    IconPaint)
    requires
        size >= 1,
    ensures
        r == icon_paint(*t, pad as int, size as int, icon, fg_argb),
{
    let (avail_w, avail_h): (u32, u32) = thumbs::content_size(t.w, t.h, pad);
    let area = Area {
        x: thumbs::centred_at(t.x, pad, avail_w, size),
        y: thumbs::centred_at(t.y, pad, avail_h, size),
        w: wire::extent(size),
        h: wire::extent(size),
    };
    match icon {
        None => IconPaint::Placeholder { area, color: argb::argb_to_render_color(fg_argb) },
        Some((w, h)) => IconPaint::Image {
            src_w: wire::extent(w),
            src_h: wire::extent(h),
            area,
            scale: icon_scale_of(w, h, size),
        },
    }
}

/// The icon in the corner of a thumbnail.
#[derive(Debug, Clone, Copy, PartialEq, Eq)]
pub struct Overlay {
    pub src_w: u16,
    pub src_h: u16,
    pub area: Area,
    pub scale: Option<(i32, i32)>,
}

/// The size of the corner icon.
pub open spec fn overlay_size(asked: int) -> int {
    if asked < MIN_OVERLAY {
        MIN_OVERLAY as int
    } else {
        asked
    }
}

/// The corner icon of a thumbnail: at the bottom right of the content area, if there is an icon
/// and room for it.
pub open spec fn overlay(t: TileGeom, pad: int, asked: int, icon: Option<(u32, u32)>) -> Option<
    Overlay,
> {
    let size = overlay_size(asked);
    let w = thumbs::content_w(t.w as int, pad);
    let h = thumbs::content_h(t.h as int, pad);
    match icon {
        Some((src_w, src_h)) => if src_w == 0 || src_h == 0 || w < size || h < size {
            None
        } else {
            Some(
                Overlay {
                    src_w: wire::u16_of(src_w as int) as u16,
                    src_h: wire::u16_of(src_h as int) as u16,
                    area: Area {
                        x: wire::w16(t.x + pad + w - size - OVERLAY_MARGIN) as i16,
                        y: wire::w16(t.y + pad + h - size - OVERLAY_MARGIN) as i16,
                        w: wire::u16_of(size) as u16,
                        h: wire::u16_of(size) as u16,
                    },
                    scale: icon_scale(src_w as int, src_h as int, size),
                },
            )
        },
        None => None,
    }
}

/// How to draw the corner icon of a thumbnail.
pub fn icon_overlay(t: &TileGeom, pad: u32, asked: u32, icon: Option<(u32, u32)>) -> (r: Option<
    Overlay,
>)
    ensures
        r == overlay(*t, pad as int, asked as int, icon),
{
    match icon {
        None => None,
        Some((src_w, src_h)) => {
            if src_w == 0 || src_h == 0 {
                return None;
            }
            let size: u32 = if asked < MIN_OVERLAY { MIN_OVERLAY } else { asked };
            let (w, h): (u32, u32) = thumbs::content_size(t.w, t.h, pad);
            if w < size || h < size {
                return None;
            }
            let back: i64 = size as i64 + OVERLAY_MARGIN as i64;
            let area = Area {
                x: wire::coord(t.x as i64 + pad as i64 + w as i64 - back),
                y: wire::coord(t.y as i64 + pad as i64 + h as i64 - back),
                w: wire::extent(size),
                h: wire::extent(size),
            };
            Some(
                Overlay {
                    src_w: wire::extent(src_w),
                    src_h: wire::extent(src_h),
                    area,
                    scale: icon_scale_of(src_w, src_h, size),
                },
            )
        },
    }
}

/// What a tile shows.
#[derive(Debug, Clone, Copy, PartialEq, Eq)]
pub enum Content {
    /// The window's icon.
    Icon { icon: IconPaint },
    /// The window's thumbnail, with a small icon on top where there is one.
    Thumbnail { place: Option<Placement>, overlay: Option<Overlay> },
}

/// The settings that decide what a tile shows.
pub open spec fn wants_thumbs(c: Config) -> bool {
    c.tile.content@ == "thumbnail"@
}

/// The content of a tile: the thumbnail if thumbnails are asked for, one was captured (of size
/// `thumb`) and there is room; the icon otherwise. The corner icon needs an alpha mask.
pub open spec fn content(
    c: Config,
    t: TileGeom,
    icon: Option<(u32, u32)>,
    thumb: Option<(u32, u32)>,
    has_mask: bool,
) -> Content {
    let pad = c.tile.padding as int;
    let w = thumbs::content_w(t.w as int, pad);
    let h = thumbs::content_h(t.h as int, pad);
    let as_icon = Content::Icon {
        icon: icon_paint(t, pad, c.tile.icon_size as int, icon, color(c.tile.foreground@)),
    };
    match thumb {
        Some((src_w, src_h)) => if wants_thumbs(c) && w > 0 && h > 0 {
            let src = (src_w as int, src_h as int);
            Content::Thumbnail {
                place: if src_w == 0 || src_h == 0 {
                    None
                } else {
                    Some(thumbs::placement(src, (t.x as int, t.y as int), (w, h), pad))
                },
                overlay: if c.tile.icon_overlay && has_mask {
                    overlay(t, pad, c.tile.icon_overlay_size as int, icon)
                } else {
                    None
                },
            }
        } else {
            as_icon
        },
        None => as_icon,
    }
}

/// What a tile shows.
pub fn tile_content(
    c: &Config,
    t: &TileGeom,
    icon: Option<(u32, u32)>,
    thumb: Option<(u32, u32)>,
    has_mask: bool,
) -> (r: Content)
    requires
        c.tile.icon_size >= 1,
    ensures
        r == content(*c, *t, icon, thumb, has_mask),
{
    let pad: u32 = c.tile.padding;
    if text::same_text(c.tile.content.as_str(), "thumbnail") {
        let (w, h): (u32, u32) = thumbs::content_size(t.w, t.h, pad);
        if w > 0 && h > 0 {
            if let Some(src) = thumb {
                let place = thumbs::place_pixels(src, (t.x, t.y), (w, h), pad);
                let overlay = if c.tile.icon_overlay && has_mask {
                    icon_overlay(t, pad, c.tile.icon_overlay_size, icon)
                } else {
                    None
                };
                return Content::Thumbnail { place, overlay };
            }
        }
    }
    let fg: u32 = Config::color_argb(c.tile.foreground.as_str());
    Content::Icon { icon: tile_icon(t, pad, c.tile.icon_size, icon, fg) }
}

// ---------------------------------------------------------------- moving the selection

/// Four squares, one in each corner of a tile.
#[derive(Debug, Clone, Copy, PartialEq, Eq)]
pub struct Corners {
    pub top_left: Area,
    pub top_right: Area,
    pub bottom_left: Area,
    pub bottom_right: Area,
}

/// The repainting of one tile's border: the strips are erased, then the corner squares inside a
/// rounded border, then the border is drawn.
#[derive(Debug, Clone, Copy, PartialEq, Eq)]
pub struct BorderPaint {
    pub erase: Strips,
    pub corners: Option<Corners>,
    pub border: Border,
}

/// The squares in the four corners of a tile, as far in as the border's inside is rounded.
pub open spec fn corner_squares(t: TileGeom, r: int) -> Corners {
    let (x, y, w, h) = (t.x as int, t.y as int, t.w as int, t.h as int);
    Corners {
        top_left: shapes::area(x, y, r, r),
        top_right: shapes::area(x + w - r, y, r, r),
        bottom_left: shapes::area(x, y + h - r, r, r),
        bottom_right: shapes::area(x + w - r, y + h - r, r, r),
    }
}

/// The repainting of one tile's border in the given colour.
pub open spec fn border_paint(
    m: Metrics,
    t: TileGeom,
    use_rounded: bool,
    br: int,
    border_argb: u32,
) -> BorderPaint {
    BorderPaint {
        erase: shapes::strips(t, m.frame_w as int),
        corners: if use_rounded && inner_radius(m, br) > 0 {
            Some(corner_squares(t, inner_radius(m, br)))
        } else {
            None
        },
        border: border(m, t, use_rounded, br, border_argb),
    }
}

/// How to repaint one tile's border.
pub fn repaint_border(
    m: &Metrics,
    t: &TileGeom,
    use_rounded: bool,
    br: u32,
    border_argb: u32,
) -> (r: BorderPaint)
    ensures
        r == border_paint(*m, *t, use_rounded, br as int, border_argb),
{
    let (_, inner_r): (u32, u32) = border_radii(m, br);
    let corners: Option<Corners> = if use_rounded && inner_r > 0 {
        let (x, y): (i64, i64) = (t.x as i64, t.y as i64);
        let (w, h, c): (i64, i64, i64) = (t.w as i64, t.h as i64, inner_r as i64);
        Some(
            Corners {
                top_left: shapes::area_at(x, y, inner_r, inner_r),
                top_right: shapes::area_at(x + w - c, y, inner_r, inner_r),
                bottom_left: shapes::area_at(x, y + h - c, inner_r, inner_r),
                bottom_right: shapes::area_at(x + w - c, y + h - c, inner_r, inner_r),
            },
        )
    } else {
        None
    };
    BorderPaint {
        erase: shapes::border_strips(t, m.frame_w),
        corners,
        border: tile_border(m, t, use_rounded, br, border_argb),
    }
}

// ---------------------------------------------------------------- what is seen

/// The border is painted in the colour.
pub open spec fn painted_in(b: Border, c: u32) -> bool {
    match b {
        Border::Rounded { ring: Some(r) } => r.color == argb::render_color(c),
        Border::Rounded { ring: None } => true,
        Border::Square { color, .. } => color == argb::render_color(c),
    }
}

/// A border has the colour that it is asked for, and is rounded just when it is asked to be; it is
/// there unless the tile is empty.
pub proof fn law_borders_have_their_color(
    m: Metrics,
    t: TileGeom,
    use_rounded: bool,
    br: int,
    c: u32,
)
    requires
        m.frame_w >= 1,
        t.w + 2 * m.frame_w <= u32::MAX,
        t.h + 2 * m.frame_w <= u32::MAX,
    ensures
        painted_in(border(m, t, use_rounded, br, c), c),
        use_rounded <==> border(m, t, use_rounded, br, c) is Rounded,
        border(m, t, use_rounded, br, c) matches Border::Rounded { ring } ==> ring is Some,
        border_paint(m, t, use_rounded, br, c).border == border(m, t, use_rounded, br, c),
{
    lemma_inside_is_the_tile(t, m.frame_w as int);
}

/// The background of a tile has its colour and covers just the tile.
pub proof fn law_tile_backgrounds(m: Metrics, t: TileGeom, use_rounded: bool, br: int, c: u32)
    requires
        br >= 0,
        0 < t.w < 0x1_0000,
        0 < t.h < 0x1_0000,
    ensures
        ({
            let here = Area { x: t.x, y: t.y, w: t.w as u16, h: t.h as u16 };
            match tile_fill(m, t, use_rounded, br, c) {
                Fill::Empty => false,
                Fill::Flat { area, color } => area == here && color == argb::render_color(c),
                Fill::Masked { area, color, .. } => area == here && color == argb::render_color(c)
                    && use_rounded,
            }
        }),
{
    let whole = Rect { x: t.x, y: t.y, w: t.w, h: t.h };
    shapes::law_shapes_have_their_color(whole, inner_radius(m, br), 0, 0, c);
    wire::law_coordinates_in_range_are_exact(t.x as int);
    wire::law_coordinates_in_range_are_exact(t.y as int);
    wire::law_coordinates_in_range_are_exact(t.w as int);
    wire::law_coordinates_in_range_are_exact(t.h as int);
}

/// The outside of a rounded border has the radius that is asked for and the inside runs at the
/// border's width from it, where the tile is large enough; a border wider than the radius has square
/// corners inside.
pub proof fn law_border_radii(m: Metrics, br: int)
    requires
        0 <= br,
        2 * br <= m.tile_w,
        2 * br <= m.tile_h,
    ensures
        outer_radius(m, br) == br,
        br >= m.frame_w ==> inner_radius(m, br) + m.frame_w == outer_radius(m, br),
        br < m.frame_w ==> inner_radius(m, br) == 0,
{
}

/// A tile that has no thumbnail, no wish for one or no room for one shows the window's icon: the
/// whole icon, in the size that the configuration asks for, and scaled unless it has that size. The
/// placeholder comes just when there is no icon.
pub proof fn law_icon_tiles_show_the_icon(
    c: Config,
    t: TileGeom,
    icon: Option<(u32, u32)>,
    thumb: Option<(u32, u32)>,
    has_mask: bool,
)
    requires
        thumb is None || c.tile.content@ != "thumbnail"@ || t.w <= 2 * c.tile.padding || t.h <= 48
            + 2 * c.tile.padding,
        c.tile.icon_size < 0x1_0000,
        icon matches Some(i) ==> i.0 < 0x1_0000 && i.1 < 0x1_0000,
    ensures
        ({
            let size = c.tile.icon_size;
            &&& content(c, t, icon, thumb, has_mask) matches Content::Icon { icon: shown }
            &&& match icon {
                Some((w, h)) => shown matches IconPaint::Image { src_w, src_h, area, scale }
                    && src_w == w && src_h == h && area.w == size && area.h == size && (scale is None
                    <==> w == size && h == size),
                None => shown matches IconPaint::Placeholder { area, color } && area.w == size
                    && area.h == size && color == argb::render_color(
                    config::color_of(c.tile.foreground@) as u32,
                ),
            }
        }),
{
    wire::law_coordinates_in_range_are_exact(c.tile.icon_size as int);
    if let Some((w, h)) = icon {
        wire::law_coordinates_in_range_are_exact(w as int);
        wire::law_coordinates_in_range_are_exact(h as int);
    }
}

/// A tile that is to show a thumbnail, has one and has room for it shows the thumbnail. The small
/// icon comes on top just when it is asked for, can be drawn, exists and has room.
pub proof fn law_thumbnail_tiles_show_the_thumbnail(
    c: Config,
    t: TileGeom,
    icon: Option<(u32, u32)>,
    thumb: (u32, u32),
    has_mask: bool,
)
    requires
        c.tile.content@ == "thumbnail"@,
        t.w > 2 * c.tile.padding,
        t.h > 48 + 2 * c.tile.padding,
        thumb.0 > 0,
        thumb.1 > 0,
    ensures
        ({
            let pad = c.tile.padding as int;
            let (w, h) = (t.w - 2 * pad, t.h - 48 - 2 * pad);
            let least = if c.tile.icon_overlay_size < 8 {
                8
            } else {
                c.tile.icon_overlay_size as int
            };
            &&& content(c, t, icon, Some(thumb), has_mask) matches Content::Thumbnail {
                place,
                overlay,
            }
            &&& place == Some(
                thumbs::placement(
                    (thumb.0 as int, thumb.1 as int),
                    (t.x as int, t.y as int),
                    (w, h),
                    pad,
                ),
            )
            &&& overlay is Some <==> c.tile.icon_overlay && has_mask && w >= least && h >= least && (
            icon matches Some(i) && i.0 > 0 && i.1 > 0)
        }),
{
}

/// The icon of a tile is centred in the part above the label, up to one pixel, when it fits there.
pub proof fn law_icons_are_centred(t: TileGeom, pad: int, size: int)
    requires
        0 <= pad,
        1 <= size,
        2 * pad + size <= t.w,
        48 + 2 * pad + size <= t.h,
        t.x + t.w < 0x8000,
        t.y + t.h < 0x8000,
    ensures
        ({
            let a = icon_area(t, pad, size);
            let (left, top) = (a.x - (t.x + pad), a.y - (t.y + pad));
            let (right, below) = (t.x + t.w - pad - (a.x + size), t.y + t.h - 48 - pad - (a.y + size));
            &&& a.w == size && a.h == size
            &&& 0 <= left && 0 <= top
            &&& 0 <= right - left <= 1
            &&& 0 <= below - top <= 1
        }),
{
    let (w, h) = (thumbs::content_w(t.w as int, pad), thumbs::content_h(t.h as int, pad));
    wire::law_coordinates_in_range_are_exact(t.x + pad + layout::minus(w, size) / 2);
    wire::law_coordinates_in_range_are_exact(t.y + pad + layout::minus(h, size) / 2);
    wire::law_coordinates_in_range_are_exact(size);
}

/// The small icon lies in the bottom right corner of the thumbnail's area, six pixels from its
/// edges, and has the size that is asked for, but at least eight pixels.
pub proof fn law_small_icons_lie_in_the_corner(
    t: TileGeom,
    pad: int,
    asked: int,
    icon: Option<(u32, u32)>,
)
    requires
        0 <= pad,
        0 <= asked,
        0 <= t.x,
        0 <= t.y,
        t.x + t.w < 0x8000,
        t.y + t.h < 0x8000,
        icon matches Some(i) ==> i.0 < 0x1_0000 && i.1 < 0x1_0000,
    ensures
        overlay(t, pad, asked, icon) matches Some(o) ==> {
            &&& o.area.w == o.area.h
            &&& o.area.w >= 8
            &&& asked >= 8 ==> o.area.w == asked
            &&& asked < 8 ==> o.area.w == 8
            &&& o.area.x + o.area.w + 6 == t.x + t.w - pad
            &&& o.area.y + o.area.h + 6 == t.y + t.h - 48 - pad
            &&& icon == Some((o.src_w as u32, o.src_h as u32))
            &&& o.scale is None <==> o.src_w == o.area.w && o.src_h == o.area.h
        },
{
    let size = overlay_size(asked);
    let (w, h) = (thumbs::content_w(t.w as int, pad), thumbs::content_h(t.h as int, pad));
    wire::law_coordinates_in_range_are_exact(t.x + pad + w - size - OVERLAY_MARGIN);
    wire::law_coordinates_in_range_are_exact(t.y + pad + h - size - OVERLAY_MARGIN);
    wire::law_coordinates_in_range_are_exact(size);
    if let Some((sw, sh)) = icon {
        wire::law_coordinates_in_range_are_exact(sw as int);
        wire::law_coordinates_in_range_are_exact(sh as int);
    }
}

/// An icon is scaled so that it fills its square: the step from one pixel to the next is its side
/// divided by that of the square, in 16.16 fixed point and rounded down.
pub proof fn law_icons_fill_their_square(src_w: int, src_h: int, size: int)
    requires
        0 <= src_w < 0x8000,
        0 <= src_h < 0x8000,
        1 <= size,
    ensures
        icon_scale(src_w, src_h, size) matches Some(s) ==> {
            &&& s.0 * size <= src_w * 0x1_0000 < (s.0 + 1) * size
            &&& s.1 * size <= src_h * 0x1_0000 < (s.1 + 1) * size
        },
{
    lemma_icon_step(src_w, size);
    lemma_icon_step(src_h, size);
}

proof fn lemma_icon_step(src: int, size: int)
    requires
        0 <= src < 0x8000,
        1 <= size,
    ensures
        0 <= icon_step(src, size) <= i32::MAX,
        icon_step(src, size) * size <= src * 0x1_0000 < (icon_step(src, size) + 1) * size,
{
    let num = src * 0x1_0000;
    vstd::arithmetic::div_mod::lemma_fundamental_div_mod(num, size);
    let (q, r) = (num / size, num % size);
    assert(0 <= q <= num) by (nonlinear_arith)
        requires
            num == size * q + r,
            0 <= r < size,
            num >= 0,
            size >= 1,
    ;
    assert(q * size <= num < (q + 1) * size) by (nonlinear_arith)
        requires
            num == size * q + r,
            0 <= r < size,
    ;
}

/// A flat background has the configured colour. A radial one has it in the centre and fades outwards
/// to nothing; a horizontal one fades to it from left to right, and any other from top to bottom.
pub proof fn law_backgrounds_fade_as_asked(mode: Seq<char>, pw: u16, ph: u16, bg: u32, radius: i32)
    requires
        pw < 0x8000,
        ph < 0x8000,
    ensures
        ({
            let full = argb::render_color(bg);
            let none = (0u16, 0u16, 0u16, 0u16);
            let one: int = 0x1_0000;
            match background(mode, pw, ph, bg, radius) {
                Background::Flat { color } => mode == "none"@ && color == full,
                Background::Faded { gradient: Gradient::Radial { x, y, radius: r }, first, last } => {
                    &&& mode == "radial"@
                    &&& 2 * x == pw * one && 2 * y == ph * one && r == radius
                    &&& first == full && last == none
                },
                Background::Faded { gradient: Gradient::Linear { x, y }, first, last } => {
                    &&& mode != "none"@ && mode != "radial"@
                    &&& first == none && last == full
                    &&& mode == "horizontal"@ ==> x == pw * one && y == 0
                    &&& mode != "horizontal"@ ==> x == 0 && y == ph * one
                },
            }
        }),
{
}

/// The mask of the popup has its size, and corners of the radius that is asked for, as far as half of
/// either side allows.
pub proof fn law_popup_mask_has_the_radius(pw: u16, ph: u16, radius: int)
    requires
        0 <= radius,
        pw >= 2,
        ph >= 2,
    ensures
        match popup_mask(pw, ph, radius) {
            Shape::Plain { area } => radius == 0 && area == (Area { x: 0, y: 0, w: pw, h: ph }),
            Shape::Rounded { top_left, middle, .. } => {
                let d = top_left.size as int;
                &&& d <= 2 * radius && d <= pw && d <= ph
                &&& d == 2 * radius || d + 1 >= pw || d + 1 >= ph
                &&& middle.h == ph && middle.w + d == pw
            },
        },
{
    let r = shapes::lesser(shapes::lesser(radius, pw as int / 2), ph as int / 2);
    shapes::law_corners_have_the_radius(Rect { x: 0, y: 0, w: pw as u32, h: ph as u32 }, r);
    wire::law_coordinates_in_range_are_exact(pw as int);
    wire::law_coordinates_in_range_are_exact(ph as int);
}

/// A border lies around its tile: a rounded one in the tile's rectangle, grown by the border's width
/// on every side, with the tile left free; a square one in the strips around the tile. Before it is
/// repainted the strips are erased, and with rounded corners the squares in the tile's corners.
pub proof fn law_borders_lie_around_their_tile(
    m: Metrics,
    t: TileGeom,
    use_rounded: bool,
    br: int,
    c: u32,
)
    requires
        1 <= m.frame_w < 0x8000,
        0 <= br,
        m.tile_w == t.w,
        m.tile_h == t.h,
        t.w >= 1,
        t.h >= 1,
        t.x >= m.frame_w,
        t.y >= m.frame_w,
        t.x + t.w + m.frame_w < 0x8000,
        t.y + t.h + m.frame_w < 0x8000,
    ensures
        ({
            let fw = m.frame_w as int;
            let p = border_paint(m, t, use_rounded, br, c);
            let r = inner_radius(m, br);
            &&& p.erase == shapes::strips(t, fw)
            &&& match p.border {
                Border::Rounded { ring: Some(ring) } => {
                    &&& ring.area.x == t.x - fw && ring.area.y == t.y - fw
                    &&& ring.area.w == t.w + 2 * fw && ring.area.h == t.h + 2 * fw
                    &&& ring.outer == shapes::rounded(
                        Rect { x: 0, y: 0, w: (t.w + 2 * fw) as u32, h: (t.h + 2 * fw) as u32 },
                        outer_radius(m, br),
                    )
                    &&& ring.hole == Some(
                        shapes::rounded(Rect { x: fw as i16, y: fw as i16, w: t.w, h: t.h }, r),
                    )
                },
                Border::Rounded { ring: None } => false,
                Border::Square { strips, .. } => strips == shapes::strips(t, fw),
            }
            &&& p.corners is Some <==> use_rounded && r > 0
            &&& p.corners matches Some(s) ==> {
                &&& s.top_left == (Area { x: t.x, y: t.y, w: r as u16, h: r as u16 })
                &&& s.top_right.x + r == t.x + t.w && s.top_right.y == t.y
                &&& s.bottom_left.x == t.x && s.bottom_left.y + r == t.y + t.h
                &&& s.bottom_right.x + r == t.x + t.w && s.bottom_right.y + r == t.y + t.h
                &&& s.top_right.w == r && s.bottom_left.w == r && s.bottom_right.w == r
                &&& s.top_right.h == r && s.bottom_left.h == r && s.bottom_right.h == r
            }
        }),
{
    let fw = m.frame_w as int;
    let r = inner_radius(m, br);
    lemma_inside_is_the_tile(t, fw);
    assert(0 <= r && 2 * r <= t.w && 2 * r <= t.h);
    lemma_in_range(t.x - fw);
    lemma_in_range(t.y - fw);
    lemma_in_range(t.w + 2 * fw);
    lemma_in_range(t.h + 2 * fw);
    lemma_in_range(fw);
    lemma_in_range(t.x as int);
    lemma_in_range(t.y as int);
    lemma_in_range(r);
    lemma_in_range(t.x + t.w - r);
    lemma_in_range(t.y + t.h - r);
}

proof fn lemma_in_range(x: int)
    ensures
        0 <= x < 0x8000 ==> wire::w16(x) == x && wire::u32_of(x) == x,
        0 <= x < 0x1_0000 ==> wire::u16_of(x) == x && wire::u32_of(x) == x,
{
}

/// An icon that is too large for its tile starts at the padding.
pub proof fn law_large_icons_start_at_the_padding(t: TileGeom, pad: int, size: int)
    requires
        0 <= pad,
        1 <= size,
        t.x + pad < 0x8000,
        t.y + pad < 0x8000,
    ensures
        2 * pad + size >= t.w ==> icon_area(t, pad, size).x == t.x + pad,
        48 + 2 * pad + size >= t.h ==> icon_area(t, pad, size).y == t.y + pad,
{
    wire::law_coordinates_in_range_are_exact(t.x + pad);
    wire::law_coordinates_in_range_are_exact(t.y + pad);
}

} // verus!
