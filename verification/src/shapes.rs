//! The shapes that tiles are made of: border strips, rounded rectangles and border rings.
use vstd::prelude::*;

use crate::argb;
use crate::layout;
use crate::layout::TileGeom;
use crate::wire;

verus! {

/// A rectangle in drawing coordinates.
#[derive(Debug, Clone, Copy, PartialEq, Eq)]
pub struct Area {
    pub x: i16,
    pub y: i16,
    pub w: u16,
    pub h: u16,
}

/// A rectangle with exact sides.
#[derive(Debug, Clone, Copy, PartialEq, Eq)]
pub struct Rect {
    pub x: i16,
    pub y: i16,
    pub w: u32,
    pub h: u32,
}

/// A quarter of a disc: the square box of the whole disc, and the angle (in 64ths of a degree)
/// at which the quarter starts.
#[derive(Debug, Clone, Copy, PartialEq, Eq)]
pub struct Corner {
    pub x: i16,
    pub y: i16,
    pub size: u16,
    pub angle: i16,
}

/// The angle that a corner spans, in 64ths of a degree.
pub const QUARTER: i16 = 5760;

/// A filled rectangle, with or without rounded corners.
#[derive(Debug, Clone, Copy, PartialEq, Eq)]
pub enum Shape {
    Plain { area: Area },
    Rounded {
        middle: Area,
        left: Area,
        right: Area,
        top_left: Corner,
        top_right: Corner,
        bottom_right: Corner,
        bottom_left: Corner,
    },
}

/// The area at the given place with the given sides, all reduced to 16 bits.
pub open spec fn area(x: int, y: int, w: int, h: int) -> Area {
    Area {
        x: wire::w16(x) as i16,
        y: wire::w16(y) as i16,
        w: wire::u16_of(w) as u16,
        h: wire::u16_of(h) as u16,
    }
}

pub open spec fn lesser(a: int, b: int) -> int {
    if a < b {
        a
    } else {
        b
    }
}

/// The radius that corners get: no more than half of either side.
pub open spec fn corner_radius(w: int, h: int, radius: int) -> int {
    lesser(lesser(wire::u16_of(radius), w / 2), h / 2)
}

/// The quarter disc at the given place, reduced to 16 bits.
pub open spec fn corner(x: int, y: int, size: int, angle: int) -> Corner {
    Corner { x: wire::w16(x) as i16, y: wire::w16(y) as i16, size: size as u16, angle: angle as i16 }
}

/// A rectangle with rounded corners: three rectangles for the interior cross, and four corners.
pub open spec fn rounded(r: Rect, radius: int) -> Shape {
    let (x, y) = (r.x as int, r.y as int);
    let (w, h) = (wire::u16_of(r.w as int), wire::u16_of(r.h as int));
    let c = corner_radius(w, h, radius);
    if c == 0 {
        Shape::Plain { area: area(x, y, w, h) }
    } else {
        Shape::Rounded {
            middle: area(x + c, y, w - 2 * c, h),
            left: area(x, y + c, c, h - 2 * c),
            right: area(x + w - c, y + c, c, h - 2 * c),
            top_left: corner(x, y, 2 * c, 5760),
            top_right: corner(x + w - 2 * c, y, 2 * c, 0),
            bottom_right: corner(x + w - 2 * c, y + h - 2 * c, 2 * c, 17280),
            bottom_left: corner(x, y + h - 2 * c, 2 * c, 11520),
        }
    }
}

/// The area at the given place.
pub fn area_at(x: i64, y: i64, w: u32, h: u32) -> (r: Area)
    ensures
        r == area(x as int, y as int, w as int, h as int),
{
    Area { x: wire::coord(x), y: wire::coord(y), w: wire::extent(w), h: wire::extent(h) }
}

fn corner_at(x: i64, y: i64, size: u16, angle: i16) -> (r: Corner)
    ensures
        r == corner(x as int, y as int, size as int, angle as int),
{
    Corner { x: wire::coord(x), y: wire::coord(y), size, angle }
}

/// The shape of a rectangle whose corners are rounded with the given radius, as far as its sides
/// allow.
pub fn rounded_rect(r: &Rect, radius: u32) -> (s: Shape)
    ensures
        s == rounded(*r, radius as int),
{
    let (x, y): (i64, i64) = (r.x as i64, r.y as i64);
    let (w, h): (u16, u16) = (wire::extent(r.w), wire::extent(r.h));
    let mut c: u16 = wire::extent(radius);
    if c >= w / 2 {
        c = w / 2;
    }
    if c >= h / 2 {
        c = h / 2;
    }
    if c == 0 {
        return Shape::Plain { area: area_at(x, y, w as u32, h as u32) };
    }
    let d: u16 = 2 * c;
    let (wl, hl, cl, dl): (i64, i64, i64, i64) = (w as i64, h as i64, c as i64, d as i64);
    Shape::Rounded {
        middle: area_at(x + cl, y, (w - d) as u32, h as u32),
        left: area_at(x, y + cl, c as u32, (h - d) as u32),
        right: area_at(x + wl - cl, y + cl, c as u32, (h - d) as u32),
        top_left: corner_at(x, y, d, 5760),
        top_right: corner_at(x + wl - dl, y, d, 0),
        bottom_right: corner_at(x + wl - dl, y + hl - dl, d, 17280),
        bottom_left: corner_at(x, y + hl - dl, d, 11520),
    }
}

/// A point lies in an area.
pub open spec fn in_area(a: Area, px: int, py: int) -> bool {
    a.x <= px < a.x + a.w && a.y <= py < a.y + a.h
}

/// A point lies in the quarter of a corner's box that starts at (`dx`, `dy`) radii.
pub open spec fn in_quarter(c: Corner, dx: int, dy: int, px: int, py: int) -> bool {
    let r = c.size as int / 2;
    c.x + dx * r <= px < c.x + dx * r + r && c.y + dy * r <= py < c.y + dy * r + r
}

pub open spec fn one_if(b: bool) -> int {
    if b {
        1
    } else {
        0
    }
}

proof fn lemma_area_is_exact(x: int, y: int, w: int, h: int, px: int, py: int)
    requires
        0 <= x <= i16::MAX,
        0 <= y <= i16::MAX,
        0 <= w < 0x1_0000,
        0 <= h < 0x1_0000,
    ensures
        in_area(area(x, y, w, h), px, py) <==> x <= px < x + w && y <= py < y + h,
{
}

proof fn lemma_quarter_is_exact(
    x: int,
    y: int,
    c: int,
    angle: int,
    dx: int,
    dy: int,
    px: int,
    py: int,
)
    requires
        0 <= x <= i16::MAX,
        0 <= y <= i16::MAX,
        0 < c < 0x8000,
        dx == 0 || dx == 1,
        dy == 0 || dy == 1,
    ensures
        in_quarter(corner(x, y, 2 * c, angle), dx, dy, px, py) <==> {
            let (left, top) = (
                if dx == 0 {
                    x
                } else {
                    x + c
                },
                if dy == 0 {
                    y
                } else {
                    y + c
                },
            );
            left <= px < left + c && top <= py < top + c
        },
{
    assert(0 * c == 0 && 1 * c == c) by (nonlinear_arith);
    assert(2 * c / 2 == c);
}

/// A point is left of, in or right of the middle, and above, in or below it, or outside.
proof fn lemma_nine_parts(l: bool, m: bool, r: bool, t: bool, c: bool, b: bool)
    requires
        one_if(l) + one_if(m) + one_if(r) <= 1,
        one_if(t) + one_if(c) + one_if(b) <= 1,
    ensures
        one_if(m && (t || c || b)) + one_if(l && c) + one_if(r && c) + one_if(l && t) + one_if(
            r && t,
        ) + one_if(r && b) + one_if(l && b) == one_if((l || m || r) && (t || c || b)),
{
}

/// The parts of a rounded rectangle do not overlap and leave nothing out: every point of the
/// rectangle lies in exactly one rectangle of the cross or in the box of exactly one quarter disc.
#[verifier::rlimit(40)]
pub proof fn law_rounded_parts_tile_the_rectangle(r: Rect, radius: int, px: int, py: int)
    requires
        radius >= 0,
        0 <= r.x,
        0 <= r.y,
        r.x + r.w <= i16::MAX,
        r.y + r.h <= i16::MAX,
    ensures
        match rounded(r, radius) {
            Shape::Plain { area } => in_area(area, px, py) <==> r.x <= px < r.x + r.w && r.y <= py
                < r.y + r.h,
            Shape::Rounded {
                middle,
                left,
                right,
                top_left,
                top_right,
                bottom_right,
                bottom_left,
            } => one_if(in_area(middle, px, py)) + one_if(in_area(left, px, py)) + one_if(
                in_area(right, px, py),
            ) + one_if(in_quarter(top_left, 0, 0, px, py)) + one_if(
                in_quarter(top_right, 1, 0, px, py),
            ) + one_if(in_quarter(bottom_right, 1, 1, px, py)) + one_if(
                in_quarter(bottom_left, 0, 1, px, py),
            ) == one_if(r.x <= px < r.x + r.w && r.y <= py < r.y + r.h),
        },
{
    let (x, y, w, h) = (r.x as int, r.y as int, r.w as int, r.h as int);
    let c = corner_radius(w, h, radius);
    assert(wire::u16_of(w) == w && wire::u16_of(h) == h);
    assert(0 <= c <= w / 2 && c <= h / 2);
    lemma_area_is_exact(x, y, w, h, px, py);
    if c > 0 {
        lemma_area_is_exact(x + c, y, w - 2 * c, h, px, py);
        lemma_area_is_exact(x, y + c, c, h - 2 * c, px, py);
        lemma_area_is_exact(x + w - c, y + c, c, h - 2 * c, px, py);
        lemma_quarter_is_exact(x, y, c, 5760, 0, 0, px, py);
        lemma_quarter_is_exact(x + w - 2 * c, y, c, 0, 1, 0, px, py);
        lemma_quarter_is_exact(x + w - 2 * c, y + h - 2 * c, c, 17280, 1, 1, px, py);
        lemma_quarter_is_exact(x, y + h - 2 * c, c, 11520, 0, 1, px, py);
        lemma_nine_parts(
            x <= px < x + c,
            x + c <= px < x + w - c,
            x + w - c <= px < x + w,
            y <= py < y + c,
            y + c <= py < y + h - c,
            y + h - c <= py < y + h,
        );
    }
}

/// The four strips of a tile's border; they do not overlap.
#[derive(Debug, Clone, Copy, PartialEq, Eq)]
pub struct Strips {
    pub top: Area,
    pub bottom: Area,
    pub left: Area,
    pub right: Area,
}

/// The border strips around a tile.
pub open spec fn strips(t: TileGeom, fw: int) -> Strips {
    let (x, y, w, h) = (t.x as int, t.y as int, t.w as int, t.h as int);
    Strips {
        top: area(x, y - fw, w, fw),
        bottom: area(x, y + h, w, fw),
        left: area(x - fw, y - fw, fw, h + 2 * fw),
        right: area(x + w, y - fw, fw, h + 2 * fw),
    }
}

/// The border strips around a tile.
pub fn border_strips(t: &TileGeom, fw: u32) -> (r: Strips)
    ensures
        r == strips(*t, fw as int),
{
    let (x, y, w, h, f): (i64, i64, i64, i64, i64) = (
        t.x as i64,
        t.y as i64,
        t.w as i64,
        t.h as i64,
        fw as i64,
    );
    let tall: u32 = ((t.h as u64 + 2 * fw as u64) % 0x1_0000) as u32;
    Strips {
        top: area_at(x, y - f, t.w, fw),
        bottom: area_at(x, y + h, t.w, fw),
        left: area_at(x - f, y - f, fw, tall),
        right: area_at(x + w, y - f, fw, tall),
    }
}

/// The strips cover exactly the ring of width `fw` around the tile, and no point twice.
pub proof fn law_strips_cover_the_border(t: TileGeom, fw: int, px: int, py: int)
    requires
        0 <= fw <= t.x,
        fw <= t.y,
        t.x + t.w + fw <= i16::MAX,
        t.y + t.h + fw <= i16::MAX,
    ensures
        ({
            let s = strips(t, fw);
            let outer = t.x - fw <= px < t.x + t.w + fw && t.y - fw <= py < t.y + t.h + fw;
            let inner = t.x <= px < t.x + t.w && t.y <= py < t.y + t.h;
            one_if(in_area(s.top, px, py)) + one_if(in_area(s.bottom, px, py)) + one_if(
                in_area(s.left, px, py),
            ) + one_if(in_area(s.right, px, py)) == one_if(outer && !inner)
        }),
{
    let (x, y, w, h) = (t.x as int, t.y as int, t.w as int, t.h as int);
    wire::law_coordinates_in_range_are_exact(x);
    wire::law_coordinates_in_range_are_exact(y);
    wire::law_coordinates_in_range_are_exact(x - fw);
    wire::law_coordinates_in_range_are_exact(y - fw);
    wire::law_coordinates_in_range_are_exact(x + w);
    wire::law_coordinates_in_range_are_exact(y + h);
    wire::law_coordinates_in_range_are_exact(w);
    wire::law_coordinates_in_range_are_exact(fw);
    wire::law_coordinates_in_range_are_exact(h + 2 * fw);
}

/// How a solid colour is put into a rectangle.
#[derive(Debug, Clone, Copy, PartialEq, Eq)]
pub enum Fill {
    /// Nothing to draw.
    Empty,
    /// A plain rectangle.
    Flat { area: Area, color: (u16, u16, u16, u16) },
    /// Through a mask with the sides of `area`, on which `shape` is drawn.
    Masked { area: Area, shape: Shape, color: (u16, u16, u16, u16) },
}

/// The fill of a rectangle whose corners are rounded.
pub open spec fn rounded_fill(r: Rect, radius: int, color_argb: u32) -> Fill {
    let a = area(r.x as int, r.y as int, r.w as int, r.h as int);
    if r.w == 0 || r.h == 0 {
        Fill::Empty
    } else if radius == 0 {
        Fill::Flat { area: a, color: argb::render_color(color_argb) }
    } else {
        Fill::Masked {
            area: a,
            shape: rounded(Rect { x: 0, y: 0, w: r.w, h: r.h }, radius),
            color: argb::render_color(color_argb),
        }
    }
}

/// How to fill a rectangle whose corners are rounded.
pub fn filled_rounded_rect(r: &Rect, radius: u32, color_argb: u32) -> (f: Fill)
    ensures
        f == rounded_fill(*r, radius as int, color_argb),
{
    if r.w == 0 || r.h == 0 {
        return Fill::Empty;
    }
    let area = area_at(r.x as i64, r.y as i64, r.w, r.h);
    let color = argb::argb_to_render_color(color_argb);
    if radius == 0 {
        Fill::Flat { area, color }
    } else {
        let at_origin = Rect { x: 0, y: 0, w: r.w, h: r.h };
        Fill::Masked { area, shape: rounded_rect(&at_origin, radius), color }
    }
}

/// A border ring: a mask with the sides of `area`, on which `outer` is drawn and `hole` cleared.
#[derive(Debug, Clone, Copy, PartialEq, Eq)]
pub struct Ring {
    pub area: Area,
    pub outer: Shape,
    pub hole: Option<Shape>,
    pub color: (u16, u16, u16, u16),
}

/// What a ring of width `fw` along the inside of `outer` leaves free, seen from its corner.
pub open spec fn inside(outer: Rect, fw: int) -> Rect {
    Rect {
        x: wire::w16(fw) as i16,
        y: wire::w16(fw) as i16,
        w: layout::minus(outer.w as int, 2 * fw) as u32,
        h: layout::minus(outer.h as int, 2 * fw) as u32,
    }
}

/// The ring of width `fw` along the inside of `outer`; nothing for an empty rectangle.
pub open spec fn ring(
    outer: Rect,
    outer_r: int,
    fw: int,
    inner_r: int,
    color_argb: u32,
) -> Option<Ring> {
    if outer.w == 0 || outer.h == 0 {
        None
    } else {
        let inner = inside(outer, fw);
        Some(
            Ring {
                area: area(outer.x as int, outer.y as int, outer.w as int, outer.h as int),
                outer: rounded(Rect { x: 0, y: 0, w: outer.w, h: outer.h }, outer_r),
                hole: if inner.w > 0 && inner.h > 0 {
                    Some(rounded(inner, inner_r))
                } else {
                    None
                },
                color: argb::render_color(color_argb),
            },
        )
    }
}

/// The ring of width `fw` along the inside of `outer`, with the given corner radii.
pub fn border_ring(outer: &Rect, outer_r: u32, fw: u32, inner_r: u32, color_argb: u32) -> (r: Option<
    Ring,
>)
    ensures
        r == ring(*outer, outer_r as int, fw as int, inner_r as int, color_argb),
{
    if outer.w == 0 || outer.h == 0 {
        return None;
    }
    let iw: u64 = (outer.w as u64).saturating_sub(2 * fw as u64);
    let ih: u64 = (outer.h as u64).saturating_sub(2 * fw as u64);
    let at: i16 = wire::coord(fw as i64);
    let at_origin = Rect { x: 0, y: 0, w: outer.w, h: outer.h };
    let hole: Option<Shape> = if iw > 0 && ih > 0 {
        let inner = Rect { x: at, y: at, w: iw as u32, h: ih as u32 };
        Some(rounded_rect(&inner, inner_r))
    } else {
        None
    };
    Some(
        Ring {
            area: area_at(outer.x as i64, outer.y as i64, outer.w, outer.h),
            outer: rounded_rect(&at_origin, outer_r),
            hole,
            color: argb::argb_to_render_color(color_argb),
        },
    )
}

/// Corners are rounded with the radius that is asked for, as far as half of either side allows, and
/// each is the quarter of the disc that belongs in its place. Without a radius nothing is rounded.
#[verifier::rlimit(40)]
pub proof fn law_corners_have_the_radius(r: Rect, radius: int)
    requires
        0 <= radius < 0x1_0000,
        r.w < 0x1_0000,
        r.h < 0x1_0000,
    ensures
        match rounded(r, radius) {
            Shape::Plain { .. } => radius == 0 || r.w < 2 || r.h < 2,
            Shape::Rounded { top_left, top_right, bottom_right, bottom_left, .. } => {
                let d = top_left.size as int;
                &&& d > 0 && d % 2 == 0
                &&& d <= 2 * radius && d <= r.w && d <= r.h
                &&& d == 2 * radius || d + 1 >= r.w || d + 1 >= r.h
                &&& top_right.size == d && bottom_right.size == d && bottom_left.size == d
                &&& top_right.angle == 0
                &&& top_left.angle == 90 * 64
                &&& bottom_left.angle == 180 * 64
                &&& bottom_right.angle == 270 * 64
            },
        },
{
    let (w, h) = (r.w as int, r.h as int);
    lemma_small_is_exact(w);
    lemma_small_is_exact(h);
    lemma_small_is_exact(radius);
    let c = lesser(lesser(radius, w / 2), h / 2);
    assert(corner_radius(w, h, radius) == c);
    assert(0 <= c <= w / 2 && c <= h / 2);
}

proof fn lemma_small_is_exact(x: int)
    requires
        0 <= x < 0x1_0000,
    ensures
        wire::u16_of(x) == x,
{
}

/// A ring and a fill have the colour that they are asked for, and lie where they are asked to.
pub proof fn law_shapes_have_their_color(r: Rect, radius: int, fw: int, inner_r: int, c: u32)
    requires
        0 <= r.w < 0x1_0000,
        0 <= r.h < 0x1_0000,
    ensures
        ({
            let here = Area { x: r.x, y: r.y, w: r.w as u16, h: r.h as u16 };
            &&& match rounded_fill(r, radius, c) {
                Fill::Empty => r.w == 0 || r.h == 0,
                Fill::Flat { area, color } => area == here && color == argb::render_color(c)
                    && radius == 0,
                Fill::Masked { area, color, .. } => area == here && color == argb::render_color(c)
                    && radius != 0,
            }
            &&& match ring(r, radius, fw, inner_r, c) {
                None => r.w == 0 || r.h == 0,
                Some(ring) => ring.area == here && ring.color == argb::render_color(c),
            }
        }),
{
    wire::law_coordinates_in_range_are_exact(r.x as int);
    wire::law_coordinates_in_range_are_exact(r.y as int);
    wire::law_coordinates_in_range_are_exact(r.w as int);
    wire::law_coordinates_in_range_are_exact(r.h as int);
}

} // verus!
