//! Packed `0xAARRGGBB` colours and the colour components that the renderers take.
use vstd::prelude::*;

verus! {

/// The packed colour with the given components.
pub open spec fn argb(a: int, r: int, g: int, b: int) -> int {
    a * 0x100_0000 + r * 0x1_0000 + g * 0x100 + b
}

pub open spec fn alpha_of(c: u32) -> int {
    c as int / 0x100_0000
}

pub open spec fn red_of(c: u32) -> int {
    c as int / 0x1_0000 % 0x100
}

pub open spec fn green_of(c: u32) -> int {
    c as int / 0x100 % 0x100
}

pub open spec fn blue_of(c: u32) -> int {
    c as int % 0x100
}

/// Packs four components.
pub fn pack_argb(a: u8, r: u8, g: u8, b: u8) -> (c: u32)
    ensures
        c == argb(a as int, r as int, g as int, b as int),
        alpha_of(c) == a,
        red_of(c) == r,
        green_of(c) == g,
        blue_of(c) == b,
{
    let (a32, r32, g32, b32): (u32, u32, u32, u32) = (a as u32, r as u32, g as u32, b as u32);
    let c: u32 = (a32 << 24) | (r32 << 16) | (g32 << 8) | b32;
    assert(c == a32 * 0x100_0000 + r32 * 0x1_0000 + g32 * 0x100 + b32) by (bit_vector)
        requires
            c == (a32 << 24) | (r32 << 16) | (g32 << 8) | b32,
            a32 < 256,
            r32 < 256,
            g32 < 256,
            b32 < 256,
    ;
    c
}

/// The alpha component.
pub fn alpha(c: u32) -> (r: u8)
    ensures
        r == alpha_of(c),
{
    assert((c >> 24) & 0xff == c / 0x100_0000) by (bit_vector);
    ((c >> 24) & 0xff) as u8
}

/// The red component.
pub fn red(c: u32) -> (r: u8)
    ensures
        r == red_of(c),
{
    assert((c >> 16) & 0xff == c / 0x1_0000 % 0x100) by (bit_vector);
    ((c >> 16) & 0xff) as u8
}

/// The green component.
pub fn green(c: u32) -> (r: u8)
    ensures
        r == green_of(c),
{
    assert((c >> 8) & 0xff == c / 0x100 % 0x100) by (bit_vector);
    ((c >> 8) & 0xff) as u8
}

/// The blue component.
pub fn blue(c: u32) -> (r: u8)
    ensures
        r == blue_of(c),
{
    assert(c & 0xff == c % 0x100) by (bit_vector);
    (c & 0xff) as u8
}

/// A packed colour is made of its components.
pub proof fn lemma_components(c: u32)
    ensures
        c == argb(alpha_of(c), red_of(c), green_of(c), blue_of(c)),
        0 <= alpha_of(c) < 256,
        0 <= red_of(c) < 256,
        0 <= green_of(c) < 256,
        0 <= blue_of(c) < 256,
{
}

/// The components of a packed colour are the ones that it was packed from.
pub proof fn lemma_unpacked(a: int, r: int, g: int, b: int)
    requires
        0 <= a < 256,
        0 <= r < 256,
        0 <= g < 256,
        0 <= b < 256,
    ensures
        0 <= argb(a, r, g, b) <= u32::MAX,
        alpha_of(argb(a, r, g, b) as u32) == a,
        red_of(argb(a, r, g, b) as u32) == r,
        green_of(argb(a, r, g, b) as u32) == g,
        blue_of(argb(a, r, g, b) as u32) == b,
{
    let c = argb(a, r, g, b);
    assert(c / 0x100 == a * 0x1_0000 + r * 0x100 + g);
    assert(c / 0x1_0000 == a * 0x100 + r);
    assert(c / 0x100_0000 == a);
}

/// The bytes of a packed colour are the components that it was packed from.
pub proof fn lemma_packed_parts(a: int, r: int, g: int, b: int)
    requires
        0 <= a < 256,
        0 <= r < 256,
        0 <= g < 256,
        0 <= b < 256,
    ensures
        ({
            let c = argb(a, r, g, b);
            &&& 0 <= c < 0x1_0000_0000
            &&& c / 0x100_0000 == a
            &&& c / 0x1_0000 % 0x100 == r
            &&& c / 0x100 % 0x100 == g
            &&& c % 0x100 == b
        }),
{
    let c = argb(a, r, g, b);
    assert(c / 0x100 == a * 0x1_0000 + r * 0x100 + g);
    assert(c / 0x1_0000 == a * 0x100 + r);
    assert(c / 0x100_0000 == a);
}

/// A component of 0 to 255 widened to 0 to 65535.
pub open spec fn widened(c: int) -> int {
    c * 0x101
}

/// A colour component scaled by the alpha, then widened.
pub open spec fn premultiplied(c: int, a: int) -> int {
    widened(c * a / 255)
}

/// The XRender components of a packed colour: red, green and blue premultiplied, then alpha.
pub open spec fn render_color(c: u32) -> (u16, u16, u16, u16) {
    (
        premultiplied(red_of(c), alpha_of(c)) as u16,
        premultiplied(green_of(c), alpha_of(c)) as u16,
        premultiplied(blue_of(c), alpha_of(c)) as u16,
        widened(alpha_of(c)) as u16,
    )
}

/// Converts a packed `0xAARRGGBB` colour into XRender components (0 to 0xffff each):
/// red, green and blue premultiplied by alpha, then alpha.
pub fn argb_to_render_color(c: u32) -> (r: (u16, u16, u16, u16))
    ensures
        r.0 == premultiplied(red_of(c), alpha_of(c)),
        r.1 == premultiplied(green_of(c), alpha_of(c)),
        r.2 == premultiplied(blue_of(c), alpha_of(c)),
        r.3 == widened(alpha_of(c)),
        r == render_color(c),
{
    let a: u8 = alpha(c);
    (premul(red(c), a), premul(green(c), a), premul(blue(c), a), a as u16 * 0x101)
}

fn premul(c: u8, a: u8) -> (r: u16)
    ensures
        r == premultiplied(c as int, a as int),
{
    assert(c * a <= 255 * 255) by (nonlinear_arith)
        requires
            c <= 255,
            a <= 255,
    ;
    (c as u32 * a as u32 / 255) as u16 * 0x101
}

/// Converts a packed colour into plain 16-bit components for text drawing, without
/// premultiplication: red, green, blue, alpha.
pub fn argb_to_text_color(c: u32) -> (r: (u16, u16, u16, u16))
    ensures
        r.0 == widened(red_of(c)),
        r.1 == widened(green_of(c)),
        r.2 == widened(blue_of(c)),
        r.3 == widened(alpha_of(c)),
{
    (
        red(c) as u16 * 0x101,
        green(c) as u16 * 0x101,
        blue(c) as u16 * 0x101,
        alpha(c) as u16 * 0x101,
    )
}

/// A render colour is premultiplied: no component exceeds the alpha, an opaque colour keeps its
/// components at full scale, and a transparent one is zero throughout.
pub proof fn law_render_color_premultiplied(c: int, a: int)
    requires
        0 <= c < 256,
        0 <= a < 256,
    ensures
        0 <= premultiplied(c, a) <= widened(a) <= 0xffff,
        a == 255 ==> premultiplied(c, a) == widened(c),
        a == 0 ==> premultiplied(c, a) == 0,
{
    assert(0 <= c * a <= 255 * a) by (nonlinear_arith)
        requires
            0 <= c < 256,
            0 <= a < 256,
    ;
    if a == 255 {
        assert(c * a / 255 == c);
    }
}

/// The colour that is drawn has the alpha of the packed one and, in this order, its red, green and
/// blue at the share that the alpha leaves, all in 16 bits. An opaque colour is drawn as it is.
pub proof fn law_drawn_colors_keep_their_components(c: u32)
    ensures
        ({
            let (a, r, g, b) = (
                c as int / 0x100_0000,
                c as int / 0x1_0000 % 0x100,
                c as int / 0x100 % 0x100,
                c as int % 0x100,
            );
            let d = render_color(c);
            &&& d.3 == 257 * a
            &&& d.0 % 257 == 0 && 255 * (d.0 / 257) <= r * a < 255 * (d.0 / 257 + 1)
            &&& d.1 % 257 == 0 && 255 * (d.1 / 257) <= g * a < 255 * (d.1 / 257 + 1)
            &&& d.2 % 257 == 0 && 255 * (d.2 / 257) <= b * a < 255 * (d.2 / 257 + 1)
            &&& a == 255 ==> d == (
                (257 * r) as u16,
                (257 * g) as u16,
                (257 * b) as u16,
                0xffffu16,
            )
        }),
{
    let (a, r, g, b) = (alpha_of(c), red_of(c), green_of(c), blue_of(c));
    lemma_components(c);
    law_render_color_premultiplied(r, a);
    law_render_color_premultiplied(g, a);
    law_render_color_premultiplied(b, a);
    lemma_share_of_alpha(r, a);
    lemma_share_of_alpha(g, a);
    lemma_share_of_alpha(b, a);
}

proof fn lemma_share_of_alpha(c: int, a: int)
    requires
        0 <= c < 256,
        0 <= a < 256,
    ensures
        premultiplied(c, a) % 257 == 0,
        0 <= premultiplied(c, a) <= 0xffff,
        255 * (premultiplied(c, a) / 257) <= c * a < 255 * (premultiplied(c, a) / 257 + 1),
{
    assert(0 <= c * a <= 255 * 255) by (nonlinear_arith)
        requires
            0 <= c < 256,
            0 <= a < 256,
    ;
}

} // verus!
