use hop::config::Config;
use hop::layout::{Metrics, TileGeom};
use hop::paint::{
    border_radii, icon_overlay, popup_background, popup_mask_shape, repaint_border, tile_content,
    tile_frame, tile_icon, Background, Border, Content, Gradient, IconPaint,
};
use hop::shapes::{
    border_ring, border_strips, filled_rounded_rect, rounded_rect, Area, Corner, Fill, Rect, Shape,
};

const TILE: TileGeom = TileGeom { x: 20, y: 30, w: 200, h: 150 };

fn area(x: i16, y: i16, w: u16, h: u16) -> Area {
    Area { x, y, w, h }
}

fn metrics() -> Metrics {
    Metrics { tile_w: 200, tile_h: 150, frame_w: 2, gap: 0, win_pad: 0 }
}

#[test]
fn strips_surround_the_tile() {
    let s = border_strips(&TILE, 2);
    assert_eq!(s.top, area(20, 28, 200, 2));
    assert_eq!(s.bottom, area(20, 180, 200, 2));
    assert_eq!(s.left, area(18, 28, 2, 154));
    assert_eq!(s.right, area(220, 28, 2, 154));
}

#[test]
fn rounded_rectangles_are_a_cross_and_four_corners() {
    let r = Rect { x: 5, y: 6, w: 40, h: 30 };
    let corner = |x, y, angle| Corner { x, y, size: 20, angle };
    assert_eq!(
        rounded_rect(&r, 10),
        Shape::Rounded {
            middle: area(15, 6, 20, 30),
            left: area(5, 16, 10, 10),
            right: area(35, 16, 10, 10),
            top_left: corner(5, 6, 5760),
            top_right: corner(25, 6, 0),
            bottom_right: corner(25, 16, 17280),
            bottom_left: corner(5, 16, 11520),
        }
    );
    assert_eq!(rounded_rect(&r, 0), Shape::Plain { area: area(5, 6, 40, 30) });
    // The radius is held at half of the shorter side.
    assert!(matches!(rounded_rect(&r, 99), Shape::Rounded { middle, .. } if middle.w == 10));
    assert!(matches!(
        rounded_rect(&Rect { x: 0, y: 0, w: 1, h: 9 }, 4),
        Shape::Plain { .. }
    ));
}

#[test]
fn fills_take_a_mask_only_for_round_corners() {
    let r = Rect { x: 5, y: 6, w: 40, h: 30 };
    let white = (0xffff, 0xffff, 0xffff, 0xffff);
    assert_eq!(
        filled_rounded_rect(&r, 0, 0xffffffff),
        Fill::Flat { area: area(5, 6, 40, 30), color: white }
    );
    let at_origin = Rect { x: 0, y: 0, ..r };
    assert_eq!(
        filled_rounded_rect(&r, 7, 0xffffffff),
        Fill::Masked { area: area(5, 6, 40, 30), shape: rounded_rect(&at_origin, 7), color: white }
    );
    assert_eq!(filled_rounded_rect(&Rect { w: 0, ..r }, 7, 0), Fill::Empty);
}

#[test]
fn rings_have_a_hole() {
    let outer = Rect { x: 5, y: 6, w: 40, h: 30 };
    let ring = border_ring(&outer, 8, 3, 5, 0xffffffff).unwrap();
    assert_eq!(ring.area, area(5, 6, 40, 30));
    assert_eq!(ring.outer, rounded_rect(&Rect { x: 0, y: 0, ..outer }, 8));
    let inner = Rect { x: 3, y: 3, w: 34, h: 24 };
    assert_eq!(ring.hole, Some(rounded_rect(&inner, 5)));
    assert!(border_ring(&outer, 8, 15, 5, 0).unwrap().hole.is_none());
    assert!(border_ring(&Rect { h: 0, ..outer }, 8, 1, 5, 0).is_none());
}

#[test]
fn border_radii_shrink_inwards() {
    assert_eq!(border_radii(&metrics(), 12), (12, 10));
    assert_eq!(border_radii(&metrics(), 1), (1, 0));
    assert_eq!(border_radii(&metrics(), 1000), (77, 75));
}

#[test]
fn square_and_rounded_tiles() {
    let square = tile_frame(&metrics(), &TILE, false, 12, 0xff000000, 0xffffffff);
    assert_eq!(
        square.fill,
        Fill::Flat { area: area(20, 30, 200, 150), color: (0, 0, 0, 0xffff) }
    );
    assert!(matches!(square.border, Border::Square { strips, .. } if strips == border_strips(&TILE, 2)));
    let round = tile_frame(&metrics(), &TILE, true, 12, 0xff000000, 0xffffffff);
    assert!(matches!(round.fill, Fill::Masked { .. }));
    let Border::Rounded { ring: Some(ring) } = round.border else { panic!("no ring") };
    assert_eq!(ring.area, area(18, 28, 204, 154));
}

#[test]
fn repainting_erases_the_corners_of_round_borders() {
    let round = repaint_border(&metrics(), &TILE, true, 12, 0);
    let corners = round.corners.unwrap();
    assert_eq!(corners.top_left, area(20, 30, 10, 10));
    assert_eq!(corners.top_right, area(210, 30, 10, 10));
    assert_eq!(corners.bottom_left, area(20, 170, 10, 10));
    assert_eq!(corners.bottom_right, area(210, 170, 10, 10));
    assert_eq!(round.erase, border_strips(&TILE, 2));
    assert!(repaint_border(&metrics(), &TILE, true, 2, 0).corners.is_none());
    assert!(repaint_border(&metrics(), &TILE, false, 12, 0).corners.is_none());
}

#[test]
fn backgrounds_are_flat_or_fade() {
    let bg = (0xffff, 0, 0, 0xffff);
    let clear = (0, 0, 0, 0);
    assert_eq!(popup_background("none", 10, 20, 0xffff0000, 7), Background::Flat { color: bg });
    assert_eq!(
        popup_background("radial", 10, 20, 0xffff0000, 7),
        Background::Faded {
            gradient: Gradient::Radial { x: 327_680, y: 655_360, radius: 7 },
            first: bg,
            last: clear,
        }
    );
    assert_eq!(
        popup_background("horizontal", 10, 20, 0xffff0000, 7),
        Background::Faded {
            gradient: Gradient::Linear { x: 655_360, y: 0 },
            first: clear,
            last: bg,
        }
    );
    assert_eq!(
        popup_background("vertical", 10, 20, 0xffff0000, 7),
        Background::Faded {
            gradient: Gradient::Linear { x: 0, y: 1_310_720 },
            first: clear,
            last: bg,
        }
    );
}

#[test]
fn popup_masks_hold_the_radius() {
    let whole = Rect { x: 0, y: 0, w: 100, h: 60 };
    assert_eq!(popup_mask_shape(100, 60, 10), rounded_rect(&whole, 10));
    assert_eq!(popup_mask_shape(100, 60, 70_000), rounded_rect(&whole, 30));
}

#[test]
fn icons_are_centred() {
    // 192 by 94 pixels of content.
    let IconPaint::Placeholder { area: a, color } = tile_icon(&TILE, 4, 64, None, 0xffffffff) else {
        panic!("not a placeholder")
    };
    assert_eq!(a, area(20 + 4 + 64, 30 + 4 + 15, 64, 64));
    assert_eq!(color, (0xffff, 0xffff, 0xffff, 0xffff));
    assert_eq!(
        tile_icon(&TILE, 4, 64, Some((64, 64)), 0),
        IconPaint::Image { src_w: 64, src_h: 64, area: a, scale: None }
    );
    assert_eq!(
        tile_icon(&TILE, 4, 64, Some((128, 48)), 0),
        IconPaint::Image { src_w: 128, src_h: 48, area: a, scale: Some((131_072, 49_152)) }
    );
}

#[test]
fn the_corner_icon_sits_at_the_bottom_right() {
    let o = icon_overlay(&TILE, 4, 24, Some((48, 48))).unwrap();
    assert_eq!(o.area, area(20 + 4 + 192 - 24 - 6, 30 + 4 + 94 - 24 - 6, 24, 24));
    assert_eq!(o.scale, Some((131_072, 131_072)));
    assert_eq!(icon_overlay(&TILE, 4, 3, Some((8, 8))).unwrap().area.w, 8);
    assert!(icon_overlay(&TILE, 4, 95, Some((48, 48))).is_none());
    assert!(icon_overlay(&TILE, 4, 24, None).is_none());
    assert!(icon_overlay(&TILE, 4, 24, Some((0, 48))).is_none());
}

#[test]
fn tiles_show_thumbnails_or_icons() {
    let mut c = Config::default();
    assert!(matches!(tile_content(&c, &TILE, None, Some((9, 9)), true), Content::Icon { .. }));
    c.tile.content = "thumbnail".into();
    let content = tile_content(&c, &TILE, Some((8, 8)), Some((9, 9)), true);
    assert!(matches!(content, Content::Thumbnail { place: Some(_), overlay: Some(_) }));
    let content = tile_content(&c, &TILE, Some((8, 8)), Some((9, 9)), false);
    assert!(matches!(content, Content::Thumbnail { overlay: None, .. }));
    assert!(matches!(tile_content(&c, &TILE, None, None, true), Content::Icon { .. }));
    c.tile.icon_overlay = false;
    let content = tile_content(&c, &TILE, Some((8, 8)), Some((9, 9)), true);
    assert!(matches!(content, Content::Thumbnail { overlay: None, .. }));
    c.tile.padding = 100;
    assert!(matches!(tile_content(&c, &TILE, None, Some((9, 9)), true), Content::Icon { .. }));
}

#[test]
fn the_hole_of_a_ring_is_the_background() {
    let frame = tile_frame(&metrics(), &TILE, true, 12, 0xff000000, 0xffffffff);
    let Border::Rounded { ring: Some(ring) } = frame.border else { panic!("no ring") };
    let Fill::Masked { area: fill, shape, .. } = frame.fill else { panic!("no mask") };
    assert_eq!(ring.area, area(18, 28, 204, 154));
    assert_eq!(fill, area(20, 30, 200, 150));
    assert_eq!(shape, rounded_rect(&Rect { x: 0, y: 0, w: 200, h: 150 }, 10));
    assert_eq!(ring.hole, Some(rounded_rect(&Rect { x: 2, y: 2, w: 200, h: 150 }, 10)));
    // A radius no wider than the frame leaves square corners inside.
    let frame = tile_frame(&metrics(), &TILE, true, 2, 0xff000000, 0xffffffff);
    let Border::Rounded { ring: Some(ring) } = frame.border else { panic!("no ring") };
    assert!(matches!(frame.fill, Fill::Flat { .. }));
    assert_eq!(ring.hole, Some(Shape::Plain { area: area(2, 2, 200, 150) }));
}
