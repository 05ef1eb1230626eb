use hop::config::Config;
use hop::display::{
    find_a8_format, find_argb32_format, find_argb_visual, find_format_for_visual, monitor_at,
    query_monitors, PictFormat, VisualInfo,
};
use hop::layout::{Metrics, MonitorGeom};

fn metrics() -> Metrics {
    Metrics { tile_w: 200, tile_h: 150, frame_w: 2, gap: 4, win_pad: 10 }
}

const MON: MonitorGeom = MonitorGeom { x: 0, y: 0, w: 1920, h: 1080 };

#[test]
fn metrics_come_from_the_configuration() {
    let mut c = Config::default();
    c.tile.border_width = 0;
    c.window.gap = 7;
    c.window.padding = 9;
    let m = Metrics::of(&c);
    // A border is at least one pixel wide.
    assert_eq!(m, Metrics { tile_w: 200, tile_h: 150, frame_w: 1, gap: 7, win_pad: 9 });
}

#[test]
fn columns_keep_the_margin() {
    let m = metrics();
    // 1840 available, 22 overhead, slots of 206: eight columns.
    assert_eq!(m.grid_layout(20, 1920), (8, 3));
    assert_eq!(m.grid_layout(3, 1920), (3, 1));
    assert_eq!(m.grid_layout(0, 1920), (1, 0));
    assert_eq!(m.grid_layout(5, 100), (1, 5));
    assert_eq!(m.grid_layout(9, 1920), (8, 2));
}

#[test]
fn the_popup_is_centred_on_its_monitor() {
    let m = metrics();
    // Three columns: 3 * 202 + 2 + 2 * 4 + 20 = 636; one row: 152 + 2 + 20 = 174.
    assert_eq!(m.popup_dims("center", 3, &MON), (642, 453, 636, 174));
    let right = MonitorGeom { x: 1920, y: -100, w: 1280, h: 1024 };
    assert_eq!(m.popup_dims("center", 3, &right), (1920 + 322, 325, 636, 174));
    let left = MonitorGeom { x: -1920, y: 0, w: 1920, h: 1080 };
    assert_eq!(m.popup_dims("center", 3, &left).0, -1920 + 642);
}

#[test]
fn the_popup_can_be_placed() {
    let m = metrics();
    assert_eq!(m.popup_dims("100, -20", 3, &MON), (100, -20, 636, 174));
    assert_eq!(m.popup_dims("x,7", 3, &MON), (0, 7, 636, 174));
}

#[test]
fn tiles_follow_the_grid() {
    let m = metrics();
    assert_eq!(m.tile_pos("left", 10, 4, 0), (12, 12));
    assert_eq!(m.tile_pos("left", 10, 4, 5), (12 + 206, 12 + 156));
    assert_eq!(m.tile_pos("left", 10, 4, 8), (12, 12 + 312));
}

#[test]
fn the_last_row_is_aligned() {
    let m = metrics();
    // Two tiles in the last of three rows, two are missing.
    assert_eq!(m.tile_pos("center", 10, 4, 8).0, 12 + 206);
    assert_eq!(m.tile_pos("right", 10, 4, 8).0, 12 + 412);
    assert_eq!(m.tile_pos("right", 10, 4, 9).0, 12 + 618);
    assert_eq!(m.tile_pos("center", 9, 4, 8).0, 12 + 309);
    // A full row is not moved.
    assert_eq!(m.tile_pos("right", 8, 4, 7).0, 12 + 618);
    assert_eq!(m.tile_pos("right", 10, 4, 3).0, 12 + 618);
}

#[test]
fn points_hit_their_tiles() {
    let m = metrics();
    for i in 0..10 {
        let (x, y) = m.tile_pos("center", 10, 4, i);
        assert_eq!(m.tile_at("center", 10, 4, x, y), Some(i));
        assert_eq!(m.tile_at("center", 10, 4, x + 199, y + 149), Some(i));
    }
    assert_eq!(m.tile_at("left", 10, 4, 11, 12), None);
    assert_eq!(m.tile_at("left", 10, 4, 12 + 200, 12), None);
    assert_eq!(m.tile_at("left", 10, 4, 12 + 2 * 206, 12 + 312), None);
}

#[test]
fn content_rectangles_list_all_tiles() {
    let m = metrics();
    assert_eq!(m.content_rects("left", 2, 2), [(12, 12, 200, 150), (218, 12, 200, 150)]);
    assert!(m.content_rects("left", 0, 1).is_empty());
}

#[test]
fn coordinates_are_cut_to_sixteen_bits() {
    let m = Metrics { tile_w: 40_000, tile_h: 10, frame_w: 1, gap: 0, win_pad: 0 };
    assert_eq!(m.tile_pos("left", 2, 2, 1), ((40_002i32 - 65_536) as i16, 1));
}

#[test]
fn the_monitor_under_the_pointer_is_used() {
    let second = MonitorGeom { x: 1920, y: 0, w: 1280, h: 1024 };
    let all = vec![MON, second];
    assert_eq!(monitor_at(&all, 5, 5), MON);
    assert_eq!(monitor_at(&all, 1920, 1023), second);
    assert_eq!(monitor_at(&all, 1920, 1024), MON);
    assert_eq!(monitor_at(&all, -5, 0), MON);
    // A wall of screens, with its sides beyond the signed range.
    let wall = MonitorGeom { x: -10, y: 2000, w: 40_000, h: 50_000 };
    let all = vec![MON, wall];
    assert_eq!(monitor_at(&all, 30_000, 30_000), wall);
    assert_eq!(monitor_at(&all, -11, 2000), MON);
}

#[test]
fn large_tiles_are_hit() {
    let m = Metrics { tile_w: 40_000, tile_h: 70_000, frame_w: 1, gap: 0, win_pad: 0 };
    assert_eq!(m.tile_at("left", 1, 1, 1, 1), Some(0));
    assert_eq!(m.tile_at("left", 1, 1, 32_767, 32_767), Some(0));
    assert_eq!(m.tile_at("left", 1, 1, 0, 1), None);
}

#[test]
fn without_monitors_the_screen_is_one() {
    let screen = MonitorGeom { x: 0, y: 0, w: 800, h: 600 };
    assert_eq!(query_monitors(true, Some(vec![MON]), 800, 600), [MON]);
    assert_eq!(query_monitors(false, Some(vec![MON]), 800, 600), [screen]);
    assert_eq!(query_monitors(true, Some(vec![]), 800, 600), [screen]);
    assert_eq!(query_monitors(true, None, 800, 600), [screen]);
}

fn format(id: u32, depth: u8, alpha: u16, color: u16) -> PictFormat {
    PictFormat {
        id,
        depth,
        direct: true,
        alpha_mask: alpha,
        red_mask: color,
        green_mask: color,
        blue_mask: color,
    }
}

#[test]
fn picture_formats_are_found() {
    let indexed = PictFormat { direct: false, ..format(1, 32, 0xff, 0xff) };
    let all = vec![indexed, format(2, 24, 0, 0xff), format(3, 32, 0xff, 0xff), format(4, 8, 0xff, 0)];
    assert_eq!(find_argb32_format(&all), Some(3));
    assert_eq!(find_a8_format(&all), Some(4));
    assert_eq!(find_argb32_format(&all[..2].to_vec()), None);
    assert_eq!(find_a8_format(&vec![format(5, 8, 0xff, 1)]), None);
}

#[test]
fn visuals_are_found() {
    let v = |id, depth, true_color| VisualInfo { id, depth, true_color };
    let all = vec![v(1, 24, true), v(2, 32, false), v(3, 32, true), v(4, 32, true)];
    assert_eq!(find_argb_visual(&all), Some(3));
    assert_eq!(find_argb_visual(&all[..2].to_vec()), None);
    let screens = vec![vec![], vec![(7, 70), (8, 80), (7, 71)]];
    assert_eq!(find_format_for_visual(&screens, 7, 1), Some(70));
    assert_eq!(find_format_for_visual(&screens, 9, 1), None);
    assert_eq!(find_format_for_visual(&screens, 7, 0), None);
    assert_eq!(find_format_for_visual(&screens, 7, 2), None);
}
