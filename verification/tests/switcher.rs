use hop::config::Config;
use hop::display::PictFormat;
use hop::ewmh::Atoms;
use hop::layout::MonitorGeom;
use hop::paint::{Background, Content};
use hop::redraw::{BorderRedraw, BufferStep, MaskStep, Redraw};
use hop::shapes::Fill;
use hop::switcher::{HidePlan, Switcher, WindowInfo};

const MON: MonitorGeom = MonitorGeom { x: 0, y: 0, w: 1920, h: 1080 };

fn atoms() -> Atoms {
    Atoms::from_replies(&(1..=11).collect()).unwrap()
}

fn info(id: u32, name: &str) -> WindowInfo {
    WindowInfo { id, types: vec![], net_name: Some(name.as_bytes().to_vec()), wm_name: None }
}

fn formats() -> Vec<PictFormat> {
    let f = |id, depth, color| PictFormat {
        id,
        depth,
        direct: true,
        alpha_mask: 0xff,
        red_mask: color,
        green_mask: color,
        blue_mask: color,
    };
    vec![f(40, 32, 0xff), f(41, 8, 0)]
}

/// A switcher that shows a popup with `n` windows, numbered from 100.
fn shown(config: Config, n: u32, backward: bool) -> Switcher {
    let mut s = Switcher::new(config);
    assert!(s.reload(None));
    let infos: Vec<WindowInfo> = (0..n).map(|i| info(100 + i, "window")).collect();
    s.load_windows(&infos, &atoms());
    assert!(s.show(None, backward));
    s.opened(7);
    s.queue_enrichment();
    s
}

fn drawn(config: Config, n: u32) -> Switcher {
    let mut s = shown(config, n, false);
    let Redraw::Start(start) = s.redraw(&formats(), &MON) else { panic!("not started") };
    s.buffer_ready(50, 51, start.w, start.h);
    s
}

#[test]
fn windows_are_listed_by_name() {
    let mut s = Switcher::new(Config::default());
    let dock = WindowInfo { types: vec![atoms().wt_dock], ..info(1, "panel") };
    let old = WindowInfo { net_name: None, wm_name: Some(b"xterm".to_vec()), ..info(3, "") };
    s.load_windows(&vec![dock, info(2, "Editor"), old], &atoms());
    assert_eq!(s.window_ids(), [2, 3]);
    assert_eq!(s.windows[0].name, "Editor");
    assert_eq!(s.windows[1].name, "xterm");
    assert_eq!(s.windows[1].frame, 3);
    assert!(s.windows[1].icon.is_none());
}

#[test]
fn the_popup_itself_is_not_a_candidate() {
    let s = shown(Config::default(), 2, false);
    assert_eq!(s.candidates(&vec![5, 7, 6, 7]), [5, 6]);
    assert_eq!(Switcher::new(Config::default()).candidates(&vec![5, 7]), [5, 7]);
}

#[test]
fn showing_selects_the_second_or_the_last() {
    assert_eq!(shown(Config::default(), 5, false).selected, 1);
    assert_eq!(shown(Config::default(), 5, true).selected, 4);
    assert_eq!(shown(Config::default(), 1, false).selected, 0);
    let mut none = Switcher::new(Config::default());
    assert!(!none.show(None, false));
    assert!(!none.is_visible());
}

#[test]
fn frames_replace_the_windows_own() {
    let mut s = Switcher::new(Config::default());
    s.load_windows(&vec![info(1, "a"), info(2, "b")], &atoms());
    assert!(s.show(Some(vec![11, 12]), false));
    assert_eq!(s.windows[0].frame, 11);
    assert_eq!(s.windows[1].frame, 12);
    assert_eq!(s.windows[1].id, 2);
}

#[test]
fn the_configuration_is_taken_over_while_hidden() {
    let mut s = Switcher::new(Config::default());
    let mut fresh = Config::default();
    fresh.tile.width = 300;
    assert!(s.reload(Some(fresh)));
    assert_eq!(s.config.tile.width, 300);
    let mut s = shown(Config::default(), 2, false);
    let mut fresh = Config::default();
    fresh.tile.width = 300;
    assert!(!s.reload(Some(fresh)));
    assert_eq!(s.config.tile.width, 200);
}

#[test]
fn the_selected_window_is_enriched_first() {
    let mut s = shown(Config::default(), 4, true);
    let mut order = vec![];
    while let Some(job) = s.pump_one_enrich() {
        assert_eq!(job.id, 100 + job.index as u32);
        assert!(job.need_icon);
        order.push(job.index);
    }
    assert_eq!(order, [3, 0, 1, 2]);
    assert!(!s.has_pending_enrich());
}

#[test]
fn fetched_icons_are_kept() {
    let mut s = shown(Config::default(), 2, false);
    s.set_icon(1, Some((1, 1, vec![5])));
    let job = s.pump_one_enrich().unwrap();
    assert_eq!(job.index, 1);
    assert!(!job.need_icon);
    assert!(s.windows[0].icon.is_none());
}

#[test]
fn next_and_prev_go_round() {
    let mut s = drawn(Config::default(), 3);
    assert_eq!(s.selected, 1);
    s.next(&MON);
    assert_eq!(s.selected, 2);
    s.next(&MON);
    assert_eq!(s.selected, 0);
    s.prev(&MON);
    assert_eq!(s.selected, 2);
    s.prev(&MON);
    assert_eq!(s.selected, 1);
    let mut empty = Switcher::new(Config::default());
    assert_eq!(empty.next(&MON), BorderRedraw::Nothing);
    assert_eq!(empty.prev(&MON), BorderRedraw::Nothing);
}

#[test]
fn moving_repaints_two_borders() {
    let mut s = drawn(Config::default(), 3);
    let BorderRedraw::Borders(m) = s.next(&MON) else { panic!("no borders") };
    assert_eq!((m.pixmap, m.picture), (50, 51));
    assert_ne!(m.before, m.after);
    assert!(m.before.is_some() && m.after.is_some());
    // One window: the selection cannot move.
    assert_eq!(drawn(Config::default(), 1).next(&MON), BorderRedraw::Nothing);
    // Nothing is drawn yet.
    assert_eq!(shown(Config::default(), 3, false).next(&MON), BorderRedraw::Nothing);
}

#[test]
fn gradients_under_round_corners_need_everything() {
    let mut c = Config::default();
    c.tile.border_radius = 8;
    c.window.background_gradient = "radial".into();
    assert_eq!(drawn(c, 3).next(&MON), BorderRedraw::Full);
    let mut c = Config::default();
    c.window.background_gradient = "radial".into();
    assert!(matches!(drawn(c, 3).next(&MON), BorderRedraw::Borders(_)));
}

#[test]
fn hovering_selects() {
    let mut s = drawn(Config::default(), 3);
    let tiles = s.labels(&MON);
    let t = tiles[2].0;
    assert!(matches!(s.hover_at(&MON, t.x + 5, t.y + 5), BorderRedraw::Borders(_)));
    assert_eq!(s.selected, 2);
    assert_eq!(s.hover_at(&MON, t.x + 5, t.y + 5), BorderRedraw::Nothing);
    assert_eq!(s.hover_at(&MON, -1, -1), BorderRedraw::Nothing);
    assert_eq!(s.selected, 2);
}

#[test]
fn clicking_a_tile_commits_and_outside_cancels() {
    let mut s = drawn(Config::default(), 3);
    let t = s.labels(&MON)[2].0;
    let (plan, target) = s.click_at(&MON, t.x, t.y);
    assert_eq!(target, Some(102));
    assert_eq!(plan.window, Some(7));
    assert_eq!(plan.buffer, Some((50, 51)));
    let mut s = drawn(Config::default(), 3);
    let (plan, target) = s.click_at(&MON, -1, -1);
    assert_eq!(target, None);
    assert_eq!(plan.window, Some(7));
    assert!(!s.is_visible());
}

#[test]
fn committing_switches_to_the_selected_window() {
    let mut s = drawn(Config::default(), 3);
    s.mask_ready(60);
    let (plan, target) = s.commit();
    assert_eq!(target, Some(101));
    let want = HidePlan {
        window: Some(7),
        unredirect: false,
        buffer: Some((50, 51)),
        mask: Some(60),
    };
    assert_eq!(plan, want);
    assert_eq!(s.popup_window(), None);
    assert!(s.windows.is_empty());
    assert!(!s.has_pending_enrich());
    // There is nothing left to undo.
    let nothing = HidePlan { window: None, unredirect: false, buffer: None, mask: None };
    assert_eq!(s.cancel(), nothing);
    assert_eq!(s.commit().1, None);
}

#[test]
fn thumbnails_are_unredirected() {
    let mut c = Config::default();
    c.tile.content = "thumbnail".into();
    assert!(shown(c, 1, false).cancel().unredirect);
}

#[test]
fn a_redraw_starts_with_the_buffer() {
    let mut hidden = Switcher::new(Config::default());
    assert_eq!(hidden.redraw(&formats(), &MON), Redraw::Hidden);
    let mut s = shown(Config::default(), 3, false);
    assert_eq!(s.redraw(&vec![], &MON), Redraw::NoFormat);
    assert_eq!(s.cached_argb_fmt, 0);
    let Redraw::Start(start) = s.redraw(&formats(), &MON) else { panic!("not started") };
    assert_eq!(start.window, 7);
    assert_eq!(start.argb_fmt, 40);
    assert_eq!(start.buffer, BufferStep::Create { old: None });
    assert!(!start.no_mask_format);
    s.buffer_ready(50, 51, start.w, start.h);
    let Redraw::Start(again) = s.redraw(&formats(), &MON) else { panic!("not started") };
    assert_eq!(again.buffer, BufferStep::Reuse { pixmap: 50, picture: 51 });
    s.buffer_ready(52, 53, start.w + 1, start.h);
    let Redraw::Start(resized) = s.redraw(&formats(), &MON) else { panic!("not started") };
    assert_eq!(resized.buffer, BufferStep::Create { old: Some((52, 53)) });
    assert_eq!(s.pix_buf, None);
}

#[test]
fn masks_are_built_for_round_popups() {
    let mut c = Config::default();
    c.window.border_radius = 10;
    let mut s = drawn(c, 2);
    assert_eq!(s.cached_a8_fmt, 41);
    let MaskStep::Rebuild { old: None, shape: Some(_) } = s.redraw_mask(true) else {
        panic!("no mask")
    };
    s.mask_ready(60);
    assert_eq!(s.redraw_mask(false), MaskStep::Keep);
    assert_eq!(s.blit_to_window().unwrap().mask, 60);
    assert!(matches!(s.redraw_mask(true), MaskStep::Rebuild { old: Some(60), .. }));
    let mut square = drawn(Config::default(), 2);
    assert_eq!(square.redraw_mask(false), MaskStep::Rebuild { old: None, shape: None });
    assert_eq!(square.blit_to_window().unwrap().mask, 0);
    let mut c = Config::default();
    c.tile.border_radius = 10;
    let mut s = shown(c, 2, false);
    let only_argb = formats()[..1].to_vec();
    let Redraw::Start(start) = s.redraw(&only_argb, &MON) else { panic!("not started") };
    assert!(start.no_mask_format);
    assert_eq!(s.cached_a8_fmt, 0);
}

#[test]
fn the_painting_covers_all_windows() {
    let s = drawn(Config::default(), 3);
    let p = s.painting(&MON, 0).unwrap();
    assert_eq!(p.tiles.len(), 3);
    assert!(matches!(p.background, Background::Flat { .. }));
    assert_eq!(p.selected, p.tiles[1].frame.border);
    assert_ne!(p.selected, p.tiles[0].frame.border);
    assert!(matches!(p.tiles[0].content, Content::Icon { .. }));
    assert!(shown(Config::default(), 3, false).painting(&MON, 0).is_none());
}

#[test]
fn labels_skip_windows_without_a_name() {
    let mut s = Switcher::new(Config::default());
    s.load_windows(&vec![info(1, "  a "), info(2, "   ")], &atoms());
    let labels = s.labels(&MON);
    assert_eq!(labels[0].1.as_deref(), Some("a"));
    assert_eq!(labels[1].1, None);
}

#[test]
fn exposed_popups_are_blitted() {
    let mut s = shown(Config::default(), 2, false);
    assert!(!s.repaint());
    assert!(s.blit_to_window().is_none());
    let Redraw::Start(start) = s.redraw(&formats(), &MON) else { panic!("not started") };
    s.buffer_ready(50, 51, start.w, start.h);
    assert!(s.repaint());
    let b = s.blit_to_window().unwrap();
    assert_eq!((b.window, b.picture, b.w, b.h, b.format), (7, 51, start.w, start.h, 40));
}

#[test]
fn the_popup_plan_follows_the_configuration() {
    let mut c = Config::default();
    c.window.position = "3,4".into();
    c.window.outer_border_width = 5;
    c.window.border = "#01020304".into();
    c.window.blur = false;
    let s = shown(c, 2, false);
    let plan = s.create_popup(&MON);
    assert_eq!((plan.x, plan.y, plan.border_width, plan.border_color), (3, 4, 5, 0x04010203));
    assert!(plan.blur.is_none());
    let mut c = Config::default();
    c.tile.blur = true;
    c.window.blur = false;
    let plan = shown(c, 2, false).create_popup(&MON);
    assert_eq!(plan.blur.unwrap().len(), 8);
    let mut c = Config::default();
    c.tile.blur = true;
    c.window.blur = true;
    assert!(shown(c, 2, false).create_popup(&MON).blur.unwrap().is_empty());
}

#[test]
fn thumbnails_are_cached_in_thumbnail_mode() {
    let mut s = shown(Config::default(), 2, false);
    assert!(!s.cache_thumb(100, &[0; 4], 1, 1, 24));
    let mut c = Config::default();
    c.tile.content = "thumbnail".into();
    let mut s = drawn(c, 2);
    assert!(!s.cache_thumb(100, &[0; 3], 1, 1, 24));
    assert!(s.cache_thumb(100, &[1, 2, 3, 4], 1, 1, 24));
    assert_eq!(s.thumb_cache.get(100), Some(&(1, 1, vec![0xff030201])));
    let p = s.painting(&MON, 0).unwrap();
    assert!(matches!(p.tiles[0].content, Content::Thumbnail { .. }));
    assert!(matches!(p.tiles[1].content, Content::Icon { .. }));
    s.on_window_destroyed(100);
    assert!(s.thumb_cache.get(100).is_none());
}

#[test]
fn the_cache_stays_bounded() {
    let mut c = Config::default();
    c.tile.content = "thumbnail".into();
    let mut s = shown(c, 70, false);
    for i in 0..64 {
        assert!(s.cache_thumb(1000 + i, &[0; 4], 1, 1, 24));
    }
    assert_eq!(s.thumb_cache.map.len(), 64);
    // Full of windows that are gone: they make room.
    assert!(s.cache_thumb(100, &[0; 4], 1, 1, 24));
    assert_eq!(s.thumb_cache.map.len(), 1);
    for i in 0..70 {
        assert!(s.cache_thumb(100 + i, &[0; 4], 1, 1, 24));
        assert!(s.thumb_cache.get(100 + i).is_some());
    }
    // Full of listed windows: one goes for each that comes.
    assert_eq!(s.thumb_cache.map.len(), 64);
}

#[test]
fn thumbnails_alone_can_be_queued() {
    let mut c = Config::default();
    c.tile.content = "thumbnail".into();
    let mut s = shown(c, 2, false);
    assert!(!s.has_pending_thumbs());
    s.queue_thumbs();
    assert!(s.has_pending_thumbs());
    assert_eq!(s.pump_one_thumb(), Some(100));
    assert_eq!(s.pump_one_thumb(), Some(101));
    assert_eq!(s.pump_one_thumb(), None);
    let mut icons = shown(Config::default(), 2, false);
    icons.queue_thumbs();
    assert!(!icons.has_pending_thumbs());
}

#[test]
fn repainted_borders_are_those_of_a_full_redraw() {
    let mut s = drawn(Config::default(), 4);
    let before = s.painting(&MON, 0).unwrap();
    let BorderRedraw::Borders(m) = s.next(&MON) else { panic!("no borders") };
    let after = s.painting(&MON, 0).unwrap();
    assert_eq!(m.before.unwrap().border, after.tiles[1].frame.border);
    assert_eq!(m.after.unwrap().border, after.tiles[2].frame.border);
    assert_ne!(before.tiles[1], after.tiles[1]);
    assert_ne!(before.tiles[2], after.tiles[2]);
    assert_eq!(before.tiles[0], after.tiles[0]);
    assert_eq!(before.tiles[3], after.tiles[3]);
}

#[test]
fn the_shown_popup_is_not_listed() {
    let mut s = shown(Config::default(), 3, false);
    let infos = vec![info(200, "a"), info(7, "popup"), info(201, "b")];
    s.load_windows(&infos, &atoms());
    assert_eq!(s.window_ids(), [200, 201]);
    assert_eq!((s.selected, s.popup_window()), (1, Some(7)));
    // The third window of the queue is no longer listed.
    assert_eq!(s.pump_one_enrich().unwrap().index, 1);
    assert_eq!(s.pump_one_enrich().unwrap().id, 200);
    assert!(s.has_pending_enrich());
    assert!(s.pump_one_enrich().is_none());
    assert!(!s.has_pending_enrich());
}

#[test]
fn the_selection_comes_back_to_the_windows() {
    let mut s = drawn(Config::default(), 4);
    s.prev(&MON);
    s.prev(&MON);
    assert_eq!(s.selected, 3);
    s.load_windows(&vec![info(200, "a"), info(201, "b")], &atoms());
    assert!(s.painting(&MON, 0).is_some());
    s.next(&MON);
    assert_eq!(s.selected, 0);
}

#[test]
fn windows_are_named_by_either_property() {
    let mut s = Switcher::new(Config::default());
    let named = |net: Option<&str>, wm: Option<&str>| WindowInfo {
        id: 1,
        types: vec![],
        net_name: net.map(|n| n.as_bytes().to_vec()),
        wm_name: wm.map(|n| n.as_bytes().to_vec()),
    };
    let infos = vec![
        named(Some("n\u{e4}me"), Some("other")),
        named(Some(""), Some("\u{e4}lter")),
        named(None, Some("old")),
        named(None, None),
    ];
    s.load_windows(&infos, &atoms());
    let names: Vec<&str> = s.windows.iter().map(|w| w.name.as_str()).collect();
    assert_eq!(names, ["n\u{e4}me", "\u{e4}lter", "old", ""]);
}

#[test]
fn square_thumbnails_carry_the_small_icon() {
    let mut c = Config::default();
    c.tile.content = "thumbnail".into();
    assert_eq!((c.tile.border_radius, c.window.border_radius), (0, 0));
    let mut s = drawn(c, 2);
    s.set_icon(0, Some((1, 1, vec![0xffffffff])));
    assert!(s.cache_thumb(100, &[1, 2, 3, 4], 1, 1, 24));
    let p = s.painting(&MON, 0).unwrap();
    let Content::Thumbnail { overlay: Some(overlay), .. } = p.tiles[0].content else {
        panic!("no small icon")
    };
    assert_eq!((overlay.area.w, overlay.area.h), (32, 32));
    // The tiles and the popup keep their square corners.
    assert!(matches!(p.tiles[0].frame.fill, Fill::Flat { .. }));
    assert_eq!(s.blit_to_window().unwrap().mask, 0);
}
