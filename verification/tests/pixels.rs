use hop::argb::{argb_to_render_color, argb_to_text_color, pack_argb};
use hop::pixels::downscale_argb;
use hop::thumbs::{
    content_size, is_capture_size, place_pixels, thumb_of_capture, thumb_source, LiveWindow,
    Placement, ThumbSource,
};

#[test]
fn downscale_uniform_color_is_preserved() {
    let src = vec![0xFF80_4020u32; 4]; // 2×2, all the same
    assert_eq!(downscale_argb(&src, 2, 2, 1, 1), vec![0xFF80_4020]);
}

#[test]
fn downscale_averages_two_pixels() {
    // 2×1 black + white → 1×1 mid-grey, alpha preserved.
    let src = vec![0xFF00_0000u32, 0xFFFF_FFFF];
    assert_eq!(downscale_argb(&src, 2, 1, 1, 1), vec![0xFF7F_7F7F]);
}

#[test]
fn argb_to_render_color_opaque_white() {
    // Opaque white → full-scale on every channel.
    assert_eq!(argb_to_render_color(0xFFFFFFFF), (0xFFFF, 0xFFFF, 0xFFFF, 0xFFFF));
}

#[test]
fn argb_to_render_color_premultiplies() {
    // Fully transparent → all components zero regardless of color.
    assert_eq!(argb_to_render_color(0x00FF00FF), (0, 0, 0, 0));
}

#[test]
fn render_color_scales_with_alpha() {
    assert_eq!(argb_to_render_color(0x80FF8000), (0x8080, 0x4040, 0, 0x8080));
    assert_eq!(argb_to_text_color(0x80FF8000), (0xFFFF, 0x8080, 0, 0x8080));
    assert_eq!(pack_argb(1, 2, 3, 4), 0x01020304);
}

/// Averaging with the spans computed in floating point.
fn reference(pixels: &[u32], src_w: u32, src_h: u32, dst_w: u32, dst_h: u32) -> Vec<u32> {
    let mut out = vec![0u32; (dst_w * dst_h) as usize];
    let x_ratio = src_w as f64 / dst_w as f64;
    let y_ratio = src_h as f64 / dst_h as f64;
    for dy in 0..dst_h {
        let y0 = (dy as f64 * y_ratio) as u32;
        let y1 = (((dy + 1) as f64 * y_ratio) as u32).min(src_h);
        for dx in 0..dst_w {
            let x0 = (dx as f64 * x_ratio) as u32;
            let x1 = (((dx + 1) as f64 * x_ratio) as u32).min(src_w);
            let mut sums = [0u64; 4];
            let mut n = 0u64;
            for sy in y0..y1 {
                for sx in x0..x1 {
                    let p = pixels[(sy * src_w + sx) as usize];
                    for (k, s) in sums.iter_mut().enumerate() {
                        *s += ((p >> (24 - 8 * k)) & 0xff) as u64;
                    }
                    n += 1;
                }
            }
            if n > 0 {
                let avg = sums.map(|s| (s / n) as u32);
                out[(dy * dst_w + dx) as usize] =
                    (avg[0] << 24) | (avg[1] << 16) | (avg[2] << 8) | avg[3];
            }
        }
    }
    out
}

fn noise(n: u32) -> Vec<u32> {
    (0..n).map(|i| i.wrapping_mul(2_654_435_761) ^ (i << 7)).collect()
}

#[test]
fn downscale_rounds_like_floating_point() {
    let row = noise(300);
    for src in 1..=300u32 {
        for dst in 1..=300u32 {
            let got = downscale_argb(&row, src, 1, dst, 1);
            assert_eq!(got, reference(&row, src, 1, dst, 1), "{src} to {dst}");
        }
    }
    let image = noise(37 * 53);
    assert_eq!(downscale_argb(&image, 37, 53, 11, 17), reference(&image, 37, 53, 11, 17));
    assert_eq!(downscale_argb(&image, 53, 37, 53, 5), reference(&image, 53, 37, 53, 5));
}

#[test]
fn downscale_handles_empty_images() {
    assert_eq!(downscale_argb(&[], 0, 0, 2, 1), vec![0, 0]);
    assert!(downscale_argb(&[1, 2], 2, 1, 0, 5).is_empty());
}

#[test]
fn shrinking_keeps_one_color_everywhere() {
    let src = vec![0x8012_3456u32; 97 * 61];
    for (w, h) in [(96, 60), (50, 7), (97, 61), (1, 61), (49, 31)] {
        assert!(downscale_argb(&src, 97, 61, w, h).iter().all(|&p| p == 0x8012_3456));
    }
}

#[test]
fn captures_become_argb() {
    let data = [1, 2, 3, 4, 5, 6, 7, 8];
    // Depth 32 carries alpha, any other depth is opaque.
    let with_alpha = thumb_of_capture(&data, 2, 1, 32, 10, 10).unwrap();
    assert_eq!(with_alpha, (2, 1, vec![0x04030201, 0x08070605]));
    let opaque = thumb_of_capture(&data, 2, 1, 24, 10, 10).unwrap();
    assert_eq!(opaque, (2, 1, vec![0xff030201, 0xff070605]));
}

#[test]
fn useless_captures_are_dropped() {
    assert!(thumb_of_capture(&[0; 7], 2, 1, 32, 10, 10).is_none());
    assert!(thumb_of_capture(&[], 0, 1, 32, 10, 10).is_none());
    assert!(!is_capture_size(8193, 1));
    assert!(is_capture_size(8192, 8192));
    assert!(!is_capture_size(1, 0));
}

#[test]
fn thumbnails_have_the_size_that_floating_point_gives() {
    for w in (1..=700u32).step_by(13) {
        for h in (1..=500u32).step_by(7) {
            for (aw, ah) in [(188u32, 90u32), (1, 1), (33, 200), (640, 480)] {
                let data = vec![9u8; (w * h * 4) as usize];
                let (tw, th, px) = thumb_of_capture(&data, w, h, 24, aw, ah).unwrap();
                let scale = (w as f64 / aw as f64).max(h as f64 / ah as f64);
                let want = if scale > 1.0 {
                    (
                        ((w as f64 / scale).round() as u32).max(1),
                        ((h as f64 / scale).round() as u32).max(1),
                    )
                } else {
                    (w, h)
                };
                assert_eq!((tw, th), want, "{w}x{h} in {aw}x{ah}");
                assert_eq!(px.len() as u32, tw * th);
                assert!(tw <= aw && th <= ah);
                assert!(px.iter().all(|&p| p == 0xff090909));
            }
        }
    }
}

#[test]
fn placement_matches_floating_point() {
    for w in (1..4000u32).step_by(37) {
        for h in (1..3000u32).step_by(41) {
            let (aw, ah, pad) = (188u32, 90u32, 6u32);
            let p = place_pixels((w, h), (100, 50), (aw, ah), pad).unwrap();
            let scale = (w as f64 / aw as f64).max(h as f64 / ah as f64);
            let dw = ((w as f64 / scale).round() as u32).max(1).min(aw);
            let dh = ((h as f64 / scale).round() as u32).max(1).min(ah);
            let want = Placement {
                x: 106 + ((aw - dw) / 2) as i16,
                y: 56 + ((ah - dh) / 2) as i16,
                w: dw as u16,
                h: dh as u16,
                sx: ((w as f64 / dw as f64) * 65536.0).round() as i32,
                sy: ((h as f64 / dh as f64) * 65536.0).round() as i32,
            };
            assert_eq!(p, want, "{w}x{h}");
        }
    }
    assert!(place_pixels((0, 5), (0, 0), (10, 10), 0).is_none());
}

#[test]
fn placement_scale_is_held_at_the_largest_value() {
    let p = place_pixels((4_000_000_000, 1), (0, 0), (1, 1), 0).unwrap();
    assert_eq!(p.sx, i32::MAX);
    assert_eq!((p.w, p.h), (1, 1));
}

#[test]
fn content_area_leaves_room_for_the_label() {
    assert_eq!(content_size(200, 150, 4), (192, 94));
    assert_eq!(content_size(5, 50, 4), (0, 0));
}

#[test]
fn live_windows_come_before_kept_thumbnails_and_icons() {
    let known = LiveWindow {
        visual: Some(1),
        named: true,
        size: Some((400, 300)),
        format: Some(77),
    };
    let source = |live: LiveWindow, cached| thumb_source(&live, cached, (0, 0), (100, 100), 0);
    assert!(matches!(source(known, None), ThumbSource::Live { format: 77, place: Some(_) }));
    let cases = [
        LiveWindow { visual: None, ..known },
        LiveWindow { named: false, ..known },
        LiveWindow { size: None, ..known },
        LiveWindow { format: None, ..known },
    ];
    for live in cases {
        assert_eq!(source(live, None), ThumbSource::Icon);
        assert!(matches!(source(live, Some((9, 9))), ThumbSource::Cached { place: Some(_) }));
    }
    let empty = LiveWindow { size: Some((0, 3)), ..known };
    assert_eq!(source(empty, Some((9, 9))), ThumbSource::Icon);
    assert_eq!(thumb_source(&known, Some((9, 9)), (0, 0), (0, 9), 0), ThumbSource::Icon);
}
