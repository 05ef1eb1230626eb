use hop::icons::{
    can_hold, decode_png, frame_to_argb, icon_candidates, icon_paths, own_icon, IconSearch,
    IconStep, PngFrame,
};

fn encode(w: u32, h: u32, color: png::ColorType, depth: png::BitDepth, data: &[u8]) -> Vec<u8> {
    let mut out = Vec::new();
    let mut encoder = png::Encoder::new(&mut out, w, h);
    encoder.set_color(color);
    encoder.set_depth(depth);
    let mut writer = encoder.write_header().unwrap();
    writer.write_image_data(data).unwrap();
    writer.finish().unwrap();
    out
}

#[test]
fn rgba_images_decode() {
    let data = [1, 2, 3, 4, 250, 251, 252, 253];
    let bytes = encode(2, 1, png::ColorType::Rgba, png::BitDepth::Eight, &data);
    assert_eq!(decode_png(&bytes), Some((2, 1, vec![0x04010203, 0xfdfafbfc])));
}

#[test]
fn rgb_images_are_opaque() {
    let data = [1, 2, 3, 250, 251, 252];
    let bytes = encode(1, 2, png::ColorType::Rgb, png::BitDepth::Eight, &data);
    assert_eq!(decode_png(&bytes), Some((1, 2, vec![0xff010203, 0xfffafbfc])));
}

#[test]
fn other_images_are_not_supported() {
    let grey = encode(2, 1, png::ColorType::Grayscale, png::BitDepth::Eight, &[1, 2]);
    assert!(decode_png(&grey).is_none());
    let deep = encode(1, 1, png::ColorType::Rgb, png::BitDepth::Sixteen, &[0, 1, 0, 2, 0, 3]);
    assert!(decode_png(&deep).is_none());
    assert!(decode_png(b"not an image").is_none());
    assert!(decode_png(&[]).is_none());
    let whole = encode(2, 1, png::ColorType::Rgba, png::BitDepth::Eight, &[0; 8]);
    assert!(decode_png(&whole[..whole.len() / 2]).is_none());
}

#[test]
fn frames_need_enough_samples() {
    let frame = |color_type, bit_depth, data: Vec<u8>| PngFrame {
        width: 1,
        height: 1,
        color_type,
        bit_depth,
        data,
    };
    assert_eq!(frame_to_argb(&frame(6, 8, vec![1, 2, 3, 4])), Some((1, 1, vec![0x04010203])));
    assert!(frame_to_argb(&frame(6, 8, vec![1, 2, 3])).is_none());
    assert_eq!(frame_to_argb(&frame(2, 8, vec![1, 2, 3])), Some((1, 1, vec![0xff010203])));
    assert!(frame_to_argb(&frame(2, 8, vec![1, 2])).is_none());
    assert!(frame_to_argb(&frame(2, 16, vec![1, 2, 3])).is_none());
    assert!(frame_to_argb(&frame(3, 8, vec![1, 2, 3, 4])).is_none());
}

#[test]
fn icon_files_come_closest_size_first() {
    let paths = icon_paths("Firefox", "/home/u", 64);
    // Two names in two themes of seven sizes, and in two more directories.
    assert_eq!(paths.len(), 32);
    assert_eq!(paths[0], "/home/u/.local/share/icons/hicolor/64x64/apps/firefox.png");
    assert_eq!(paths[1], "/home/u/.local/share/icons/hicolor/64x64/apps/Firefox.png");
    assert_eq!(paths[2], "/usr/share/icons/hicolor/64x64/apps/firefox.png");
    assert_eq!(paths[4], "/home/u/.local/share/icons/hicolor/48x48/apps/firefox.png");
    // 96 and 32 are as far off: they keep their order in each theme.
    assert_eq!(paths[8], "/home/u/.local/share/icons/hicolor/96x96/apps/firefox.png");
    assert_eq!(paths[10], "/home/u/.local/share/icons/hicolor/32x32/apps/firefox.png");
    assert_eq!(paths[12], "/usr/share/icons/hicolor/96x96/apps/firefox.png");
    assert_eq!(paths[28], "/usr/share/icons/firefox.png");
    assert_eq!(paths[29], "/usr/share/icons/Firefox.png");
    assert_eq!(paths[31], "/usr/share/pixmaps/Firefox.png");
}

#[test]
fn a_lower_case_class_has_one_name() {
    let paths = icon_paths("zed", "", 512);
    assert_eq!(paths.len(), 16);
    assert_eq!(paths[0], "/.local/share/icons/hicolor/512x512/apps/zed.png");
    assert_eq!(paths[15], "/usr/share/pixmaps/zed.png");
    assert!(icon_paths("", "/home/u", 64).is_empty());
    assert_eq!(icon_candidates("X", "y", "/h", 32)[1], "/h/.local/share/icons/hicolor/32x32/apps/X.png");
}

#[test]
fn images_that_promise_too_much_cannot_be_held() {
    let mut bytes = encode(2, 1, png::ColorType::Rgba, png::BitDepth::Eight, &[0; 8]);
    assert!(can_hold(&bytes));
    // 2^62 samples of two bytes.
    bytes[16..24].copy_from_slice(&[0x80, 0, 0, 0, 0x20, 0, 0, 0]);
    bytes[24..26].copy_from_slice(&[16, 6]);
    assert!(!can_hold(&bytes));
    assert!(decode_png(&bytes).is_none());
    // The signature is missing.
    bytes[0] = 0;
    assert!(can_hold(&bytes));
    // More bytes than can be counted are rejected by the decoder.
    bytes[0] = 0x89;
    bytes[16..24].copy_from_slice(&[0xff; 8]);
    assert!(can_hold(&bytes));
    assert!(decode_png(&bytes).is_none());
    assert!(can_hold(&[0xff; 40]));
}

#[test]
fn a_windows_own_icon_comes_first() {
    let icon = Some((1, 1, vec![0xff00ff00]));
    assert_eq!(own_icon(32, &[1, 1, 0xff00ff00], 64), IconStep::Done(icon));
    assert_eq!(own_icon(8, &[1, 1, 0xff00ff00], 64), IconStep::AskClass);
    assert_eq!(own_icon(32, &[], 64), IconStep::AskClass);
}

#[test]
fn the_first_file_that_loads_gives_the_icon() {
    let mut search = IconSearch::of_class(&Some(b"zed\0Zed\0".to_vec()), "/home/me", 48);
    let paths = icon_paths("Zed", "/home/me", 48);
    assert_eq!(search.step(None), IconStep::Load(paths[0].clone()));
    assert_eq!(search.step(None), IconStep::Load(paths[1].clone()));
    let icon = Some((1, 1, vec![7]));
    assert_eq!(search.step(icon.clone()), IconStep::Done(icon));
    for path in &paths[2..] {
        assert_eq!(search.step(None), IconStep::Load(path.clone()));
    }
    assert_eq!(search.step(None), IconStep::Done(None));
    assert_eq!(IconSearch::of_class(&None, "/home/me", 48).step(None), IconStep::Done(None));
    let empty = Some(vec![0, 0]);
    assert_eq!(IconSearch::of_class(&empty, "", 48).step(None), IconStep::Done(None));
}
