use hop::config::Config;

#[test]
fn color_argb_rrggbbaa() {
    // Packed as 0xAARRGGBB: rr=28 gg=2a bb=36 aa=ff
    assert_eq!(Config::color_argb("#282a36ff"), 0xFF282A36);
    assert_eq!(Config::color_argb("#28323ccc"), 0xCC28323C);
    // Fully transparent.
    assert_eq!(Config::color_argb("#00000000"), 0x0000_0000);
}

#[test]
fn color_argb_rrggbb_is_opaque() {
    assert_eq!(Config::color_argb("#282a36"), 0xFF282A36);
    assert_eq!(Config::color_argb("#ffffff"), 0xFFFFFFFF);
}

#[test]
fn color_argb_leading_hash_optional() {
    assert_eq!(Config::color_argb("282a36"), Config::color_argb("#282a36"));
    assert_eq!(Config::color_argb("282a36ff"), Config::color_argb("#282a36ff"));
}

#[test]
fn color_argb_invalid_falls_back_to_opaque_black() {
    assert_eq!(Config::color_argb(""), 0xFF000000);
    assert_eq!(Config::color_argb("#fff"), 0xFF000000); // wrong length
    assert_eq!(Config::color_argb("not-a-color"), 0xFF000000);
}

#[test]
fn color_argb_bad_hex_digits_default_per_channel() {
    // Non-hex channels parse to 0; alpha defaults to 0xff for the 8-digit form.
    assert_eq!(Config::color_argb("#zzzzzz"), 0xFF000000);
}

#[test]
fn color_argb_keeps_the_good_channels() {
    assert_eq!(Config::color_argb("#zz2a36"), 0xFF002A36);
    assert_eq!(Config::color_argb("#282a36zz"), 0xFF282A36);
    // A plus sign is no hex digit.
    assert_eq!(Config::color_argb("#+f+f+f"), 0xFF000000);
    assert_eq!(Config::color_argb("#+f00AB"), 0xFF0000AB);
    assert_eq!(Config::color_argb("#282a36+f"), 0xFF282A36);
}

#[test]
fn colors_have_at_most_one_hash() {
    assert_eq!(Config::color_argb("#ABCDEF"), 0xFFABCDEF);
    assert_eq!(Config::color_argb("##ABCDEF"), 0xFF000000);
    assert!(!Config::is_valid_color("##282a36"));
    assert!(!Config::is_valid_color("###282a36ff"));
    assert!(!Config::is_valid_color("#+f+f+f"));
}

#[test]
fn color_argb_survives_any_text() {
    assert_eq!(Config::color_argb("ääää"), 0xFF000000);
    assert_eq!(Config::color_argb("aäbcd"), 0xFF000000);
}

#[test]
fn defaults_load_without_a_config_file() {
    // Default config should be constructible and have sane keybindings.
    let c = Config::default();
    assert_eq!(c.keys.modifier, "Alt");
    assert_eq!(c.keys.next, "Tab");
    assert_eq!(c.tile.width, 200);
}

#[test]
fn defaults_are_the_built_in_theme() {
    let c = Config::default();
    assert_eq!(c.window.position, "center");
    assert_eq!(c.window.last_row_position, "center");
    assert_eq!(c.window.background, "#00000000");
    assert_eq!(c.window.border, "#6272a4ff");
    assert_eq!(c.window.border_radius, 0);
    assert!(c.window.blur);
    assert_eq!(c.tile.height, 150);
    assert_eq!(c.tile.icon_size, 64);
    assert_eq!(c.tile.border_width, 4);
    assert_eq!(c.tile.content, "icon");
    assert!(c.tile.icon_overlay);
    assert_eq!(c.tile.icon_overlay_size, 32);
    assert_eq!(c.tile.background, "#282a36cc");
    assert_eq!(c.tile.frame, "#bd93f9ff");
    assert_eq!(c.tile.inactive, "#44475aff");
    assert_eq!(c.font.name, "sans");
    assert_eq!(c.font.size, 11);
    assert_eq!(c.font.shadow_offset, 1);
    assert_eq!(c.keys.prev, "Shift+Tab");
    assert_eq!(c.keys.cancel, "Escape");
    assert_eq!(c.window_bg_argb(), 0);
    assert_eq!(c.bg_argb(), 0xcc282a36);
}

#[test]
fn validate_accepts_defaults() {
    assert!(Config::default().validate().is_ok());
}

#[test]
fn validate_rejects_zero_dimensions() {
    let mut c = Config::default();
    c.tile.icon_size = 0;
    let err = c.validate().unwrap_err();
    assert!(err.contains("tile.icon_size"));
}

#[test]
fn validate_rejects_unknown_enum_value() {
    let mut c = Config::default();
    c.tile.content = "screenshot".into(); // not "icon"/"thumbnail"
    let err = c.validate().unwrap_err();
    assert!(err.contains("tile.content"));
}

#[test]
fn validate_position_center_or_xy() {
    let mut c = Config::default();
    c.window.position = "center".into();
    assert!(c.validate().is_ok());
    c.window.position = "100,200".into();
    assert!(c.validate().is_ok());
    c.window.position = "top-left".into();
    assert!(c.validate().unwrap_err().contains("window.position"));
}

#[test]
fn validate_position_must_fit_sixteen_bits() {
    let mut c = Config::default();
    c.window.position = " -5 , +7 ".into();
    assert!(c.validate().is_ok());
    c.window.position = "40000,0".into();
    assert!(c.validate().is_err());
    c.window.position = "1,2,3".into();
    assert!(c.validate().is_err());
}

#[test]
fn validate_colors_and_auto_shadow() {
    let mut c = Config::default();
    c.font.shadow_color = "auto".into();
    assert!(c.validate().is_ok());
    c.tile.frame = "purple".into();
    assert!(c.validate().unwrap_err().contains("tile.frame"));
}

#[test]
fn validate_reports_multiple_problems_at_once() {
    let mut c = Config::default();
    c.tile.width = 0;
    c.window.blur_method = "blurry".into();
    let err = c.validate().unwrap_err();
    assert!(err.contains("tile.width"));
    assert!(err.contains("window.blur_method"));
}

#[test]
fn validate_names_every_kind_of_problem() {
    let mut c = Config::default();
    c.tile.height = 0;
    c.font.size = 0;
    c.window.background_gradient = "diagonal".into();
    c.window.last_row_position = "middle".into();
    c.window.background = "red".into();
    c.window.border = "red".into();
    c.tile.background = "red".into();
    c.tile.foreground = "red".into();
    c.tile.inactive = "red".into();
    c.font.shadow_color = "red".into();
    let err = c.validate().unwrap_err();
    for field in [
        "tile.height",
        "font.size",
        "window.background_gradient",
        "window.last_row_position",
        "window.background",
        "window.border",
        "tile.background",
        "tile.foreground",
        "tile.inactive",
        "font.shadow_color",
    ] {
        assert!(err.contains(field), "{field} is missing from {err}");
    }
    assert_eq!(err.lines().count(), 10);
}

#[test]
fn an_invalid_configuration_gives_way_to_the_defaults() {
    let mut c = Config::default();
    c.tile.width = 0;
    let (used, message) = c.checked();
    assert_eq!(used.tile.width, 200);
    assert!(message.unwrap().contains("tile.width"));

    let mut c = Config::default();
    c.tile.width = 321;
    let (used, message) = c.checked();
    assert_eq!(used.tile.width, 321);
    assert!(message.is_none());
}

#[test]
fn config_path_follows_xdg() {
    let some = |s: &str| Some(s.to_string());
    assert_eq!(Config::config_path(some("/x"), some("/home/u")), "/x/hop/config.toml");
    assert_eq!(Config::config_path(None, some("/home/u")), "/home/u/.config/hop/config.toml");
    assert_eq!(Config::config_path(None, None), ".config/hop/config.toml");
}

#[test]
fn valid_color_helper() {
    assert!(Config::is_valid_color("#282a36"));
    assert!(Config::is_valid_color("#282a36ff"));
    assert!(Config::is_valid_color("282a36")); // # optional
    assert!(!Config::is_valid_color("#fff"));   // wrong length
    assert!(!Config::is_valid_color("#zzzzzz")); // non-hex
}
