use hop::label::{
    bitmap_label_at, core_fonts, font_pattern, label_lines, label_span, resolve_shadow_color,
    shadow_at, text_items, truncate_title, wrap_text,
};
use hop::layout::TileGeom;
use hop::luminance::{linearize, wcag_shadow_argb};

/// Every character is ten pixels wide.
fn tens(s: &str) -> u32 {
    10 * s.chars().count() as u32
}

#[test]
fn short_titles_are_only_trimmed() {
    assert_eq!(truncate_title("  Terminal \t", 100), "Terminal");
    assert_eq!(truncate_title("", 100), "");
    assert_eq!(truncate_title("abc", 3), "abc");
}

#[test]
fn long_titles_end_in_dots() {
    assert_eq!(truncate_title("abcdefghij", 8), "abcde...");
    assert_eq!(truncate_title("äöüäöüäöü", 5), "äö...");
    assert_eq!(truncate_title("abcd", 2), "...");
    assert_eq!(truncate_title(&"x".repeat(300), 100).chars().count(), 100);
}

#[test]
fn words_wrap_at_the_width() {
    assert_eq!(wrap_text(&tens, "the quick brown fox", 100), ["the quick", "brown fox"]);
    assert_eq!(wrap_text(&tens, "a  b\u{a0}c\td", 1000), ["a b c d"]);
    assert!(wrap_text(&tens, " \t ", 100).is_empty());
}

#[test]
fn wide_words_break_between_characters() {
    assert_eq!(wrap_text(&tens, "abcdefgh", 30), ["abc", "def", "gh"]);
    assert_eq!(wrap_text(&tens, "hi abcdefgh yo", 50), ["hi", "abcde", "fgh", "yo"]);
    // Nothing fits, yet every line takes one character.
    assert_eq!(wrap_text(&tens, "abc", 5), ["a", "b", "c"]);
}

#[test]
fn wrapping_keeps_the_letters() {
    let text = "Lorem ipsum dolor sit amet, consectetur adipiscing elit";
    for width in (0..400).step_by(10) {
        let lines = wrap_text(&tens, text, width);
        let kept: String = lines.concat().split_whitespace().collect();
        let want: String = text.split_whitespace().collect();
        assert_eq!(kept, want);
        for line in &lines {
            assert!(tens(line) <= width || line.chars().count() == 1);
        }
    }
}

#[test]
fn label_lines_are_centred_and_limited() {
    let tile = TileGeom { x: 10, y: 20, w: 120, h: 150 };
    let lines = label_lines(&tens, "one two three four five six", &tile, 5, 16, 12);
    // 90 pixels of width, 48 pixels of height: three lines of 16.
    assert_eq!(label_span(120, 5), (15, 90));
    assert_eq!(lines.len(), 3);
    assert_eq!(lines[0].text, "one two");
    assert_eq!((lines[0].x, lines[0].y), (10 + 15 + 10, 20 + 97 + 12));
    assert_eq!(lines[1].text, "three");
    assert_eq!((lines[1].x, lines[1].y), (10 + 15 + 20, 20 + 97 + 12 + 16));
    assert_eq!(lines[2].text, "four five");
    assert_eq!((lines[2].x, lines[2].y), (10 + 15, 20 + 97 + 12 + 32));
    // A font that is taller than the label area still gets one line.
    assert_eq!(label_lines(&tens, "one two three", &tile, 5, 100, 80).len(), 1);
    assert_eq!(label_lines(&tens, "a b", &tile, 5, -3, -1)[0].y, 20 + 97);
}

#[test]
fn shadows_are_offset() {
    assert_eq!(shadow_at(5, -7, 2), (7, -5));
    assert_eq!(shadow_at(i16::MAX, 0, 1), (i16::MIN, 1));
}

#[test]
fn bitmap_labels_sit_at_the_bottom() {
    let tile = TileGeom { x: 10, y: 20, w: 120, h: 150 };
    assert_eq!(bitmap_label_at(&tile, 5, 50), (10 + 15 + 20, 20 + 150 - 4 - 5));
    assert_eq!(bitmap_label_at(&tile, 5, 500).0, 25);
    assert_eq!(text_items("hä"), [3, 0, b'h', 0xc3, 0xa4]);
    assert_eq!(text_items(&"x".repeat(300))[0], 44);
}

#[test]
fn fonts_follow_the_size() {
    assert_eq!(core_fonts(9), ("6x13", "fixed"));
    assert_eq!(core_fonts(10).0, "7x14");
    assert_eq!(core_fonts(11).0, "7x14");
    assert_eq!(core_fonts(12).0, "9x15");
    assert_eq!(core_fonts(14).0, "10x20");
    assert_eq!(core_fonts(99).0, "10x20");
    assert_eq!(font_pattern("Roboto", 11), "Roboto:size=11");
    assert_eq!(font_pattern("sans", 0), "sans:size=0");
}

#[test]
fn shadow_colors_resolve() {
    assert_eq!(resolve_shadow_color("#10203040", 0), 0x40102030);
    assert_eq!(resolve_shadow_color("auto", 0xffffffff), 0xcc000000);
    assert_eq!(resolve_shadow_color("auto", 0xff000000), 0xccffffff);
}

#[test]
fn linear_components_match_the_formula() {
    for c in 0..=255u8 {
        let x = c as f64 / 255.0;
        let y = if x <= 0.04045 { x / 12.92 } else { ((x + 0.055) / 1.055).powf(2.4) };
        let got = linearize(c) as f64 / 1e9;
        assert!((y - got) < 1.0001e-9 && (got - y) < 1e-12, "{c}: {got} for {y}");
    }
    assert_eq!(linearize(255), 1_000_000_000);
    assert_eq!(linearize(0), 0);
}

#[test]
fn every_color_gets_the_shadow_that_floating_point_gives() {
    let lin: Vec<f64> = (0..256)
        .map(|c| {
            let x = c as f64 / 255.0;
            if x <= 0.04045 {
                x / 12.92
            } else {
                ((x + 0.055) / 1.055).powf(2.4)
            }
        })
        .collect();
    for r in 0..256usize {
        for g in 0..256usize {
            let rg = 0.2126 * lin[r] + 0.7152 * lin[g];
            for b in 0..256usize {
                let light = rg + 0.0722 * lin[b] > 0.179;
                let want = if light { 0xcc000000 } else { 0xccffffff };
                let fg = ((r << 16) | (g << 8) | b) as u32;
                assert_eq!(wcag_shadow_argb(fg), want, "{fg:06x}");
            }
        }
    }
}
