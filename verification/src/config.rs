//! The configuration: its fields and defaults, its validation, and colour strings.
use vstd::prelude::*;
use vstd::string::*;
use vstd::utf8::*;

use crate::argb;
use crate::text;

verus! {

/// Everything that the user can configure.
#[derive(Debug)]
pub struct Config {
    pub window: WindowConfig,
    pub tile: TileConfig,
    pub font: FontConfig,
    pub keys: KeysConfig,
}

/// Settings that apply to the popup window as a whole.
#[derive(Debug)]
pub struct WindowConfig {
    /// Where to place the popup: "center" or "x,y".
    pub position: String,
    /// Width of the border drawn around the outside of the popup (px). 0 = none.
    pub outer_border_width: u32,
    /// Color of the outer border. Accepts "#rrggbb" (opaque) or "#rrggbbaa".
    pub border: String,
    /// Background of the popup (the area tiles sit on: frame borders, gaps).
    pub background: String,
    /// Gradient of the window background: "none", "radial", "vertical" or "horizontal".
    pub background_gradient: String,
    /// Apply compositor blur behind the entire popup window.
    pub blur: bool,
    /// Compositor blur method: "dual_kawase", "gaussian", "box" or "kernel".
    pub blur_method: String,
    /// Compositor blur strength.
    pub blur_strength: u32,
    /// Whether the compositor's own configuration may be edited.
    pub configure_picom: bool,
    /// Extra pixels of space between adjacent tiles (beyond the tile border).
    pub gap: u32,
    /// Padding around the outside of the tile area (px).
    pub padding: u32,
    /// Alignment of tiles in the last row when it is not full: "left", "center" or "right".
    pub last_row_position: String,
    /// Show the compositor's drop shadow on the popup.
    pub shadow: bool,
    /// Show the compositor's rounded corners on the popup.
    pub corners: bool,
    /// Corner radius for the popup window background (px). 0 = square corners.
    pub border_radius: u32,
}

/// Settings that apply to each individual tile.
#[derive(Debug)]
pub struct TileConfig {
    pub width: u32,
    pub height: u32,
    pub icon_size: u32,
    /// Thickness of the border drawn around each tile (px).
    pub border_width: u32,
    /// Padding inside each tile between the tile edge and its content (icon + label).
    pub padding: u32,
    /// Tile background color.
    pub background: String,
    /// Text and icon placeholder color.
    pub foreground: String,
    /// Border color for the selected tile.
    pub frame: String,
    /// Border color for unselected tiles.
    pub inactive: String,
    /// Apply compositor blur only behind each tile region (not the gaps between tiles).
    pub blur: bool,
    /// Corner radius for tile borders (px). 0 = square corners.
    pub border_radius: u32,
    /// What to show inside each tile: "icon" or "thumbnail".
    pub content: String,
    /// Draw a small app icon over the corner of each thumbnail.
    pub icon_overlay: bool,
    /// Size of the corner icon overlay in pixels.
    pub icon_overlay_size: u32,
}

#[derive(Debug)]
pub struct FontConfig {
    pub name: String,
    pub size: u32,
    /// Draw a drop shadow behind tile labels.
    pub shadow: bool,
    /// Shadow color, or "auto". Only used when shadow = true.
    pub shadow_color: String,
    /// Shadow offset in pixels. Only used when shadow = true.
    pub shadow_offset: u32,
}

#[derive(Debug)]
pub struct KeysConfig {
    pub modifier: String,
    pub next: String,
    pub prev: String,
    pub cancel: String,
}

pub fn default_true() -> (r: bool)
    ensures
        r == true,
{
    true
}

pub fn default_position() -> (r: String)
    ensures
        r@ == "center"@,
{
    "center".to_owned()
}

pub fn default_last_row_position() -> (r: String)
    ensures
        r@ == "center"@,
{
    "center".to_owned()
}

pub fn default_window_bg() -> (r: String)
    ensures
        r@ == "#00000000"@,
{
    "#00000000".to_owned()
}

pub fn default_border() -> (r: String)
    ensures
        r@ == "#6272a4ff"@,
{
    "#6272a4ff".to_owned()
}

pub fn default_tile_width() -> (r: u32)
    ensures
        r == 200,
{
    200
}

pub fn default_tile_height() -> (r: u32)
    ensures
        r == 150,
{
    150
}

pub fn default_icon_size() -> (r: u32)
    ensures
        r == 64,
{
    64
}

pub fn default_border_width() -> (r: u32)
    ensures
        r == 4,
{
    4
}

pub fn default_bg() -> (r: String)
    ensures
        r@ == "#282a36cc"@,
{
    "#282a36cc".to_owned()
}

pub fn default_fg() -> (r: String)
    ensures
        r@ == "#f8f8f2ff"@,
{
    "#f8f8f2ff".to_owned()
}

pub fn default_frame() -> (r: String)
    ensures
        r@ == "#bd93f9ff"@,
{
    "#bd93f9ff".to_owned()
}

pub fn default_inactive() -> (r: String)
    ensures
        r@ == "#44475aff"@,
{
    "#44475aff".to_owned()
}

pub fn default_background_gradient() -> (r: String)
    ensures
        r@ == "none"@,
{
    "none".to_owned()
}

pub fn default_blur_method() -> (r: String)
    ensures
        r@ == "dual_kawase"@,
{
    "dual_kawase".to_owned()
}

pub fn default_blur_strength() -> (r: u32)
    ensures
        r == 5,
{
    5
}

pub fn default_font_name() -> (r: String)
    ensures
        r@ == "sans"@,
{
    "sans".to_owned()
}

pub fn default_font_size() -> (r: u32)
    ensures
        r == 11,
{
    11
}

pub fn default_text_shadow_color() -> (r: String)
    ensures
        r@ == "auto"@,
{
    "auto".to_owned()
}

pub fn default_text_shadow_offset() -> (r: u32)
    ensures
        r == 1,
{
    1
}

pub fn default_tile_content() -> (r: String)
    ensures
        r@ == "icon"@,
{
    "icon".to_owned()
}

pub fn default_icon_overlay() -> (r: bool)
    ensures
        r == true,
{
    true
}

pub fn default_icon_overlay_size() -> (r: u32)
    ensures
        r == 32,
{
    32
}

pub fn default_modifier() -> (r: String)
    ensures
        r@ == "Alt"@,
{
    "Alt".to_owned()
}

pub fn default_next_key() -> (r: String)
    ensures
        r@ == "Tab"@,
{
    "Tab".to_owned()
}

pub fn default_prev_key() -> (r: String)
    ensures
        r@ == "Shift+Tab"@,
{
    "Shift+Tab".to_owned()
}

pub fn default_cancel_key() -> (r: String)
    ensures
        r@ == "Escape"@,
{
    "Escape".to_owned()
}

impl WindowConfig {
    /// Every field has its default.
    pub open spec fn is_default(self) -> bool {
        &&& self.position@ == "center"@
        &&& self.outer_border_width == 0
        &&& self.border@ == "#6272a4ff"@
        &&& self.background@ == "#00000000"@
        &&& self.background_gradient@ == "none"@
        &&& self.blur
        &&& self.blur_method@ == "dual_kawase"@
        &&& self.blur_strength == 5
        &&& !self.configure_picom
        &&& self.gap == 0
        &&& self.padding == 0
        &&& self.last_row_position@ == "center"@
        &&& !self.shadow
        &&& !self.corners
        &&& self.border_radius == 0
    }
}

impl TileConfig {
    /// Every field has its default.
    pub open spec fn is_default(self) -> bool {
        &&& self.width == 200
        &&& self.height == 150
        &&& self.icon_size == 64
        &&& self.border_width == 4
        &&& self.padding == 0
        &&& self.background@ == "#282a36cc"@
        &&& self.foreground@ == "#f8f8f2ff"@
        &&& self.frame@ == "#bd93f9ff"@
        &&& self.inactive@ == "#44475aff"@
        &&& !self.blur
        &&& self.border_radius == 0
        &&& self.content@ == "icon"@
        &&& self.icon_overlay
        &&& self.icon_overlay_size == 32
    }
}

impl FontConfig {
    /// Every field has its default.
    pub open spec fn is_default(self) -> bool {
        &&& self.name@ == "sans"@
        &&& self.size == 11
        &&& !self.shadow
        &&& self.shadow_color@ == "auto"@
        &&& self.shadow_offset == 1
    }
}

impl KeysConfig {
    /// Every field has its default.
    pub open spec fn is_default(self) -> bool {
        &&& self.modifier@ == "Alt"@
        &&& self.next@ == "Tab"@
        &&& self.prev@ == "Shift+Tab"@
        &&& self.cancel@ == "Escape"@
    }
}

impl Default for WindowConfig {
    fn default() -> (r: Self)
        ensures
            r.is_default(),
    {
        WindowConfig {
            position: default_position(),
            outer_border_width: 0,
            border: default_border(),
            background: default_window_bg(),
            background_gradient: default_background_gradient(),
            blur: default_true(),
            blur_method: default_blur_method(),
            blur_strength: default_blur_strength(),
            configure_picom: false,
            gap: 0,
            padding: 0,
            last_row_position: default_last_row_position(),
            shadow: false,
            corners: false,
            border_radius: 0,
        }
    }
}

impl Default for TileConfig {
    fn default() -> (r: Self)
        ensures
            r.is_default(),
    {
        TileConfig {
            width: default_tile_width(),
            height: default_tile_height(),
            icon_size: default_icon_size(),
            border_width: default_border_width(),
            padding: 0,
            background: default_bg(),
            foreground: default_fg(),
            frame: default_frame(),
            inactive: default_inactive(),
            blur: false,
            border_radius: 0,
            content: default_tile_content(),
            icon_overlay: default_icon_overlay(),
            icon_overlay_size: default_icon_overlay_size(),
        }
    }
}

impl Default for FontConfig {
    fn default() -> (r: Self)
        ensures
            r.is_default(),
    {
        FontConfig {
            name: default_font_name(),
            size: default_font_size(),
            shadow: false,
            shadow_color: default_text_shadow_color(),
            shadow_offset: default_text_shadow_offset(),
        }
    }
}

impl Default for KeysConfig {
    fn default() -> (r: Self)
        ensures
            r.is_default(),
    {
        KeysConfig {
            modifier: default_modifier(),
            next: default_next_key(),
            prev: default_prev_key(),
            cancel: default_cancel_key(),
        }
    }
}

impl Default for Config {
    fn default() -> (r: Self)
        ensures
            r.is_default(),
    {
        Config {
            window: WindowConfig::default(),
            tile: TileConfig::default(),
            font: FontConfig::default(),
            keys: KeysConfig::default(),
        }
    }
}

impl Config {
    /// Every section has its defaults.
    pub open spec fn is_default(self) -> bool {
        &&& self.window.is_default()
        &&& self.tile.is_default()
        &&& self.font.is_default()
        &&& self.keys.is_default()
    }
}

/// `s` without a leading `#`.
pub open spec fn strip_hash(s: Seq<char>) -> Seq<char> {
    if s.len() > 0 && s[0] == '#' {
        s.drop_first()
    } else {
        s
    }
}

pub open spec fn is_hex_char(c: char) -> bool {
    ('0' <= c <= '9') || ('a' <= c <= 'f') || ('A' <= c <= 'F')
}

/// "#rrggbb" or "#rrggbbaa": six or eight hex digits, the leading `#` optional.
pub open spec fn is_color(s: Seq<char>) -> bool {
    let h = strip_hash(s);
    (h.len() == 6 || h.len() == 8) && forall|i: int| 0 <= i < h.len() ==> is_hex_char(#[trigger] h[i])
}

/// The value of one hex digit.
pub open spec fn hex_digit(b: u8) -> Option<int> {
    if 0x30 <= b <= 0x39 {
        Some(b - 0x30)
    } else if 0x61 <= b <= 0x66 {
        Some(b - 0x61 + 10)
    } else if 0x41 <= b <= 0x46 {
        Some(b - 0x41 + 10)
    } else {
        None
    }
}

/// The number that two hex digits spell.
pub open spec fn hex_byte(b0: u8, b1: u8) -> Option<int> {
    match (hex_digit(b0), hex_digit(b1)) {
        (Some(h), Some(l)) => Some(h * 16 + l),
        _ => None,
    }
}

/// One colour channel, with the value that stands in for a malformed one.
pub open spec fn channel(b0: u8, b1: u8, fallback: int) -> int {
    match hex_byte(b0, b1) {
        Some(n) => n,
        None => fallback,
    }
}

/// The encoded text falls into characters at every second byte.
pub open spec fn pairs_align(b: Seq<u8>) -> bool {
    &&& !is_continuation_byte(b[2])
    &&& !is_continuation_byte(b[4])
    &&& b.len() == 8 ==> !is_continuation_byte(b[6])
}

/// The packed colour for the encoded digits of a colour string.
pub open spec fn color_of_bytes(b: Seq<u8>) -> int {
    if b.len() == 8 && pairs_align(b) {
        argb::argb(
            channel(b[6], b[7], 0xff),
            channel(b[0], b[1], 0),
            channel(b[2], b[3], 0),
            channel(b[4], b[5], 0),
        )
    } else if b.len() == 6 && pairs_align(b) {
        argb::argb(
            0xff,
            channel(b[0], b[1], 0),
            channel(b[2], b[3], 0),
            channel(b[4], b[5], 0),
        )
    } else {
        0xff00_0000
    }
}

/// The packed colour that a colour string stands for.
pub open spec fn color_of(s: Seq<char>) -> int {
    color_of_bytes(encode_utf8(strip_hash(s)))
}

/// `s` without a leading `#`.
fn without_hash<'a>(s: &'a str) -> (r: &'a str)
    ensures
        r@ == strip_hash(s@),
{
    let n: usize = s.unicode_len();
    if n > 0 && s.get_char(0) == '#' {
        assert(s@.drop_first() =~= s@.subrange(1, n as int));
        s.substring_char(1, n)
    } else {
        s
    }
}

fn hex_digit_value(b: u8) -> (r: Option<u8>)
    ensures
        match r {
            Some(n) => n < 16 && hex_digit(b) == Some(n as int),
            None => hex_digit(b) is None,
        },
{
    if 0x30 <= b && b <= 0x39 {
        Some(b - 0x30)
    } else if 0x61 <= b && b <= 0x66 {
        Some(b - 0x61 + 10)
    } else if 0x41 <= b && b <= 0x46 {
        Some(b - 0x41 + 10)
    } else {
        None
    }
}

fn channel_value(b0: u8, b1: u8, fallback: u8) -> (r: u8)
    ensures
        r == channel(b0, b1, fallback as int),
{
    match (hex_digit_value(b0), hex_digit_value(b1)) {
        (Some(h), Some(l)) => h * 16 + l,
        _ => fallback,
    }
}

fn is_continuation(b: u8) -> (r: bool)
    ensures
        r == is_continuation_byte(b),
{
    0x80 <= b && b <= 0xbf
}

impl Config {
    /// Parse any color string into a packed 0xAARRGGBB value.
    /// Accepts "#rrggbb" (fully opaque) or "#rrggbbaa" (with explicit alpha); a malformed
    /// channel counts as 0, a malformed alpha as 0xff.
    /// Any other format falls back to opaque black.
    pub fn color_argb(hex: &str) -> (r: u32)
        ensures
            r == color_of(hex@),
    {
        let h: &str = without_hash(hex);
        let b: &[u8] = h.as_bytes();
        let n: usize = b.len();
        if n == 8 && !is_continuation(b[2]) && !is_continuation(b[4]) && !is_continuation(b[6]) {
            argb::pack_argb(
                channel_value(b[6], b[7], 0xff),
                channel_value(b[0], b[1], 0),
                channel_value(b[2], b[3], 0),
                channel_value(b[4], b[5], 0),
            )
        } else if n == 6 && !is_continuation(b[2]) && !is_continuation(b[4]) {
            argb::pack_argb(
                0xff,
                channel_value(b[0], b[1], 0),
                channel_value(b[2], b[3], 0),
                channel_value(b[4], b[5], 0),
            )
        } else {
            0xff00_0000
        }
    }

    /// True if `s` is a syntactically valid color: "#rrggbb" or "#rrggbbaa"
    /// (the leading `#` is optional), all hex digits.
    pub fn is_valid_color(s: &str) -> (r: bool)
        ensures
            r == is_color(s@),
    {
        let h: Vec<char> = text::chars_of(without_hash(s));
        let n: usize = h.len();
        if n != 6 && n != 8 {
            return false;
        }
        for i in 0..n
            invariant
                n == h.len(),
                h@ == strip_hash(s@),
                forall|k: int| 0 <= k < i ==> is_hex_char(#[trigger] h@[k]),
        {
            let c: char = h[i];
            if !(('0' <= c && c <= '9') || ('a' <= c && c <= 'f') || ('A' <= c && c <= 'F')) {
                assert(!is_hex_char(h@[i as int]));
                return false;
            }
        }
        true
    }

    /// The popup window background as a packed 0xAARRGGBB value.
    pub fn window_bg_argb(&self) -> (r: u32)
        ensures
            r == color_of(self.window.background@),
    {
        Self::color_argb(self.window.background.as_str())
    }

    /// The tile background as a packed 0xAARRGGBB value.
    pub fn bg_argb(&self) -> (r: u32)
        ensures
            r == color_of(self.tile.background@),
    {
        Self::color_argb(self.tile.background.as_str())
    }
}

/// The leading `#` of a color is optional.
pub proof fn law_leading_hash_optional(s: Seq<char>)
    requires
        s.len() > 0 ==> s[0] != '#',
    ensures
        color_of(seq!['#'] + s) == color_of(s),
        is_color(seq!['#'] + s) == is_color(s),
{
    assert((seq!['#'] + s).drop_first() == s);
}

/// The hex digits of a valid color, in order.
pub open spec fn color_digits(s: Seq<char>) -> Seq<int> {
    strip_hash(s).map_values(|c: char| hex_digit(c as u8)->0)
}

/// A valid color stands for exactly the channels that its digits spell; without digits for the
/// alpha it is opaque.
pub proof fn law_valid_color_is_exact(s: Seq<char>)
    requires
        is_color(s),
    ensures
        ({
            let d = color_digits(s);
            let a = if d.len() == 8 { d[6] * 16 + d[7] } else { 0xff };
            color_of(s) == argb::argb(a, d[0] * 16 + d[1], d[2] * 16 + d[3], d[4] * 16 + d[5])
        }),
{
    let h = strip_hash(s);
    is_ascii_chars_encode_utf8(h);
    assert(forall|i: int| 0 <= i < h.len() ==> is_hex_char(#[trigger] h[i]));
    assert(encode_utf8(h) =~= Seq::new(h.len(), |i: int| h[i] as u8));
    let b = encode_utf8(h);
    let d = color_digits(s);
    assert forall|i: int| 0 <= i < h.len() implies hex_digit(#[trigger] b[i]) == Some(d[i])
        && !is_continuation_byte(b[i]) by {
        assert(is_hex_char(h[i]));
    }
}

/// A color of six digits is the color of eight digits with the alpha "ff".
#[verifier::rlimit(40)]
pub proof fn law_six_digits_are_opaque(s: Seq<char>)
    requires
        is_color(s),
        strip_hash(s).len() == 6,
    ensures
        is_color(s + seq!['f', 'f']),
        color_of(s) == color_of(s + seq!['f', 'f']),
{
    let t = s + seq!['f', 'f'];
    assert(strip_hash(t) =~= strip_hash(s) + seq!['f', 'f']);
    assert forall|i: int| 0 <= i < strip_hash(t).len() implies is_hex_char(#[trigger] strip_hash(t)[i]) by {
        if i < 6 {
            assert(is_hex_char(strip_hash(s)[i]));
        }
    }
    law_valid_color_is_exact(s);
    law_valid_color_is_exact(t);
    assert(color_digits(t).take(6) == color_digits(s));
    assert(forall|i: int| 0 <= i < 6 ==> color_digits(t)[i] == color_digits(t).take(6)[i]);
}

/// One message, or none.
pub open spec fn problem(present: bool, message: Seq<char>) -> Seq<Seq<char>> {
    if present {
        seq![message]
    } else {
        Seq::empty()
    }
}

/// What is wrong with a field that takes one of a few words.
pub open spec fn word_problem(
    field: Seq<char>,
    val: Seq<char>,
    allowed: Seq<Seq<char>>,
) -> Seq<Seq<char>> {
    problem(
        !allowed.contains(val),
        field + " = \""@ + val + "\" is invalid (expected one of: "@ + text::joined(
            allowed,
            ", "@,
        ) + ")"@,
    )
}

/// What is wrong with a field that takes a color.
pub open spec fn color_problem(field: Seq<char>, val: Seq<char>) -> Seq<Seq<char>> {
    problem(
        !is_color(val),
        field + " = \""@ + val + "\" is not a valid color (expected #rrggbb or #rrggbbaa)"@,
    )
}

/// "center", or "x,y" with two integers, white space around each allowed.
pub open spec fn is_position(s: Seq<char>) -> bool {
    let p = text::trimmed(s);
    p == "center"@ || match text::split_at_first(p, ',') {
        Some(xy) => text::spelled_i16(text::trimmed(xy.0)) is Some && text::spelled_i16(
            text::trimmed(xy.1),
        ) is Some,
        None => false,
    }
}

pub open spec fn gradient_words() -> Seq<Seq<char>> {
    seq!["none"@, "radial"@, "vertical"@, "horizontal"@]
}

pub open spec fn last_row_words() -> Seq<Seq<char>> {
    seq!["left"@, "center"@, "right"@]
}

pub open spec fn blur_method_words() -> Seq<Seq<char>> {
    seq!["dual_kawase"@, "gaussian"@, "box"@, "kernel"@]
}

pub open spec fn content_words() -> Seq<Seq<char>> {
    seq!["icon"@, "thumbnail"@]
}

impl Config {
    /// Zero dimensions.
    pub open spec fn dimension_problems(self) -> Seq<Seq<char>> {
        problem(self.tile.width == 0, "tile.width must be greater than 0"@) + problem(
            self.tile.height == 0,
            "tile.height must be greater than 0"@,
        ) + problem(self.tile.icon_size == 0, "tile.icon_size must be greater than 0"@) + problem(
            self.font.size == 0,
            "font.size must be greater than 0"@,
        )
    }

    /// Unknown words.
    pub open spec fn word_problems(self) -> Seq<Seq<char>> {
        word_problem(
            "window.background_gradient"@,
            self.window.background_gradient@,
            gradient_words(),
        ) + word_problem(
            "window.last_row_position"@,
            self.window.last_row_position@,
            last_row_words(),
        ) + word_problem("window.blur_method"@, self.window.blur_method@, blur_method_words())
            + word_problem("tile.content"@, self.tile.content@, content_words())
    }

    /// A position that is neither "center" nor a pair of integers.
    pub open spec fn position_problems(self) -> Seq<Seq<char>> {
        problem(
            !is_position(self.window.position@),
            "window.position = \""@ + text::trimmed(self.window.position@)
                + "\" is invalid (expected \"center\" or \"x,y\")"@,
        )
    }

    /// Malformed colors.
    pub open spec fn color_problems(self) -> Seq<Seq<char>> {
        color_problem("window.background"@, self.window.background@) + color_problem(
            "window.border"@,
            self.window.border@,
        ) + color_problem("tile.background"@, self.tile.background@) + color_problem(
            "tile.foreground"@,
            self.tile.foreground@,
        ) + color_problem("tile.frame"@, self.tile.frame@) + color_problem(
            "tile.inactive"@,
            self.tile.inactive@,
        )
    }

    /// A shadow color that is neither "auto" nor a color.
    pub open spec fn shadow_problems(self) -> Seq<Seq<char>> {
        problem(
            self.font.shadow_color@ != "auto"@ && !is_color(self.font.shadow_color@),
            "font.shadow_color = \""@ + self.font.shadow_color@
                + "\" is invalid (expected \"auto\", #rrggbb, or #rrggbbaa)"@,
        )
    }

    /// Everything that is wrong with the configuration, one message per problem, in order.
    pub open spec fn problems(self) -> Seq<Seq<char>> {
        self.dimension_problems() + self.word_problems() + self.position_problems()
            + self.color_problems() + self.shadow_problems()
    }
}

/// Adds a message where `present`.
fn note(errs: &mut Vec<String>, present: bool, message: &str)
    ensures
        text::texts(final(errs)@) == text::texts(old(errs)@) + problem(present, message@),
{
    if present {
        errs.push(message.to_owned());
        assert(text::texts(errs@) =~= text::texts(old(errs)@).push(message@));
    }
    assert(text::texts(errs@) =~= text::texts(old(errs)@) + problem(present, message@));
}

/// Adds a message where `val` is not one of `allowed`.
fn note_word(errs: &mut Vec<String>, field: &str, val: &str, allowed: Vec<String>)
    ensures
        text::texts(final(errs)@) == text::texts(old(errs)@) + word_problem(
            field@,
            val@,
            text::texts(allowed@),
        ),
{
    let n: usize = allowed.len();
    let mut known: bool = false;
    let ghost words = text::texts(allowed@);
    for i in 0..n
        invariant
            n == allowed.len(),
            words == text::texts(allowed@),
            known == words.take(i as int).contains(val@),
    {
        assert(words.take(i + 1) =~= words.take(i as int).push(words[i as int]));
        assert(words[i as int] == allowed@[i as int]@);
        if text::same_text(allowed[i].as_str(), val) {
            known = true;
            assert(words.take(i + 1)[i as int] == val@);
        } else if known {
            proof {
                let k = choose|k: int|
                    0 <= k < words.take(i as int).len() && words.take(i as int)[k] == val@;
                assert(words.take(i + 1)[k] == val@);
            }
        }
    }
    assert(words.take(n as int) == words);
    let mut message: String = text::concat(field, " = \"");
    message.append(val);
    message.append("\" is invalid (expected one of: ");
    message.append(text::join(&allowed, ", ").as_str());
    message.append(")");
    note(errs, !known, message.as_str());
}

/// Adds a message where `val` is not a color.
fn note_color(errs: &mut Vec<String>, field: &str, val: &str)
    ensures
        text::texts(final(errs)@) == text::texts(old(errs)@) + color_problem(field@, val@),
{
    let mut message: String = text::concat(field, " = \"");
    message.append(val);
    message.append("\" is not a valid color (expected #rrggbb or #rrggbbaa)");
    note(errs, !Config::is_valid_color(val), message.as_str());
}

/// Whether `s` is "center" or a parseable "x,y" pair.
fn is_valid_position(s: &str) -> (r: bool)
    ensures
        r == is_position(s@),
{
    let pos: &str = text::trim(s);
    if text::same_text(pos, "center") {
        return true;
    }
    match text::split_once(pos, ',') {
        Some((x, y)) => text::parse_i16(text::trim(x)).is_some() && text::parse_i16(
            text::trim(y),
        ).is_some(),
        None => false,
    }
}

/// The given strings as a list.
fn words2(a: &str, b: &str) -> (r: Vec<String>)
    ensures
        text::texts(r@) == seq![a@, b@],
{
    let r: Vec<String> = vec![a.to_owned(), b.to_owned()];
    assert(text::texts(r@) =~= seq![a@, b@]);
    r
}

fn words3(a: &str, b: &str, c: &str) -> (r: Vec<String>)
    ensures
        text::texts(r@) == seq![a@, b@, c@],
{
    let r: Vec<String> = vec![a.to_owned(), b.to_owned(), c.to_owned()];
    assert(text::texts(r@) =~= seq![a@, b@, c@]);
    r
}

fn words4(a: &str, b: &str, c: &str, d: &str) -> (r: Vec<String>)
    ensures
        text::texts(r@) == seq![a@, b@, c@, d@],
{
    let r: Vec<String> = vec![a.to_owned(), b.to_owned(), c.to_owned(), d.to_owned()];
    assert(text::texts(r@) =~= seq![a@, b@, c@, d@]);
    r
}

impl Config {
    fn note_dimensions(&self, errs: &mut Vec<String>)
        ensures
            text::texts(final(errs)@) == text::texts(old(errs)@) + self.dimension_problems(),
    {
        note(errs, self.tile.width == 0, "tile.width must be greater than 0");
        note(errs, self.tile.height == 0, "tile.height must be greater than 0");
        note(errs, self.tile.icon_size == 0, "tile.icon_size must be greater than 0");
        note(errs, self.font.size == 0, "font.size must be greater than 0");
        assert(text::texts(errs@) =~= text::texts(old(errs)@) + self.dimension_problems());
    }

    fn note_words(&self, errs: &mut Vec<String>)
        ensures
            text::texts(final(errs)@) == text::texts(old(errs)@) + self.word_problems(),
    {
        note_word(
            errs,
            "window.background_gradient",
            self.window.background_gradient.as_str(),
            words4("none", "radial", "vertical", "horizontal"),
        );
        note_word(
            errs,
            "window.last_row_position",
            self.window.last_row_position.as_str(),
            words3("left", "center", "right"),
        );
        note_word(
            errs,
            "window.blur_method",
            self.window.blur_method.as_str(),
            words4("dual_kawase", "gaussian", "box", "kernel"),
        );
        note_word(
            errs,
            "tile.content",
            self.tile.content.as_str(),
            words2("icon", "thumbnail"),
        );
        assert(text::texts(errs@) =~= text::texts(old(errs)@) + self.word_problems());
    }

    fn note_position(&self, errs: &mut Vec<String>)
        ensures
            text::texts(final(errs)@) == text::texts(old(errs)@) + self.position_problems(),
    {
        let pos: &str = text::trim(self.window.position.as_str());
        let mut message: String = text::concat("window.position = \"", pos);
        message.append("\" is invalid (expected \"center\" or \"x,y\")");
        note(errs, !is_valid_position(self.window.position.as_str()), message.as_str());
    }

    fn note_colors(&self, errs: &mut Vec<String>)
        ensures
            text::texts(final(errs)@) == text::texts(old(errs)@) + self.color_problems(),
    {
        note_color(errs, "window.background", self.window.background.as_str());
        note_color(errs, "window.border", self.window.border.as_str());
        note_color(errs, "tile.background", self.tile.background.as_str());
        note_color(errs, "tile.foreground", self.tile.foreground.as_str());
        note_color(errs, "tile.frame", self.tile.frame.as_str());
        note_color(errs, "tile.inactive", self.tile.inactive.as_str());
        assert(text::texts(errs@) =~= text::texts(old(errs)@) + self.color_problems());
    }

    fn note_shadow(&self, errs: &mut Vec<String>)
        ensures
            text::texts(final(errs)@) == text::texts(old(errs)@) + self.shadow_problems(),
    {
        let shadow: &str = self.font.shadow_color.as_str();
        let mut message: String = text::concat("font.shadow_color = \"", shadow);
        message.append("\" is invalid (expected \"auto\", #rrggbb, or #rrggbbaa)");
        note(
            errs,
            !text::same_text(shadow, "auto") && !Self::is_valid_color(shadow),
            message.as_str(),
        );
    }

    /// Validate the configuration. Returns `Err` with a message listing every problem found
    /// (one per line). Catches zero dimensions, which act as divisors, and likely typos in
    /// the fields that take one of a few words, the position and the colors.
    pub fn validate(&self) -> (r: Result<(), String>)
        ensures
            match r {
                Ok(_) => self.problems().len() == 0,
                Err(m) => self.problems().len() > 0 && m@ == text::joined(
                    self.problems(),
                    "\n  "@,
                ),
            },
    {
        let mut errs: Vec<String> = Vec::new();
        assert(text::texts(errs@) =~= Seq::<Seq<char>>::empty());
        self.note_dimensions(&mut errs);
        self.note_words(&mut errs);
        self.note_position(&mut errs);
        self.note_colors(&mut errs);
        self.note_shadow(&mut errs);
        assert(text::texts(errs@) =~= self.problems());
        if errs.len() == 0 {
            Ok(())
        } else {
            Err(text::join(&errs, "\n  "))
        }
    }
}

impl Config {
    /// The configuration to run with: this one where it is valid, the defaults otherwise,
    /// together with the message that lists the problems.
    pub fn checked(self) -> (r: (Config, Option<String>))
        ensures
            self.problems().len() == 0 ==> r.0 == self && r.1 is None,
            self.problems().len() > 0 ==> r.0.is_default() && r.1 is Some && r.1->0@
                == text::joined(self.problems(), "\n  "@),
            r.0.problems().len() == 0,
    {
        match self.validate() {
            Ok(_) => (self, None),
            Err(message) => {
                let d: Config = Config::default();
                proof {
                    law_defaults_are_valid(d);
                }
                (d, Some(message))
            },
        }
    }
}

/// A literal that is a `#` and eight hex digits is a color.
proof fn lemma_hash_and_eight_digits(s: Seq<char>)
    requires
        s.len() == 9,
        s[0] == '#',
        forall|i: int| 1 <= i < 9 ==> is_hex_char(#[trigger] s[i]),
    ensures
        is_color(s),
{
    let t = s.drop_first();
    assert(t[0] == s[1]);
    assert(strip_hash(t) == t);
    assert forall|i: int| 0 <= i < t.len() implies is_hex_char(#[trigger] t[i]) by {
        assert(t[i] == s[i + 1]);
    }
}

/// The defaults are valid.
pub proof fn law_defaults_are_valid(c: Config)
    requires
        c.is_default(),
    ensures
        c.problems().len() == 0,
{
    assert(c.dimension_problems() =~= Seq::<Seq<char>>::empty());
    assert(gradient_words()[0] == "none"@);
    assert(last_row_words()[1] == "center"@);
    assert(blur_method_words()[0] == "dual_kawase"@);
    assert(content_words()[0] == "icon"@);
    assert(c.word_problems() =~= Seq::<Seq<char>>::empty());
    reveal_strlit("center");
    assert(text::trim_start("center"@) == "center"@);
    assert(text::trim_end("center"@) == "center"@);
    assert(c.position_problems() =~= Seq::<Seq<char>>::empty());
    reveal_strlit("#00000000");
    lemma_hash_and_eight_digits("#00000000"@);
    reveal_strlit("#6272a4ff");
    lemma_hash_and_eight_digits("#6272a4ff"@);
    reveal_strlit("#282a36cc");
    lemma_hash_and_eight_digits("#282a36cc"@);
    reveal_strlit("#f8f8f2ff");
    lemma_hash_and_eight_digits("#f8f8f2ff"@);
    reveal_strlit("#bd93f9ff");
    lemma_hash_and_eight_digits("#bd93f9ff"@);
    reveal_strlit("#44475aff");
    lemma_hash_and_eight_digits("#44475aff"@);
    assert(c.color_problems() =~= Seq::<Seq<char>>::empty());
    assert(c.shadow_problems() =~= Seq::<Seq<char>>::empty());
}

/// A valid configuration has no zero divisor, only known words, and only well-formed colors.
pub proof fn law_valid_means_usable(c: Config)
    requires
        c.problems().len() == 0,
    ensures
        c.tile.width > 0,
        c.tile.height > 0,
        c.tile.icon_size > 0,
        c.font.size > 0,
        gradient_words().contains(c.window.background_gradient@),
        last_row_words().contains(c.window.last_row_position@),
        blur_method_words().contains(c.window.blur_method@),
        content_words().contains(c.tile.content@),
        is_position(c.window.position@),
        is_color(c.window.background@),
        is_color(c.window.border@),
        is_color(c.tile.background@),
        is_color(c.tile.foreground@),
        is_color(c.tile.frame@),
        is_color(c.tile.inactive@),
        c.font.shadow_color@ == "auto"@ || is_color(c.font.shadow_color@),
{
    lemma_no_problems(c);
    lemma_no_dimension_problems(c);
    lemma_no_word_problems(c);
    lemma_no_color_problems(c);
}

/// There are no problems just when there is none of any kind.
proof fn lemma_no_problems(c: Config)
    ensures
        c.problems().len() == 0 <==> {
            &&& c.dimension_problems().len() == 0
            &&& c.word_problems().len() == 0
            &&& is_position(c.window.position@)
            &&& c.color_problems().len() == 0
            &&& c.font.shadow_color@ == "auto"@ || is_color(c.font.shadow_color@)
        },
{
    lemma_sum_is_empty(
        c.dimension_problems(),
        c.word_problems(),
        c.position_problems(),
        c.color_problems(),
        c.shadow_problems(),
    );
}

proof fn lemma_sum_is_empty(
    a: Seq<Seq<char>>,
    b: Seq<Seq<char>>,
    d: Seq<Seq<char>>,
    e: Seq<Seq<char>>,
    f: Seq<Seq<char>>,
)
    ensures
        (a + b + d + e + f).len() == 0 <==> a.len() == 0 && b.len() == 0 && d.len() == 0 && e.len()
            == 0 && f.len() == 0,
{
}

proof fn lemma_no_dimension_problems(c: Config)
    ensures
        c.dimension_problems().len() == 0 <==> c.tile.width > 0 && c.tile.height > 0
            && c.tile.icon_size > 0 && c.font.size > 0,
{
}

proof fn lemma_no_word_problems(c: Config)
    ensures
        c.word_problems().len() == 0 <==> {
            &&& gradient_words().contains(c.window.background_gradient@)
            &&& last_row_words().contains(c.window.last_row_position@)
            &&& blur_method_words().contains(c.window.blur_method@)
            &&& content_words().contains(c.tile.content@)
        },
{
    lemma_word_is_known(
        "window.background_gradient"@,
        c.window.background_gradient@,
        gradient_words(),
    );
    lemma_word_is_known("window.last_row_position"@, c.window.last_row_position@, last_row_words());
    lemma_word_is_known("window.blur_method"@, c.window.blur_method@, blur_method_words());
    lemma_word_is_known("tile.content"@, c.tile.content@, content_words());
    lemma_sum_is_empty(
        word_problem(
            "window.background_gradient"@,
            c.window.background_gradient@,
            gradient_words(),
        ),
        word_problem("window.last_row_position"@, c.window.last_row_position@, last_row_words()),
        word_problem("window.blur_method"@, c.window.blur_method@, blur_method_words()),
        word_problem("tile.content"@, c.tile.content@, content_words()),
        seq![],
    );
}

proof fn lemma_word_is_known(field: Seq<char>, val: Seq<char>, allowed: Seq<Seq<char>>)
    ensures
        word_problem(field, val, allowed).len() == 0 <==> allowed.contains(val),
{
}

proof fn lemma_no_color_problems(c: Config)
    ensures
        c.color_problems().len() == 0 <==> {
            &&& is_color(c.window.background@)
            &&& is_color(c.window.border@)
            &&& is_color(c.tile.background@)
            &&& is_color(c.tile.foreground@)
            &&& is_color(c.tile.frame@)
            &&& is_color(c.tile.inactive@)
        },
{
}

/// `part` occurs in `whole`.
pub open spec fn occurs_in(part: Seq<char>, whole: Seq<char>) -> bool {
    exists|i: int|
        0 <= i <= whole.len() - part.len() && #[trigger] whole.subrange(i, i + part.len()) == part
}

/// A joined text holds each of its parts.
pub proof fn law_every_problem_is_reported(parts: Seq<Seq<char>>, sep: Seq<char>, k: int)
    requires
        0 <= k < parts.len(),
    ensures
        occurs_in(parts[k], text::joined(parts, sep)),
    decreases parts.len(),
{
    let whole = text::joined(parts, sep);
    if parts.len() == 1 {
        assert(whole.subrange(0int, 0int + parts[k].len()) == parts[k]);
    } else if k == parts.len() - 1 {
        let i = whole.len() - parts[k].len();
        assert(whole.subrange(i, i + parts[k].len()) == parts[k]);
    } else {
        law_every_problem_is_reported(parts.drop_last(), sep, k);
        let head = text::joined(parts.drop_last(), sep);
        let i = choose|i: int|
            0 <= i <= head.len() - parts[k].len() && #[trigger] head.subrange(
                i,
                i + parts[k].len(),
            ) == parts[k];
        assert(whole.subrange(i, i + parts[k].len()) =~= head.subrange(i, i + parts[k].len()));
    }
}

/// `name` inside the directory `base`.
pub open spec fn path_in(base: Seq<char>, name: Seq<char>) -> Seq<char> {
    if base.len() == 0 || base.last() == '/' {
        base + name
    } else {
        base + seq!['/'] + name
    }
}

/// Where the configuration file is looked for.
pub open spec fn config_file(xdg: Option<Seq<char>>, home: Option<Seq<char>>) -> Seq<char> {
    let base = match xdg {
        Some(dir) => dir,
        None => path_in(
            match home {
                Some(dir) => dir,
                None => Seq::empty(),
            },
            ".config"@,
        ),
    };
    path_in(path_in(base, "hop"@), "config.toml"@)
}

/// The characters of an optional string.
pub open spec fn opt_text(s: Option<String>) -> Option<Seq<char>> {
    match s {
        Some(t) => Some(t@),
        None => None,
    }
}

fn join_path(base: &str, name: &str) -> (r: String)
    ensures
        r@ == path_in(base@, name@),
{
    let n: usize = base.unicode_len();
    let mut r: String = base.to_owned();
    if n > 0 && base.get_char(n - 1) != '/' {
        proof {
            reveal_strlit("/");
            assert("/"@ =~= seq!['/']);
        }
        r.append("/");
    }
    r.append(name);
    r
}

impl Config {
    /// The path of the configuration file, given the values of `XDG_CONFIG_HOME` and `HOME`
    /// where these are set: `hop/config.toml` below the former, or below `.config` in the home
    /// directory.
    pub fn config_path(xdg: Option<String>, home: Option<String>) -> (r: String)
        ensures
            r@ == config_file(opt_text(xdg), opt_text(home)),
    {
        let base: String = match xdg {
            Some(dir) => dir,
            None => {
                let home_dir: String = match home {
                    Some(dir) => dir,
                    None => String::new(),
                };
                join_path(home_dir.as_str(), ".config")
            },
        };
        join_path(join_path(base.as_str(), "hop").as_str(), "config.toml")
    }
}

/// A configuration is valid just when its sizes are positive, its words are among those that mean
/// something, its position is a place and its colors are colors.
pub proof fn law_usable_means_valid(c: Config)
    ensures
        c.problems().len() == 0 <==> {
            let (g, l, b, t) = (
                c.window.background_gradient@,
                c.window.last_row_position@,
                c.window.blur_method@,
                c.tile.content@,
            );
            &&& c.tile.width > 0 && c.tile.height > 0 && c.tile.icon_size > 0 && c.font.size > 0
            &&& g == "none"@ || g == "radial"@ || g == "vertical"@ || g == "horizontal"@
            &&& l == "left"@ || l == "center"@ || l == "right"@
            &&& b == "dual_kawase"@ || b == "gaussian"@ || b == "box"@ || b == "kernel"@
            &&& t == "icon"@ || t == "thumbnail"@
            &&& is_position(c.window.position@)
            &&& is_color(c.window.background@) && is_color(c.window.border@)
            &&& is_color(c.tile.background@) && is_color(c.tile.foreground@)
            &&& is_color(c.tile.frame@) && is_color(c.tile.inactive@)
            &&& c.font.shadow_color@ == "auto"@ || is_color(c.font.shadow_color@)
        },
{
    lemma_no_problems(c);
    lemma_no_dimension_problems(c);
    lemma_no_word_problems(c);
    lemma_no_color_problems(c);
    lemma_words(
        c.window.background_gradient@,
        c.window.last_row_position@,
        c.window.blur_method@,
        c.tile.content@,
    );
}

/// The words of the configuration, one by one.
proof fn lemma_words(g: Seq<char>, l: Seq<char>, b: Seq<char>, t: Seq<char>)
    ensures
        gradient_words().contains(g) <==> g == "none"@ || g == "radial"@ || g == "vertical"@ || g
            == "horizontal"@,
        last_row_words().contains(l) <==> l == "left"@ || l == "center"@ || l == "right"@,
        blur_method_words().contains(b) <==> b == "dual_kawase"@ || b == "gaussian"@ || b == "box"@
            || b == "kernel"@,
        content_words().contains(t) <==> t == "icon"@ || t == "thumbnail"@,
{
    let w = gradient_words();
    assert(w[0] == "none"@ && w[1] == "radial"@ && w[2] == "vertical"@ && w[3] == "horizontal"@);
    let x = last_row_words();
    assert(x[0] == "left"@ && x[1] == "center"@ && x[2] == "right"@);
    let y = blur_method_words();
    assert(y[0] == "dual_kawase"@ && y[1] == "gaussian"@ && y[2] == "box"@ && y[3] == "kernel"@);
    let z = content_words();
    assert(z[0] == "icon"@ && z[1] == "thumbnail"@);
}

/// The value of a hex digit, in lower or in upper case.
pub open spec fn hex_value(c: char) -> int {
    if '0' <= c <= '9' {
        c as int - '0' as int
    } else if 'a' <= c <= 'f' {
        c as int - 'a' as int + 10
    } else {
        c as int - 'A' as int + 10
    }
}

/// Six or eight hex digits are a color, with a leading `#` or without: red, green, blue, and then
/// alpha, which is full where it is not given. Nothing else is a color.
pub proof fn law_colors_are_spelled_in_hex(s: Seq<char>, d: Seq<char>)
    requires
        s == d || s == seq!['#'] + d,
        d.len() > 0 ==> d[0] != '#',
    ensures
        is_color(s) <==> (d.len() == 6 || d.len() == 8) && forall|i: int|
            0 <= i < d.len() ==> '0' <= #[trigger] d[i] <= '9' || 'a' <= d[i] <= 'f' || 'A' <= d[i]
                <= 'F',
        is_color(s) ==> {
            let c = color_of(s);
            &&& 0 <= c < 0x1_0000_0000
            &&& c / 0x1_0000 % 0x100 == 16 * hex_value(d[0]) + hex_value(d[1])
            &&& c / 0x100 % 0x100 == 16 * hex_value(d[2]) + hex_value(d[3])
            &&& c % 0x100 == 16 * hex_value(d[4]) + hex_value(d[5])
            &&& c / 0x100_0000 == if d.len() == 8 {
                16 * hex_value(d[6]) + hex_value(d[7])
            } else {
                255
            }
        },
{
    assert((seq!['#'] + d).drop_first() =~= d);
    assert(strip_hash(s) == d);
    if is_color(s) {
        law_valid_color_is_exact(s);
        let v = color_digits(s);
        assert forall|i: int| 0 <= i < d.len() implies #[trigger] v[i] == hex_value(d[i]) && 0
            <= v[i] < 16 by {
            assert(is_hex_char(d[i]));
        }
        let a = if v.len() == 8 {
            v[6] * 16 + v[7]
        } else {
            0xff
        };
        argb::lemma_packed_parts(a, v[0] * 16 + v[1], v[2] * 16 + v[3], v[4] * 16 + v[5]);
    }
}

/// Two numbers with a comma between them are a position; a text without a comma is one only if it
/// says "center". White space around the parts does not matter.
pub proof fn law_positions_are_pairs(s: Seq<char>, xs: Seq<char>, ys: Seq<char>)
    requires
        !xs.contains(','),
    ensures
        text::trimmed(s) == xs.push(',') + ys && xs.push(',') + ys != "center"@ ==> (is_position(s)
            <==> text::spelled_i16(text::trimmed(xs)) is Some && text::spelled_i16(
            text::trimmed(ys),
        ) is Some),
        text::trimmed(s) == "center"@ ==> is_position(s),
        text::trimmed(s) == xs && xs != "center"@ ==> !is_position(s),
{
    text::law_texts_split_at_the_separator(xs, ',', ys);
}

/// The configuration is read from the application's own directory: below the directory for
/// configurations where one is set, and else below `.config` of the home directory.
pub proof fn law_configuration_files(dir: Seq<char>, home: Option<Seq<char>>)
    requires
        dir.len() > 0,
        dir.last() != '/',
    ensures
        config_file(Some(dir), home) == dir + "/hop/config.toml"@,
        config_file(None, Some(dir)) == dir + "/.config/hop/config.toml"@,
        config_file(None, None) == ".config/hop/config.toml"@,
{
    reveal_strlit("/hop/config.toml");
    reveal_strlit("/.config/hop/config.toml");
    reveal_strlit(".config/hop/config.toml");
    reveal_strlit(".config");
    reveal_strlit("hop");
    reveal_strlit("config.toml");
    let below = dir + seq!['/'] + ".config"@;
    assert(path_in(dir, ".config"@) == below && below.last() == 'g');
    let plain = Seq::<char>::empty() + ".config"@;
    assert(path_in(seq![], ".config"@) == plain && plain.last() == 'g');
    let (a, b, c) = (path_in(dir, "hop"@), path_in(below, "hop"@), path_in(plain, "hop"@));
    assert(a.last() == 'p' && b.last() == 'p' && c.last() == 'p');
    assert(path_in(a, "config.toml"@) =~= dir + "/hop/config.toml"@);
    assert(path_in(b, "config.toml"@) =~= dir + "/.config/hop/config.toml"@);
    assert(path_in(c, "config.toml"@) =~= ".config/hop/config.toml"@);
}

/// The value of two characters as hex digits, or the given one where they are not.
pub open spec fn pair_value(a: char, b: char, instead: int) -> int {
    if is_hex_digit(a) && is_hex_digit(b) {
        16 * hex_value(a) + hex_value(b)
    } else {
        instead
    }
}

/// A hex digit, in lower or in upper case.
pub open spec fn is_hex_digit(c: char) -> bool {
    '0' <= c <= '9' || 'a' <= c <= 'f' || 'A' <= c <= 'F'
}

/// Of a malformed color every part that is well formed counts: a part that is not hex stands for
/// zero, or for full alpha. A text of any other length is opaque black.
pub proof fn law_malformed_colors_are_read_in_part(s: Seq<char>)
    requires
        forall|i: int| 0 <= i < s.len() ==> '\0' <= #[trigger] s[i] <= '\u{7f}' && s[i] != '#',
    ensures
        ({
            let c = color_of(s);
            &&& 0 <= c < 0x1_0000_0000
            &&& s.len() != 6 && s.len() != 8 ==> c == 0xff00_0000
            &&& s.len() == 6 || s.len() == 8 ==> {
                &&& c / 0x1_0000 % 0x100 == pair_value(s[0], s[1], 0)
                &&& c / 0x100 % 0x100 == pair_value(s[2], s[3], 0)
                &&& c % 0x100 == pair_value(s[4], s[5], 0)
                &&& c / 0x100_0000 == if s.len() == 8 {
                    pair_value(s[6], s[7], 255)
                } else {
                    255
                }
            }
        }),
{
    assert(strip_hash(s) == s);
    assert(is_ascii_chars(s));
    is_ascii_chars_encode_utf8(s);
    let b = encode_utf8(s);
    assert(b =~= Seq::new(s.len(), |i: int| s[i] as u8));
    assert forall|i: int| 0 <= i < s.len() implies !is_continuation_byte(#[trigger] b[i]) by {
        assert(b[i] == s[i] as u8);
        lemma_ascii_starts(b[i]);
    }
    if s.len() == 6 || s.len() == 8 {
        lemma_pair(s, b, 0, 0);
        lemma_pair(s, b, 2, 0);
        lemma_pair(s, b, 4, 0);
        if s.len() == 8 {
            lemma_pair(s, b, 6, 255);
            argb::lemma_packed_parts(
                pair_value(s[6], s[7], 255),
                pair_value(s[0], s[1], 0),
                pair_value(s[2], s[3], 0),
                pair_value(s[4], s[5], 0),
            );
        } else {
            argb::lemma_packed_parts(
                255,
                pair_value(s[0], s[1], 0),
                pair_value(s[2], s[3], 0),
                pair_value(s[4], s[5], 0),
            );
        }
    }
}

proof fn lemma_ascii_starts(b: u8)
    requires
        b < 0x80,
    ensures
        !is_continuation_byte(b),
{
    assert(b < 0x80 ==> b & 0xc0 != 0x80) by (bit_vector);
}

proof fn lemma_pair(s: Seq<char>, b: Seq<u8>, i: int, instead: int)
    requires
        0 <= i < s.len() - 1,
        b.len() == s.len(),
        '\0' <= s[i] <= '\u{7f}',
        '\0' <= s[i + 1] <= '\u{7f}',
        b[i] == s[i] as u8,
        b[i + 1] == s[i + 1] as u8,
        0 <= instead < 256,
    ensures
        channel(b[i], b[i + 1], instead) == pair_value(s[i], s[i + 1], instead),
        0 <= pair_value(s[i], s[i + 1], instead) < 256,
{
}

/// A text whose parts would cut a character in two is opaque black, whatever its digits are.
pub proof fn law_colors_do_not_cut_characters(s: Seq<char>, k: int)
    requires
        s.len() > 0 ==> s[0] != '#',
        k == 2 || k == 4 || k == 6,
        k < encode_utf8(s).len(),
        is_continuation_byte(encode_utf8(s)[k]),
    ensures
        color_of(s) == 0xff00_0000,
{
    assert(strip_hash(s) == s);
}

/// Each size that is zero is reported by its name.
pub proof fn law_zero_sizes_are_named(c: Config)
    ensures
        c.tile.width == 0 ==> c.problems().contains("tile.width must be greater than 0"@),
        c.tile.height == 0 ==> c.problems().contains("tile.height must be greater than 0"@),
        c.tile.icon_size == 0 ==> c.problems().contains("tile.icon_size must be greater than 0"@),
        c.font.size == 0 ==> c.problems().contains("font.size must be greater than 0"@),
{
    let p = c.problems();
    let a = problem(c.tile.width == 0, "tile.width must be greater than 0"@);
    let b = problem(c.tile.height == 0, "tile.height must be greater than 0"@);
    let d = problem(c.tile.icon_size == 0, "tile.icon_size must be greater than 0"@);
    let e = problem(c.font.size == 0, "font.size must be greater than 0"@);
    assert(c.tile.width == 0 ==> p[0] == a[0]);
    assert(c.tile.height == 0 ==> p[a.len() as int] == b[0]);
    assert(c.tile.icon_size == 0 ==> p[a.len() as int + b.len()] == d[0]);
    assert(c.font.size == 0 ==> p[a.len() as int + b.len() + d.len()] == e[0]);
}

/// A word that means nothing, and a text that is no color, is reported with the name of its field and
/// as it stands, one message for each.
pub proof fn law_wrong_words_and_colors_are_quoted(
    field: Seq<char>,
    val: Seq<char>,
    allowed: Seq<Seq<char>>,
)
    ensures
        ({
            let w = word_problem(field, val, allowed);
            let start = field + " = \""@ + val + "\" is "@;
            &&& allowed.contains(val) ==> w.len() == 0
            &&& !allowed.contains(val) ==> w.len() == 1 && w[0].len() >= start.len() && w[0].take(
                start.len() as int,
            ) == start
        }),
        ({
            let w = color_problem(field, val);
            let start = field + " = \""@ + val + "\" is not a valid color"@;
            &&& is_color(val) ==> w.len() == 0
            &&& !is_color(val) ==> w.len() == 1 && w[0].len() >= start.len() && w[0].take(
                start.len() as int,
            ) == start
        }),
{
    reveal_strlit("\" is ");
    reveal_strlit("\" is invalid (expected one of: ");
    reveal_strlit("\" is not a valid color");
    reveal_strlit("\" is not a valid color (expected #rrggbb or #rrggbbaa)");
    let head = field + " = \""@ + val;
    let long = "\" is invalid (expected one of: "@;
    assert(long.take(5) =~= "\" is "@);
    let color = "\" is not a valid color (expected #rrggbb or #rrggbbaa)"@;
    assert(color.take(22) =~= "\" is not a valid color"@);
    if !allowed.contains(val) {
        let m = word_problem(field, val, allowed)[0];
        let start = head + "\" is "@;
        assert forall|i: int| 0 <= i < start.len() implies m[i] == #[trigger] start[i] by {
            if i >= head.len() {
                assert(long.take(5)[i - head.len()] == long[i - head.len()]);
            }
        }
        assert(m.take(start.len() as int) =~= start);
    }
    if !is_color(val) {
        let m = color_problem(field, val)[0];
        let start = head + "\" is not a valid color"@;
        assert forall|i: int| 0 <= i < start.len() implies m[i] == #[trigger] start[i] by {
            if i >= head.len() {
                assert(color.take(22)[i - head.len()] == color[i - head.len()]);
            }
        }
        assert(m.take(start.len() as int) =~= start);
    }
}

} // verus!
