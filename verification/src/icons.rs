//! Application icons: where icon files are looked for, and their decoding.
use vstd::prelude::*;
use vstd::string::*;

use crate::argb;
use crate::ewmh;
use crate::text;

verus! {

// ---------------------------------------------------------------- PNG decoding

/// The first frame of a PNG image, as the decoder gives it.
#[derive(Debug)]
pub struct PngFrame {
    pub width: u32,
    pub height: u32,
    /// The PNG colour type: 2 is RGB, 6 is RGB with alpha.
    pub color_type: u8,
    /// Bits per sample.
    pub bit_depth: u8,
    /// The samples, row by row.
    pub data: Vec<u8>,
}

/// The frame that the png crate decodes from bytes: width, height, colour type, bit depth and
/// samples; nothing when the bytes are not a PNG image that it can decode.
pub uninterp spec fn png_frame(bytes: Seq<u8>) -> Option<(u32, u32, u8, u8, Seq<u8>)>;

pub open spec fn frame_view(f: PngFrame) -> (u32, u32, u8, u8, Seq<u8>) {
    (f.width, f.height, f.color_type, f.bit_depth, f.data@)
}

pub open spec fn opt_frame_view(f: Option<PngFrame>) -> Option<(u32, u32, u8, u8, Seq<u8>)> {
    match f {
        Some(f) => Some(frame_view(f)),
        None => None,
    }
}

/// The number in four bytes, the highest first.
pub open spec fn big_endian(b: Seq<u8>, i: int) -> int {
    b[i] * 0x100_0000 + b[i + 1] * 0x1_0000 + b[i + 2] * 0x100 + b[i + 3]
}

/// Bits per pixel for a bit depth and a PNG colour type; zero where there is no such depth or type.
pub open spec fn pixel_bits(depth: u8, color_type: u8) -> int {
    if depth != 1 && depth != 2 && depth != 4 && depth != 8 && depth != 16 {
        0
    } else if color_type == 0 || color_type == 3 {
        depth as int
    } else if color_type == 2 {
        3 * depth
    } else if color_type == 4 {
        2 * depth
    } else if color_type == 6 {
        4 * depth
    } else {
        0
    }
}

/// The number of bytes of samples that the header of a PNG image promises.
pub open spec fn promised_bytes(bytes: Seq<u8>) -> int {
    (big_endian(bytes, 16) * pixel_bits(bytes[24], bytes[25]) + 7) / 8 * big_endian(bytes, 20)
}

/// The bytes start like a PNG image: the signature, then a header.
pub open spec fn has_header(b: Seq<u8>) -> bool {
    &&& b.len() >= 26
    &&& big_endian(b, 0) == 0x8950_4e47
    &&& big_endian(b, 4) == 0x0d0a_1a0a
    &&& big_endian(b, 12) == 0x4948_4452
}

/// The samples that a PNG image promises can be held in memory, or are so many that the decoder
/// rejects the image outright, as it does with bytes that are no PNG image.
pub open spec fn is_holdable(bytes: Seq<u8>) -> bool {
    has_header(bytes) ==> promised_bytes(bytes) <= isize::MAX || promised_bytes(bytes) > usize::MAX
}

fn big_endian_at(b: &[u8], i: usize) -> (r: u32)
    requires
        i + 4 <= b.len(),
    ensures
        r == big_endian(b@, i as int),
{
    b[i] as u32 * 0x100_0000 + b[i + 1] as u32 * 0x1_0000 + b[i + 2] as u32 * 0x100 + b[i + 3] as u32
}

fn pixel_bits_of(depth: u8, color_type: u8) -> (r: u32)
    ensures
        r == pixel_bits(depth, color_type),
        r <= 64,
{
    let d: u32 = depth as u32;
    if d != 1 && d != 2 && d != 4 && d != 8 && d != 16 {
        0
    } else if color_type == 0 || color_type == 3 {
        d
    } else if color_type == 2 {
        3 * d
    } else if color_type == 4 {
        2 * d
    } else if color_type == 6 {
        4 * d
    } else {
        0
    }
}

/// Whether the samples that a PNG image promises can be held in memory.
pub fn can_hold(bytes: &[u8]) -> (r: bool)
    ensures
        r == is_holdable(bytes@),
{
    if bytes.len() < 26 || big_endian_at(bytes, 0) != 0x8950_4e47 || big_endian_at(bytes, 4)
        != 0x0d0a_1a0a || big_endian_at(bytes, 12) != 0x4948_4452 {
        return true;
    }
    let w: u32 = big_endian_at(bytes, 16);
    let h: u32 = big_endian_at(bytes, 20);
    let bits: u32 = pixel_bits_of(bytes[24], bytes[25]);
    proof {
        assert(0 <= w * bits <= 0xffff_ffff * 64) by (nonlinear_arith)
            requires
                0 <= w <= 0xffff_ffff,
                0 <= bits <= 64,
        ;
    }
    let row: u64 = (w as u64 * bits as u64 + 7) / 8;
    proof {
        assert(0 <= row * h <= 0x1_0000_0000_0000 * 0x1_0000_0000) by (nonlinear_arith)
            requires
                0 <= row <= 0x1_0000_0000_0000,
                0 <= h <= 0xffff_ffff,
        ;
    }
    let size: u128 = row as u128 * h as u128;
    size <= isize::MAX as u128 || size > usize::MAX as u128
}

/// `png::Decoder::new`, `Decoder::read_info` and `Reader::next_frame` of the png crate, on a
/// buffer of `Reader::output_buffer_size` bytes: decodes the first frame of a PNG image, without
/// transformations. The result depends on the bytes alone; what it is for given bytes is not said
/// here. The decoder takes the size of the buffer from the header; images are left out for which
/// that is more than memory can ever be, since the allocation would panic.
#[verifier::external_body]
fn decode_frame(bytes: &[u8]) -> (r: Option<PngFrame>)
    requires
        is_holdable(bytes@),
    ensures
        opt_frame_view(r) == png_frame(bytes@),
{
    let mut reader = png::Decoder::new(bytes).read_info().ok()?;
    let mut data = vec![0u8; reader.output_buffer_size()];
    let info = reader.next_frame(&mut data).ok()?;
    let (color_type, bit_depth) = (info.color_type as u8, info.bit_depth as u8);
    Some(PngFrame { width: info.width, height: info.height, color_type, bit_depth, data })
}

/// Pixel `i` of samples that are red, green, blue and alpha.
pub open spec fn rgba_pixel(data: Seq<u8>, i: int) -> int {
    argb::argb(
        data[4 * i + 3] as int,
        data[4 * i] as int,
        data[4 * i + 1] as int,
        data[4 * i + 2] as int,
    )
}

/// Pixel `i` of samples that are red, green and blue: opaque.
pub open spec fn rgb_pixel(data: Seq<u8>, i: int) -> int {
    argb::argb(0xff, data[3 * i] as int, data[3 * i + 1] as int, data[3 * i + 2] as int)
}

/// Width, height and ARGB pixels of a decoded frame. Only RGB and RGBA with 8 bits per sample
/// count, and only when there are enough samples.
pub open spec fn frame_image(f: (u32, u32, u8, u8, Seq<u8>)) -> Option<(u32, u32, Seq<u32>)> {
    let n = f.0 * f.1;
    let data = f.4;
    if f.3 != 8 {
        None
    } else if f.2 == 6 && data.len() >= 4 * n {
        Some((f.0, f.1, Seq::new(n as nat, |i: int| rgba_pixel(data, i) as u32)))
    } else if f.2 == 2 && data.len() >= 3 * n {
        Some((f.0, f.1, Seq::new(n as nat, |i: int| rgb_pixel(data, i) as u32)))
    } else {
        None
    }
}

/// An image with its pixels as a sequence.
pub open spec fn image_view(i: Option<(u32, u32, Vec<u32>)>) -> Option<(u32, u32, Seq<u32>)> {
    match i {
        Some(i) => Some((i.0, i.1, i.2@)),
        None => None,
    }
}

fn rgba_pixels(data: &Vec<u8>, n: usize) -> (r: Vec<u32>)
    requires
        4 * n <= data.len(),
    ensures
        r@ == Seq::new(n as nat, |i: int| rgba_pixel(data@, i) as u32),
{
    let mut r: Vec<u32> = Vec::new();
    let mut i: usize = 0;
    while i < n
        invariant
            i <= n,
            4 * n <= data.len(),
            r@ == Seq::new(i as nat, |k: int| rgba_pixel(data@, k) as u32),
        decreases n - i,
    {
        let k: usize = 4 * i;
        let p: u32 = argb::pack_argb(data[k + 3], data[k], data[k + 1], data[k + 2]);
        r.push(p);
        i = i + 1;
        assert(r@ =~= Seq::new(i as nat, |k: int| rgba_pixel(data@, k) as u32));
    }
    r
}

fn rgb_pixels(data: &Vec<u8>, n: usize) -> (r: Vec<u32>)
    requires
        3 * n <= data.len(),
    ensures
        r@ == Seq::new(n as nat, |i: int| rgb_pixel(data@, i) as u32),
{
    let mut r: Vec<u32> = Vec::new();
    let mut i: usize = 0;
    while i < n
        invariant
            i <= n,
            3 * n <= data.len(),
            r@ == Seq::new(i as nat, |k: int| rgb_pixel(data@, k) as u32),
        decreases n - i,
    {
        let k: usize = 3 * i;
        let p: u32 = argb::pack_argb(0xff, data[k], data[k + 1], data[k + 2]);
        r.push(p);
        i = i + 1;
        assert(r@ =~= Seq::new(i as nat, |k: int| rgb_pixel(data@, k) as u32));
    }
    r
}

/// Width, height and ARGB pixels of a decoded frame; `None` for a format that is not supported.
pub fn frame_to_argb(f: &PngFrame) -> (r: Option<(u32, u32, Vec<u32>)>)
    ensures
        image_view(r) == frame_image(frame_view(*f)),
{
    if f.bit_depth != 8 {
        return None;
    }
    proof {
        let (a, b) = (f.width as int, f.height as int);
        assert(0 <= a * b <= 0xffff_ffff * 0xffff_ffff) by (nonlinear_arith)
            requires
                0 <= a <= 0xffff_ffff,
                0 <= b <= 0xffff_ffff,
        ;
    }
    let n: u128 = f.width as u128 * f.height as u128;
    if f.color_type == 6 {
        if (f.data.len() as u128) < n * 4 {
            return None;
        }
        Some((f.width, f.height, rgba_pixels(&f.data, n as usize)))
    } else if f.color_type == 2 {
        if (f.data.len() as u128) < n * 3 {
            return None;
        }
        Some((f.width, f.height, rgb_pixels(&f.data, n as usize)))
    } else {
        None
    }
}

/// Decodes a PNG image into width, height and ARGB pixels. Only RGB and RGBA with 8 bits per
/// channel are supported; returns `None` otherwise, and for an image that cannot be held in memory.
pub fn decode_png(bytes: &[u8]) -> (r: Option<(u32, u32, Vec<u32>)>)
    ensures
        is_holdable(bytes@) ==> image_view(r) == match png_frame(bytes@) {
            Some(f) => frame_image(f),
            None => None,
        },
        !is_holdable(bytes@) ==> r is None,
{
    if !can_hold(bytes) {
        return None;
    }
    match decode_frame(bytes) {
        Some(f) => frame_to_argb(&f),
        None => None,
    }
}

/// A decoded icon has exactly as many pixels as its size says.
pub proof fn law_decoded_icons_are_complete(f: (u32, u32, u8, u8, Seq<u8>))
    ensures
        frame_image(f) matches Some(i) ==> i.0 == f.0 && i.1 == f.1 && i.2.len() == i.0 * i.1,
{
    assert(f.0 * f.1 >= 0) by (nonlinear_arith)
        requires
            f.0 >= 0,
            f.1 >= 0,
    ;
}

// ---------------------------------------------------------------- icon files

/// The sizes of icon themes.
pub open spec fn icon_sizes() -> Seq<u32> {
    seq![512u32, 256u32, 128u32, 96u32, 64u32, 48u32, 32u32]
}

/// The lower-case form that std gives to a text.
pub uninterp spec fn lowercase(s: Seq<char>) -> Seq<char>;

/// `str::to_lowercase` of std: the text in lower case, by the Unicode rules.
#[verifier::external_body]
fn to_lowercase(s: &str) -> (r: String)
    ensures
        r@ == lowercase(s@),
{
    s.to_lowercase()
}

/// A file of the given name in a directory, and how far its size is from the one that is wanted.
pub open spec fn entry(d: u64, prefix: Seq<char>, name: Seq<char>) -> (u64, Seq<char>) {
    (d, prefix + name + ".png"@)
}

/// The files for a class: by its lower-case name, and by its own name where that differs.
pub open spec fn both_names(d: u64, prefix: Seq<char>, class: Seq<char>, lower: Seq<char>) -> Seq<
    (u64, Seq<char>),
> {
    if lower == class {
        seq![entry(d, prefix, lower)]
    } else {
        seq![entry(d, prefix, lower), entry(d, prefix, class)]
    }
}

/// The directory of the applications of one size in an icon theme.
pub open spec fn size_dir(dir: Seq<char>, size: u32) -> Seq<char> {
    let n = text::decimal_of(size as nat);
    dir + "/"@ + n + "x"@ + n + "/apps/"@
}

/// The files in the first `k` sizes of an icon theme.
pub open spec fn theme_entries(
    dir: Seq<char>,
    class: Seq<char>,
    lower: Seq<char>,
    target: u32,
    k: nat,
) -> Seq<(u64, Seq<char>)>
    decreases k,
{
    if k == 0 {
        seq![]
    } else {
        let size = icon_sizes()[k - 1];
        theme_entries(dir, class, lower, target, (k - 1) as nat) + both_names(
            ewmh::off_by(size as int, target as int) as u64,
            size_dir(dir, size),
            class,
            lower,
        )
    }
}

/// All files that may hold the icon of a class: in the user's and the system's icon theme, and
/// then in two directories without sizes.
pub open spec fn icon_entries(class: Seq<char>, lower: Seq<char>, home: Seq<char>, target: u32)
    -> Seq<(u64, Seq<char>)> {
    theme_entries(home + "/.local/share/icons/hicolor"@, class, lower, target, 7) + theme_entries(
        "/usr/share/icons/hicolor"@,
        class,
        lower,
        target,
        7,
    ) + both_names(u64::MAX, "/usr/share/icons/"@, class, lower) + both_names(
        u64::MAX,
        "/usr/share/pixmaps/"@,
        class,
        lower,
    )
}

/// A sorted list with one entry added behind all that are not farther off.
pub open spec fn insert_sorted(s: Seq<(u64, Seq<char>)>, x: (u64, Seq<char>)) -> Seq<
    (u64, Seq<char>),
>
    decreases s.len(),
{
    if s.len() == 0 || s.last().0 <= x.0 {
        s.push(x)
    } else {
        insert_sorted(s.drop_last(), x).push(s.last())
    }
}

/// The entries by increasing distance, those of the same distance in their given order.
pub open spec fn by_distance(s: Seq<(u64, Seq<char>)>) -> Seq<(u64, Seq<char>)>
    decreases s.len(),
{
    if s.len() == 0 {
        seq![]
    } else {
        insert_sorted(by_distance(s.drop_last()), s.last())
    }
}

pub open spec fn paths(s: Seq<(u64, Seq<char>)>) -> Seq<Seq<char>> {
    s.map_values(|e: (u64, Seq<char>)| e.1)
}

pub open spec fn entries_view(v: Seq<(u64, String)>) -> Seq<(u64, Seq<char>)> {
    v.map_values(|e: (u64, String)| (e.0, e.1@))
}

/// Adds an entry to a sorted list.
fn add_sorted(list: &mut Vec<(u64, String)>, d: u64, path: String)
    ensures
        entries_view(final(list)@) == insert_sorted(entries_view(old(list)@), (d, path@)),
{
    let n: usize = list.len();
    let mut i: usize = n;
    let ghost v = entries_view(list@);
    let ghost x = (d, path@);
    assert(v.take(n as int) =~= v);
    assert(v.skip(n as int) =~= seq![]);
    assert(insert_sorted(v, x) + v.skip(n as int) =~= insert_sorted(v, x));
    while i > 0 && list[i - 1].0 > d
        invariant
            i <= n,
            n == list.len(),
            v == entries_view(list@),
            x == (d, path@),
            insert_sorted(v, x) == insert_sorted(v.take(i as int), x) + v.skip(i as int),
        decreases i,
    {
        proof {
            let t = v.take(i as int);
            assert(t.last() == v[i - 1]);
            assert(t.drop_last() =~= v.take(i - 1));
            assert(insert_sorted(t, x) == insert_sorted(t.drop_last(), x).push(t.last()));
            assert(insert_sorted(v.take(i - 1), x).push(v[i - 1]) + v.skip(i as int)
                =~= insert_sorted(v.take(i - 1), x) + v.skip(i - 1));
        }
        i = i - 1;
    }
    proof {
        if i > 0 {
            assert(v.take(i as int).last() == v[i - 1]);
        }
        assert(insert_sorted(v.take(i as int), x) == v.take(i as int).push(x));
    }
    list.insert(i, (d, path));
    assert(entries_view(list@) =~= v.take(i as int).push(x) + v.skip(i as int));
}

/// Adds the files for both names of a class.
fn add_both(list: &mut Vec<(u64, String)>, d: u64, prefix: &str, class: &str, lower: &str, Ghost(
    given,
): Ghost<Seq<(u64, Seq<char>)>>)
    requires
        entries_view(old(list)@) == by_distance(given),
    ensures
        entries_view(final(list)@) == by_distance(given + both_names(d, prefix@, class@, lower@)),
{
    let mut path: String = text::concat(prefix, lower);
    path.append(".png");
    let ghost first = entry(d, prefix@, lower@);
    add_sorted(list, d, path);
    proof {
        assert((given.push(first)).drop_last() =~= given);
        assert(entries_view(list@) == by_distance(given.push(first)));
    }
    if !text::same_text(lower, class) {
        let mut other: String = text::concat(prefix, class);
        other.append(".png");
        let ghost second = entry(d, prefix@, class@);
        add_sorted(list, d, other);
        proof {
            assert((given.push(first).push(second)).drop_last() =~= given.push(first));
            assert(entries_view(list@) == by_distance(given.push(first).push(second)));
            assert(given + both_names(d, prefix@, class@, lower@) =~= given.push(first).push(
                second,
            ));
        }
    } else {
        assert(given + both_names(d, prefix@, class@, lower@) =~= given.push(first));
    }
}

/// Adds the files of an icon theme.
fn add_theme(
    list: &mut Vec<(u64, String)>,
    dir: &str,
    class: &str,
    lower: &str,
    target: u32,
    Ghost(given): Ghost<Seq<(u64, Seq<char>)>>,
)
    requires
        entries_view(old(list)@) == by_distance(given),
    ensures
        entries_view(final(list)@) == by_distance(
            given + theme_entries(dir@, class@, lower@, target, 7),
        ),
{
    let sizes: [u32; 7] = [512, 256, 128, 96, 64, 48, 32];
    let mut k: usize = 0;
    assert(given + theme_entries(dir@, class@, lower@, target, 0) =~= given);
    while k < 7
        invariant
            k <= 7,
            sizes@ == icon_sizes(),
            entries_view(list@) == by_distance(
                given + theme_entries(dir@, class@, lower@, target, k as nat),
            ),
        decreases 7 - k,
    {
        let size: u32 = sizes[k];
        let d: u64 = if size < target { (target - size) as u64 } else { (size - target) as u64 };
        let mut prefix: String = text::concat(dir, "/");
        let number: String = text::decimal(size);
        prefix.append(number.as_str());
        prefix.append("x");
        prefix.append(number.as_str());
        prefix.append("/apps/");
        let ghost before = given + theme_entries(dir@, class@, lower@, target, k as nat);
        assert(prefix@ == size_dir(dir@, size));
        add_both(list, d, prefix.as_str(), class, lower, Ghost(before));
        k = k + 1;
        assert(before + both_names(d, prefix@, class@, lower@) =~= given + theme_entries(
            dir@,
            class@,
            lower@,
            target,
            k as nat,
        ));
    }
}

/// The paths of an entry list, in its order.
fn paths_of(list: Vec<(u64, String)>) -> (r: Vec<String>)
    ensures
        text::texts(r@) == paths(entries_view(list@)),
{
    let n: usize = list.len();
    let mut r: Vec<String> = Vec::new();
    let mut i: usize = 0;
    while i < n
        invariant
            i <= n,
            n == list.len(),
            text::texts(r@) == paths(entries_view(list@)).take(i as int),
        decreases n - i,
    {
        let p: String = list[i].1.as_str().to_owned();
        let ghost before = r@;
        r.push(p);
        i = i + 1;
        assert(text::texts(r@) =~= text::texts(before).push(list@[i - 1].1@));
        assert(text::texts(r@) =~= paths(entries_view(list@)).take(i as int));
    }
    assert(text::texts(r@) =~= paths(entries_view(list@)));
    r
}

/// The files to try for the icon of a class, given its lower-case name: those whose size is
/// closest to `target_size` first.
pub fn icon_candidates(class: &str, lower: &str, home: &str, target_size: u32) -> (r: Vec<String>)
    ensures
        text::texts(r@) == paths(by_distance(icon_entries(class@, lower@, home@, target_size))),
{
    let mut list: Vec<(u64, String)> = Vec::new();
    let ghost s0: Seq<(u64, Seq<char>)> = seq![];
    assert(entries_view(list@) =~= by_distance(s0));
    let user_dir: String = text::concat(home, "/.local/share/icons/hicolor");
    add_theme(&mut list, user_dir.as_str(), class, lower, target_size, Ghost(s0));
    let ghost s1 = s0 + theme_entries(user_dir@, class@, lower@, target_size, 7);
    add_theme(&mut list, "/usr/share/icons/hicolor", class, lower, target_size, Ghost(s1));
    let ghost s2 = s1 + theme_entries(
        "/usr/share/icons/hicolor"@,
        class@,
        lower@,
        target_size,
        7,
    );
    add_both(&mut list, u64::MAX, "/usr/share/icons/", class, lower, Ghost(s2));
    let ghost s3 = s2 + both_names(u64::MAX, "/usr/share/icons/"@, class@, lower@);
    add_both(&mut list, u64::MAX, "/usr/share/pixmaps/", class, lower, Ghost(s3));
    assert(s0 + theme_entries(user_dir@, class@, lower@, target_size, 7) =~= theme_entries(
        user_dir@,
        class@,
        lower@,
        target_size,
        7,
    ));
    paths_of(list)
}

/// The files to try, in order, for the icon of a window class. A class without a name has none.
pub fn icon_paths(class: &str, home: &str, target_size: u32) -> (r: Vec<String>)
    ensures
        text::texts(r@) == if class@.len() == 0 {
            seq![]
        } else {
            paths(by_distance(icon_entries(class@, lowercase(class@), home@, target_size)))
        },
{
    if class.is_empty() {
        let r: Vec<String> = Vec::new();
        assert(text::texts(r@) =~= seq![]);
        return r;
    }
    let lower: String = to_lowercase(class);
    icon_candidates(class, lower.as_str(), home, target_size)
}

/// The files to try, in order, for the bytes of a `WM_CLASS` property, if it was read.
pub open spec fn class_paths(value: Option<Seq<u8>>, home: Seq<char>, target: u32) -> Seq<
    Seq<char>,
> {
    match value {
        Some(b) => {
            let class = ewmh::utf8_lossy(ewmh::class_bytes(b));
            if ewmh::class_bytes(b).len() == 0 || class.len() == 0 {
                seq![]
            } else {
                paths(by_distance(icon_entries(class, lowercase(class), home, target)))
            }
        },
        None => seq![],
    }
}

// ---------------------------------------------------------------- the search for an icon

/// The next step in the search for a window's icon.
#[derive(Debug, PartialEq, Eq)]
pub enum IconStep {
    /// The search is over, with an icon or without.
    Done(Option<(u32, u32, Vec<u32>)>),
    /// The window has no icon of its own: ask for its class.
    AskClass,
    /// Load an icon from a file.
    Load(String),
}

/// A window's own icon comes first: looks for one in the values of its `_NET_WM_ICON` property,
/// which count only in the format of 32 bits.
pub fn own_icon(format: u8, values: &[u32], target_size: u32) -> (r: IconStep)
    ensures
        if format == 32 && ewmh::icon_blocks(values@, 0).len() > 0 {
            r matches IconStep::Done(Some(icon)) && ewmh::is_best_icon(
                icon,
                values@,
                target_size as int,
            )
        } else {
            r == IconStep::AskClass
        },
{
    if format == 32 {
        if let Some(icon) = ewmh::parse_net_wm_icon(values, target_size) {
            return IconStep::Done(Some(icon));
        }
    }
    IconStep::AskClass
}

/// The search for an icon in the icon theme, by a window's class.
#[derive(Debug)]
pub struct IconSearch {
    pub paths: Vec<String>,
    /// How many of the files were tried.
    pub tried: usize,
}

impl IconSearch {
    pub open spec fn wf(self) -> bool {
        self.tried <= self.paths.len()
    }

    /// The files that are left to try, in order.
    pub open spec fn left(self) -> Seq<Seq<char>> {
        text::texts(self.paths@).skip(self.tried as int)
    }

    /// The search for the class in the bytes of a `WM_CLASS` property, if it was read.
    pub fn of_class(value: &Option<Vec<u8>>, home: &str, target_size: u32) -> (r: IconSearch)
        ensures
            r.wf(),
            r.left() == class_paths(ewmh::bytes_of(*value), home@, target_size),
    {
        let class: Option<String> = match value {
            Some(b) => ewmh::parse_wm_class(b.as_slice()),
            None => None,
        };
        let paths: Vec<String> = match class {
            Some(c) => icon_paths(c.as_str(), home, target_size),
            None => Vec::new(),
        };
        let r = IconSearch { paths, tried: 0 };
        assert(r.left() =~= text::texts(r.paths@));
        assert(r.left() =~= class_paths(ewmh::bytes_of(*value), home@, target_size));
        r
    }

    /// The next step, given what the file before it has yielded; nothing at the start. The first
    /// icon that loads ends the search: whatever the files hold, the steps lead to its result.
    pub fn step(&mut self, loaded: Option<(u32, u32, Vec<u32>)>) -> (r: IconStep)
        requires
            old(self).wf(),
        ensures
            final(self).wf(),
            final(self).paths == old(self).paths,
            match r {
                IconStep::Done(icon) => {
                    &&& icon == loaded
                    &&& loaded is Some || old(self).left().len() == 0
                    &&& *final(self) == *old(self)
                },
                IconStep::Load(path) => {
                    &&& loaded is None && old(self).left().len() > 0
                    &&& path@ == old(self).left()[0]
                    &&& final(self).left() == old(self).left().drop_first()
                },
                IconStep::AskClass => false,
            },
            loaded is None ==> forall|load: spec_fn(Seq<char>) -> Option<(u32, u32, Vec<u32>)>|
                #[trigger]
                search_result(old(self).left(), load) == match r {
                    IconStep::Load(path) => if load(path@) is Some {
                        load(path@)
                    } else {
                        search_result(final(self).left(), load)
                    },
                    _ => None,
                },
    {
        if loaded.is_some() || self.tried >= self.paths.len() {
            return IconStep::Done(loaded);
        }
        let path: String = self.paths[self.tried].as_str().to_owned();
        self.tried = self.tried + 1;
        assert(self.left() =~= old(self).left().drop_first());
        IconStep::Load(path)
    }
}

/// What a search ends with when `load` says which files hold an icon.
pub open spec fn search_result<T>(left: Seq<Seq<char>>, load: spec_fn(Seq<char>) -> Option<T>)
    -> Option<T>
    decreases left.len(),
{
    if left.len() == 0 {
        None
    } else if load(left[0]) is Some {
        load(left[0])
    } else {
        search_result(left.drop_first(), load)
    }
}

/// The first file that holds an icon gives the icon.
pub proof fn law_first_icon_wins<T>(
    left: Seq<Seq<char>>,
    load: spec_fn(Seq<char>) -> Option<T>,
    k: int,
)
    requires
        0 <= k < left.len(),
        load(left[k]) is Some,
        forall|j: int| 0 <= j < k ==> load(#[trigger] left[j]) is None,
    ensures
        search_result(left, load) == load(left[k]),
    decreases k,
{
    if k > 0 {
        assert(load(left[0]) is None);
        let rest = left.drop_first();
        assert(forall|j: int| 0 <= j < rest.len() ==> #[trigger] rest[j] == left[j + 1]);
        law_first_icon_wins(rest, load, k - 1);
    }
}

pub open spec fn sorted(s: Seq<(u64, Seq<char>)>) -> bool {
    forall|i: int, j: int| 0 <= i <= j < s.len() ==> (#[trigger] s[i]).0 <= (#[trigger] s[j]).0
}

proof fn lemma_insert_sorted(s: Seq<(u64, Seq<char>)>, x: (u64, Seq<char>))
    requires
        sorted(s),
    ensures
        sorted(insert_sorted(s, x)),
        insert_sorted(s, x).to_multiset() == s.to_multiset().insert(x),
        insert_sorted(s, x).len() == s.len() + 1,
        forall|k: int|
            0 <= k <= s.len() ==> (#[trigger] insert_sorted(s, x)[k]).0 <= if s.len() > 0
                && s.last().0 > x.0 {
                s.last().0
            } else {
                x.0
            },
    decreases s.len(),
{
    broadcast use vstd::seq_lib::group_to_multiset_ensures;

    if s.len() == 0 || s.last().0 <= x.0 {
    } else {
        let t = s.drop_last();
        assert(sorted(t));
        lemma_insert_sorted(t, x);
        assert(t.push(s.last()) =~= s);
        assert(s.to_multiset() =~= t.to_multiset().insert(s.last()));
        assert(insert_sorted(s, x).to_multiset() =~= insert_sorted(t, x).to_multiset().insert(
            s.last(),
        ));
        assert(t.to_multiset().insert(x).insert(s.last()) =~= t.to_multiset().insert(
            s.last(),
        ).insert(x));
    }
}

/// The candidates come closest size first, and sorting neither drops nor adds one.
pub proof fn law_candidates_come_closest_first(s: Seq<(u64, Seq<char>)>)
    ensures
        sorted(by_distance(s)),
        by_distance(s).to_multiset() == s.to_multiset(),
    decreases s.len(),
{
    broadcast use vstd::seq_lib::group_to_multiset_ensures;

    if s.len() > 0 {
        law_candidates_come_closest_first(s.drop_last());
        lemma_insert_sorted(by_distance(s.drop_last()), s.last());
        assert(s.drop_last().push(s.last()) =~= s);
    }
}

/// A decoded icon has the colours of its samples, pixel by pixel: red, green, blue, and the alpha
/// where there is one, else full. Images with other kinds of samples, or with too few, are no icons.
pub proof fn law_decoded_icons_keep_their_colors(f: (u32, u32, u8, u8, Seq<u8>), i: int)
    requires
        0 <= i < f.0 * f.1,
    ensures
        frame_image(f) is Some <==> f.3 == 8 && (f.2 == 6 && f.4.len() >= 4 * (f.0 * f.1) || f.2 == 2
            && f.4.len() >= 3 * (f.0 * f.1)),
        frame_image(f) matches Some(image) ==> {
            let step: int = if f.2 == 6 {
                4
            } else {
                3
            };
            let p = image.2[i] as int;
            &&& image.0 == f.0 && image.1 == f.1 && image.2.len() == f.0 * f.1
            &&& p / 0x1_0000 % 0x100 == f.4[step * i]
            &&& p / 0x100 % 0x100 == f.4[step * i + 1]
            &&& p % 0x100 == f.4[step * i + 2]
            &&& p / 0x100_0000 == if step == 4 {
                f.4[4 * i + 3] as int
            } else {
                255
            }
        },
{
    let d = f.4;
    if frame_image(f) is Some {
        if f.2 == 6 {
            argb::lemma_packed_parts(
                d[4 * i + 3] as int,
                d[4 * i] as int,
                d[4 * i + 1] as int,
                d[4 * i + 2] as int,
            );
        } else {
            argb::lemma_packed_parts(0xff, d[3 * i] as int, d[3 * i + 1] as int, d[3 * i + 2] as int);
        }
    }
}

/// Candidates that are as far off as each other stay in their order.
pub proof fn law_equal_candidates_keep_their_order(s: Seq<(u64, Seq<char>)>, d: u64)
    ensures
        by_distance(s).filter(|e: (u64, Seq<char>)| e.0 == d) == s.filter(
            |e: (u64, Seq<char>)| e.0 == d,
        ),
    decreases s.len(),
{
    reveal(Seq::filter);
    if s.len() > 0 {
        let t = by_distance(s.drop_last());
        law_equal_candidates_keep_their_order(s.drop_last(), d);
        law_candidates_come_closest_first(s.drop_last());
        lemma_insert_keeps_order(t, s.last(), d);
    }
}

proof fn lemma_insert_keeps_order(s: Seq<(u64, Seq<char>)>, x: (u64, Seq<char>), d: u64)
    requires
        sorted(s),
    ensures
        ({
            let same = |e: (u64, Seq<char>)| e.0 == d;
            insert_sorted(s, x).filter(same) == if x.0 == d {
                s.filter(same).push(x)
            } else {
                s.filter(same)
            }
        }),
    decreases s.len(),
{
    reveal(Seq::filter);
    let same = |e: (u64, Seq<char>)| e.0 == d;
    if s.len() == 0 || s.last().0 <= x.0 {
        assert(s.push(x).drop_last() =~= s);
    } else {
        let t = s.drop_last();
        lemma_insert_keeps_order(t, x, d);
        let r = insert_sorted(t, x);
        assert(r.push(s.last()).drop_last() =~= r);
    }
}

/// Wherever an icon may lie it is looked for: under both names, in each size of the user's and of
/// the system's theme, and in the two directories without sizes. Those without a size come last.
pub proof fn law_every_place_is_searched(
    class: Seq<char>,
    lower: Seq<char>,
    home: Seq<char>,
    target: u32,
    name: Seq<char>,
    size: u32,
)
    requires
        name == class || name == lower,
        size == 512 || size == 256 || size == 128 || size == 96 || size == 64 || size == 48 || size
            == 32,
    ensures
        ({
            let all = icon_entries(class, lower, home, target);
            let n = text::decimal_of(size as nat);
            let place = "/"@ + n + "x"@ + n + "/apps/"@ + name + ".png"@;
            let d = (if size < target { target - size } else { size - target }) as u64;
            &&& all.contains((d, home + "/.local/share/icons/hicolor"@ + place))
            &&& all.contains((d, "/usr/share/icons/hicolor"@ + place))
            &&& all.contains((u64::MAX, "/usr/share/icons/"@ + name + ".png"@))
            &&& all.contains((u64::MAX, "/usr/share/pixmaps/"@ + name + ".png"@))
        }),
{
    let n = text::decimal_of(size as nat);
    let place = "/"@ + n + "x"@ + n + "/apps/"@ + name + ".png"@;
    let d = (if size < target { target - size } else { size - target }) as u64;
    let (user, system) = (home + "/.local/share/icons/hicolor"@, "/usr/share/icons/hicolor"@);
    let a = theme_entries(user, class, lower, target, 7);
    let b = theme_entries(system, class, lower, target, 7);
    let e = both_names(u64::MAX, "/usr/share/icons/"@, class, lower);
    let f = both_names(u64::MAX, "/usr/share/pixmaps/"@, class, lower);
    let k = lemma_size_is_listed(size);
    lemma_theme_is_searched(user, class, lower, target, 7, k, name);
    lemma_theme_is_searched(system, class, lower, target, 7, k, name);
    assert(user + place =~= size_dir(user, size) + name + ".png"@);
    assert(system + place =~= size_dir(system, size) + name + ".png"@);
    lemma_both_names(u64::MAX, "/usr/share/icons/"@, class, lower, name);
    lemma_both_names(u64::MAX, "/usr/share/pixmaps/"@, class, lower, name);
    lemma_contains_in_sum(a, b, (d, user + place));
    lemma_contains_in_sum(a, b, (d, system + place));
    lemma_contains_in_sum(a + b, e, (d, user + place));
    lemma_contains_in_sum(a + b, e, (d, system + place));
    let last = (u64::MAX, "/usr/share/icons/"@ + name + ".png"@);
    lemma_contains_in_sum(a + b, e, last);
    lemma_contains_in_sum(a + b + e, f, last);
    lemma_contains_in_sum(a + b + e, f, (d, user + place));
    lemma_contains_in_sum(a + b + e, f, (d, system + place));
    lemma_contains_in_sum(a + b + e, f, (u64::MAX, "/usr/share/pixmaps/"@ + name + ".png"@));
}

proof fn lemma_size_is_listed(size: u32) -> (k: int)
    requires
        size == 512 || size == 256 || size == 128 || size == 96 || size == 64 || size == 48 || size
            == 32,
    ensures
        0 <= k < 7,
        icon_sizes()[k] == size,
{
    if size == 512 {
        0
    } else if size == 256 {
        1
    } else if size == 128 {
        2
    } else if size == 96 {
        3
    } else if size == 64 {
        4
    } else if size == 48 {
        5
    } else {
        6
    }
}

proof fn lemma_contains_in_sum(
    a: Seq<(u64, Seq<char>)>,
    b: Seq<(u64, Seq<char>)>,
    x: (u64, Seq<char>),
)
    ensures
        a.contains(x) || b.contains(x) ==> (a + b).contains(x),
{
    if a.contains(x) {
        let i = choose|i: int| 0 <= i < a.len() && a[i] == x;
        assert((a + b)[i] == x);
    } else if b.contains(x) {
        let i = choose|i: int| 0 <= i < b.len() && b[i] == x;
        assert((a + b)[a.len() + i] == x);
    }
}

proof fn lemma_both_names(
    d: u64,
    prefix: Seq<char>,
    class: Seq<char>,
    lower: Seq<char>,
    name: Seq<char>,
)
    requires
        name == class || name == lower,
    ensures
        both_names(d, prefix, class, lower).contains((d, prefix + name + ".png"@)),
{
    let both = both_names(d, prefix, class, lower);
    if name == lower {
        assert(both[0] == (d, prefix + name + ".png"@));
    } else {
        assert(both[1] == (d, prefix + name + ".png"@));
    }
}

proof fn lemma_theme_is_searched(
    dir: Seq<char>,
    class: Seq<char>,
    lower: Seq<char>,
    target: u32,
    n: nat,
    k: int,
    name: Seq<char>,
)
    requires
        0 <= k < n <= 7,
        name == class || name == lower,
    ensures
        ({
            let size = icon_sizes()[k];
            let d = (if size < target { target - size } else { size - target }) as u64;
            theme_entries(dir, class, lower, target, n).contains(
                (d, size_dir(dir, size) + name + ".png"@),
            )
        }),
    decreases n,
{
    let size = icon_sizes()[k];
    let d = (if size < target { target - size } else { size - target }) as u64;
    let x = (d, size_dir(dir, size) + name + ".png"@);
    let last = icon_sizes()[n - 1];
    let before = theme_entries(dir, class, lower, target, (n - 1) as nat);
    let both = both_names(
        ewmh::off_by(last as int, target as int) as u64,
        size_dir(dir, last),
        class,
        lower,
    );
    if k == n - 1 {
        lemma_both_names(d, size_dir(dir, size), class, lower, name);
    } else {
        lemma_theme_is_searched(dir, class, lower, target, (n - 1) as nat, k, name);
    }
    lemma_contains_in_sum(before, both, x);
}

/// Without a file that holds an icon the search ends without one.
pub proof fn law_without_files_there_is_no_icon<T>(
    left: Seq<Seq<char>>,
    load: spec_fn(Seq<char>) -> Option<T>,
)
    requires
        forall|j: int| 0 <= j < left.len() ==> load(#[trigger] left[j]) is None,
    ensures
        search_result(left, load) is None,
    decreases left.len(),
{
    if left.len() > 0 {
        let rest = left.drop_first();
        assert(forall|j: int| 0 <= j < rest.len() ==> #[trigger] rest[j] == left[j + 1]);
        law_without_files_there_is_no_icon(rest, load);
    }
}

/// The header of an image says how many bytes its samples take: four to a pixel with alpha and three
/// without, at eight bits. Images of up to 8192 pixels in either direction can be held.
pub proof fn law_headers_say_the_size(bytes: Seq<u8>, w: int, h: int)
    requires
        w == bytes[16] * 0x100_0000 + bytes[17] * 0x1_0000 + bytes[18] * 0x100 + bytes[19],
        h == bytes[20] * 0x100_0000 + bytes[21] * 0x1_0000 + bytes[22] * 0x100 + bytes[23],
    ensures
        bytes[24] == 8 && bytes[25] == 6 ==> promised_bytes(bytes) == 4 * w * h,
        bytes[24] == 8 && bytes[25] == 2 ==> promised_bytes(bytes) == 3 * w * h,
        w <= 8192 && h <= 8192 ==> is_holdable(bytes),
{
    let bits = pixel_bits(bytes[24], bytes[25]);
    let row = (w * bits + 7) / 8;
    assert(0 <= w * bits <= w * 64) by (nonlinear_arith)
        requires
            w >= 0,
            0 <= bits <= 64,
    ;
    if bytes[24] == 8 && bytes[25] == 6 {
        assert(w * bits == 32 * w) by (nonlinear_arith)
            requires
                bits == 32,
        ;
    }
    if bytes[24] == 8 && bytes[25] == 2 {
        assert(w * bits == 24 * w) by (nonlinear_arith)
            requires
                bits == 24,
        ;
    }
    if w <= 8192 && h <= 8192 {
        assert(0 <= row * h <= 65_537 * 8192) by (nonlinear_arith)
            requires
                0 <= row <= 65_537,
                0 <= h <= 8192,
        ;
    }
}

/// The icon of a window's class is looked for in every place, under the name of the class and under
/// its lower-case form.
pub proof fn law_the_class_is_searched_for(
    instance: Seq<u8>,
    class: Seq<u8>,
    home: Seq<char>,
    target: u32,
    name: Seq<char>,
    size: u32,
)
    requires
        !instance.contains(0u8),
        !class.contains(0u8),
        class.len() > 0,
        ewmh::utf8_lossy(class).len() > 0,
        name == ewmh::utf8_lossy(class) || name == lowercase(ewmh::utf8_lossy(class)),
        size == 512 || size == 256 || size == 128 || size == 96 || size == 64 || size == 48 || size
            == 32,
    ensures
        ({
            let all = class_paths(Some(instance.push(0) + class.push(0)), home, target);
            let n = text::decimal_of(size as nat);
            let place = "/"@ + n + "x"@ + n + "/apps/"@ + name + ".png"@;
            &&& all.contains(home + "/.local/share/icons/hicolor"@ + place)
            &&& all.contains("/usr/share/icons/hicolor"@ + place)
            &&& all.contains("/usr/share/icons/"@ + name + ".png"@)
            &&& all.contains("/usr/share/pixmaps/"@ + name + ".png"@)
        }),
        class_paths(None, home, target).len() == 0,
{
    let text = ewmh::utf8_lossy(class);
    let lower = lowercase(text);
    ewmh::law_the_class_follows_the_instance(instance, class, seq![]);
    let value = instance.push(0) + class.push(0);
    assert(value + seq![] =~= value);
    law_every_place_is_searched(text, lower, home, target, name, size);
    let entries = icon_entries(text, lower, home, target);
    let n = text::decimal_of(size as nat);
    let place = "/"@ + n + "x"@ + n + "/apps/"@ + name + ".png"@;
    let d = (if size < target { target - size } else { size - target }) as u64;
    lemma_path_is_listed(entries, (d, home + "/.local/share/icons/hicolor"@ + place));
    lemma_path_is_listed(entries, (d, "/usr/share/icons/hicolor"@ + place));
    lemma_path_is_listed(entries, (u64::MAX, "/usr/share/icons/"@ + name + ".png"@));
    lemma_path_is_listed(entries, (u64::MAX, "/usr/share/pixmaps/"@ + name + ".png"@));
}

proof fn lemma_path_is_listed(s: Seq<(u64, Seq<char>)>, x: (u64, Seq<char>))
    requires
        s.contains(x),
    ensures
        paths(by_distance(s)).contains(x.1),
{
    broadcast use vstd::seq_lib::group_to_multiset_ensures;

    law_candidates_come_closest_first(s);
    assert(s.to_multiset().count(x) > 0);
    assert(by_distance(s).contains(x));
    let i = choose|i: int| 0 <= i < by_distance(s).len() && by_distance(s)[i] == x;
    assert(paths(by_distance(s))[i] == x.1);
}

} // verus!
