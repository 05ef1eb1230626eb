//! Choices among what the display offers: monitors, visuals and picture formats.
use vstd::prelude::*;

use crate::layout::MonitorGeom;

verus! {

/// A point lies on a monitor.
pub open spec fn on_monitor(m: MonitorGeom, x: int, y: int) -> bool {
    m.x <= x < m.x + m.w && m.y <= y < m.y + m.h
}

/// The monitor that contains a point: the first that does, or else the first of all.
pub open spec fn monitor_for(ms: Seq<MonitorGeom>, x: int, y: int) -> MonitorGeom {
    match first_monitor(ms, x, y) {
        Some(m) => m,
        None => ms[0],
    }
}

/// The first monitor that contains a point.
pub open spec fn first_monitor(ms: Seq<MonitorGeom>, x: int, y: int) -> Option<MonitorGeom>
    decreases ms.len(),
{
    if ms.len() == 0 {
        None
    } else if on_monitor(ms[0], x, y) {
        Some(ms[0])
    } else {
        first_monitor(ms.drop_first(), x, y)
    }
}

/// Finds which monitor contains the given point.
pub fn monitor_at(monitors: &Vec<MonitorGeom>, x: i16, y: i16) -> (r: MonitorGeom)
    requires
        monitors.len() >= 1,
    ensures
        r == monitor_for(monitors@, x as int, y as int),
{
    let n: usize = monitors.len();
    let mut i: usize = 0;
    assert(monitors@.skip(0) =~= monitors@);
    while i < n
        invariant
            i <= n,
            n == monitors.len(),
            first_monitor(monitors@, x as int, y as int) == first_monitor(
                monitors@.skip(i as int),
                x as int,
                y as int,
            ),
        decreases n - i,
    {
        let m: MonitorGeom = monitors[i];
        let (right, bottom): (i32, i32) = (m.x as i32 + m.w as i32, m.y as i32 + m.h as i32);
        assert(monitors@.skip(i as int)[0] == m);
        assert(monitors@.skip(i as int).drop_first() =~= monitors@.skip(i + 1));
        if x >= m.x && (x as i32) < right && y >= m.y && (y as i32) < bottom {
            return m;
        }
        i = i + 1;
    }
    monitors[0]
}

/// A point on one of the monitors gets a monitor that contains it.
pub proof fn law_monitor_contains_the_point(ms: Seq<MonitorGeom>, i: int, x: int, y: int)
    requires
        0 <= i < ms.len(),
        on_monitor(ms[i], x, y),
    ensures
        on_monitor(monitor_for(ms, x, y), x, y),
        ms.contains(monitor_for(ms, x, y)),
{
    lemma_first_monitor(ms, i, x, y);
}

proof fn lemma_first_monitor(ms: Seq<MonitorGeom>, i: int, x: int, y: int)
    requires
        0 <= i < ms.len(),
        on_monitor(ms[i], x, y),
    ensures
        first_monitor(ms, x, y) is Some,
        on_monitor(first_monitor(ms, x, y)->0, x, y),
        ms.contains(first_monitor(ms, x, y)->0),
    decreases ms.len(),
{
    if !on_monitor(ms[0], x, y) {
        lemma_first_monitor(ms.drop_first(), i - 1, x, y);
        let m = first_monitor(ms, x, y)->0;
        let k = choose|k: int| 0 <= k < ms.drop_first().len() && ms.drop_first()[k] == m;
        assert(ms[k + 1] == m);
    } else {
        assert(ms[0] == first_monitor(ms, x, y)->0);
    }
}

/// The monitors: those that the server reported, if the extension is active and there are any;
/// otherwise the whole screen is one.
pub open spec fn monitors_of(active: bool, reported: Option<Seq<MonitorGeom>>, w: u16, h: u16)
    -> Seq<MonitorGeom> {
    match reported {
        Some(ms) => if active && ms.len() > 0 {
            ms
        } else {
            seq![MonitorGeom { x: 0, y: 0, w, h }]
        },
        None => seq![MonitorGeom { x: 0, y: 0, w, h }],
    }
}

pub open spec fn reported_seq(r: Option<Vec<MonitorGeom>>) -> Option<Seq<MonitorGeom>> {
    match r {
        Some(v) => Some(v@),
        None => None,
    }
}

/// The monitors to lay the popup out on; there is always at least one.
pub fn query_monitors(
    active: bool,
    reported: Option<Vec<MonitorGeom>>,
    screen_w: u16,
    screen_h: u16,
) -> (r: Vec<MonitorGeom>)
    ensures
        r@ == monitors_of(active, reported_seq(reported), screen_w, screen_h),
        r.len() >= 1,
{
    if active {
        if let Some(ms) = reported {
            if ms.len() > 0 {
                return ms;
            }
        }
    }
    vec![MonitorGeom { x: 0, y: 0, w: screen_w, h: screen_h }]
}

/// A visual of a screen.
#[derive(Debug, Clone, Copy, PartialEq, Eq)]
pub struct VisualInfo {
    pub id: u32,
    pub depth: u8,
    pub true_color: bool,
}

/// The first 32-bit TrueColor visual.
pub open spec fn first_argb_visual(vs: Seq<VisualInfo>) -> Option<u32>
    decreases vs.len(),
{
    if vs.len() == 0 {
        None
    } else if vs[0].depth == 32 && vs[0].true_color {
        Some(vs[0].id)
    } else {
        first_argb_visual(vs.drop_first())
    }
}

/// Finds a 32-bit TrueColor (ARGB) visual among the visuals of a screen.
pub fn find_argb_visual(visuals: &Vec<VisualInfo>) -> (r: Option<u32>)
    ensures
        r == first_argb_visual(visuals@),
{
    let n: usize = visuals.len();
    let mut i: usize = 0;
    assert(visuals@.skip(0) =~= visuals@);
    while i < n
        invariant
            i <= n,
            n == visuals.len(),
            first_argb_visual(visuals@) == first_argb_visual(visuals@.skip(i as int)),
        decreases n - i,
    {
        assert(visuals@.skip(i as int)[0] == visuals[i as int]);
        assert(visuals@.skip(i as int).drop_first() =~= visuals@.skip(i + 1));
        if visuals[i].depth == 32 && visuals[i].true_color {
            return Some(visuals[i].id);
        }
        i = i + 1;
    }
    None
}

/// A picture format of the render extension.
#[derive(Debug, Clone, Copy, PartialEq, Eq)]
pub struct PictFormat {
    pub id: u32,
    pub depth: u8,
    pub direct: bool,
    pub alpha_mask: u16,
    pub red_mask: u16,
    pub green_mask: u16,
    pub blue_mask: u16,
}

/// The format holds 32-bit ARGB pixels.
pub open spec fn is_argb32(f: PictFormat) -> bool {
    f.depth == 32 && f.direct && f.alpha_mask == 0xff && f.red_mask == 0xff
}

/// The format holds 8 bits of alpha and nothing else.
pub open spec fn is_a8(f: PictFormat) -> bool {
    f.depth == 8 && f.direct && f.alpha_mask == 0xff && f.red_mask == 0 && f.green_mask == 0
        && f.blue_mask == 0
}

/// The first format that is wanted.
pub open spec fn first_format(fs: Seq<PictFormat>, wanted: spec_fn(PictFormat) -> bool) -> Option<
    u32,
>
    decreases fs.len(),
{
    if fs.len() == 0 {
        None
    } else if wanted(fs[0]) {
        Some(fs[0].id)
    } else {
        first_format(fs.drop_first(), wanted)
    }
}

/// Finds the ARGB32 picture format.
pub fn find_argb32_format(formats: &Vec<PictFormat>) -> (r: Option<u32>)
    ensures
        r == first_format(formats@, |f: PictFormat| is_argb32(f)),
{
    let n: usize = formats.len();
    let mut i: usize = 0;
    let ghost wanted = |f: PictFormat| is_argb32(f);
    assert(formats@.skip(0) =~= formats@);
    while i < n
        invariant
            i <= n,
            n == formats.len(),
            wanted == (|f: PictFormat| is_argb32(f)),
            first_format(formats@, wanted) == first_format(formats@.skip(i as int), wanted),
        decreases n - i,
    {
        let f: PictFormat = formats[i];
        assert(formats@.skip(i as int)[0] == f);
        assert(formats@.skip(i as int).drop_first() =~= formats@.skip(i + 1));
        if f.depth == 32 && f.direct && f.alpha_mask == 0xff && f.red_mask == 0xff {
            assert(wanted(f));
            return Some(f.id);
        }
        assert(!wanted(f));
        i = i + 1;
    }
    None
}

/// Finds the XRender A8 (8-bit alpha-only) picture format.
pub fn find_a8_format(formats: &Vec<PictFormat>) -> (r: Option<u32>)
    ensures
        r == first_format(formats@, |f: PictFormat| is_a8(f)),
{
    let n: usize = formats.len();
    let mut i: usize = 0;
    let ghost wanted = |f: PictFormat| is_a8(f);
    assert(formats@.skip(0) =~= formats@);
    while i < n
        invariant
            i <= n,
            n == formats.len(),
            wanted == (|f: PictFormat| is_a8(f)),
            first_format(formats@, wanted) == first_format(formats@.skip(i as int), wanted),
        decreases n - i,
    {
        let f: PictFormat = formats[i];
        assert(formats@.skip(i as int)[0] == f);
        assert(formats@.skip(i as int).drop_first() =~= formats@.skip(i + 1));
        if f.depth == 8 && f.direct && f.alpha_mask == 0xff && f.red_mask == 0 && f.green_mask == 0
            && f.blue_mask == 0 {
            assert(wanted(f));
            return Some(f.id);
        }
        assert(!wanted(f));
        i = i + 1;
    }
    None
}

/// The picture format of a visual, in a list of visuals with their formats.
pub open spec fn format_of_visual(vs: Seq<(u32, u32)>, visual: u32) -> Option<u32>
    decreases vs.len(),
{
    if vs.len() == 0 {
        None
    } else if vs[0].0 == visual {
        Some(vs[0].1)
    } else {
        format_of_visual(vs.drop_first(), visual)
    }
}

/// Finds the picture format for a visual of a screen. `screens` lists, for each screen, its
/// visuals with their formats.
pub fn find_format_for_visual(
    screens: &Vec<Vec<(u32, u32)>>,
    visual: u32,
    screen_num: usize,
) -> (r: Option<u32>)
    ensures
        r == if screen_num < screens.len() {
            format_of_visual(screens[screen_num as int]@, visual)
        } else {
            None
        },
{
    if screen_num >= screens.len() {
        return None;
    }
    let vs: &Vec<(u32, u32)> = &screens[screen_num];
    let n: usize = vs.len();
    let mut i: usize = 0;
    assert(vs@.skip(0) =~= vs@);
    while i < n
        invariant
            i <= n,
            n == vs.len(),
            screen_num < screens.len(),
            vs@ == screens[screen_num as int]@,
            format_of_visual(vs@, visual) == format_of_visual(vs@.skip(i as int), visual),
        decreases n - i,
    {
        assert(vs@.skip(i as int)[0] == vs[i as int]);
        assert(vs@.skip(i as int).drop_first() =~= vs@.skip(i + 1));
        if vs[i].0 == visual {
            return Some(vs[i].1);
        }
        i = i + 1;
    }
    None
}

/// The monitor of a point is the first one that holds it, or the first of all where none does.
pub proof fn law_the_first_monitor_counts(ms: Seq<MonitorGeom>, x: int, y: int)
    requires
        ms.len() >= 1,
    ensures
        exists|i: int|
            0 <= i < ms.len() && monitor_for(ms, x, y) == #[trigger] ms[i] && {
                ||| ms[i].x <= x < ms[i].x + ms[i].w && ms[i].y <= y < ms[i].y + ms[i].h && (
                forall|j: int|
                    0 <= j < i ==> !((#[trigger] ms[j]).x <= x < ms[j].x + ms[j].w && ms[j].y <= y
                        < ms[j].y + ms[j].h))
                ||| i == 0 && (forall|j: int|
                    0 <= j < ms.len() ==> !((#[trigger] ms[j]).x <= x < ms[j].x + ms[j].w && ms[j].y
                        <= y < ms[j].y + ms[j].h))
            },
{
    let i = lemma_first_monitor_found(ms, x, y);
    if i == ms.len() {
        assert(monitor_for(ms, x, y) == ms[0]);
    } else {
        assert(monitor_for(ms, x, y) == ms[i]);
    }
}

proof fn lemma_first_monitor_found(ms: Seq<MonitorGeom>, x: int, y: int) -> (i: int)
    ensures
        0 <= i <= ms.len(),
        forall|j: int| 0 <= j < i ==> !on_monitor(#[trigger] ms[j], x, y),
        i < ms.len() ==> on_monitor(ms[i], x, y) && first_monitor(ms, x, y) == Some(ms[i]),
        i == ms.len() ==> first_monitor(ms, x, y) is None,
    decreases ms.len(),
{
    if ms.len() == 0 || on_monitor(ms[0], x, y) {
        0
    } else {
        let t = ms.drop_first();
        let i = lemma_first_monitor_found(t, x, y);
        assert forall|j: int| 0 <= j < i + 1 implies !on_monitor(#[trigger] ms[j], x, y) by {
            if j > 0 {
                assert(t[j - 1] == ms[j]);
            }
        }
        i + 1
    }
}

/// The monitors that are reported are used, unless there are none or the query is not available:
/// then the whole screen is the one monitor.
pub proof fn law_there_is_a_monitor(active: bool, ms: Seq<MonitorGeom>, w: u16, h: u16)
    ensures
        active && ms.len() > 0 ==> monitors_of(active, Some(ms), w, h) == ms,
        !active || ms.len() == 0 ==> monitors_of(active, Some(ms), w, h) == seq![
            MonitorGeom { x: 0, y: 0, w, h },
        ],
        monitors_of(active, None, w, h) == seq![MonitorGeom { x: 0, y: 0, w, h }],
{
}

/// The visual for transparency is the first true-colour one of depth 32, if there is any.
pub proof fn law_transparent_visuals(vs: Seq<VisualInfo>)
    ensures
        match first_argb_visual(vs) {
            Some(id) => exists|i: int|
                0 <= i < vs.len() && (#[trigger] vs[i]).id == id && vs[i].depth == 32
                    && vs[i].true_color && (forall|j: int|
                    0 <= j < i ==> !((#[trigger] vs[j]).depth == 32 && vs[j].true_color)),
            None => forall|j: int|
                0 <= j < vs.len() ==> !((#[trigger] vs[j]).depth == 32 && vs[j].true_color),
        },
    decreases vs.len(),
{
    if vs.len() > 0 {
        if vs[0].depth == 32 && vs[0].true_color {
            assert(vs[0].id == vs[0].id);
        } else {
            let t = vs.drop_first();
            law_transparent_visuals(t);
            match first_argb_visual(t) {
                Some(id) => {
                    let i = choose|i: int|
                        0 <= i < t.len() && (#[trigger] t[i]).id == id && t[i].depth == 32
                            && t[i].true_color && (forall|j: int|
                            0 <= j < i ==> !((#[trigger] t[j]).depth == 32 && t[j].true_color));
                    assert(vs[i + 1] == t[i]);
                    assert forall|j: int| 0 <= j < i + 1 implies !((#[trigger] vs[j]).depth == 32
                        && vs[j].true_color) by {
                        if j > 0 {
                            assert(t[j - 1] == vs[j]);
                        }
                    }
                },
                None => {
                    assert forall|j: int| 0 <= j < vs.len() implies !((#[trigger] vs[j]).depth == 32
                        && vs[j].true_color) by {
                        if j > 0 {
                            assert(t[j - 1] == vs[j]);
                        }
                    }
                },
            }
        }
    }
}

/// The format of a picture with alpha: the first direct one of depth 32 with eight bits of alpha
/// and of red. The format of a mask: the first direct one of depth 8 with eight bits of alpha and
/// nothing else. Neither is missed.
pub proof fn law_formats_are_the_first_that_fit(fs: Seq<PictFormat>)
    ensures
        match first_format(fs, |f: PictFormat| is_argb32(f)) {
            Some(id) => exists|i: int|
                0 <= i < fs.len() && (#[trigger] fs[i]).id == id && shows_alpha(fs[i]) && (
                forall|j: int| 0 <= j < i ==> !shows_alpha(#[trigger] fs[j])),
            None => forall|j: int| 0 <= j < fs.len() ==> !shows_alpha(#[trigger] fs[j]),
        },
        match first_format(fs, |f: PictFormat| is_a8(f)) {
            Some(id) => exists|i: int|
                0 <= i < fs.len() && (#[trigger] fs[i]).id == id && shows_mask(fs[i]) && (
                forall|j: int| 0 <= j < i ==> !shows_mask(#[trigger] fs[j])),
            None => forall|j: int| 0 <= j < fs.len() ==> !shows_mask(#[trigger] fs[j]),
        },
{
    lemma_first_format(fs, |f: PictFormat| is_argb32(f));
    lemma_first_format(fs, |f: PictFormat| is_a8(f));
}

/// Colours with eight bits of alpha, four bytes to a pixel.
pub open spec fn shows_alpha(f: PictFormat) -> bool {
    f.depth == 32 && f.direct && f.alpha_mask == 255 && f.red_mask == 255
}

/// Eight bits of alpha and no colours, one byte to a pixel.
pub open spec fn shows_mask(f: PictFormat) -> bool {
    f.depth == 8 && f.direct && f.alpha_mask == 255 && f.red_mask == 0 && f.green_mask == 0
        && f.blue_mask == 0
}

proof fn lemma_first_format(fs: Seq<PictFormat>, wanted: spec_fn(PictFormat) -> bool)
    ensures
        match first_format(fs, wanted) {
            Some(id) => exists|i: int|
                0 <= i < fs.len() && (#[trigger] fs[i]).id == id && wanted(fs[i]) && (forall|j: int|
                    0 <= j < i ==> !wanted(#[trigger] fs[j])),
            None => forall|j: int| 0 <= j < fs.len() ==> !wanted(#[trigger] fs[j]),
        },
    decreases fs.len(),
{
    if fs.len() > 0 {
        if wanted(fs[0]) {
            assert(fs[0].id == fs[0].id);
        } else {
            let t = fs.drop_first();
            lemma_first_format(t, wanted);
            match first_format(t, wanted) {
                Some(id) => {
                    let i = choose|i: int|
                        0 <= i < t.len() && (#[trigger] t[i]).id == id && wanted(t[i]) && (forall|
                            j: int,
                        |
                            0 <= j < i ==> !wanted(#[trigger] t[j]));
                    assert(fs[i + 1] == t[i]);
                    assert forall|j: int| 0 <= j < i + 1 implies !wanted(#[trigger] fs[j]) by {
                        if j > 0 {
                            assert(t[j - 1] == fs[j]);
                        }
                    }
                },
                None => {
                    assert forall|j: int| 0 <= j < fs.len() implies !wanted(#[trigger] fs[j]) by {
                        if j > 0 {
                            assert(t[j - 1] == fs[j]);
                        }
                    }
                },
            }
        }
    }
}

/// The format of a visual is the one that the screen pairs with it first, if it does.
pub proof fn law_formats_belong_to_their_visual(vs: Seq<(u32, u32)>, visual: u32)
    ensures
        match format_of_visual(vs, visual) {
            Some(f) => exists|i: int|
                0 <= i < vs.len() && #[trigger] vs[i] == (visual, f) && (forall|j: int|
                    0 <= j < i ==> (#[trigger] vs[j]).0 != visual),
            None => forall|j: int| 0 <= j < vs.len() ==> (#[trigger] vs[j]).0 != visual,
        },
    decreases vs.len(),
{
    if vs.len() > 0 {
        if vs[0].0 == visual {
            assert(vs[0] == (visual, vs[0].1));
        } else {
            let t = vs.drop_first();
            law_formats_belong_to_their_visual(t, visual);
            match format_of_visual(t, visual) {
                Some(f) => {
                    let i = choose|i: int|
                        0 <= i < t.len() && #[trigger] t[i] == (visual, f) && (forall|j: int|
                            0 <= j < i ==> (#[trigger] t[j]).0 != visual);
                    assert(vs[i + 1] == t[i]);
                    assert forall|j: int| 0 <= j < i + 1 implies (#[trigger] vs[j]).0 != visual by {
                        if j > 0 {
                            assert(t[j - 1] == vs[j]);
                        }
                    }
                },
                None => {
                    assert forall|j: int| 0 <= j < vs.len() implies (#[trigger] vs[j]).0
                        != visual by {
                        if j > 0 {
                            assert(t[j - 1] == vs[j]);
                        }
                    }
                },
            }
        }
    }
}

} // verus!
