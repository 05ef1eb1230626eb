//! The switcher popup: which windows it shows, which one is selected, and what has to be drawn.
use std::collections::VecDeque;
use vstd::prelude::*;

use crate::cache;
use crate::cache::ThumbCache;
use crate::config;
use crate::config::Config;
use crate::ewmh;
use crate::ewmh::Atoms;
use crate::layout;
use crate::layout::{Metrics, MonitorGeom};
use crate::paint;
use crate::text;
use crate::thumbs;
use crate::wire;

verus! {

/// A window in the popup.
#[derive(Debug)]
pub struct WindowEntry {
    pub id: u32,
    pub name: String,
    /// Width, height and ARGB pixels of the icon, once it is loaded.
    pub icon: Option<(u32, u32, Vec<u32>)>,
    /// The window-manager frame: the direct child of the root that encloses this client.
    pub frame: u32,
}

/// What is known of a window before it is listed.
#[derive(Debug)]
pub struct WindowInfo {
    pub id: u32,
    /// The atoms of its `_NET_WM_WINDOW_TYPE`.
    pub types: Vec<u32>,
    /// The bytes of its `_NET_WM_NAME`, if it could be read.
    pub net_name: Option<Vec<u8>>,
    /// The bytes of its `WM_NAME`, if it could be read.
    pub wm_name: Option<Vec<u8>>,
}

/// The state of the switcher.
#[derive(Debug)]
pub struct Switcher {
    pub config: Config,
    pub windows: Vec<WindowEntry>,
    pub selected: usize,
    /// The popup window, while it is shown.
    pub popup: Option<u32>,
    /// The off-screen buffer, kept for the whole popup session: pixmap, picture, width, height.
    pub pix_buf: Option<(u32, u32, u16, u16)>,
    /// The mask that rounds the popup's corners.
    pub win_mask_pic: Option<u32>,
    pub cached_argb_fmt: u32,
    pub cached_a8_fmt: u32,
    /// The popup's background at the last full redraw.
    pub cached_win_bg: u32,
    pub thumb_cache: ThumbCache,
    /// Windows (by index) that still wait for their icon and thumbnail.
    pub enrich_queue: VecDeque<usize>,
    /// Frames that still wait for their thumbnail alone.
    pub thumb_queue: VecDeque<u32>,
}

/// What has to be undone when the popup goes away.
#[derive(Debug, Clone, Copy, PartialEq, Eq)]
pub struct HidePlan {
    /// The popup to destroy.
    pub window: Option<u32>,
    /// The compositor redirection is to be released.
    pub unredirect: bool,
    /// The pixmap and the picture to free.
    pub buffer: Option<(u32, u32)>,
    /// The mask to free.
    pub mask: Option<u32>,
}

/// The window is listed: it is not the popup itself, and none of its types says to skip it.
pub open spec fn is_listed(w: WindowInfo, atoms: Atoms, popup: Option<u32>) -> bool {
    &&& popup != Some(w.id)
    &&& !exists|i: int|
        0 <= i < w.types.len() && ewmh::is_skip_type(#[trigger] w.types@[i], atoms)
}

/// The windows that are listed, in order.
pub open spec fn listed(infos: Seq<WindowInfo>, atoms: Atoms, popup: Option<u32>) -> Seq<
    WindowInfo,
> {
    infos.filter(|w: WindowInfo| is_listed(w, atoms, popup))
}

/// The entry is a fresh one for a window: its name, no icon yet, and its own frame.
pub open spec fn is_fresh(e: WindowEntry, w: WindowInfo) -> bool {
    &&& e.id == w.id
    &&& ewmh::is_window_name(ewmh::bytes_of(w.net_name), ewmh::bytes_of(w.wm_name), e.name@)
    &&& e.icon is None
    &&& e.frame == w.id
}

/// The frames of the entries.
pub open spec fn frames_of(ws: Seq<WindowEntry>) -> Seq<u32> {
    ws.map_values(|e: WindowEntry| e.frame)
}

/// The selected window first, then the others in order.
pub open spec fn enrich_order(n: int, selected: int) -> Seq<usize> {
    if selected < n {
        seq![selected as usize] + Seq::new(selected as nat, |i: int| i as usize) + Seq::new(
            (n - selected - 1) as nat,
            |i: int| (selected + 1 + i) as usize,
        )
    } else {
        Seq::new(n as nat, |i: int| i as usize)
    }
}

impl Switcher {
    /// What always holds: icons have a size, the cache keeps its cap, and without a popup nothing is
    /// left of one.
    pub open spec fn wf(self) -> bool {
        &&& self.config.tile.icon_size >= 1
        &&& self.thumb_cache.wf()
        &&& self.popup is None ==> self.is_bare()
    }

    /// Nothing is left of a popup.
    pub open spec fn is_bare(self) -> bool {
        &&& self.pix_buf is None
        &&& self.win_mask_pic is None
        &&& self.cached_argb_fmt == 0
        &&& self.cached_a8_fmt == 0
        &&& self.enrich_queue@.len() == 0
        &&& self.thumb_queue@.len() == 0
    }

    /// The selection, if there is anything to select, is one of the windows.
    pub open spec fn selection_ok(self) -> bool {
        self.windows.len() > 0 ==> self.selected < self.windows.len()
    }

    /// A switcher without a popup.
    pub fn new(config: Config) -> (r: Switcher)
        requires
            config.tile.icon_size >= 1,
        ensures
            r.wf(),
            r.config == config,
            r.windows.len() == 0,
            r.selected == 0,
            r.popup is None,
            r.thumb_cache@.dom() =~= Set::empty(),
            r.cached_win_bg == 0,
    {
        Switcher {
            config,
            windows: Vec::new(),
            selected: 0,
            popup: None,
            pix_buf: None,
            win_mask_pic: None,
            cached_argb_fmt: 0,
            cached_a8_fmt: 0,
            cached_win_bg: 0,
            thumb_cache: ThumbCache::new(),
            enrich_queue: VecDeque::new(),
            thumb_queue: VecDeque::new(),
        }
    }

    /// The popup window.
    pub fn popup_window(&self) -> (r: Option<u32>)
        ensures
            r == self.popup,
    {
        self.popup
    }

    /// Whether the popup is shown.
    pub fn is_visible(&self) -> (r: bool)
        ensures
            r == self.popup is Some,
    {
        self.popup.is_some()
    }

    /// Whether tiles show thumbnails.
    pub fn wants_thumbs(&self) -> (r: bool)
        ensures
            r == paint::wants_thumbs(self.config),
    {
        text::same_text(self.config.tile.content.as_str(), "thumbnail")
    }

    /// The windows to ask about: all but the popup itself.
    pub fn candidates(&self, win_ids: &Vec<u32>) -> (r: Vec<u32>)
        ensures
            r@ == win_ids@.filter(|w: u32| self.popup != Some(w)),
    {
        let n: usize = win_ids.len();
        let mut r: Vec<u32> = Vec::new();
        let mut i: usize = 0;
        let ghost keep = |w: u32| self.popup != Some(w);
        proof {
            reveal(Seq::filter);
            assert(win_ids@.take(0) =~= seq![]);
        }
        while i < n
            invariant
                i <= n,
                n == win_ids.len(),
                keep == (|w: u32| self.popup != Some(w)),
                r@ == win_ids@.take(i as int).filter(keep),
            decreases n - i,
        {
            let w: u32 = win_ids[i];
            proof {
                reveal(Seq::filter);
                assert(win_ids@.take(i + 1).drop_last() =~= win_ids@.take(i as int));
                assert(win_ids@.take(i + 1).last() == w);
            }
            let is_popup = match self.popup {
                Some(p) => p == w,
                None => false,
            };
            assert(keep(w) == !is_popup);
            if !is_popup {
                r.push(w);
            }
            i = i + 1;
        }
        assert(win_ids@.take(n as int) =~= win_ids@);
        r
    }

    /// Takes over a configuration that was read anew. Nothing happens while the popup is shown;
    /// returns whether the popup may be opened.
    pub fn reload(&mut self, fresh: Option<Config>) -> (r: bool)
        requires
            old(self).wf(),
            fresh matches Some(c) ==> c.tile.icon_size >= 1,
        ensures
            final(self).wf(),
            r == old(self).popup is None,
            !r ==> *final(self) == *old(self),
            r ==> *final(self) == (Switcher {
                config: match fresh {
                    Some(c) => c,
                    None => old(self).config,
                },
                ..*old(self)
            }),
    {
        if self.popup.is_some() {
            return false;
        }
        if let Some(c) = fresh {
            self.config = c;
        }
        true
    }

    /// Populates the window list from what is known of the windows. The popup itself, panels, docks
    /// and the like are left out. Icons and thumbnails come later.
    pub fn load_windows(&mut self, infos: &Vec<WindowInfo>, atoms: &Atoms)
        requires
            old(self).wf(),
        ensures
            final(self).wf(),
            final(self).windows.len() == listed(infos@, *atoms, old(self).popup).len(),
            forall|i: int|
                0 <= i < final(self).windows.len() ==> is_fresh(
                    #[trigger] final(self).windows[i],
                    listed(infos@, *atoms, old(self).popup)[i],
                ),
            *final(self) == (Switcher { windows: final(self).windows, ..*old(self) }),
    {
        let n: usize = infos.len();
        let mut ws: Vec<WindowEntry> = Vec::new();
        let mut i: usize = 0;
        let ghost popup = self.popup;
        proof {
            reveal(Seq::filter);
            assert(infos@.take(0) =~= seq![]);
        }
        while i < n
            invariant
                i <= n,
                n == infos.len(),
                popup == self.popup,
                *self == *old(self),
                ws.len() == listed(infos@.take(i as int), *atoms, popup).len(),
                forall|k: int|
                    0 <= k < ws.len() ==> is_fresh(
                        #[trigger] ws[k],
                        listed(infos@.take(i as int), *atoms, popup)[k],
                    ),
            decreases n - i,
        {
            let w: &WindowInfo = &infos[i];
            proof {
                reveal(Seq::filter);
                assert(infos@.take(i + 1).drop_last() =~= infos@.take(i as int));
                assert(infos@.take(i + 1).last() == *w);
            }
            let is_popup: bool = match self.popup {
                Some(p) => p == w.id,
                None => false,
            };
            if !is_popup && !ewmh::is_skip_window_type(w.types.as_slice(), atoms) {
                assert(is_listed(*w, *atoms, popup));
                let name: String = ewmh::window_name(&w.net_name, &w.wm_name);
                let ghost before = ws@;
                ws.push(WindowEntry { id: w.id, name, icon: None, frame: w.id });
                assert forall|k: int| 0 <= k < ws.len() implies is_fresh(
                    #[trigger] ws[k],
                    listed(infos@.take(i + 1), *atoms, popup)[k],
                ) by {
                    if k < before.len() {
                        assert(ws[k] == before[k]);
                    }
                }
            } else {
                assert(!is_listed(*w, *atoms, popup));
            }
            i = i + 1;
        }
        assert(infos@.take(n as int) =~= infos@);
        self.windows = ws;
    }

    /// The identifiers of the listed windows, in order.
    pub fn window_ids(&self) -> (r: Vec<u32>)
        ensures
            r.len() == self.windows.len(),
            forall|i: int| 0 <= i < r.len() ==> #[trigger] r[i] == self.windows[i].id,
    {
        let n: usize = self.windows.len();
        let mut r: Vec<u32> = Vec::new();
        let mut i: usize = 0;
        while i < n
            invariant
                i <= n,
                n == self.windows.len(),
                r.len() == i,
                forall|k: int| 0 <= k < i ==> #[trigger] r[k] == self.windows[k].id,
            decreases n - i,
        {
            r.push(self.windows[i].id);
            i = i + 1;
        }
        r
    }

    /// The frames of the listed windows, in order.
    fn live_frames(&self) -> (r: Vec<u32>)
        ensures
            r@ == frames_of(self.windows@),
    {
        let n: usize = self.windows.len();
        let mut r: Vec<u32> = Vec::new();
        let mut i: usize = 0;
        while i < n
            invariant
                i <= n,
                n == self.windows.len(),
                r@ == frames_of(self.windows@).take(i as int),
            decreases n - i,
        {
            r.push(self.windows[i].frame);
            i = i + 1;
            assert(r@ =~= frames_of(self.windows@).take(i as int));
        }
        assert(r@ =~= frames_of(self.windows@));
        r
    }
}

/// What the popup window is created with.
#[derive(Debug)]
pub struct PopupPlan {
    pub x: i16,
    pub y: i16,
    pub w: u16,
    pub h: u16,
    pub border_width: u16,
    pub border_color: u32,
    /// The value of the blur hint, where blur is asked for.
    pub blur: Option<Vec<u32>>,
}

/// One window to enrich.
#[derive(Debug, Clone, Copy, PartialEq, Eq)]
pub struct EnrichJob {
    pub index: usize,
    pub id: u32,
    pub frame: u32,
    /// The window has no icon yet.
    pub need_icon: bool,
}

/// The window that is selected when the popup of `n` windows opens.
pub open spec fn first_selected(n: int, backward: bool) -> int {
    if backward {
        n - 1
    } else if n > 1 {
        1
    } else {
        0
    }
}

/// The blur hint: the whole window for window blur, each tile for tile blur alone, none otherwise.
pub open spec fn blur_hint(c: Config, n: int, nc: int) -> Option<Seq<u32>> {
    if c.window.blur {
        Some(seq![])
    } else if c.tile.blur {
        Some(
            ewmh::region_of(
                Metrics::of_config(c).tile_rects(c.window.last_row_position@, n, nc),
            ),
        )
    } else {
        None
    }
}

pub open spec fn opt_seq(v: Option<Vec<u32>>) -> Option<Seq<u32>> {
    match v {
        Some(v) => Some(v@),
        None => None,
    }
}

/// The same entries but for their frames.
pub open spec fn with_frames(
    before: Seq<WindowEntry>,
    after: Seq<WindowEntry>,
    frames: Seq<u32>,
) -> bool {
    &&& after.len() == before.len()
    &&& forall|i: int|
        0 <= i < before.len() ==> #[trigger] after[i] == (WindowEntry {
            frame: frames[i],
            ..before[i]
        })
}

/// The thumbnail of a captured image, for the content area that a configuration gives to tiles.
pub open spec fn is_thumb_of(
    t: (u32, u32, Vec<u32>),
    c: Config,
    data: Seq<u8>,
    w: int,
    h: int,
    depth: u8,
) -> bool {
    let pad = c.tile.padding as int;
    let aw = thumbs::at_least_one(thumbs::content_w(c.tile.width as int, pad));
    let ah = thumbs::at_least_one(thumbs::content_h(c.tile.height as int, pad));
    &&& (t.0 as int, t.1 as int) == thumbs::stored_size(w, h, aw, ah)
    &&& t.2@ == thumbs::stored_pixels(
        thumbs::captured_pixels(data, depth, (w * h) as nat),
        w,
        h,
        aw,
        ah,
    )
}

impl Switcher {
    /// Gives the listed windows their frames.
    fn set_frames(&mut self, frames: &Vec<u32>)
        requires
            old(self).wf(),
            frames.len() == old(self).windows.len(),
        ensures
            final(self).wf(),
            with_frames(old(self).windows@, final(self).windows@, frames@),
            *final(self) == (Switcher { windows: final(self).windows, ..*old(self) }),
    {
        let n: usize = self.windows.len();
        let mut i: usize = 0;
        let ghost start = *self;
        while i < n
            invariant
                i <= n,
                n == self.windows.len(),
                n == frames.len(),
                start.wf(),
                *self == (Switcher { windows: self.windows, ..start }),
                self.windows.len() == start.windows.len(),
                forall|k: int|
                    0 <= k < i ==> #[trigger] self.windows[k] == (WindowEntry {
                        frame: frames[k],
                        ..start.windows[k]
                    }),
                forall|k: int| i <= k < n ==> #[trigger] self.windows[k] == start.windows[k],
            decreases n - i,
        {
            self.windows[i].frame = frames[i];
            i = i + 1;
        }
    }

    /// Prepares the popup: takes the frames of the windows, where they were looked up, and selects
    /// the second window, or the last one when going backward. Returns whether there is anything
    /// to show.
    pub fn show(&mut self, frames: Option<Vec<u32>>, backward: bool) -> (r: bool)
        requires
            old(self).wf(),
            old(self).popup is None,
            frames matches Some(f) ==> f.len() == old(self).windows.len(),
        ensures
            final(self).wf(),
            r == (old(self).windows.len() > 0),
            match frames {
                Some(f) => with_frames(old(self).windows@, final(self).windows@, f@),
                None => final(self).windows == old(self).windows,
            },
            final(self).selected == if !r {
                old(self).selected as int
            } else if backward {
                old(self).windows.len() - 1
            } else if old(self).windows.len() > 1 {
                1
            } else {
                0
            },
            r ==> final(self).selected == first_selected(
                old(self).windows.len() as int,
                backward,
            ),
            *final(self) == (Switcher {
                windows: final(self).windows,
                selected: final(self).selected,
                ..*old(self)
            }),
    {
        if let Some(f) = frames {
            self.set_frames(&f);
        }
        let n: usize = self.windows.len();
        if n == 0 {
            return false;
        }
        self.selected = if backward {
            n - 1
        } else if n > 1 {
            1
        } else {
            0
        };
        true
    }

    /// The popup window on a monitor.
    pub open spec fn is_popup_plan(self, mon: MonitorGeom, p: PopupPlan) -> bool {
        let c = self.config;
        let m = Metrics::of_config(c);
        let n = self.windows.len() as int;
        let nc = m.columns(n, mon.w as int);
        let (w, h) = (m.popup_w(nc), m.popup_h(layout::ceil_div(n, nc)));
        &&& (p.x as int, p.y as int) == Metrics::popup_origin(c.window.position@, mon, w, h)
        &&& (p.w as int, p.h as int) == (wire::u16_of(w), wire::u16_of(h))
        &&& p.border_width == wire::u16_of(c.window.outer_border_width as int)
        &&& p.border_color == paint::color(c.window.border@)
    }

    /// Where and how the popup window is created.
    pub fn create_popup(&self, mon: &MonitorGeom) -> (r: PopupPlan)
        ensures
            ({
                let m = Metrics::of_config(self.config);
                let n = self.windows.len() as int;
                let nc = m.columns(n, mon.w as int);
                let w = m.popup_w(nc);
                let h = m.popup_h(layout::ceil_div(n, nc));
                &&& (r.x as int, r.y as int) == Metrics::popup_origin(
                    self.config.window.position@,
                    *mon,
                    w,
                    h,
                )
                &&& r.w == wire::u16_of(w)
                &&& r.h == wire::u16_of(h)
                &&& r.border_width == wire::u16_of(self.config.window.outer_border_width as int)
                &&& r.border_color == paint::color(self.config.window.border@)
                &&& opt_seq(r.blur) == blur_hint(self.config, n, nc)
            }),
            self.is_popup_plan(*mon, r),
    {
        let c: &Config = &self.config;
        let m: Metrics = Metrics::of(c);
        let n: usize = self.windows.len();
        let (x, y, w, h): (i16, i16, u16, u16) = m.popup_dims(c.window.position.as_str(), n, mon);
        let blur: Option<Vec<u32>> = if c.window.blur {
            let whole: Vec<u32> = Vec::new();
            assert(whole@ =~= seq![]);
            Some(whole)
        } else if c.tile.blur {
            let (nc, _): (usize, usize) = m.grid_layout(n, mon.w);
            let rects = m.content_rects(c.window.last_row_position.as_str(), n, nc);
            Some(ewmh::blur_region(&rects))
        } else {
            None
        };
        PopupPlan {
            x,
            y,
            w,
            h,
            border_width: wire::extent(c.window.outer_border_width),
            border_color: Config::color_argb(c.window.border.as_str()),
            blur,
        }
    }

    /// The popup window was created and is shown.
    pub fn opened(&mut self, win: u32)
        requires
            old(self).wf(),
            old(self).popup is None,
        ensures
            final(self).wf(),
            *final(self) == (Switcher { popup: Some(win), ..*old(self) }),
    {
        self.popup = Some(win);
    }

    /// Queues every window for enrichment, the selected one first, then the rest in order.
    pub fn queue_enrichment(&mut self)
        requires
            old(self).wf(),
            old(self).popup is Some,
        ensures
            final(self).wf(),
            final(self).enrich_queue@ == enrich_order(
                old(self).windows.len() as int,
                old(self).selected as int,
            ),
            *final(self) == (Switcher { enrich_queue: final(self).enrich_queue, ..*old(self) }),
    {
        let n: usize = self.windows.len();
        let sel: usize = self.selected;
        let ghost want = enrich_order(n as int, sel as int);
        let mut q: VecDeque<usize> = VecDeque::new();
        if sel < n {
            q.push_back(sel);
        }
        let mut i: usize = 0;
        assert(q@ =~= want.take(if sel < n { 1int } else { 0int }));
        while i < n
            invariant
                i <= n,
                want == enrich_order(n as int, sel as int),
                q@ == want.take(
                    if sel < n && i <= sel {
                        1 + i
                    } else {
                        i as int
                    },
                ),
            decreases n - i,
        {
            let ghost before = q@;
            if i != sel {
                q.push_back(i);
            }
            i = i + 1;
            proof {
                let len = if sel < n && i <= sel {
                    1 + i
                } else {
                    i as int
                };
                assert(i - 1 != sel ==> q@ =~= before.push(want[len - 1]));
                assert(q@ =~= want.take(len));
            }
        }
        assert(q@ =~= want);
        self.enrich_queue = q;
    }

    /// True while windows are still waiting to be enriched (icon and thumbnail).
    pub fn has_pending_enrich(&self) -> (r: bool)
        ensures
            r == (self.enrich_queue@.len() > 0),
    {
        self.enrich_queue.len() > 0
    }

    /// What has to be done for the window at the front of the queue.
    pub open spec fn enrich_job(self) -> Option<EnrichJob> {
        let q = self.enrich_queue@;
        if q.len() > 0 && q[0] < self.windows.len() {
            let w = self.windows[q[0] as int];
            Some(
                EnrichJob { index: q[0], id: w.id, frame: w.frame, need_icon: w.icon is None },
            )
        } else {
            None
        }
    }

    /// Takes the window at the front of the queue: the one to fetch an icon for, if it has none
    /// yet, and to capture. There is none if the queue is empty or the window is no longer listed.
    pub fn pump_one_enrich(&mut self) -> (r: Option<EnrichJob>)
        requires
            old(self).wf(),
        ensures
            final(self).wf(),
            ({
                let q = old(self).enrich_queue@;
                let ws = old(self).windows@;
                &&& r is Some <==> q.len() > 0 && q[0] < ws.len()
                &&& r matches Some(job) ==> {
                    &&& job.index == q[0]
                    &&& job.id == ws[q[0] as int].id
                    &&& job.frame == ws[q[0] as int].frame
                    &&& job.need_icon == ws[q[0] as int].icon is None
                }
                &&& r == old(self).enrich_job()
                &&& final(self).enrich_queue@ == if q.len() > 0 {
                    q.drop_first()
                } else {
                    q
                }
            }),
            *final(self) == (Switcher { enrich_queue: final(self).enrich_queue, ..*old(self) }),
    {
        let ghost q = self.enrich_queue@;
        match self.enrich_queue.pop_front() {
            Some(index) => {
                assert(self.enrich_queue@ =~= q.drop_first());
                if index >= self.windows.len() {
                    return None;
                }
                let w: &WindowEntry = &self.windows[index];
                Some(
                    EnrichJob { index, id: w.id, frame: w.frame, need_icon: w.icon.is_none() },
                )
            },
            None => None,
        }
    }

    /// Stores the icon that was fetched for a window.
    pub fn set_icon(&mut self, index: usize, icon: Option<(u32, u32, Vec<u32>)>)
        requires
            old(self).wf(),
            index < old(self).windows.len(),
        ensures
            final(self).wf(),
            final(self).windows@ == old(self).windows@.update(
                index as int,
                WindowEntry { icon, ..old(self).windows[index as int] },
            ),
            *final(self) == (Switcher { windows: final(self).windows, ..*old(self) }),
    {
        self.windows[index].icon = icon;
        assert(self.windows@ =~= old(self).windows@.update(
            index as int,
            WindowEntry { icon, ..old(self).windows[index as int] },
        ));
    }

    /// Queues the frames of all windows for their thumbnails alone, where tiles show thumbnails.
    pub fn queue_thumbs(&mut self)
        requires
            old(self).wf(),
            old(self).popup is Some,
        ensures
            final(self).wf(),
            final(self).thumb_queue@ == if paint::wants_thumbs(old(self).config) {
                frames_of(old(self).windows@)
            } else {
                old(self).thumb_queue@
            },
            *final(self) == (Switcher { thumb_queue: final(self).thumb_queue, ..*old(self) }),
    {
        if !self.wants_thumbs() {
            return;
        }
        let n: usize = self.windows.len();
        let mut q: VecDeque<u32> = VecDeque::new();
        let mut i: usize = 0;
        while i < n
            invariant
                i <= n,
                n == self.windows.len(),
                q@ == frames_of(self.windows@).take(i as int),
            decreases n - i,
        {
            q.push_back(self.windows[i].frame);
            i = i + 1;
            assert(q@ =~= frames_of(self.windows@).take(i as int));
        }
        assert(q@ =~= frames_of(self.windows@));
        self.thumb_queue = q;
    }

    /// True while frames are still waiting for their thumbnail alone.
    pub fn has_pending_thumbs(&self) -> (r: bool)
        ensures
            r == (self.thumb_queue@.len() > 0),
    {
        self.thumb_queue.len() > 0
    }

    /// Takes the frame at the front of the thumbnail queue.
    pub fn pump_one_thumb(&mut self) -> (r: Option<u32>)
        requires
            old(self).wf(),
        ensures
            final(self).wf(),
            match r {
                Some(frame) => {
                    let q = old(self).thumb_queue@;
                    q.len() > 0 && frame == q[0] && final(self).thumb_queue@ == q.drop_first()
                },
                None => old(self).thumb_queue@.len() == 0 && final(self).thumb_queue@.len() == 0,
            },
            *final(self) == (Switcher { thumb_queue: final(self).thumb_queue, ..*old(self) }),
    {
        let ghost q = self.thumb_queue@;
        let r: Option<u32> = self.thumb_queue.pop_front();
        assert(r is Some ==> self.thumb_queue@ =~= q.drop_first());
        r
    }

    /// Keeps the thumbnail of a captured window, so that it is there when the window moves to
    /// another desktop and can no longer be captured. Nothing happens outside thumbnail mode, or
    /// when the capture is of no use; returns whether a thumbnail was kept.
    pub fn cache_thumb(&mut self, frame: u32, data: &[u8], w: u32, h: u32, depth: u8) -> (r: bool)
        requires
            old(self).wf(),
        ensures
            final(self).wf(),
            r == (paint::wants_thumbs(old(self).config) && thumbs::capture_size_ok(
                w as int,
                h as int,
            ) && data.len() >= 4 * (w * h)),
            !r ==> *final(self) == *old(self),
            r ==> {
                let t = final(self).thumb_cache@[frame];
                &&& is_thumb_of(t, old(self).config, data@, w as int, h as int, depth)
                &&& cache::stored(
                    old(self).thumb_cache@,
                    final(self).thumb_cache@,
                    frame,
                    t,
                    frames_of(old(self).windows@).to_set(),
                )
                &&& *final(self) == (Switcher {
                    thumb_cache: final(self).thumb_cache,
                    ..*old(self)
                })
            },
    {
        if !self.wants_thumbs() {
            return false;
        }
        let t = &self.config.tile;
        let (cw, ch): (u32, u32) = thumbs::content_size(t.width, t.height, t.padding);
        let avail_w: u32 = if cw < 1 { 1 } else { cw };
        let avail_h: u32 = if ch < 1 { 1 } else { ch };
        match thumbs::thumb_of_capture(data, w, h, depth, avail_w, avail_h) {
            None => false,
            Some(thumb) => {
                let live: Vec<u32> = self.live_frames();
                let ghost before = self.thumb_cache@;
                self.thumb_cache.store(frame, thumb, &live);
                proof {
                    cache::law_stored_thumbnails_are_found(
                        before,
                        self.thumb_cache@,
                        frame,
                        thumb,
                        live@.to_set(),
                    );
                }
                true
            },
        }
    }

    /// Forgets the thumbnail of a window that is gone.
    pub fn on_window_destroyed(&mut self, win: u32)
        requires
            old(self).wf(),
        ensures
            final(self).wf(),
            final(self).thumb_cache@ == old(self).thumb_cache@.remove(win),
            *final(self) == (Switcher { thumb_cache: final(self).thumb_cache, ..*old(self) }),
    {
        self.thumb_cache.forget(win);
    }

    /// What is left when the popup is gone.
    pub open spec fn hidden(before: Switcher, after: Switcher) -> bool {
        &&& after.wf()
        &&& after.popup is None
        &&& after.is_bare()
        &&& after.windows.len() == 0
        &&& after.config == before.config
        &&& after.selected == before.selected
        &&& after.cached_win_bg == before.cached_win_bg
        &&& after.thumb_cache == before.thumb_cache
    }

    /// What has to be undone when the popup goes away.
    pub open spec fn hide_plan(self) -> HidePlan {
        HidePlan {
            window: self.popup,
            unredirect: self.popup is Some && paint::wants_thumbs(self.config),
            buffer: match self.pix_buf {
                Some((pixmap, picture, _, _)) => Some((pixmap, picture)),
                None => None,
            },
            mask: self.win_mask_pic,
        }
    }

    /// Hides the popup and forgets its windows. Returns what has to be undone.
    pub fn dismiss(&mut self) -> (r: HidePlan)
        requires
            old(self).wf(),
        ensures
            r == old(self).hide_plan(),
            Self::hidden(*old(self), *final(self)),
    {
        let unredirect: bool = self.popup.is_some() && self.wants_thumbs();
        let buffer: Option<(u32, u32)> = match self.pix_buf {
            Some((pixmap, picture, _, _)) => Some((pixmap, picture)),
            None => None,
        };
        let plan = HidePlan { window: self.popup, unredirect, buffer, mask: self.win_mask_pic };
        self.popup = None;
        self.pix_buf = None;
        self.win_mask_pic = None;
        self.cached_argb_fmt = 0;
        self.cached_a8_fmt = 0;
        self.windows.clear();
        self.enrich_queue.clear();
        self.thumb_queue.clear();
        plan
    }

    /// Hides the popup. Returns what has to be undone, and the window to switch to: the selected
    /// one.
    pub fn commit(&mut self) -> (r: (HidePlan, Option<u32>))
        requires
            old(self).wf(),
        ensures
            r.0 == old(self).hide_plan(),
            r.1 == if old(self).selected < old(self).windows.len() {
                Some(old(self).windows[old(self).selected as int].id)
            } else {
                None
            },
            Self::hidden(*old(self), *final(self)),
    {
        let target: Option<u32> = if self.selected < self.windows.len() {
            Some(self.windows[self.selected].id)
        } else {
            None
        };
        (self.dismiss(), target)
    }

    /// Hides the popup and leaves the focus where it was.
    pub fn cancel(&mut self) -> (r: HidePlan)
        requires
            old(self).wf(),
        ensures
            r == old(self).hide_plan(),
            Self::hidden(*old(self), *final(self)),
    {
        self.dismiss()
    }
}

/// Every window is enriched exactly once, and the selected one before all others.
pub proof fn law_every_window_is_enriched_once(n: int, selected: int)
    requires
        0 <= selected < n <= usize::MAX,
    ensures
        enrich_order(n, selected).len() == n,
        enrich_order(n, selected)[0] == selected,
        enrich_order(n, selected).no_duplicates(),
        forall|w: usize| w < n <==> #[trigger] enrich_order(n, selected).contains(w),
{
    let q = enrich_order(n, selected);
    assert forall|w: usize| w < n <==> #[trigger] q.contains(w) by {
        if w < n {
            if w == selected {
                assert(q[0] == w);
            } else if w < selected {
                assert(q[1 + w] == w);
            } else {
                assert(q[w as int] == w);
            }
        }
    }
}

/// After the popup has gone, and whatever led there, opening it again starts from nothing: there
/// is no window, no buffer, no mask and no pending work left.
pub proof fn law_a_hidden_popup_leaves_nothing(before: Switcher, after: Switcher)
    requires
        Switcher::hidden(before, after),
    ensures
        after.wf(),
        after.windows.len() == 0,
        after.enrich_queue@.len() == 0,
        after.thumb_queue@.len() == 0,
        after.hide_plan() == (HidePlan {
            window: None,
            unredirect: false,
            buffer: None,
            mask: None,
        }),
{
}

/// Every window is listed in its turn, but for the popup itself and for desktops, docks, toolbars,
/// splashes and notifications.
pub proof fn law_only_special_windows_are_left_out(
    infos: Seq<WindowInfo>,
    more: Seq<WindowInfo>,
    atoms: Atoms,
    popup: Option<u32>,
    w: WindowInfo,
)
    ensures
        listed(infos + more, atoms, popup) == listed(infos, atoms, popup) + listed(
            more,
            atoms,
            popup,
        ),
        listed(seq![w], atoms, popup) == if popup != Some(w.id) && (forall|i: int|
            0 <= i < w.types.len() ==> {
                &&& #[trigger] w.types[i] != atoms.wt_desktop
                &&& w.types[i] != atoms.wt_dock
                &&& w.types[i] != atoms.wt_toolbar
                &&& w.types[i] != atoms.wt_splash
                &&& w.types[i] != atoms.wt_notification
            }) {
            seq![w]
        } else {
            seq![]
        },
{
    let pred = |w: WindowInfo| is_listed(w, atoms, popup);
    Seq::filter_distributes_over_add(infos, more, pred);
    reveal(Seq::filter);
    let one = seq![w];
    assert(one.drop_last() =~= seq![]);
    assert(one.drop_last().filter(pred) =~= seq![]);
    assert(one.last() == w);
    let special = exists|i: int|
        0 <= i < w.types.len() && ewmh::is_skip_type(#[trigger] w.types@[i], atoms);
    if forall|i: int|
        0 <= i < w.types.len() ==> {
            &&& #[trigger] w.types[i] != atoms.wt_desktop
            &&& w.types[i] != atoms.wt_dock
            &&& w.types[i] != atoms.wt_toolbar
            &&& w.types[i] != atoms.wt_splash
            &&& w.types[i] != atoms.wt_notification
        } {
        assert(!special);
    } else {
        let i = choose|i: int|
            0 <= i < w.types.len() && !{
                &&& #[trigger] w.types[i] != atoms.wt_desktop
                &&& w.types[i] != atoms.wt_dock
                &&& w.types[i] != atoms.wt_toolbar
                &&& w.types[i] != atoms.wt_splash
                &&& w.types[i] != atoms.wt_notification
            };
        assert(ewmh::is_skip_type(w.types@[i], atoms));
    }
    assert(listed(one, atoms, popup) =~= if is_listed(w, atoms, popup) {
        seq![w]
    } else {
        seq![]
    });
}

/// A listed window goes by the name that it set, the newer property before the older one, and starts
/// without an icon and as its own frame.
pub proof fn law_listed_windows_keep_their_names(e: WindowEntry, w: WindowInfo, set: Seq<char>)
    requires
        is_fresh(e, w),
        set.len() > 0,
        match (w.net_name, w.wm_name) {
            (Some(net), _) if net.len() > 0 => net@ == vstd::utf8::encode_utf8(set),
            (_, Some(wm)) => wm@ == vstd::utf8::encode_utf8(set),
            _ => false,
        },
    ensures
        e.id == w.id,
        e.name@ == set,
        e.icon is None,
        e.frame == w.id,
{
    ewmh::law_utf8_names_are_kept(
        ewmh::bytes_of(w.net_name),
        ewmh::bytes_of(w.wm_name),
        set,
        e.name@,
    );
}

/// Whatever the popup has taken up is given back: the window, the buffer, the mask, and the
/// redirection for thumbnails.
pub proof fn law_hiding_gives_everything_back(s: Switcher)
    ensures
        s.hide_plan().window == s.popup,
        s.hide_plan().mask == s.win_mask_pic,
        s.pix_buf matches Some(b) ==> s.hide_plan().buffer == Some((b.0, b.1)),
        s.pix_buf is None ==> s.hide_plan().buffer is None,
        s.hide_plan().unredirect <==> s.popup is Some && s.config.tile.content@ == "thumbnail"@,
{
}

/// Behind a popup that is to be blurred as a whole there is one blurred region, the whole window;
/// behind one whose tiles are to be blurred there is a region for each tile, which is where the tile
/// is; and behind any other there is none.
pub proof fn law_blur_lies_behind_the_tiles(c: Config, n: int, nc: int, i: int)
    requires
        0 <= i < n,
        nc >= 1,
        c.tile.width < 0x1_0000,
        c.tile.height < 0x1_0000,
        Metrics::of_config(c).popup_w(nc) <= i16::MAX,
        Metrics::of_config(c).popup_h(layout::ceil_div(n, nc)) <= i16::MAX,
    ensures
        c.window.blur ==> blur_hint(c, n, nc) == Some(Seq::<u32>::empty()),
        !c.window.blur && c.tile.blur ==> (blur_hint(c, n, nc) matches Some(r) && {
            let m = Metrics::of_config(c);
            &&& r.len() == 4 * n
            &&& r[4 * i] == m.tile_x(c.window.last_row_position@, n, nc, i)
            &&& r[4 * i + 1] == m.tile_y(nc, i)
            &&& r[4 * i + 2] == c.tile.width
            &&& r[4 * i + 3] == c.tile.height
        }),
        !c.window.blur && !c.tile.blur ==> blur_hint(c, n, nc) is None,
{
    let m = Metrics::of_config(c);
    let align = c.window.last_row_position@;
    let rects = m.tile_rects(align, n, nc);
    m.law_tiles_lie_inside_the_popup(align, n, nc, i);
    wire::law_coordinates_in_range_are_exact(m.tile_x(align, n, nc, i));
    wire::law_coordinates_in_range_are_exact(m.tile_y(nc, i));
    wire::law_coordinates_in_range_are_exact(c.tile.width as int);
    wire::law_coordinates_in_range_are_exact(c.tile.height as int);
    ewmh::law_regions_list_their_rectangles(rects, i);
}

/// A thumbnail that is kept has the size of the captured window where that fits into the tile's
/// content area, and else fills that area in one direction with its proportions kept.
pub proof fn law_kept_thumbnails_fill_their_tile(
    t: (u32, u32, Vec<u32>),
    c: Config,
    data: Seq<u8>,
    w: int,
    h: int,
    depth: u8,
)
    requires
        is_thumb_of(t, c, data, w, h, depth),
        1 <= w <= 8192,
        1 <= h <= 8192,
        c.tile.width > 2 * c.tile.padding,
        c.tile.height > 48 + 2 * c.tile.padding,
    ensures
        ({
            let (aw, ah) = (
                c.tile.width - 2 * c.tile.padding,
                c.tile.height - 48 - 2 * c.tile.padding,
            );
            &&& w <= aw && h <= ah ==> t.0 == w && t.1 == h
            &&& w > aw || h > ah ==> thumbs::fills((t.0 as int, t.1 as int), (w, h), (aw, ah))
        }),
{
    thumbs::law_thumbnails_keep_the_proportions(
        w,
        h,
        c.tile.width - 2 * c.tile.padding,
        c.tile.height - 48 - 2 * c.tile.padding,
    );
}

/// Behind the selected window the others wait in their order; without a selection all do.
pub proof fn law_the_others_wait_in_order(n: int, selected: int, i: int, j: int)
    requires
        0 <= n <= usize::MAX,
        0 <= selected,
        0 <= i < j < n,
    ensures
        (selected < n ==> i >= 1) ==> enrich_order(n, selected)[i] < enrich_order(n, selected)[j],
        enrich_order(n, selected).len() == n,
{
}

/// Looking up the frames gives each window its own and leaves the rest of it as it is.
pub proof fn law_frames_go_to_their_windows(
    before: Seq<WindowEntry>,
    after: Seq<WindowEntry>,
    frames: Seq<u32>,
    i: int,
)
    requires
        with_frames(before, after, frames),
        0 <= i < before.len(),
    ensures
        after.len() == before.len(),
        after[i].frame == frames[i],
        after[i].id == before[i].id,
        after[i].name == before[i].name,
        after[i].icon == before[i].icon,
{
}

/// Hiding the popup keeps the configuration, the thumbnails and the selection.
pub proof fn law_hiding_keeps_what_is_known(before: Switcher, after: Switcher)
    requires
        Switcher::hidden(before, after),
    ensures
        after.popup is None,
        after.config == before.config,
        after.thumb_cache == before.thumb_cache,
        after.selected == before.selected,
        after.cached_win_bg == before.cached_win_bg,
{
}

/// A thumbnail that is kept shows the window: where the part of the capture that a pixel stands for
/// has one colour, the pixel has that colour.
pub proof fn law_kept_thumbnails_show_their_window(
    t: (u32, u32, Vec<u32>),
    c: Config,
    data: Seq<u8>,
    w: int,
    h: int,
    depth: u8,
    dx: int,
    dy: int,
    blue: u8,
    green: u8,
    red: u8,
    alpha: u8,
)
    requires
        is_thumb_of(t, c, data, w, h, depth),
        1 <= w <= 8192,
        1 <= h <= 8192,
        4 * (w * h) <= data.len(),
        0 <= dx < t.0,
        0 <= dy < t.1,
        forall|x: int, y: int|
            #[trigger] thumbs::stands_for(w, h, t.0 as int, t.1 as int, dx, dy, x, y) ==> {
                let i = 4 * (y * w + x);
                &&& data[i] == blue
                &&& data[i + 1] == green
                &&& data[i + 2] == red
                &&& depth == 32 ==> data[i + 3] == alpha
            },
        depth != 32 ==> alpha == 0xff,
    ensures
        t.2@[dy * t.0 + dx] == alpha * 0x100_0000 + red * 0x1_0000 + green * 0x100 + blue,
{
    let pad = c.tile.padding as int;
    thumbs::law_thumbnails_show_the_window(
        data,
        depth,
        w,
        h,
        thumbs::at_least_one(thumbs::content_w(c.tile.width as int, pad)),
        thumbs::at_least_one(thumbs::content_h(c.tile.height as int, pad)),
        dx,
        dy,
        blue,
        green,
        red,
        alpha,
    );
}

/// Opening the popup moves one step from the window in use, which is the first: to the second, where
/// there is one, or back to the last.
pub proof fn law_opening_moves_one_step(n: int, backward: bool)
    requires
        n >= 1,
    ensures
        0 <= first_selected(n, backward) < n,
        backward ==> first_selected(n, backward) + 1 == n,
        !backward && n == 1 ==> first_selected(n, backward) == 0,
        !backward && n >= 2 ==> first_selected(n, backward) == 1,
{
}

/// The window at the front of the queue is the one to enrich: with its own number and frame, and with
/// an icon just when it has none. Nothing is done for a window that is no longer listed.
pub proof fn law_the_front_of_the_queue_is_enriched(s: Switcher)
    ensures
        match s.enrich_job() {
            Some(job) => {
                &&& s.enrich_queue@.len() > 0 && job.index == s.enrich_queue@.first()
                &&& job.index < s.windows.len()
                &&& job.id == s.windows[job.index as int].id
                &&& job.frame == s.windows[job.index as int].frame
                &&& job.need_icon <==> s.windows[job.index as int].icon is None
            },
            None => s.enrich_queue@.len() > 0 ==> s.enrich_queue@.first() >= s.windows.len(),
        },
{
}

/// The popup has the configured border, keeps the size that its tiles need, and lies on its monitor
/// in the middle where no place is given for it.
pub proof fn law_popups_are_made_as_configured(s: Switcher, mon: MonitorGeom, p: PopupPlan)
    requires
        s.is_popup_plan(mon, p),
        s.windows.len() >= 1,
        Metrics::of_config(s.config).popup_w(s.columns(mon)) <= mon.w,
        Metrics::of_config(s.config).popup_h(
            layout::ceil_div(s.windows.len() as int, s.columns(mon)),
        ) <= mon.h,
        mon.x + mon.w <= i16::MAX,
        mon.y + mon.h <= i16::MAX,
        s.config.window.outer_border_width < 0x1_0000,
    ensures
        p.border_width == s.config.window.outer_border_width,
        p.border_color == config::color_of(s.config.window.border@) as u32,
        p.w == Metrics::of_config(s.config).popup_w(s.columns(mon)),
        p.h == Metrics::of_config(s.config).popup_h(
            layout::ceil_div(s.windows.len() as int, s.columns(mon)),
        ),
        !s.config.window.position@.contains(',') ==> {
            &&& 0 <= (mon.x + mon.w - (p.x + p.w)) - (p.x - mon.x) <= 1
            &&& 0 <= (mon.y + mon.h - (p.y + p.h)) - (p.y - mon.y) <= 1
        },
{
    let m = Metrics::of_config(s.config);
    let n = s.windows.len() as int;
    let nc = s.columns(mon);
    let (w, h) = (m.popup_w(nc), m.popup_h(layout::ceil_div(n, nc)));
    let align = s.config.window.last_row_position@;
    m.law_columns_keep_the_margin(n, mon.w as int);
    m.law_tiles_lie_inside_the_popup(align, n, nc, 0);
    wire::law_coordinates_in_range_are_exact(w);
    wire::law_coordinates_in_range_are_exact(h);
    wire::law_coordinates_in_range_are_exact(s.config.window.outer_border_width as int);
    if !s.config.window.position@.contains(',') {
        Metrics::law_popup_is_centred(s.config.window.position@, mon, w, h);
    }
}

} // verus!
