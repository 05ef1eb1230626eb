//! Drawing the popup: the steps of a full redraw, the partial redraw when the selection moves, and
//! what input does to the selection.
use vstd::prelude::*;

use crate::argb;
use crate::config;
use crate::config::Config;
use crate::display;
use crate::display::PictFormat;
use crate::label;
use crate::layout;
use crate::layout::{Metrics, MonitorGeom, TileGeom};
use crate::paint;
use crate::paint::{Background, Border, BorderPaint, Content, Frame};
use crate::shapes::{Area, Fill, Shape};
use crate::switcher::{HidePlan, Switcher, WindowEntry};
use crate::text;
use crate::thumbs;
use crate::wire;

verus! {

/// The place after another, the first after the last.
pub open spec fn one_on(selected: int, n: int) -> int {
    (selected + 1) % n
}

/// The place before another, the last before the first.
pub open spec fn one_back(selected: int, n: int) -> int {
    if selected == 0 {
        n - 1
    } else {
        selected - 1
    }
}

/// Tile `i` of `n` in `nc` columns.
pub open spec fn tile_of(c: Config, n: int, nc: int, i: int) -> TileGeom {
    let m = Metrics::of_config(c);
    TileGeom {
        x: wire::w16(m.tile_x(c.window.last_row_position@, n, nc, i)) as i16,
        y: wire::w16(m.tile_y(nc, i)) as i16,
        w: m.tile_w,
        h: m.tile_h,
    }
}

/// Tile borders are rounded: a radius is asked for, and there is a format for masks.
pub open spec fn rounded_tiles(c: Config, a8_fmt: u32) -> bool {
    c.tile.border_radius > 0 && a8_fmt != 0
}

/// What moving the selection takes.
#[derive(Debug, Clone, Copy, PartialEq, Eq)]
pub enum BorderRedraw {
    /// Nothing has changed, or nothing is drawn yet.
    Nothing,
    /// Everything: a gradient under rounded corners cannot be restored piece by piece.
    Full,
    /// The borders of two tiles.
    Borders(BorderMove),
}

/// The two borders to repaint: that of the tile that was selected, then that of the one that is.
#[derive(Debug, Clone, Copy, PartialEq, Eq)]
pub struct BorderMove {
    pub pixmap: u32,
    pub picture: u32,
    /// The colour with which the old borders are erased.
    pub background: (u16, u16, u16, u16),
    pub before: Option<BorderPaint>,
    pub after: Option<BorderPaint>,
}

/// The first step of a full redraw.
#[derive(Debug, Clone, Copy, PartialEq, Eq)]
pub enum Redraw {
    /// There is no popup.
    Hidden,
    /// The display has no ARGB32 picture format.
    NoFormat,
    Start(RedrawStart),
}

#[derive(Debug, Clone, Copy, PartialEq, Eq)]
pub struct RedrawStart {
    pub window: u32,
    pub w: u16,
    pub h: u16,
    pub argb_fmt: u32,
    /// Something is to be drawn through a mask, but there is no format for masks.
    pub no_mask_format: bool,
    pub buffer: BufferStep,
}

/// What happens to the off-screen buffer.
#[derive(Debug, Clone, Copy, PartialEq, Eq)]
pub enum BufferStep {
    Reuse { pixmap: u32, picture: u32 },
    /// Free the old pixmap and picture, if any, and create new ones.
    Create { old: Option<(u32, u32)> },
}

/// What happens to the mask of the popup's corners.
#[derive(Debug, Clone, Copy, PartialEq, Eq)]
pub enum MaskStep {
    Keep,
    /// Free the old mask, if any, and draw a new one, if it takes one.
    Rebuild { old: Option<u32>, shape: Option<Shape> },
}

/// One tile.
#[derive(Debug, Clone, Copy, PartialEq, Eq)]
pub struct TilePaint {
    pub frame: Frame,
    pub content: Content,
}

/// The picture of the whole popup, in drawing order.
#[derive(Debug)]
pub struct Painting {
    pub pixmap: u32,
    pub picture: u32,
    pub w: u16,
    pub h: u16,
    pub background: Background,
    pub tiles: Vec<TilePaint>,
    /// The border of the selected tile, once more, so that no neighbour covers it.
    pub selected: Border,
}

/// The step that shows the buffer in the popup.
#[derive(Debug, Clone, Copy, PartialEq, Eq)]
pub struct BlitPlan {
    pub window: u32,
    pub picture: u32,
    /// The mask, or zero for none.
    pub mask: u32,
    pub w: u16,
    pub h: u16,
    pub format: u32,
}

/// The size of an entry's icon.
pub open spec fn icon_size_of(e: WindowEntry) -> Option<(u32, u32)> {
    match e.icon {
        Some(i) => Some((i.0, i.1)),
        None => None,
    }
}

impl Switcher {
    /// The number of columns on a monitor.
    pub open spec fn columns(self, mon: MonitorGeom) -> int {
        Metrics::of_config(self.config).columns(self.windows.len() as int, mon.w as int)
    }

    /// Tile `i` on a monitor.
    pub open spec fn tile(self, mon: MonitorGeom, i: int) -> TileGeom {
        tile_of(self.config, self.windows.len() as int, self.columns(mon), i)
    }

    /// The size of the popup on a monitor.
    pub open spec fn popup_size(self, mon: MonitorGeom) -> (u16, u16) {
        let m = Metrics::of_config(self.config);
        let nc = self.columns(mon);
        (
            wire::u16_of(m.popup_w(nc)) as u16,
            wire::u16_of(m.popup_h(layout::ceil_div(self.windows.len() as int, nc))) as u16,
        )
    }

    /// The tile under a point of the popup.
    pub open spec fn hit(self, mon: MonitorGeom, px: i16, py: i16) -> Option<int> {
        Metrics::of_config(self.config).hit(
            self.config.window.last_row_position@,
            self.windows.len() as int,
            self.columns(mon),
            px as int,
            py as int,
            0,
        )
    }

    fn tile_geom(&self, m: &Metrics, n_cols: usize, i: usize) -> (r: TileGeom)
        requires
            *m == Metrics::of_config(self.config),
            n_cols >= 1,
        ensures
            r == tile_of(self.config, self.windows.len() as int, n_cols as int, i as int),
    {
        let (x, y): (i16, i16) = m.tile_pos(
            self.config.window.last_row_position.as_str(),
            self.windows.len(),
            n_cols,
            i,
        );
        TileGeom { x, y, w: m.tile_w, h: m.tile_h }
    }

    // ------------------------------------------------------------ moving the selection

    pub open spec fn border_of(self, mon: MonitorGeom, i: int, color_argb: u32) -> Option<
        BorderPaint,
    > {
        if i < self.windows.len() {
            Some(
                paint::border_paint(
                    Metrics::of_config(self.config),
                    self.tile(mon, i),
                    rounded_tiles(self.config, self.cached_a8_fmt),
                    self.config.tile.border_radius as int,
                    color_argb,
                ),
            )
        } else {
            None
        }
    }

    /// The repainting when the selection has moved from tile `old_sel`.
    pub open spec fn border_move(self, mon: MonitorGeom, old_sel: int) -> BorderRedraw {
        match self.pix_buf {
            Some((pixmap, picture, _, _)) => if old_sel == self.selected {
                BorderRedraw::Nothing
            } else if rounded_tiles(self.config, self.cached_a8_fmt)
                && self.config.window.background_gradient@ != "none"@ {
                BorderRedraw::Full
            } else {
                BorderRedraw::Borders(
                    BorderMove {
                        pixmap,
                        picture,
                        background: argb::render_color(self.cached_win_bg),
                        before: self.border_of(
                            mon,
                            old_sel,
                            paint::color(self.config.tile.inactive@),
                        ),
                        after: self.border_of(
                            mon,
                            self.selected as int,
                            paint::color(self.config.tile.frame@),
                        ),
                    },
                )
            },
            None => BorderRedraw::Nothing,
        }
    }

    /// Only the borders of the two affected tiles are repainted when the selection moves.
    pub fn border_redraw(&self, mon: &MonitorGeom, old_sel: usize) -> (r: BorderRedraw)
        ensures
            r == self.border_move(*mon, old_sel as int),
    {
        match self.pix_buf {
            None => BorderRedraw::Nothing,
            Some((pixmap, picture, _, _)) => {
                if old_sel == self.selected {
                    return BorderRedraw::Nothing;
                }
                let c: &Config = &self.config;
                let br: u32 = c.tile.border_radius;
                let use_rings: bool = br > 0 && self.cached_a8_fmt != 0;
                if use_rings && !text::same_text(c.window.background_gradient.as_str(), "none") {
                    return BorderRedraw::Full;
                }
                let m: Metrics = Metrics::of(c);
                let n: usize = self.windows.len();
                let (nc, _): (usize, usize) = m.grid_layout(n, mon.w);
                let frame: u32 = Config::color_argb(c.tile.frame.as_str());
                let inactive: u32 = Config::color_argb(c.tile.inactive.as_str());
                let before: Option<BorderPaint> = if old_sel < n {
                    let t = self.tile_geom(&m, nc, old_sel);
                    Some(paint::repaint_border(&m, &t, use_rings, br, inactive))
                } else {
                    None
                };
                let after: Option<BorderPaint> = if self.selected < n {
                    let t = self.tile_geom(&m, nc, self.selected);
                    Some(paint::repaint_border(&m, &t, use_rings, br, frame))
                } else {
                    None
                };
                let background = argb::argb_to_render_color(self.cached_win_bg);
                BorderRedraw::Borders(BorderMove { pixmap, picture, background, before, after })
            },
        }
    }

    /// Selects the next window, the first after the last.
    pub fn next(&mut self, mon: &MonitorGeom) -> (r: BorderRedraw)
        requires
            old(self).wf(),
        ensures
            final(self).wf(),
            final(self).selection_ok(),
            old(self).windows.len() == 0 ==> *final(self) == *old(self) && r == (
            BorderRedraw::Nothing),
            old(self).windows.len() > 0 ==> *final(self) == (Switcher {
                selected: one_on(old(self).selected as int, old(self).windows.len() as int) as usize,
                ..*old(self)
            }) && r == final(self).border_move(*mon, old(self).selected as int),
    {
        let n: usize = self.windows.len();
        if n == 0 {
            return BorderRedraw::Nothing;
        }
        let before: usize = self.selected;
        proof {
            vstd::arithmetic::div_mod::lemma_mod_bound(before + 1, n as int);
        }
        self.selected = ((before as u128 + 1) % n as u128) as usize;
        self.border_redraw(mon, before)
    }

    /// Selects the previous window, the last before the first.
    pub fn prev(&mut self, mon: &MonitorGeom) -> (r: BorderRedraw)
        requires
            old(self).wf(),
        ensures
            final(self).wf(),
            old(self).selection_ok() ==> final(self).selection_ok(),
            old(self).windows.len() == 0 ==> *final(self) == *old(self) && r == (
            BorderRedraw::Nothing),
            old(self).windows.len() > 0 ==> *final(self) == (Switcher {
                selected: one_back(
                    old(self).selected as int,
                    old(self).windows.len() as int,
                ) as usize,
                ..*old(self)
            }) && r == final(self).border_move(*mon, old(self).selected as int),
    {
        let n: usize = self.windows.len();
        if n == 0 {
            return BorderRedraw::Nothing;
        }
        let before: usize = self.selected;
        self.selected = if before == 0 {
            n - 1
        } else {
            before - 1
        };
        self.border_redraw(mon, before)
    }

    fn tile_under(&self, mon: &MonitorGeom, px: i16, py: i16) -> (r: Option<usize>)
        ensures
            match r {
                Some(i) => i < self.windows.len() && self.hit(*mon, px, py) == Some(i as int),
                None => self.hit(*mon, px, py) is None,
            },
    {
        let m: Metrics = Metrics::of(&self.config);
        let n: usize = self.windows.len();
        let (nc, _): (usize, usize) = m.grid_layout(n, mon.w);
        m.tile_at(self.config.window.last_row_position.as_str(), n, nc, px, py)
    }

    /// Selects the tile under the pointer. Motion outside the tiles changes nothing.
    pub fn hover_at(&mut self, mon: &MonitorGeom, px: i16, py: i16) -> (r: BorderRedraw)
        requires
            old(self).wf(),
        ensures
            final(self).wf(),
            match old(self).hit(*mon, px, py) {
                Some(i) => {
                    &&& *final(self) == (Switcher { selected: i as usize, ..*old(self) })
                    &&& final(self).selected == i
                    &&& i < old(self).windows.len()
                    &&& r == final(self).border_move(*mon, old(self).selected as int)
                },
                None => *final(self) == *old(self) && r == (BorderRedraw::Nothing),
            },
    {
        match self.tile_under(mon, px, py) {
            None => BorderRedraw::Nothing,
            Some(i) => {
                let before: usize = self.selected;
                self.selected = i;
                self.border_redraw(mon, before)
            },
        }
    }

    /// A click on a tile selects its window and commits; a click outside all tiles cancels.
    /// Returns what has to be undone, and the window to switch to.
    pub fn click_at(&mut self, mon: &MonitorGeom, px: i16, py: i16) -> (r: (
        HidePlan,
        Option<u32>,
    ))
        requires
            old(self).wf(),
        ensures
            r.0 == old(self).hide_plan(),
            match old(self).hit(*mon, px, py) {
                Some(i) => {
                    &&& r.1 == Some(old(self).windows[i].id)
                    &&& Switcher::hidden(
                        Switcher { selected: i as usize, ..*old(self) },
                        *final(self),
                    )
                },
                None => r.1 is None && Switcher::hidden(*old(self), *final(self)),
            },
    {
        match self.tile_under(mon, px, py) {
            Some(i) => {
                self.selected = i;
                self.commit()
            },
            None => (self.cancel(), None),
        }
    }

    // ------------------------------------------------------------ full redraw

    /// Something is drawn through a mask: a rounded corner, or the small icon on a thumbnail.
    pub open spec fn needs_mask(self) -> bool {
        ||| self.config.tile.border_radius > 0
        ||| self.config.window.border_radius > 0
        ||| paint::wants_thumbs(self.config) && self.config.tile.icon_overlay
    }

    /// The format for masks, where any is needed; zero for none.
    pub open spec fn mask_format(self, formats: Seq<PictFormat>) -> u32 {
        if self.needs_mask() {
            match display::first_format(formats, |f: PictFormat| display::is_a8(f)) {
                Some(f) => f,
                None => 0,
            }
        } else {
            0
        }
    }

    /// The buffer can be used again: it has the popup's size.
    pub open spec fn buffer_fits(self, size: (u16, u16)) -> bool {
        self.pix_buf matches Some(b) && b.2 == size.0 && b.3 == size.1
    }

    /// Starts a full redraw: looks up the picture formats, notes them and the background, and says
    /// what happens to the off-screen buffer.
    pub fn redraw(&mut self, formats: &Vec<PictFormat>, mon: &MonitorGeom) -> (r: Redraw)
        requires
            old(self).wf(),
        ensures
            final(self).wf(),
            match (
                old(self).popup,
                display::first_format(formats@, |f: PictFormat| display::is_argb32(f)),
            ) {
                (None, _) => r == (Redraw::Hidden) && *final(self) == *old(self),
                (Some(_), None) => r == (Redraw::NoFormat) && *final(self) == *old(self),
                (Some(window), Some(fmt)) => {
                    let size = old(self).popup_size(*mon);
                    let a8 = old(self).mask_format(formats@);
                    let fits = old(self).buffer_fits(size);
                    &&& *final(self) == (Switcher {
                        cached_argb_fmt: fmt,
                        cached_a8_fmt: a8,
                        cached_win_bg: paint::color(old(self).config.window.background@),
                        pix_buf: if fits {
                            old(self).pix_buf
                        } else {
                            None
                        },
                        ..*old(self)
                    })
                    &&& r == Redraw::Start(
                        RedrawStart {
                            window,
                            w: size.0,
                            h: size.1,
                            argb_fmt: fmt,
                            no_mask_format: a8 == 0 && old(self).needs_mask(),
                            buffer: match old(self).pix_buf {
                                Some((pixmap, picture, _, _)) => if fits {
                                    BufferStep::Reuse { pixmap, picture }
                                } else {
                                    BufferStep::Create { old: Some((pixmap, picture)) }
                                },
                                None => BufferStep::Create { old: None },
                            },
                        },
                    )
                },
            },
    {
        let window: u32 = match self.popup {
            Some(w) => w,
            None => {
                return Redraw::Hidden;
            },
        };
        let fmt: u32 = match display::find_argb32_format(formats) {
            Some(f) => f,
            None => {
                return Redraw::NoFormat;
            },
        };
        let m: Metrics = Metrics::of(&self.config);
        let (_, _, w, h): (i16, i16, u16, u16) = m.popup_dims(
            self.config.window.position.as_str(),
            self.windows.len(),
            mon,
        );
        let needs_mask: bool = self.config.tile.border_radius > 0
            || self.config.window.border_radius > 0 || (self.wants_thumbs()
            && self.config.tile.icon_overlay);
        let a8: u32 = if needs_mask {
            match display::find_a8_format(formats) {
                Some(f) => f,
                None => 0,
            }
        } else {
            0
        };
        let bg: u32 = self.config.window_bg_argb();
        self.cached_argb_fmt = fmt;
        self.cached_win_bg = bg;
        self.cached_a8_fmt = a8;
        let buffer: BufferStep = match self.pix_buf {
            Some((pixmap, picture, bw, bh)) => {
                if bw == w && bh == h {
                    BufferStep::Reuse { pixmap, picture }
                } else {
                    self.pix_buf = None;
                    BufferStep::Create { old: Some((pixmap, picture)) }
                }
            },
            None => BufferStep::Create { old: None },
        };
        let no_mask_format = a8 == 0 && needs_mask;
        Redraw::Start(RedrawStart { window, w, h, argb_fmt: fmt, no_mask_format, buffer })
    }

    /// Takes over an off-screen buffer that was created.
    pub fn buffer_ready(&mut self, pixmap: u32, picture: u32, w: u16, h: u16)
        requires
            old(self).wf(),
            old(self).popup is Some,
        ensures
            final(self).wf(),
            *final(self) == (Switcher { pix_buf: Some((pixmap, picture, w, h)), ..*old(self) }),
    {
        self.pix_buf = Some((pixmap, picture, w, h));
    }

    /// What happens to the mask of the popup's corners.
    pub open spec fn mask_step(self, fresh_buffer: bool) -> MaskStep {
        if !fresh_buffer && self.win_mask_pic is Some {
            MaskStep::Keep
        } else {
            let radius = self.config.window.border_radius;
            MaskStep::Rebuild {
                old: self.win_mask_pic,
                shape: match self.pix_buf {
                    Some((_, _, w, h)) => if radius > 0 && self.cached_a8_fmt != 0 {
                        Some(paint::popup_mask(w, h, radius as int))
                    } else {
                        None
                    },
                    None => None,
                },
            }
        }
    }

    /// The mask of the popup's corners is kept for the whole session. It is rebuilt with a fresh
    /// buffer, or where there is none.
    pub fn redraw_mask(&mut self, fresh_buffer: bool) -> (r: MaskStep)
        requires
            old(self).wf(),
        ensures
            final(self).wf(),
            *final(self) == (Switcher {
                win_mask_pic: if fresh_buffer {
                    None
                } else {
                    old(self).win_mask_pic
                },
                ..*old(self)
            }),
            r == old(self).mask_step(fresh_buffer),
            r == if !fresh_buffer && old(self).win_mask_pic is Some {
                MaskStep::Keep
            } else {
                let radius = old(self).config.window.border_radius;
                MaskStep::Rebuild {
                    old: old(self).win_mask_pic,
                    shape: match old(self).pix_buf {
                        Some((_, _, w, h)) => if radius > 0 && old(self).cached_a8_fmt != 0 {
                            Some(paint::popup_mask(w, h, radius as int))
                        } else {
                            None
                        },
                        None => None,
                    },
                }
            },
    {
        if !fresh_buffer && self.win_mask_pic.is_some() {
            return MaskStep::Keep;
        }
        let before: Option<u32> = self.win_mask_pic;
        self.win_mask_pic = None;
        let radius: u32 = self.config.window.border_radius;
        let shape: Option<Shape> = match self.pix_buf {
            Some((_, _, w, h)) => if radius > 0 && self.cached_a8_fmt != 0 {
                Some(paint::popup_mask_shape(w, h, radius))
            } else {
                None
            },
            None => None,
        };
        MaskStep::Rebuild { old: before, shape }
    }

    /// Takes over a mask that was created.
    pub fn mask_ready(&mut self, picture: u32)
        requires
            old(self).wf(),
            old(self).popup is Some,
        ensures
            final(self).wf(),
            *final(self) == (Switcher { win_mask_pic: Some(picture), ..*old(self) }),
    {
        self.win_mask_pic = Some(picture);
    }

    /// Tile `i` with its content.
    pub open spec fn tile_paint(self, mon: MonitorGeom, i: int) -> TilePaint {
        let c = self.config;
        let m = Metrics::of_config(c);
        let t = self.tile(mon, i);
        let e = self.windows[i];
        let rounded = rounded_tiles(c, self.cached_a8_fmt);
        let br = c.tile.border_radius as int;
        TilePaint {
            frame: Frame {
                fill: paint::tile_fill(m, t, rounded, br, paint::color(c.tile.background@)),
                border: paint::border(
                    m,
                    t,
                    rounded,
                    br,
                    if i == self.selected {
                        paint::color(c.tile.frame@)
                    } else {
                        paint::color(c.tile.inactive@)
                    },
                ),
            },
            content: paint::content(
                c,
                t,
                icon_size_of(e),
                self.thumb_cache.size(e.frame),
                self.cached_a8_fmt != 0,
            ),
        }
    }

    /// `p` is the picture of the popup.
    pub open spec fn is_painting(self, mon: MonitorGeom, radius: i32, p: Painting) -> bool {
        let c = self.config;
        &&& self.pix_buf == Some((p.pixmap, p.picture, p.w, p.h))
        &&& p.background == paint::background(
            c.window.background_gradient@,
            p.w,
            p.h,
            paint::color(c.window.background@),
            radius,
        )
        &&& p.tiles.len() == self.windows.len()
        &&& forall|i: int|
            0 <= i < p.tiles.len() ==> #[trigger] p.tiles[i] == self.tile_paint(mon, i)
        &&& p.selected == paint::border(
            Metrics::of_config(c),
            self.tile(mon, self.selected as int),
            rounded_tiles(c, self.cached_a8_fmt),
            c.tile.border_radius as int,
            paint::color(c.tile.frame@),
        )
    }

    /// The picture of the popup. `radius` is the distance from its centre to a corner in 16.16
    /// fixed point. There is none without a buffer.
    pub fn painting(&self, mon: &MonitorGeom, radius: i32) -> (r: Option<Painting>)
        requires
            self.wf(),
        ensures
            r is Some <==> self.pix_buf is Some,
            r matches Some(p) ==> {
                let b = self.pix_buf->0;
                let c = self.config;
                &&& p.pixmap == b.0
                &&& p.picture == b.1
                &&& p.w == b.2
                &&& p.h == b.3
                &&& p.background == paint::background(
                    c.window.background_gradient@,
                    b.2,
                    b.3,
                    paint::color(c.window.background@),
                    radius,
                )
                &&& p.tiles.len() == self.windows.len()
                &&& forall|i: int|
                    0 <= i < p.tiles.len() ==> #[trigger] p.tiles[i] == self.tile_paint(*mon, i)
                &&& p.selected == paint::border(
                    Metrics::of_config(c),
                    self.tile(*mon, self.selected as int),
                    rounded_tiles(c, self.cached_a8_fmt),
                    c.tile.border_radius as int,
                    paint::color(c.tile.frame@),
                )
                &&& self.is_painting(*mon, radius, p)
            },
    {
        let (pixmap, picture, w, h): (u32, u32, u16, u16) = match self.pix_buf {
            Some(b) => b,
            None => {
                return None;
            },
        };
        let n: usize = self.windows.len();
        let c: &Config = &self.config;
        let m: Metrics = Metrics::of(c);
        let (nc, _): (usize, usize) = m.grid_layout(n, mon.w);
        let br: u32 = c.tile.border_radius;
        let has_mask: bool = self.cached_a8_fmt != 0;
        let rounded: bool = br > 0 && has_mask;
        let bg: u32 = c.bg_argb();
        let frame_argb: u32 = Config::color_argb(c.tile.frame.as_str());
        let inactive_argb: u32 = Config::color_argb(c.tile.inactive.as_str());
        let mut tiles: Vec<TilePaint> = Vec::new();
        let mut i: usize = 0;
        while i < n
            invariant
                i <= n,
                n == self.windows.len(),
                self.wf(),
                *c == self.config,
                m == Metrics::of_config(self.config),
                nc == self.columns(*mon),
                nc >= 1,
                br == c.tile.border_radius,
                has_mask == (self.cached_a8_fmt != 0),
                rounded == rounded_tiles(self.config, self.cached_a8_fmt),
                bg == paint::color(c.tile.background@),
                frame_argb == paint::color(c.tile.frame@),
                inactive_argb == paint::color(c.tile.inactive@),
                tiles.len() == i,
                forall|k: int| 0 <= k < i ==> #[trigger] tiles[k] == self.tile_paint(*mon, k),
            decreases n - i,
        {
            let t: TileGeom = self.tile_geom(&m, nc, i);
            let e: &WindowEntry = &self.windows[i];
            let border_argb: u32 = if i == self.selected { frame_argb } else { inactive_argb };
            let frame = paint::tile_frame(&m, &t, rounded, br, bg, border_argb);
            let icon: Option<(u32, u32)> = match &e.icon {
                Some(icon) => Some((icon.0, icon.1)),
                None => None,
            };
            let thumb: Option<(u32, u32)> = self.thumb_cache.size_of(e.frame);
            let content = paint::tile_content(c, &t, icon, thumb, has_mask);
            tiles.push(TilePaint { frame, content });
            i = i + 1;
        }
        let sel: TileGeom = self.tile_geom(&m, nc, self.selected);
        let selected = paint::tile_border(&m, &sel, rounded, br, frame_argb);
        let background = paint::popup_background(
            c.window.background_gradient.as_str(),
            w,
            h,
            c.window_bg_argb(),
            radius,
        );
        Some(Painting { pixmap, picture, w, h, background, tiles, selected })
    }

    /// The title under tile `i`; none for a window without a name.
    pub open spec fn title(self, i: int) -> Option<Seq<char>> {
        let t = label::short_title(self.windows[i].name@, label::TITLE_MAX_CHARS as int);
        if t.len() == 0 {
            None
        } else {
            Some(t)
        }
    }

    /// The tiles with their titles.
    pub fn labels(&self, mon: &MonitorGeom) -> (r: Vec<(TileGeom, Option<String>)>)
        ensures
            r.len() == self.windows.len(),
            forall|i: int|
                0 <= i < r.len() ==> {
                    &&& (#[trigger] r[i]).0 == self.tile(*mon, i)
                    &&& match r[i].1 {
                        Some(s) => self.title(i) == Some(s@),
                        None => self.title(i) is None,
                    }
                },
    {
        let n: usize = self.windows.len();
        let m: Metrics = Metrics::of(&self.config);
        let (nc, _): (usize, usize) = m.grid_layout(n, mon.w);
        let mut r: Vec<(TileGeom, Option<String>)> = Vec::new();
        let mut i: usize = 0;
        while i < n
            invariant
                i <= n,
                n == self.windows.len(),
                m == Metrics::of_config(self.config),
                nc == self.columns(*mon),
                nc >= 1,
                r.len() == i,
                forall|k: int|
                    0 <= k < i ==> {
                        &&& (#[trigger] r[k]).0 == self.tile(*mon, k)
                        &&& match r[k].1 {
                            Some(s) => self.title(k) == Some(s@),
                            None => self.title(k) is None,
                        }
                    },
            decreases n - i,
        {
            let t: TileGeom = self.tile_geom(&m, nc, i);
            let title: String = label::truncate_title(
                self.windows[i].name.as_str(),
                label::TITLE_MAX_CHARS,
            );
            if title.as_str().is_empty() {
                r.push((t, None));
            } else {
                r.push((t, Some(title)));
            }
            i = i + 1;
        }
        r
    }

    /// How the buffer gets into the popup.
    pub open spec fn blit_plan(self) -> Option<BlitPlan> {
        match (self.popup, self.pix_buf) {
            (Some(window), Some((_, picture, w, h))) => if self.cached_argb_fmt == 0 {
                None
            } else {
                let through_mask = self.config.window.border_radius > 0 && self.cached_a8_fmt != 0;
                Some(
                    BlitPlan {
                        window,
                        picture,
                        mask: match self.win_mask_pic {
                            Some(p) => if through_mask {
                                p
                            } else {
                                0
                            },
                            None => 0,
                        },
                        w,
                        h,
                        format: self.cached_argb_fmt,
                    },
                )
            },
            _ => None,
        }
    }

    /// Shows the buffer in the popup in one step, through the mask where the popup's corners are
    /// rounded. There is nothing to show without a popup, a buffer or a format.
    pub fn blit_to_window(&self) -> (r: Option<BlitPlan>)
        ensures
            r == self.blit_plan(),
            r == match (self.popup, self.pix_buf) {
                (Some(window), Some((_, picture, w, h))) => if self.cached_argb_fmt == 0 {
                    None
                } else {
                    Some(
                        BlitPlan {
                            window,
                            picture,
                            mask: match self.win_mask_pic {
                                Some(p) => if self.config.window.border_radius > 0
                                    && self.cached_a8_fmt != 0 {
                                    p
                                } else {
                                    0
                                },
                                None => 0,
                            },
                            w,
                            h,
                            format: self.cached_argb_fmt,
                        },
                    )
                },
                _ => None,
            },
    {
        match (self.popup, self.pix_buf) {
            (Some(window), Some((_, picture, w, h))) => {
                if self.cached_argb_fmt == 0 {
                    return None;
                }
                let mask: u32 = match self.win_mask_pic {
                    Some(p) => if self.config.window.border_radius > 0 && self.cached_a8_fmt != 0 {
                        p
                    } else {
                        0
                    },
                    None => 0,
                };
                Some(BlitPlan { window, picture, mask, w, h, format: self.cached_argb_fmt })
            },
            _ => None,
        }
    }

    /// Whether an exposed popup can be repainted from the buffer; otherwise it takes a full
    /// redraw.
    pub fn repaint(&self) -> (r: bool)
        ensures
            r == (self.pix_buf is Some && self.cached_argb_fmt != 0),
    {
        self.pix_buf.is_some() && self.cached_argb_fmt != 0
    }
}

/// When the selection moves, the borders that are repainted are the ones that a full redraw would
/// draw, and a full redraw would change nothing else. With square borders no more than the strips
/// around the two tiles is painted over. With rounded ones the corner squares inside the two tiles
/// are erased as well, and the fill of the tile is not put back there.
pub proof fn law_moved_borders_match_a_redraw(s: Switcher, mon: MonitorGeom, to: usize)
    requires
        s.selected < s.windows.len(),
        to < s.windows.len(),
        to != s.selected,
    ensures
        ({
            let moved = Switcher { selected: to, ..s };
            let from = s.selected as int;
            let round = rounded_tiles(s.config, s.cached_a8_fmt);
            &&& forall|i: int|
                0 <= i < s.windows.len() && i != from && i != to ==> #[trigger] moved.tile_paint(
                    mon,
                    i,
                ) == s.tile_paint(mon, i)
            &&& forall|i: int|
                0 <= i < s.windows.len() ==> (#[trigger] moved.tile_paint(mon, i)).content
                    == s.tile_paint(mon, i).content && moved.tile_paint(mon, i).frame.fill
                    == s.tile_paint(mon, i).frame.fill
            &&& moved.border_move(mon, from) matches BorderRedraw::Borders(m) ==> {
                &&& m.before matches Some(b) && b.border == moved.tile_paint(mon, from).frame.border
                    && (!round ==> b.corners is None)
                &&& m.after matches Some(a) && a.border == moved.tile_paint(
                    mon,
                    to as int,
                ).frame.border && (!round ==> a.corners is None)
            }
        }),
{
    let moved = Switcher { selected: to, ..s };
    assert(forall|i: int| moved.tile(mon, i) == s.tile(mon, i));
}

/// A thumbnail carries the window's small icon whenever that is asked for and there is room for it,
/// with rounded corners or without: a redraw looks for the format that the icon takes.
pub proof fn law_thumbnails_carry_their_icon(
    before: Switcher,
    s: Switcher,
    formats: Seq<PictFormat>,
    mon: MonitorGeom,
    i: int,
)
    requires
        0 <= i < s.windows.len(),
        s.config == before.config,
        s.cached_a8_fmt == before.mask_format(formats),
        paint::wants_thumbs(s.config),
        s.config.tile.icon_overlay,
        display::first_format(formats, |f: PictFormat| display::is_a8(f)) matches Some(f) && f != 0,
        s.thumb_cache.size(s.windows[i].frame) is Some,
        s.windows[i].icon matches Some(icon) && icon.0 > 0 && icon.1 > 0,
        ({
            let pad = s.config.tile.padding as int;
            let size = paint::overlay_size(s.config.tile.icon_overlay_size as int);
            &&& thumbs::content_w(s.tile(mon, i).w as int, pad) >= size
            &&& thumbs::content_h(s.tile(mon, i).h as int, pad) >= size
        }),
    ensures
        s.tile_paint(mon, i).content matches Content::Thumbnail { overlay, .. } && overlay is Some
            && overlay == paint::overlay(
            s.tile(mon, i),
            s.config.tile.padding as int,
            s.config.tile.icon_overlay_size as int,
            icon_size_of(s.windows[i]),
        ),
{
}

proof fn lemma_one_on(selected: int, n: int)
    requires
        0 <= selected < n,
    ensures
        one_on(selected, n) == if selected + 1 == n {
            0
        } else {
            selected + 1
        },
{
    if selected + 1 == n {
        vstd::arithmetic::div_mod::lemma_mod_self_0(n);
    } else {
        vstd::arithmetic::div_mod::lemma_small_mod((selected + 1) as nat, n as nat);
    }
}

/// `next` undoes `prev`, and the other way round; neither leaves the windows.
pub proof fn law_next_and_prev_are_inverse(selected: int, n: int)
    requires
        0 <= selected < n,
    ensures
        0 <= one_on(selected, n) < n,
        0 <= one_back(selected, n) < n,
        one_back(one_on(selected, n), n) == selected,
        one_on(one_back(selected, n), n) == selected,
{
    lemma_one_on(selected, n);
    lemma_one_on(one_back(selected, n), n);
}

/// The selection after `k` steps forward.
pub open spec fn steps_on(selected: int, n: int, k: nat) -> int
    decreases k,
{
    if k == 0 {
        selected
    } else {
        one_on(steps_on(selected, n, (k - 1) as nat), n)
    }
}

/// Going on reaches every window: the one `d` places further is selected after `d` steps, and a
/// full round comes back to the start.
pub proof fn law_next_reaches_every_window(selected: int, n: int, d: nat)
    requires
        0 <= selected < n,
        d <= n,
    ensures
        steps_on(selected, n, d) == if selected + d < n {
            selected + d
        } else {
            selected + d - n
        },
    decreases d,
{
    if d > 0 {
        law_next_reaches_every_window(selected, n, (d - 1) as nat);
        lemma_one_on(steps_on(selected, n, (d - 1) as nat), n);
    }
}

/// A selection that has moved is seen: with a buffer and two different tiles, both of their borders
/// are repainted in that buffer, the old one in the colour of tiles that are not selected and the new
/// one in that of the selected tile; a tile that is not there has no border. Only with rounded
/// borders on a gradient everything is redrawn. Nothing is repainted just when the selection has not
/// moved or there is no buffer.
pub proof fn law_moves_are_seen(s: Switcher, mon: MonitorGeom, old_sel: usize)
    requires
        s.config.tile.width + 2 * Metrics::of_config(s.config).frame_w <= u32::MAX,
        s.config.tile.height + 2 * Metrics::of_config(s.config).frame_w <= u32::MAX,
    ensures
        ({
            let c = s.config;
            let round = c.tile.border_radius > 0 && s.cached_a8_fmt != 0;
            let faded = c.window.background_gradient@ != "none"@;
            let frame = config::color_of(c.tile.frame@) as u32;
            let inactive = config::color_of(c.tile.inactive@) as u32;
            match (s.pix_buf, s.border_move(mon, old_sel as int)) {
                (None, r) => r == BorderRedraw::Nothing,
                (Some(_), BorderRedraw::Nothing) => old_sel == s.selected,
                (Some(_), BorderRedraw::Full) => old_sel != s.selected && round && faded,
                (Some((pixmap, picture, _, _)), BorderRedraw::Borders(m)) => {
                    &&& old_sel != s.selected && !(round && faded)
                    &&& m.pixmap == pixmap && m.picture == picture
                    &&& m.background == argb::render_color(s.cached_win_bg)
                    &&& match m.before {
                        Some(b) => old_sel < s.windows.len() && paint::painted_in(
                            b.border,
                            inactive,
                        ) && b.border is Rounded == round,
                        None => old_sel >= s.windows.len(),
                    }
                    &&& match m.after {
                        Some(a) => s.selected < s.windows.len() && paint::painted_in(
                            a.border,
                            frame,
                        ) && a.border is Rounded == round,
                        None => s.selected >= s.windows.len(),
                    }
                },
            }
        }),
{
    let c = s.config;
    let m = Metrics::of_config(c);
    let round = rounded_tiles(c, s.cached_a8_fmt);
    let br = c.tile.border_radius as int;
    let (from, to) = (s.tile(mon, old_sel as int), s.tile(mon, s.selected as int));
    paint::law_borders_have_their_color(m, from, round, br, paint::color(c.tile.inactive@));
    paint::law_borders_have_their_color(m, to, round, br, paint::color(c.tile.frame@));
}

/// The selected tile, and no other, has the border of the selected tile; all have the background of
/// tiles.
pub proof fn law_the_selected_tile_stands_out(s: Switcher, mon: MonitorGeom, i: int)
    requires
        0 <= i < s.windows.len(),
        0 < s.config.tile.width < 0x1_0000,
        0 < s.config.tile.height < 0x1_0000,
        s.config.tile.border_width < 0x1_0000,
    ensures
        ({
            let c = s.config;
            let t = s.tile(mon, i);
            let p = s.tile_paint(mon, i);
            let here = Area { x: t.x, y: t.y, w: c.tile.width as u16, h: c.tile.height as u16 };
            let fill = argb::render_color(config::color_of(c.tile.background@) as u32);
            &&& paint::painted_in(
                p.frame.border,
                config::color_of(
                    if i == s.selected {
                        c.tile.frame@
                    } else {
                        c.tile.inactive@
                    },
                ) as u32,
            )
            &&& match p.frame.fill {
                Fill::Empty => false,
                Fill::Flat { area, color } => area == here && color == fill,
                Fill::Masked { area, color, .. } => area == here && color == fill
                    && c.tile.border_radius > 0,
            }
        }),
{
    let c = s.config;
    let m = Metrics::of_config(c);
    let t = s.tile(mon, i);
    let round = rounded_tiles(c, s.cached_a8_fmt);
    let br = c.tile.border_radius as int;
    paint::law_borders_have_their_color(m, t, round, br, paint::color(c.tile.inactive@));
    paint::law_borders_have_their_color(m, t, round, br, paint::color(c.tile.frame@));
    paint::law_tile_backgrounds(m, t, round, br, paint::color(c.tile.background@));
}

/// A tile shows the icon and the thumbnail of its own window: what its content is depends on that
/// window alone, and on nothing else of the list.
pub proof fn law_tiles_show_their_window(s: Switcher, mon: MonitorGeom, i: int)
    requires
        0 <= i < s.windows.len(),
    ensures
        ({
            let w = s.windows[i];
            let icon = match w.icon {
                Some(p) => Some((p.0, p.1)),
                None => None,
            };
            let thumb = if s.thumb_cache@.dom().contains(w.frame) {
                Some((s.thumb_cache@[w.frame].0, s.thumb_cache@[w.frame].1))
            } else {
                None
            };
            s.tile_paint(mon, i).content == paint::content(
                s.config,
                s.tile(mon, i),
                icon,
                thumb,
                s.cached_a8_fmt != 0,
            )
        }),
{
}

/// The popup holds all of its tiles with their borders, and a pointer over a tile selects that tile.
pub proof fn law_the_tile_under_the_pointer_is_hit(
    s: Switcher,
    mon: MonitorGeom,
    i: int,
    px: i16,
    py: i16,
)
    requires
        0 <= i < s.windows.len(),
        Metrics::of_config(s.config).popup_w(s.columns(mon)) <= i16::MAX,
        Metrics::of_config(s.config).popup_h(
            layout::ceil_div(s.windows.len() as int, s.columns(mon)),
        ) <= i16::MAX,
    ensures
        ({
            let t = s.tile(mon, i);
            let fw = Metrics::of_config(s.config).frame_w;
            &&& fw <= t.x && fw <= t.y
            &&& t.x + t.w + fw <= s.popup_size(mon).0
            &&& t.y + t.h + fw <= s.popup_size(mon).1
            &&& t.w == s.config.tile.width && t.h == s.config.tile.height
            &&& t.x <= px < t.x + t.w && t.y <= py < t.y + t.h ==> s.hit(mon, px, py) == Some(i)
        }),
{
    let m = Metrics::of_config(s.config);
    let n = s.windows.len() as int;
    let nc = s.columns(mon);
    let align = s.config.window.last_row_position@;
    m.law_columns_keep_the_margin(n, mon.w as int);
    m.law_tiles_lie_inside_the_popup(align, n, nc, i);
    wire::law_coordinates_in_range_are_exact(m.tile_x(align, n, nc, i));
    wire::law_coordinates_in_range_are_exact(m.tile_y(nc, i));
    wire::law_coordinates_in_range_are_exact(m.popup_w(nc));
    wire::law_coordinates_in_range_are_exact(m.popup_h(layout::ceil_div(n, nc)));
    let t = s.tile(mon, i);
    if t.x <= px < t.x + t.w && t.y <= py < t.y + t.h {
        m.law_a_point_in_a_tile_hits_it(align, n, nc, i, px as int, py as int);
    }
}

/// A title of up to a hundred characters is shown as it is, but for white space around it; a window
/// without one has no label.
pub proof fn law_titles_are_shown(s: Switcher, i: int)
    requires
        0 <= i < s.windows.len(),
    ensures
        ({
            let name = text::trimmed(s.windows[i].name@);
            &&& name.len() == 0 <==> s.title(i) is None
            &&& 0 < name.len() <= 100 ==> s.title(i) == Some(name)
            &&& name.len() > 100 ==> s.title(i) == Some(name.take(97) + seq!['.', '.', '.'])
        }),
{
}

/// The selection goes to the next window and from the last to the first, and back the same way.
pub proof fn law_the_selection_goes_round(selected: int, n: int)
    requires
        0 <= selected < n,
    ensures
        selected + 1 < n ==> one_on(selected, n) == selected + 1,
        selected + 1 == n ==> one_on(selected, n) == 0,
        selected > 0 ==> one_back(selected, n) == selected - 1,
        selected == 0 ==> one_back(selected, n) == n - 1,
{
    if selected + 1 < n {
        vstd::arithmetic::div_mod::lemma_small_mod((selected + 1) as nat, n as nat);
    } else {
        vstd::arithmetic::div_mod::lemma_mod_self_0(n);
    }
}

/// A mask format is looked up just when something needs one, and is then the first that serves;
/// zero stands for none.
pub proof fn law_masks_are_used_where_needed(s: Switcher, formats: Seq<PictFormat>)
    requires
        forall|i: int| 0 <= i < formats.len() ==> (#[trigger] formats[i]).id != 0,
    ensures
        ({
            let c = s.config;
            let needed = c.tile.border_radius > 0 || c.window.border_radius > 0 || (c.tile.content@
                == "thumbnail"@ && c.tile.icon_overlay);
            &&& s.needs_mask() == needed
            &&& !needed ==> s.mask_format(formats) == 0
            &&& needed ==> (s.mask_format(formats) == 0 <==> forall|i: int|
                0 <= i < formats.len() ==> !display::shows_mask(#[trigger] formats[i]))
            &&& s.mask_format(formats) != 0 ==> exists|i: int|
                0 <= i < formats.len() && (#[trigger] formats[i]).id == s.mask_format(formats)
                    && display::shows_mask(formats[i])
        }),
{
    display::law_formats_are_the_first_that_fit(formats);
}

/// A buffer is used again just when it has the size of the popup.
pub proof fn law_buffers_have_the_size_of_the_popup(s: Switcher, size: (u16, u16))
    ensures
        match s.pix_buf {
            Some((_, _, w, h)) => s.buffer_fits(size) <==> (w, h) == size,
            None => !s.buffer_fits(size),
        },
{
}

/// A border is painted for every tile that there is, and for no other.
pub proof fn law_every_tile_has_a_border(s: Switcher, mon: MonitorGeom, i: int, c: u32)
    requires
        0 <= i,
        s.config.tile.width + 2 * Metrics::of_config(s.config).frame_w <= u32::MAX,
        s.config.tile.height + 2 * Metrics::of_config(s.config).frame_w <= u32::MAX,
    ensures
        i < s.windows.len() ==> (s.border_of(mon, i, c) matches Some(p) && paint::painted_in(
            p.border,
            c,
        )),
        i >= s.windows.len() ==> s.border_of(mon, i, c) is None,
{
    paint::law_borders_have_their_color(
        Metrics::of_config(s.config),
        s.tile(mon, i),
        rounded_tiles(s.config, s.cached_a8_fmt),
        s.config.tile.border_radius as int,
        c,
    );
}

/// A mask is kept with the buffer that it was made for, and is else given back and made anew: in the
/// size of the buffer, just when the popup has rounded corners and masks can be drawn.
pub proof fn law_masks_belong_to_their_buffer(s: Switcher, fresh_buffer: bool)
    ensures
        match s.mask_step(fresh_buffer) {
            MaskStep::Keep => s.win_mask_pic is Some && !fresh_buffer,
            MaskStep::Rebuild { old, shape } => {
                &&& s.win_mask_pic is None || fresh_buffer
                &&& old == s.win_mask_pic
                &&& shape is Some <==> s.pix_buf is Some && s.config.window.border_radius > 0
                    && s.cached_a8_fmt != 0
                &&& match (shape, s.pix_buf) {
                    (Some(mask), Some((_, _, w, h))) => mask == paint::popup_mask(
                        w,
                        h,
                        s.config.window.border_radius as int,
                    ),
                    _ => true,
                }
            },
        },
{
}

/// What is shown is the whole buffer, in the popup itself, and through the mask just where the popup
/// has rounded corners and a mask. Something is shown whenever there are a popup, a buffer and a
/// format.
pub proof fn law_the_buffer_is_shown(s: Switcher)
    ensures
        s.blit_plan() is Some <==> s.popup is Some && s.pix_buf is Some && s.cached_argb_fmt != 0,
        s.blit_plan() matches Some(b) ==> {
            &&& s.popup == Some(b.window)
            &&& s.pix_buf matches Some((_, picture, w, h)) && b.picture == picture && b.w == w && b.h
                == h
            &&& b.format == s.cached_argb_fmt
            &&& match s.win_mask_pic {
                Some(p) if s.config.window.border_radius > 0 && s.cached_a8_fmt != 0 => b.mask == p,
                _ => b.mask == 0,
            }
        },
{
}

/// The picture of the popup goes into the buffer, shows each window in its place and the border of
/// the selected tile in its colour; without a gradient its background has the configured colour.
pub proof fn law_the_picture_shows_every_window(
    s: Switcher,
    mon: MonitorGeom,
    radius: i32,
    p: Painting,
    i: int,
)
    requires
        s.is_painting(mon, radius, p),
        0 <= i < s.windows.len(),
        s.config.tile.width + 2 * Metrics::of_config(s.config).frame_w <= u32::MAX,
        s.config.tile.height + 2 * Metrics::of_config(s.config).frame_w <= u32::MAX,
    ensures
        s.pix_buf == Some((p.pixmap, p.picture, p.w, p.h)),
        p.tiles.len() == s.windows.len(),
        p.tiles[i] == s.tile_paint(mon, i),
        paint::painted_in(p.selected, config::color_of(s.config.tile.frame@) as u32),
        s.selected == i ==> p.selected == p.tiles[i].frame.border,
        s.config.window.background_gradient@ == "none"@ && p.w < 0x8000 && p.h < 0x8000
            ==> p.background == (Background::Flat {
            color: argb::render_color(config::color_of(s.config.window.background@) as u32),
        }),
{
    paint::law_borders_have_their_color(
        Metrics::of_config(s.config),
        s.tile(mon, s.selected as int),
        rounded_tiles(s.config, s.cached_a8_fmt),
        s.config.tile.border_radius as int,
        paint::color(s.config.tile.frame@),
    );
    if p.w < 0x8000 && p.h < 0x8000 {
        paint::law_backgrounds_fade_as_asked(
            s.config.window.background_gradient@,
            p.w,
            p.h,
            paint::color(s.config.window.background@),
            radius,
        );
    }
}

} // verus!
