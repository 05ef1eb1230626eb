//! The grid of tiles: how many columns fit, where each tile sits, and which tile a point hits.
use vstd::prelude::*;

use crate::config::Config;
use crate::text;
use crate::wire;

verus! {

/// Minimum gap (px) between the popup and the edges of the monitor.
pub const SCREEN_MARGIN: u32 = 40;

/// Pixels reserved at the bottom of each tile for the title label.
pub const LABEL_H: u32 = 48;

/// The sizes that determine the grid.
#[derive(Debug, Clone, Copy, PartialEq, Eq)]
pub struct Metrics {
    pub tile_w: u32,
    pub tile_h: u32,
    /// Thickness of a tile's border.
    pub frame_w: u32,
    /// Extra space between adjacent tiles.
    pub gap: u32,
    /// Padding around the tile area.
    pub win_pad: u32,
}

/// A rectangle of the screen: one monitor.
#[derive(Debug, Clone, Copy, PartialEq, Eq)]
pub struct MonitorGeom {
    pub x: i16,
    pub y: i16,
    pub w: u16,
    pub h: u16,
}

/// Tile position and size in popup-relative coordinates.
#[derive(Debug, Clone, Copy, PartialEq, Eq)]
pub struct TileGeom {
    pub x: i16,
    pub y: i16,
    pub w: u32,
    pub h: u32,
}

/// `a - b`, but not below zero.
pub open spec fn minus(a: int, b: int) -> int {
    if a < b {
        0
    } else {
        a - b
    }
}

/// `a / b` rounded up.
pub open spec fn ceil_div(a: int, b: int) -> int {
    (a + b - 1) / b
}

impl Metrics {
    /// The metrics that a configuration asks for; a border is at least one pixel.
    pub open spec fn of_config(c: Config) -> Metrics {
        Metrics {
            tile_w: c.tile.width,
            tile_h: c.tile.height,
            frame_w: if c.tile.border_width < 1 { 1 } else { c.tile.border_width },
            gap: c.window.gap,
            win_pad: c.window.padding,
        }
    }

    /// Horizontal distance from one tile to the next.
    pub open spec fn slot_w(self) -> int {
        self.tile_w + self.frame_w + self.gap
    }

    /// Vertical distance from one tile to the next.
    pub open spec fn slot_h(self) -> int {
        self.tile_h + self.frame_w + self.gap
    }

    /// How many columns `n` tiles take on a monitor of width `mon_w`.
    pub open spec fn columns(self, n: int, mon_w: int) -> int {
        let available = minus(mon_w, 2 * SCREEN_MARGIN);
        let budget = minus(available, self.frame_w + 2 * self.win_pad) + self.gap;
        let fitting = budget / self.slot_w();
        if n == 0 || fitting < 1 {
            1
        } else if fitting < n {
            fitting
        } else {
            n
        }
    }

    /// Width of the popup with `nc` columns.
    pub open spec fn popup_w(self, nc: int) -> int {
        (self.tile_w + self.frame_w) * nc + self.frame_w + minus(nc, 1) * self.gap + 2
            * self.win_pad
    }

    /// Height of the popup with `nr` rows.
    pub open spec fn popup_h(self, nr: int) -> int {
        (self.tile_h + self.frame_w) * nr + self.frame_w + minus(nr, 1) * self.gap + 2
            * self.win_pad
    }

    /// How far the tiles of an incomplete last row are shifted to the right.
    pub open spec fn row_shift(self, align: Seq<char>, n: int, nc: int, i: int) -> int {
        let last_row = minus(ceil_div(n, nc), 1);
        let missing = nc - (n - last_row * nc);
        if i / nc != last_row {
            0
        } else if align == "center"@ {
            missing * self.slot_w() / 2
        } else if align == "right"@ {
            missing * self.slot_w()
        } else {
            0
        }
    }

    /// Left edge of the content of tile `i`.
    pub open spec fn tile_x(self, align: Seq<char>, n: int, nc: int, i: int) -> int {
        self.win_pad + self.frame_w + (i % nc) * self.slot_w() + self.row_shift(align, n, nc, i)
    }

    /// Top edge of the content of tile `i`.
    pub open spec fn tile_y(self, nc: int, i: int) -> int {
        self.win_pad + self.frame_w + (i / nc) * self.slot_h()
    }

    /// The metrics that a configuration asks for.
    pub fn of(c: &Config) -> (r: Metrics)
        ensures
            r == Metrics::of_config(*c),
            r.frame_w >= 1,
    {
        Metrics {
            tile_w: c.tile.width,
            tile_h: c.tile.height,
            frame_w: if c.tile.border_width < 1 { 1 } else { c.tile.border_width },
            gap: c.window.gap,
            win_pad: c.window.padding,
        }
    }

    /// How many columns and rows `n` tiles take on a monitor of width `mon_w`, so that the popup
    /// keeps `SCREEN_MARGIN` pixels from the edges.
    pub fn grid_layout(&self, n: usize, mon_w: u16) -> (r: (usize, usize))
        requires
            self.frame_w >= 1,
        ensures
            r.0 == self.columns(n as int, mon_w as int),
            r.1 == ceil_div(n as int, r.0 as int),
            r.0 >= 1,
    {
        if n == 0 {
            assert(ceil_div(0, 1) == 0);
            return (1, 0);
        }
        let available: u64 = (mon_w as u64).saturating_sub(2 * SCREEN_MARGIN as u64);
        let slot: u64 = self.tile_w as u64 + self.frame_w as u64 + self.gap as u64;
        let overhead: u64 = self.frame_w as u64 + 2 * self.win_pad as u64;
        let budget: u64 = available.saturating_sub(overhead) + self.gap as u64;
        let fitting: u64 = budget / slot;
        assert(fitting <= budget) by (nonlinear_arith)
            requires
                fitting == budget / slot,
                slot >= 1,
        ;
        let n_cols: usize = if fitting < 1 {
            1
        } else if fitting < n as u64 {
            fitting as usize
        } else {
            n
        };
        (n_cols, rows_for(n, n_cols))
    }
}

impl Metrics {
    /// Top-left content corner of tile `i` of `n` in popup-relative coordinates.
    pub fn tile_pos(&self, align: &str, n: usize, n_cols: usize, i: usize) -> (r: (i16, i16))
        requires
            n_cols >= 1,
        ensures
            r.0 == wire::w16(self.tile_x(align@, n as int, n_cols as int, i as int)),
            r.1 == wire::w16(self.tile_y(n_cols as int, i as int)),
    {
        let col: i128 = (i % n_cols) as i128;
        let row: usize = i / n_cols;
        let slot: i128 = self.tile_w as i128 + self.frame_w as i128 + self.gap as i128;
        let slot_h: i128 = self.tile_h as i128 + self.frame_w as i128 + self.gap as i128;
        let rows: usize = rows_for(n, n_cols);
        let last_row: usize = if rows > 0 { rows - 1 } else { 0 };
        proof {
            if n > 0 {
                lemma_grid(n as int, n_cols as int, n - 1);
            } else {
                vstd::arithmetic::div_mod::lemma_small_mod((n_cols - 1) as nat, n_cols as nat);
                vstd::arithmetic::div_mod::lemma_basic_div(n_cols - 1, n_cols as int);
            }
            assert((last_row + 1) * n_cols == last_row * n_cols + n_cols) by (nonlinear_arith);
            assert(0 <= last_row * n_cols) by (nonlinear_arith)
                requires
                    last_row >= 0,
                    n_cols >= 0,
            ;
            assert(col * slot <= 0xffff_ffff_ffff_ffff * 0x3_0000_0000) by (nonlinear_arith)
                requires
                    0 <= col <= 0xffff_ffff_ffff_ffff,
                    0 <= slot <= 0x3_0000_0000,
            ;
            assert(col * slot >= 0) by (nonlinear_arith)
                requires
                    0 <= col,
                    0 <= slot,
            ;
            assert(0 <= row * slot_h <= 0xffff_ffff_ffff_ffff * 0x3_0000_0000) by (nonlinear_arith)
                requires
                    0 <= row <= 0xffff_ffff_ffff_ffff,
                    0 <= slot_h <= 0x3_0000_0000,
            ;
        }
        let shift: i128 = if row == last_row {
            let missing: i128 = (n_cols - (n - last_row * n_cols)) as i128;
            proof {
                assert(0 <= missing * slot <= 0xffff_ffff_ffff_ffff * 0x3_0000_0000)
                    by (nonlinear_arith)
                    requires
                        0 <= missing <= 0xffff_ffff_ffff_ffff,
                        0 <= slot <= 0x3_0000_0000,
                ;
            }
            if text::same_text(align, "center") {
                missing * slot / 2
            } else if text::same_text(align, "right") {
                missing * slot
            } else {
                0
            }
        } else {
            0
        };
        let x: i128 = self.win_pad as i128 + self.frame_w as i128 + col * slot + shift;
        let y: i128 = self.win_pad as i128 + self.frame_w as i128 + row as i128 * slot_h;
        (wire::wide_coord(x), wire::wide_coord(y))
    }

    /// Where the popup's left (or top) edge goes on a monitor that starts at `start`.
    pub open spec fn centred_on(start: int, len: int, size: int) -> int {
        wire::w16(start + minus(len, size) / 2)
    }

    /// The popup's position: the one that the configuration spells out as `x,y`, a part that does
    /// not parse counting as zero, or else centred on the monitor.
    pub open spec fn popup_origin(position: Seq<char>, mon: MonitorGeom, w: int, h: int) -> (
        int,
        int,
    ) {
        match text::split_at_first(position, ',') {
            Some((xs, ys)) => (coordinate(xs), coordinate(ys)),
            None => (
                Metrics::centred_on(mon.x as int, mon.w as int, w),
                Metrics::centred_on(mon.y as int, mon.h as int, h),
            ),
        }
    }

    /// Position and size of the popup for `n` tiles.
    pub fn popup_dims(&self, position: &str, n: usize, mon: &MonitorGeom) -> (r: (
        i16,
        i16,
        u16,
        u16,
    ))
        requires
            self.frame_w >= 1,
        ensures
            ({
                let nc = self.columns(n as int, mon.w as int);
                let w = self.popup_w(nc);
                let h = self.popup_h(ceil_div(n as int, nc));
                &&& (r.0 as int, r.1 as int) == Metrics::popup_origin(position@, *mon, w, h)
                &&& r.2 == wire::u16_of(w)
                &&& r.3 == wire::u16_of(h)
            }),
    {
        let (nc, nr) = self.grid_layout(n, mon.w);
        let w: u128 = span(self.tile_w, self.frame_w, self.gap, self.win_pad, nc);
        let h: u128 = span(self.tile_h, self.frame_w, self.gap, self.win_pad, nr);
        let (x, y): (i16, i16) = match text::split_once(position, ',') {
            Some((xs, ys)) => (parse_coordinate(xs), parse_coordinate(ys)),
            None => (centre(mon.x, mon.w, w), centre(mon.y, mon.h, h)),
        };
        (x, y, (w % 0x1_0000) as u16, (h % 0x1_0000) as u16)
    }

    /// Tile `i` covers the popup-relative point.
    pub open spec fn covers(
        self,
        align: Seq<char>,
        n: int,
        nc: int,
        i: int,
        px: int,
        py: int,
    ) -> bool {
        let x = wire::w16(self.tile_x(align, n, nc, i));
        let y = wire::w16(self.tile_y(nc, i));
        &&& x <= px < x + self.tile_w
        &&& y <= py < y + self.tile_h
    }

    /// The first of the tiles from `from` on whose content rectangle contains the point.
    pub open spec fn hit(
        self,
        align: Seq<char>,
        n: int,
        nc: int,
        px: int,
        py: int,
        from: int,
    ) -> Option<int>
        decreases n - from,
    {
        if from >= n {
            None
        } else if self.covers(align, n, nc, from, px, py) {
            Some(from)
        } else {
            self.hit(align, n, nc, px, py, from + 1)
        }
    }

    /// Returns the first of the `n` tiles whose content rectangle contains the point.
    pub fn tile_at(&self, align: &str, n: usize, n_cols: usize, px: i16, py: i16) -> (r: Option<
        usize,
    >)
        requires
            n_cols >= 1,
        ensures
            match r {
                Some(i) => i < n && self.hit(
                    align@,
                    n as int,
                    n_cols as int,
                    px as int,
                    py as int,
                    0,
                ) == Some(i as int),
                None => self.hit(
                    align@,
                    n as int,
                    n_cols as int,
                    px as int,
                    py as int,
                    0,
                ) is None,
            },
    {
        let (tw, th): (i64, i64) = (self.tile_w as i64, self.tile_h as i64);
        let mut i: usize = 0;
        let ghost (a, gn, gc, x, y) = (align@, n as int, n_cols as int, px as int, py as int);
        while i < n
            invariant
                n_cols >= 1,
                i <= n,
                (a, gn, gc, x, y) == (align@, n as int, n_cols as int, px as int, py as int),
                tw == self.tile_w,
                th == self.tile_h,
                self.hit(a, gn, gc, x, y, 0) == self.hit(a, gn, gc, x, y, i as int),
            decreases n - i,
        {
            let (tx, ty) = self.tile_pos(align, n, n_cols, i);
            if px >= tx && (px as i64) < tx as i64 + tw && py >= ty && (py as i64) < ty as i64
                + th {
                return Some(i);
            }
            i = i + 1;
        }
        None
    }

    /// The content rectangles of all `n` tiles.
    pub open spec fn tile_rects(self, align: Seq<char>, n: int, nc: int) -> Seq<
        (i16, i16, u16, u16),
    > {
        Seq::new(
            n as nat,
            |i: int|
                (
                    wire::w16(self.tile_x(align, n, nc, i)) as i16,
                    wire::w16(self.tile_y(nc, i)) as i16,
                    wire::u16_of(self.tile_w as int) as u16,
                    wire::u16_of(self.tile_h as int) as u16,
                ),
        )
    }

    /// The content rectangles of all `n` tiles, in order.
    pub fn content_rects(&self, align: &str, n: usize, n_cols: usize) -> (r: Vec<
        (i16, i16, u16, u16),
    >)
        requires
            n_cols >= 1,
        ensures
            r@ == self.tile_rects(align@, n as int, n_cols as int),
    {
        let mut r: Vec<(i16, i16, u16, u16)> = Vec::new();
        let mut i: usize = 0;
        while i < n
            invariant
                n_cols >= 1,
                i <= n,
                r@ == self.tile_rects(align@, n as int, n_cols as int).take(i as int),
            decreases n - i,
        {
            let (tx, ty) = self.tile_pos(align, n, n_cols, i);
            r.push((tx, ty, wire::extent(self.tile_w), wire::extent(self.tile_h)));
            i = i + 1;
            assert(r@ =~= self.tile_rects(align@, n as int, n_cols as int).take(i as int));
        }
        assert(r@ =~= self.tile_rects(align@, n as int, n_cols as int));
        r
    }
}

/// A coordinate as spelled in the configuration; zero when it does not parse.
pub open spec fn coordinate(s: Seq<char>) -> int {
    match text::spelled_i16(text::trimmed(s)) {
        Some(v) => v as int,
        None => 0,
    }
}

fn parse_coordinate(s: &str) -> (r: i16)
    ensures
        r == coordinate(s@),
{
    match text::parse_i16(text::trim(s)) {
        Some(v) => v,
        None => 0,
    }
}

/// One side of the popup: `count` tiles with their borders and gaps, and the padding around.
fn span(tile: u32, frame: u32, gap: u32, pad: u32, count: usize) -> (r: u128)
    ensures
        r == (tile + frame) * count + frame + minus(count as int, 1) * gap + 2 * pad,
{
    proof {
        let (a, c, g, d) = (
            (tile + frame) as int,
            count as int,
            gap as int,
            minus(count as int, 1),
        );
        assert(0 <= a * c <= 0x2_0000_0000 * 0xffff_ffff_ffff_ffff) by (nonlinear_arith)
            requires
                0 <= a <= 0x2_0000_0000,
                0 <= c <= 0xffff_ffff_ffff_ffff,
        ;
        assert(0 <= d * g <= 0xffff_ffff_ffff_ffff * 0xffff_ffff) by (nonlinear_arith)
            requires
                0 <= g <= 0xffff_ffff,
                0 <= d <= 0xffff_ffff_ffff_ffff,
        ;
    }
    let gaps: u128 = if count < 1 { 0 } else { (count - 1) as u128 };
    (tile as u128 + frame as u128) * count as u128 + frame as u128 + gaps * gap as u128 + 2
        * pad as u128
}

/// Where an edge goes when `size` is centred on `len` pixels from `start`.
fn centre(start: i16, len: u16, size: u128) -> (r: i16)
    ensures
        r == Metrics::centred_on(start as int, len as int, size as int),
{
    let off: i64 = if (len as u128) < size { 0 } else { (len as i64 - size as i64) / 2 };
    wire::coord(start as i64 + off)
}

proof fn lemma_grid(n: int, nc: int, i: int)
    requires
        nc >= 1,
        0 <= i < n,
    ensures
        ceil_div(n, nc) >= 1,
        0 <= i / nc <= ceil_div(n, nc) - 1,
        (ceil_div(n, nc) - 1) * nc < n <= ceil_div(n, nc) * nc,
        0 <= i % nc < nc,
        i == nc * (i / nc) + i % nc,
{
    let r = ceil_div(n, nc);
    vstd::arithmetic::div_mod::lemma_fundamental_div_mod(n + nc - 1, nc);
    vstd::arithmetic::div_mod::lemma_fundamental_div_mod(i, nc);
    let m = (n + nc - 1) % nc;
    assert((r - 1) * nc < n <= r * nc) by (nonlinear_arith)
        requires
            n + nc - 1 == nc * r + m,
            0 <= m < nc,
    ;
    let (q, k) = (i / nc, i % nc);
    assert(q <= r - 1) by (nonlinear_arith)
        requires
            i == nc * q + k,
            0 <= k,
            i < n,
            n <= r * nc,
            nc >= 1,
    ;
    assert(q >= 0) by (nonlinear_arith)
        requires
            i == nc * q + k,
            k < nc,
            i >= 0,
            nc >= 1,
    ;
}

/// `n / nc` rounded up.
fn rows_for(n: usize, nc: usize) -> (r: usize)
    requires
        nc >= 1,
    ensures
        r == ceil_div(n as int, nc as int),
{
    let q: usize = n / nc;
    let m: usize = n % nc;
    proof {
        vstd::arithmetic::div_mod::lemma_fundamental_div_mod(n as int, nc as int);
        let (a, b, qq, mm) = (n as int, nc as int, q as int, m as int);
        if mm == 0 {
            assert((a + b - 1) / b == qq) by (nonlinear_arith)
                requires
                    a == b * qq,
                    b >= 1,
            ;
        } else {
            assert((a + b - 1) / b == qq + 1) by (nonlinear_arith)
                requires
                    a == b * qq + mm,
                    0 < mm < b,
            ;
            assert(qq + 1 <= a) by (nonlinear_arith)
                requires
                    a == b * qq + mm,
                    0 < mm < b,
                    qq >= 0,
            ;
        }
    }
    if m == 0 {
        q
    } else {
        q + 1
    }
}

impl Metrics {
    proof fn lemma_popup_w(self, nc: int)
        requires
            nc >= 1,
        ensures
            self.popup_w(nc) == nc * self.slot_w() - self.gap + self.frame_w + 2 * self.win_pad,
            self.popup_h(nc) == nc * self.slot_h() - self.gap + self.frame_w + 2 * self.win_pad,
    {
        let (t, u, g) = (self.tile_w + self.frame_w, self.tile_h + self.frame_w, self.gap as int);
        assert(t * nc + (nc - 1) * g == nc * (t + g) - g) by (nonlinear_arith);
        assert(u * nc + (nc - 1) * g == nc * (u + g) - g) by (nonlinear_arith);
    }

    /// With more than one column the popup stays `SCREEN_MARGIN` away from both edges of the
    /// monitor, and as many columns as that allows are used: one more would come too close.
    pub proof fn law_columns_keep_the_margin(self, n: int, mon_w: int)
        requires
            n >= 1,
            mon_w >= 0,
            self.frame_w >= 1,
        ensures
            1 <= self.columns(n, mon_w) <= n,
            self.columns(n, mon_w) > 1 ==> self.popup_w(self.columns(n, mon_w)) + 2
                * SCREEN_MARGIN <= mon_w,
            self.columns(n, mon_w) < n ==> self.popup_w(self.columns(n, mon_w) + 1) + 2
                * SCREEN_MARGIN > mon_w,
    {
        let nc = self.columns(n, mon_w);
        let slot = self.slot_w();
        let available = minus(mon_w, 2 * SCREEN_MARGIN);
        let budget = minus(available, self.frame_w + 2 * self.win_pad) + self.gap;
        let fitting = budget / slot;
        vstd::arithmetic::div_mod::lemma_fundamental_div_mod(budget, slot);
        let rest = budget % slot;
        assert(fitting >= 0) by (nonlinear_arith)
            requires
                budget == slot * fitting + rest,
                rest < slot,
                budget >= 0,
                slot >= 1,
        ;
        self.lemma_popup_w(nc);
        self.lemma_popup_w(nc + 1);
        if nc > 1 {
            assert(nc * slot <= budget) by (nonlinear_arith)
                requires
                    nc <= fitting,
                    budget == slot * fitting + rest,
                    rest >= 0,
                    slot >= 1,
            ;
            assert(slot >= self.gap + 1);
            assert(nc * slot >= 2 * slot) by (nonlinear_arith)
                requires
                    nc >= 2,
                    slot >= 1,
            ;
        }
        if nc < n {
            assert((nc + 1) * slot > budget) by (nonlinear_arith)
                requires
                    nc >= fitting,
                    budget == slot * fitting + rest,
                    rest < slot,
                    slot >= 1,
            ;
            assert((nc + 1) * slot >= 2 * slot) by (nonlinear_arith)
                requires
                    nc >= 1,
                    slot >= 1,
            ;
        }
    }

    /// The rows hold all tiles, and the last one is not empty.
    pub proof fn law_rows_hold_all_tiles(n: int, nc: int)
        requires
            n >= 1,
            nc >= 1,
        ensures
            (ceil_div(n, nc) - 1) * nc < n <= ceil_div(n, nc) * nc,
    {
        lemma_grid(n, nc, 0);
    }

    proof fn lemma_shift(self, align: Seq<char>, n: int, nc: int, i: int)
        requires
            nc >= 1,
            0 <= i < n,
        ensures
            0 <= self.row_shift(align, n, nc, i),
            (i % nc) * self.slot_w() + self.row_shift(align, n, nc, i) <= (nc - 1) * self.slot_w(),
    {
        lemma_grid(n, nc, i);
        let slot = self.slot_w();
        let rows = ceil_div(n, nc);
        let last = rows - 1;
        let missing = nc - (n - last * nc);
        let (q, k) = (i / nc, i % nc);
        assert((last + 1) * nc == last * nc + nc) by (nonlinear_arith);
        assert(0 <= missing * slot) by (nonlinear_arith)
            requires
                0 <= missing,
                0 <= slot,
        ;
        if q == last {
            assert(k + missing <= nc - 1) by (nonlinear_arith)
                requires
                    missing == nc - (n - last * nc),
                    i == nc * q + k,
                    q == last,
                    i < n,
            ;
            assert(k * slot + missing * slot <= (nc - 1) * slot) by (nonlinear_arith)
                requires
                    k + missing <= nc - 1,
                    slot >= 0,
            ;
        } else {
            assert(k * slot <= (nc - 1) * slot) by (nonlinear_arith)
                requires
                    k <= nc - 1,
                    slot >= 0,
            ;
        }
    }

    /// Every tile, with its border and the padding around the grid, lies inside the popup.
    pub proof fn law_tiles_lie_inside_the_popup(self, align: Seq<char>, n: int, nc: int, i: int)
        requires
            nc >= 1,
            0 <= i < n,
        ensures
            self.win_pad + self.frame_w <= self.tile_x(align, n, nc, i),
            self.win_pad + self.frame_w <= self.tile_y(nc, i),
            self.tile_x(align, n, nc, i) + self.tile_w + self.frame_w + self.win_pad
                <= self.popup_w(nc),
            self.tile_y(nc, i) + self.tile_h + self.frame_w + self.win_pad <= self.popup_h(
                ceil_div(n, nc),
            ),
    {
        lemma_grid(n, nc, i);
        self.lemma_shift(align, n, nc, i);
        let rows = ceil_div(n, nc);
        self.lemma_popup_w(nc);
        self.lemma_popup_w(rows);
        let (sw, sh) = (self.slot_w(), self.slot_h());
        let (q, k) = (i / nc, i % nc);
        assert(0 <= k * sw && 0 <= q * sh) by (nonlinear_arith)
            requires
                0 <= k,
                0 <= q,
                0 <= sw,
                0 <= sh,
        ;
        assert((nc - 1) * sw == nc * sw - sw) by (nonlinear_arith);
        assert(q * sh <= rows * sh - sh) by (nonlinear_arith)
            requires
                q <= rows - 1,
                sh >= 0,
        ;
    }

    /// Two tiles are at least one slot apart, across or down, so they never overlap.
    pub proof fn law_tiles_are_apart(self, align: Seq<char>, n: int, nc: int, i: int, j: int)
        requires
            nc >= 1,
            0 <= i < j < n,
        ensures
            self.tile_y(nc, i) == self.tile_y(nc, j) && self.tile_x(align, n, nc, i)
                + self.slot_w() <= self.tile_x(align, n, nc, j) || self.tile_y(nc, i)
                + self.slot_h() <= self.tile_y(nc, j),
    {
        lemma_grid(n, nc, i);
        lemma_grid(n, nc, j);
        let (sw, sh) = (self.slot_w(), self.slot_h());
        let (q, k) = (i / nc, i % nc);
        let (r, l) = (j / nc, j % nc);
        assert(q <= r) by (nonlinear_arith)
            requires
                i == nc * q + k,
                j == nc * r + l,
                i < j,
                k >= 0,
                l < nc,
                nc >= 1,
        ;
        if q == r {
            assert(k < l);
            assert(k * sw + sw <= l * sw) by (nonlinear_arith)
                requires
                    k + 1 <= l,
                    sw >= 0,
            ;
        } else {
            assert(q * sh + sh <= r * sh) by (nonlinear_arith)
                requires
                    q + 1 <= r,
                    sh >= 0,
            ;
        }
    }

    /// In a popup that fits 16-bit coordinates, no coordinate of a tile is cut off.
    proof fn lemma_covers_exactly(
        self,
        align: Seq<char>,
        n: int,
        nc: int,
        i: int,
        px: int,
        py: int,
    )
        requires
            nc >= 1,
            0 <= i < n,
            self.popup_w(nc) <= i16::MAX,
            self.popup_h(ceil_div(n, nc)) <= i16::MAX,
        ensures
            self.covers(align, n, nc, i, px, py) <==> self.tile_x(align, n, nc, i) <= px
                < self.tile_x(align, n, nc, i) + self.tile_w && self.tile_y(nc, i) <= py
                < self.tile_y(nc, i) + self.tile_h,
    {
        self.law_tiles_lie_inside_the_popup(align, n, nc, i);
        wire::law_coordinates_in_range_are_exact(self.tile_x(align, n, nc, i));
        wire::law_coordinates_in_range_are_exact(self.tile_y(nc, i));
    }

    /// In a popup that fits 16-bit coordinates, a point inside a tile hits that tile and no other.
    pub proof fn law_a_point_in_a_tile_hits_it(
        self,
        align: Seq<char>,
        n: int,
        nc: int,
        i: int,
        px: int,
        py: int,
    )
        requires
            nc >= 1,
            0 <= i < n,
            self.popup_w(nc) <= i16::MAX,
            self.popup_h(ceil_div(n, nc)) <= i16::MAX,
            self.tile_x(align, n, nc, i) <= px < self.tile_x(align, n, nc, i) + self.tile_w,
            self.tile_y(nc, i) <= py < self.tile_y(nc, i) + self.tile_h,
        ensures
            self.covers(align, n, nc, i, px, py),
            forall|j: int|
                0 <= j < n && j != i ==> !#[trigger] self.covers(align, n, nc, j, px, py),
            self.hit(align, n, nc, px, py, 0) == Some(i),
    {
        self.lemma_covers_exactly(align, n, nc, i, px, py);
        assert forall|j: int| 0 <= j < n && j != i implies !#[trigger] self.covers(
            align,
            n,
            nc,
            j,
            px,
            py,
        ) by {
            self.lemma_covers_exactly(align, n, nc, j, px, py);
            if i < j {
                self.law_tiles_are_apart(align, n, nc, i, j);
            } else {
                self.law_tiles_are_apart(align, n, nc, j, i);
            }
        }
        self.lemma_hit(align, n, nc, px, py, i, 0);
    }

    proof fn lemma_hit(
        self,
        align: Seq<char>,
        n: int,
        nc: int,
        px: int,
        py: int,
        i: int,
        from: int,
    )
        requires
            0 <= from <= i < n,
            self.covers(align, n, nc, i, px, py),
            forall|j: int|
                0 <= j < n && j != i ==> !#[trigger] self.covers(align, n, nc, j, px, py),
        ensures
            self.hit(align, n, nc, px, py, from) == Some(i),
        decreases i - from,
    {
        if from < i {
            self.lemma_hit(align, n, nc, px, py, i, from + 1);
        }
    }

    /// The last row starts at the left, ends at the right edge, or leaves the same space on both
    /// sides up to one pixel, as its alignment asks.
    pub proof fn law_last_row_is_aligned(self, align: Seq<char>, n: int, nc: int)
        requires
            n >= 1,
            nc >= 1,
        ensures
            ({
                let first = (ceil_div(n, nc) - 1) * nc;
                let left = self.tile_x(align, n, nc, first) - self.win_pad - self.frame_w;
                let right = self.popup_w(nc) - self.win_pad - self.frame_w - (self.tile_x(
                    align,
                    n,
                    nc,
                    n - 1,
                ) + self.tile_w);
                &&& align == "right"@ ==> right == 0
                &&& align == "center"@ ==> 0 <= right - left <= 1
                &&& align != "center"@ && align != "right"@ ==> left == 0
            }),
    {
        lemma_grid(n, nc, n - 1);
        reveal_strlit("right");
        reveal_strlit("center");
        assert("right"@.len() != "center"@.len());
        self.lemma_popup_w(nc);
        let slot = self.slot_w();
        let last = ceil_div(n, nc) - 1;
        let first = last * nc;
        lemma_grid(n, nc, 0);
        assert((last + 1) * nc == last * nc + nc) by (nonlinear_arith);
        assert(last >= 0);
        assert(first >= 0) by (nonlinear_arith)
            requires
                first == last * nc,
                last >= 0,
                nc >= 1,
        ;
        vstd::arithmetic::div_mod::lemma_div_multiples_vanish(last, nc);
        vstd::arithmetic::div_mod::lemma_mod_multiples_basic(last, nc);
        assert(nc * last == last * nc) by (nonlinear_arith);
        let (q, k) = ((n - 1) / nc, (n - 1) % nc);
        assert(q == last) by (nonlinear_arith)
            requires
                n - 1 == nc * q + k,
                0 <= k < nc,
                last * nc < n,
                n <= last * nc + nc,
                nc >= 1,
        ;
        let missing = nc - (n - first);
        assert(k + missing == nc - 1);
        assert(k * slot + missing * slot == nc * slot - slot) by (nonlinear_arith)
            requires
                k + missing == nc - 1,
        ;
        assert((first % nc) * slot == 0) by (nonlinear_arith)
            requires
                first % nc == 0,
        ;
        assert(self.row_shift(align, n, nc, first) == self.row_shift(align, n, nc, n - 1));
    }

    /// A popup without a spelled-out position leaves the same space on both sides of the monitor,
    /// up to one pixel, when it fits there.
    pub proof fn law_popup_is_centred(position: Seq<char>, mon: MonitorGeom, w: int, h: int)
        requires
            !position.contains(','),
            0 <= w <= mon.w,
            0 <= h <= mon.h,
            mon.x + mon.w <= i16::MAX,
            mon.y + mon.h <= i16::MAX,
        ensures
            ({
                let (x, y) = Metrics::popup_origin(position, mon, w, h);
                &&& 0 <= (mon.x + mon.w - (x + w)) - (x - mon.x) <= 1
                &&& 0 <= (mon.y + mon.h - (y + h)) - (y - mon.y) <= 1
            }),
    {
        text::lemma_split_without(position, ',');
    }
}

impl Metrics {
    /// Tiles form a regular grid: neighbours in a row, and rows, are a tile, its border and the gap
    /// apart, rows before the last start at the padding, and every further column or row makes the
    /// popup so much larger.
    pub proof fn law_tiles_form_a_grid(self, align: Seq<char>, n: int, nc: int, i: int)
        requires
            nc >= 1,
            0 <= i < n,
        ensures
            ({
                let (dx, dy) = (
                    self.tile_w + self.frame_w + self.gap,
                    self.tile_h + self.frame_w + self.gap,
                );
                &&& self.tile_y(nc, 0) == self.win_pad + self.frame_w
                &&& nc < n ==> self.tile_x(align, n, nc, 0) == self.win_pad + self.frame_w
                &&& (i + 1) % nc != 0 && i + 1 < n ==> self.tile_x(align, n, nc, i + 1)
                    == self.tile_x(align, n, nc, i) + dx && self.tile_y(nc, i + 1) == self.tile_y(
                    nc,
                    i,
                )
                &&& self.tile_y(nc, i + nc) == self.tile_y(nc, i) + dy
                &&& i + 2 * nc < n ==> self.tile_x(align, n, nc, i + nc) == self.tile_x(
                    align,
                    n,
                    nc,
                    i,
                )
                &&& self.popup_w(1) == self.tile_w + 2 * self.frame_w + 2 * self.win_pad
                &&& self.popup_h(1) == self.tile_h + 2 * self.frame_w + 2 * self.win_pad
                &&& self.popup_w(nc + 1) == self.popup_w(nc) + dx
                &&& self.popup_h(nc + 1) == self.popup_h(nc) + dy
            }),
    {
        lemma_grid(n, nc, i);
        self.lemma_popup_w(nc);
        self.lemma_popup_w(nc + 1);
        self.lemma_popup_w(1);
        let (sw, sh) = (self.slot_w(), self.slot_h());
        let (q, k) = (i / nc, i % nc);
        let last = ceil_div(n, nc) - 1;
        assert(nc * (q + 1) == nc * q + nc) by (nonlinear_arith);
        assert(nc * 0 == 0) by (nonlinear_arith);
        lemma_cell(0, nc, 0, 0);
        lemma_cell(i + nc, nc, q + 1, k);
        if k + 1 < nc {
            lemma_cell(i + 1, nc, q, k + 1);
        } else {
            lemma_cell(i + 1, nc, q + 1, 0);
        }
        assert((q + 1) * sh == q * sh + sh) by (nonlinear_arith);
        assert((k + 1) * sw == k * sw + sw) by (nonlinear_arith);
        assert((nc + 1) * sw == nc * sw + sw) by (nonlinear_arith);
        assert((nc + 1) * sh == nc * sh + sh) by (nonlinear_arith);
        assert((last + 1) * nc == last * nc + nc) by (nonlinear_arith);
        if nc < n {
            assert(last >= 1) by (nonlinear_arith)
                requires
                    n <= last * nc + nc,
                    nc < n,
                    nc >= 1,
            ;
        }
        if i + 2 * nc < n {
            assert((q + 1) * nc == q * nc + nc) by (nonlinear_arith);
            assert(nc * q == q * nc) by (nonlinear_arith);
            assert(q + 1 < last) by (nonlinear_arith)
                requires
                    i == q * nc + k,
                    k >= 0,
                    i + 2 * nc < n,
                    n <= last * nc + nc,
                    nc >= 1,
            ;
        }
    }

    /// The popup keeps a margin of forty pixels on either side of the monitor wherever it has more
    /// than one column, and has another column wherever that would keep it too.
    pub proof fn law_columns_use_the_monitor(self, n: int, mon_w: int)
        requires
            n >= 1,
            mon_w >= 0,
            self.frame_w >= 1,
        ensures
            self.columns(n, mon_w) > 1 ==> self.popup_w(self.columns(n, mon_w)) + 80 <= mon_w,
            self.columns(n, mon_w) < n ==> self.popup_w(self.columns(n, mon_w) + 1) + 80 > mon_w,
    {
        self.law_columns_keep_the_margin(n, mon_w);
    }

    /// A position that is spelled out is where the popup goes, whatever the monitor; a part that is
    /// no number counts as zero.
    pub proof fn law_popup_goes_where_it_is_told(
        xs: Seq<char>,
        ys: Seq<char>,
        mon: MonitorGeom,
        w: int,
        h: int,
    )
        requires
            !xs.contains(','),
        ensures
            ({
                let (x, y) = Metrics::popup_origin(xs.push(',') + ys, mon, w, h);
                &&& match text::spelled_i16(text::trimmed(xs)) {
                    Some(v) => x == v,
                    None => x == 0,
                }
                &&& match text::spelled_i16(text::trimmed(ys)) {
                    Some(v) => y == v,
                    None => y == 0,
                }
            }),
    {
        text::law_texts_split_at_the_separator(xs, ',', ys);
    }
}

/// The row and the column of a tile.
proof fn lemma_cell(i: int, nc: int, q: int, k: int)
    requires
        nc >= 1,
        0 <= k < nc,
        i == nc * q + k,
    ensures
        i / nc == q,
        i % nc == k,
{
    assert(nc * q == q * nc) by (nonlinear_arith);
    vstd::arithmetic::div_mod::lemma_fundamental_div_mod_converse(i, nc, q, k);
}

impl Metrics {
    /// A point hits a tile only if it lies in it, and hits none only if it lies in none.
    pub proof fn law_a_point_between_tiles_hits_none(
        self,
        align: Seq<char>,
        n: int,
        nc: int,
        px: int,
        py: int,
    )
        requires
            nc >= 1,
            n >= 1,
            self.popup_w(nc) <= i16::MAX,
            self.popup_h(ceil_div(n, nc)) <= i16::MAX,
        ensures
            match self.hit(align, n, nc, px, py, 0) {
                Some(i) => 0 <= i < n && self.tile_x(align, n, nc, i) <= px < self.tile_x(
                    align,
                    n,
                    nc,
                    i,
                ) + self.tile_w && self.tile_y(nc, i) <= py < self.tile_y(nc, i) + self.tile_h,
                None => forall|i: int|
                    0 <= i < n ==> !(#[trigger] self.tile_x(align, n, nc, i) <= px < self.tile_x(
                        align,
                        n,
                        nc,
                        i,
                    ) + self.tile_w && self.tile_y(nc, i) <= py < self.tile_y(nc, i) + self.tile_h),
            },
    {
        self.lemma_hit_is_covered(align, n, nc, px, py, 0);
        match self.hit(align, n, nc, px, py, 0) {
            Some(i) => {
                self.lemma_covers_exactly(align, n, nc, i, px, py);
            },
            None => {
                assert forall|i: int| 0 <= i < n implies !(#[trigger] self.tile_x(align, n, nc, i)
                    <= px < self.tile_x(align, n, nc, i) + self.tile_w && self.tile_y(nc, i) <= py
                    < self.tile_y(nc, i) + self.tile_h) by {
                    self.lemma_covers_exactly(align, n, nc, i, px, py);
                }
            },
        }
    }

    proof fn lemma_hit_is_covered(
        self,
        align: Seq<char>,
        n: int,
        nc: int,
        px: int,
        py: int,
        from: int,
    )
        requires
            0 <= from,
        ensures
            match self.hit(align, n, nc, px, py, from) {
                Some(i) => from <= i < n && self.covers(align, n, nc, i, px, py),
                None => forall|i: int|
                    from <= i < n ==> !#[trigger] self.covers(align, n, nc, i, px, py),
            },
        decreases n - from,
    {
        if from < n && !self.covers(align, n, nc, from, px, py) {
            self.lemma_hit_is_covered(align, n, nc, px, py, from + 1);
        }
    }
}

impl Metrics {
    /// A popup that is larger than its monitor starts at the monitor's corner.
    pub proof fn law_large_popups_start_at_the_corner(
        position: Seq<char>,
        mon: MonitorGeom,
        w: int,
        h: int,
    )
        requires
            !position.contains(','),
        ensures
            w >= mon.w ==> Metrics::popup_origin(position, mon, w, h).0 == mon.x,
            h >= mon.h ==> Metrics::popup_origin(position, mon, w, h).1 == mon.y,
    {
        text::lemma_split_without(position, ',');
        wire::law_coordinates_in_range_are_exact(mon.x as int);
        wire::law_coordinates_in_range_are_exact(mon.y as int);
    }
}

} // verus!
