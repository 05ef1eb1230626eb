//! Window-manager properties: which windows there are, what they are called, their icons, and how
//! one is brought to the front.
use vstd::prelude::*;
use vstd::utf8::*;

use crate::wire;

verus! {

/// The desktop number of a window that is on all desktops.
pub const ALL_DESKTOPS: u32 = 0xffff_ffff;

/// The atoms that are used, resolved once per connection.
#[derive(Debug, Clone, Copy, PartialEq, Eq)]
pub struct Atoms {
    pub net_client_list_stacking: u32,
    pub net_client_list: u32,
    pub net_wm_window_type: u32,
    pub wt_desktop: u32,
    pub wt_dock: u32,
    pub wt_toolbar: u32,
    pub wt_splash: u32,
    pub wt_notification: u32,
    pub net_wm_name: u32,
    pub utf8_string: u32,
    pub net_wm_icon: u32,
}

/// The names of the atoms, in the order of the fields of `Atoms`.
pub open spec fn atom_names() -> Seq<Seq<char>> {
    seq![
        "_NET_CLIENT_LIST_STACKING"@,
        "_NET_CLIENT_LIST"@,
        "_NET_WM_WINDOW_TYPE"@,
        "_NET_WM_WINDOW_TYPE_DESKTOP"@,
        "_NET_WM_WINDOW_TYPE_DOCK"@,
        "_NET_WM_WINDOW_TYPE_TOOLBAR"@,
        "_NET_WM_WINDOW_TYPE_SPLASH"@,
        "_NET_WM_WINDOW_TYPE_NOTIFICATION"@,
        "_NET_WM_NAME"@,
        "UTF8_STRING"@,
        "_NET_WM_ICON"@,
    ]
}

impl Atoms {
    /// The names to intern, in the order in which `from_replies` takes the atoms.
    pub fn names() -> (r: Vec<&'static str>)
        ensures
            r.len() == 11,
            forall|i: int| 0 <= i < 11 ==> (#[trigger] r[i])@ == atom_names()[i],
    {
        vec![
            "_NET_CLIENT_LIST_STACKING",
            "_NET_CLIENT_LIST",
            "_NET_WM_WINDOW_TYPE",
            "_NET_WM_WINDOW_TYPE_DESKTOP",
            "_NET_WM_WINDOW_TYPE_DOCK",
            "_NET_WM_WINDOW_TYPE_TOOLBAR",
            "_NET_WM_WINDOW_TYPE_SPLASH",
            "_NET_WM_WINDOW_TYPE_NOTIFICATION",
            "_NET_WM_NAME",
            "UTF8_STRING",
            "_NET_WM_ICON",
        ]
    }

    /// The atoms in the order of their names.
    pub open spec fn listed(self) -> Seq<u32> {
        seq![
            self.net_client_list_stacking,
            self.net_client_list,
            self.net_wm_window_type,
            self.wt_desktop,
            self.wt_dock,
            self.wt_toolbar,
            self.wt_splash,
            self.wt_notification,
            self.net_wm_name,
            self.utf8_string,
            self.net_wm_icon,
        ]
    }

    /// The atoms, from the replies for `names`; `None` when a reply is missing.
    pub fn from_replies(a: &Vec<u32>) -> (r: Option<Atoms>)
        ensures
            r is Some <==> a.len() == 11,
            r matches Some(atoms) ==> atoms.listed() == a@,
    {
        if a.len() != 11 {
            return None;
        }
        let atoms = Atoms {
            net_client_list_stacking: a[0],
            net_client_list: a[1],
            net_wm_window_type: a[2],
            wt_desktop: a[3],
            wt_dock: a[4],
            wt_toolbar: a[5],
            wt_splash: a[6],
            wt_notification: a[7],
            net_wm_name: a[8],
            utf8_string: a[9],
            net_wm_icon: a[10],
        };
        assert(atoms.listed() =~= a@);
        Some(atoms)
    }

    /// The property that lists the windows: the stacking order where the window manager has it.
    pub fn window_list_atom(&self) -> (r: u32)
        ensures
            r == if self.net_client_list_stacking == 0 {
                self.net_client_list
            } else {
                self.net_client_list_stacking
            },
    {
        if self.net_client_list_stacking == 0 {
            self.net_client_list
        } else {
            self.net_client_list_stacking
        }
    }
}

/// The windows of a window-list property, most recently focused first. Only values of 32 bits are
/// windows.
pub fn get_window_list(format: u8, values: &Vec<u32>) -> (r: Vec<u32>)
    ensures
        r@ == if format == 32 {
            values@.reverse()
        } else {
            seq![]
        },
{
    let mut r: Vec<u32> = Vec::new();
    if format != 32 {
        return r;
    }
    let n: usize = values.len();
    let mut i: usize = n;
    while i > 0
        invariant
            i <= n,
            n == values.len(),
            r.len() == n - i,
            forall|k: int| 0 <= k < n - i ==> r@[k] == values@[n - 1 - k],
        decreases i,
    {
        i = i - 1;
        r.push(values[i]);
    }
    assert(r@ =~= values@.reverse());
    r
}

/// The type marks a window that is not switched to: a panel, dock, desktop, splash or
/// notification.
pub open spec fn is_skip_type(t: u32, atoms: Atoms) -> bool {
    t == atoms.wt_desktop || t == atoms.wt_dock || t == atoms.wt_toolbar || t == atoms.wt_splash
        || t == atoms.wt_notification
}

/// Returns true if any type in `window_types` marks a window to skip: panels, docks, the desktop,
/// splashes, and notification windows.
pub fn is_skip_window_type(window_types: &[u32], atoms: &Atoms) -> (r: bool)
    ensures
        r == exists|i: int|
            0 <= i < window_types.len() && is_skip_type(#[trigger] window_types@[i], *atoms),
{
    let n: usize = window_types.len();
    let mut i: usize = 0;
    while i < n
        invariant
            i <= n,
            n == window_types.len(),
            forall|k: int| 0 <= k < i ==> !is_skip_type(#[trigger] window_types@[k], *atoms),
        decreases n - i,
    {
        let t: u32 = window_types[i];
        if t == atoms.wt_desktop || t == atoms.wt_dock || t == atoms.wt_toolbar || t
            == atoms.wt_splash || t == atoms.wt_notification {
            assert(is_skip_type(window_types@[i as int], *atoms));
            return true;
        }
        i = i + 1;
    }
    false
}

/// What `String::from_utf8_lossy` makes of bytes.
pub uninterp spec fn utf8_lossy(bytes: Seq<u8>) -> Seq<char>;

/// `String::from_utf8_lossy` of std: the text that the bytes encode, sequences that are not UTF-8
/// being replaced. Bytes that are UTF-8 throughout are taken as they are.
#[verifier::external_body]
fn lossy_text(bytes: &[u8]) -> (r: String)
    ensures
        r@ == utf8_lossy(bytes@),
        valid_utf8(bytes@) ==> r@ == decode_utf8(bytes@),
{
    String::from_utf8_lossy(bytes).into_owned()
}

/// The property that names a window: the first of the two, unless it is missing or empty, else the
/// second.
pub open spec fn name_bytes(net: Option<Seq<u8>>, wm: Option<Seq<u8>>) -> Option<Seq<u8>> {
    match net {
        Some(b) => if b.len() > 0 {
            net
        } else {
            wm
        },
        None => wm,
    }
}

/// A window's name: the text of the property that names it, or nothing.
pub open spec fn window_name_of(net: Option<Seq<u8>>, wm: Option<Seq<u8>>) -> Seq<char> {
    match name_bytes(net, wm) {
        Some(b) => utf8_lossy(b),
        None => seq![],
    }
}

/// `name` is the name of a window. Where the property that names it is UTF-8, that is the text
/// which it encodes.
pub open spec fn is_window_name(
    net: Option<Seq<u8>>,
    wm: Option<Seq<u8>>,
    name: Seq<char>,
) -> bool {
    &&& name == window_name_of(net, wm)
    &&& name_bytes(net, wm) matches Some(b) ==> valid_utf8(b) ==> name == decode_utf8(b)
}

/// The bytes of a property, if it was read.
pub open spec fn bytes_of(p: Option<Vec<u8>>) -> Option<Seq<u8>> {
    match p {
        Some(v) => Some(v@),
        None => None,
    }
}

/// A window's name: `_NET_WM_NAME` if it is set and not empty, else `WM_NAME`, else empty.
pub fn window_name(net: &Option<Vec<u8>>, wm: &Option<Vec<u8>>) -> (r: String)
    ensures
        is_window_name(bytes_of(*net), bytes_of(*wm), r@),
{
    if let Some(b) = net {
        if b.len() > 0 {
            return lossy_text(b.as_slice());
        }
    }
    match wm {
        Some(b) => lossy_text(b.as_slice()),
        None => {
            let r: String = String::new();
            assert(r@ =~= seq![]);
            r
        },
    }
}

/// The position of the first zero byte, or the length.
pub open spec fn first_zero(b: Seq<u8>) -> nat
    decreases b.len(),
{
    if b.len() == 0 || b[0] == 0 {
        0
    } else {
        1 + first_zero(b.drop_first())
    }
}

/// The bytes up to the first zero.
pub open spec fn before_zero(b: Seq<u8>) -> Seq<u8> {
    b.take(first_zero(b) as int)
}

/// The bytes of the class in a `WM_CLASS` property, `instance NUL class NUL`: the second part, or
/// the first where there is no second or it is empty.
pub open spec fn class_bytes(value: Seq<u8>) -> Seq<u8> {
    let i = first_zero(value) as int;
    let second = if i < value.len() {
        before_zero(value.skip(i + 1))
    } else {
        seq![]
    };
    if second.len() > 0 {
        second
    } else {
        before_zero(value)
    }
}

proof fn lemma_first_zero(b: Seq<u8>, i: int)
    requires
        0 <= i <= b.len(),
        forall|k: int| 0 <= k < i ==> #[trigger] b[k] != 0,
        i < b.len() ==> b[i] == 0,
    ensures
        first_zero(b) == i,
    decreases i,
{
    if i > 0 {
        lemma_first_zero(b.drop_first(), i - 1);
    }
}

/// The first zero byte at or after `from`, or the length.
fn zero_from(b: &[u8], from: usize) -> (r: usize)
    requires
        from <= b.len(),
    ensures
        from <= r <= b.len(),
        first_zero(b@.skip(from as int)) == r - from,
{
    let mut i: usize = from;
    while i < b.len() && b[i] != 0
        invariant
            from <= i <= b.len(),
            forall|k: int| from <= k < i ==> b@[k] != 0,
        decreases b.len() - i,
    {
        i = i + 1;
    }
    proof {
        let t = b@.skip(from as int);
        assert forall|k: int| 0 <= k < i - from implies #[trigger] t[k] != 0 by {
            assert(t[k] == b@[from + k]);
        }
        lemma_first_zero(t, i - from);
    }
    i
}

/// Parses the class component out of raw `WM_CLASS` property bytes; `None` when it is empty.
pub fn parse_wm_class(value: &[u8]) -> (r: Option<String>)
    ensures
        r is None <==> class_bytes(value@).len() == 0,
        r matches Some(s) ==> s@ == utf8_lossy(class_bytes(value@)) && (valid_utf8(
            class_bytes(value@),
        ) ==> s@ == decode_utf8(class_bytes(value@))),
{
    let i: usize = zero_from(value, 0);
    assert(value@.skip(0) =~= value@);
    assert(value@.take(i as int) =~= value@.subrange(0, i as int));
    if i < value.len() {
        let j: usize = zero_from(value, i + 1);
        assert(value@.skip(i + 1).take(j - (i + 1)) =~= value@.subrange(i + 1, j as int));
        if j > i + 1 {
            return Some(lossy_text(vstd::slice::slice_subrange(value, i + 1, j)));
        }
    }
    if i == 0 {
        None
    } else {
        Some(lossy_text(vstd::slice::slice_subrange(value, 0, i)))
    }
}

/// One icon in an icon property: its width, its height, and where its pixels start.
pub struct IconBlock {
    pub w: int,
    pub h: int,
    pub at: int,
}

/// The icons in an icon property from position `i` on, each `width, height, pixels`. The first one
/// that does not fit ends the list.
pub open spec fn icon_blocks(data: Seq<u32>, i: int) -> Seq<IconBlock>
    decreases data.len() - i,
{
    if i < 0 || i + 2 > data.len() {
        seq![]
    } else {
        let w = data[i] as int;
        let h = data[i + 1] as int;
        if w * h < 0 || i + 2 + w * h > data.len() {
            seq![]
        } else {
            seq![IconBlock { w, h, at: i + 2 }] + icon_blocks(data, i + 2 + w * h)
        }
    }
}

/// How far a width is from the one that is wanted.
pub open spec fn off_by(w: int, target: int) -> int {
    if w < target {
        target - w
    } else {
        w - target
    }
}

/// An icon of width `w` serves better than one of width `v`: it is nearer to the target, or as
/// near and wider.
pub open spec fn better(w: int, v: int, target: int) -> bool {
    off_by(w, target) < off_by(v, target) || (off_by(w, target) == off_by(v, target) && w > v)
}

/// Icon `k` is the one to use: none is better, and no earlier one is as good.
pub open spec fn is_best(blocks: Seq<IconBlock>, k: int, target: int) -> bool {
    &&& 0 <= k < blocks.len()
    &&& forall|j: int| 0 <= j < blocks.len() ==> !better((#[trigger] blocks[j]).w, blocks[k].w, target)
    &&& forall|j: int| 0 <= j < k ==> better(blocks[k].w, (#[trigger] blocks[j]).w, target)
}

/// Width, height and pixels of an icon in the property.
pub open spec fn is_icon(icon: (u32, u32, Vec<u32>), data: Seq<u32>, b: IconBlock) -> bool {
    icon.0 == b.w && icon.1 == b.h && icon.2@ == data.subrange(b.at, b.at + b.w * b.h)
}

fn distance(w: u32, target: u32) -> (r: u32)
    ensures
        r == off_by(w as int, target as int),
{
    if w < target {
        target - w
    } else {
        w - target
    }
}

/// `icon` is the best-matching one in raw `_NET_WM_ICON` data.
pub open spec fn is_best_icon(icon: (u32, u32, Vec<u32>), data: Seq<u32>, target: int) -> bool {
    exists|k: int|
        #[trigger] is_best(icon_blocks(data, 0), k, target) && is_icon(
            icon,
            data,
            icon_blocks(data, 0)[k],
        )
}

/// Picks the best-matching icon from raw `_NET_WM_ICON` data for `target_size`. The property is a
/// sequence of blocks, each a width, a height and so many ARGB pixels.
pub fn parse_net_wm_icon(data: &[u32], target_size: u32) -> (r: Option<(u32, u32, Vec<u32>)>)
    ensures
        r is None <==> icon_blocks(data@, 0).len() == 0,
        r matches Some(icon) ==> is_best_icon(icon, data@, target_size as int),
{
    let n: usize = data.len();
    let mut i: usize = 0;
    let mut best: Option<(u32, u32, usize)> = None;
    let ghost all = icon_blocks(data@, 0);
    let ghost mut seen: Seq<IconBlock> = seq![];
    let ghost mut k: int = 0;
    let ghost target = target_size as int;
    assert(seen + icon_blocks(data@, 0) =~= all);
    while i <= n && n - i >= 2
        invariant_except_break
            seen + icon_blocks(data@, i as int) == all,
        invariant
            i <= n,
            n == data.len(),
            target == target_size,
            best is None <==> seen.len() == 0,
            best matches Some(b) ==> is_best(seen, k, target) && b.0 == seen[k].w && b.1
                == seen[k].h && b.2 == seen[k].at && 0 <= b.2 && b.2 + seen[k].w * seen[k].h <= n,
        ensures
            seen == all,
        decreases n - i,
    {
        let w: u32 = data[i];
        let h: u32 = data[i + 1];
        proof {
            let (a, b) = (w as int, h as int);
            assert(0 <= a * b <= 0xffff_ffff * 0xffff_ffff) by (nonlinear_arith)
                requires
                    0 <= a <= 0xffff_ffff,
                    0 <= b <= 0xffff_ffff,
            ;
        }
        let count: u64 = w as u64 * h as u64;
        let start: usize = i + 2;
        if count > (n - start) as u64 {
            assert(icon_blocks(data@, i as int) =~= seq![]);
            assert(seen + icon_blocks(data@, i as int) =~= seen);
            break ;
        }
        let is_better = match best {
            None => true,
            Some((bw, _, _)) => {
                let cur: u32 = distance(w, target_size);
                let prev: u32 = distance(bw, target_size);
                cur < prev || (cur == prev && w > bw)
            },
        };
        let ghost block = IconBlock { w: w as int, h: h as int, at: start as int };
        proof {
            let old_seen = seen;
            seen = seen.push(block);
            assert(icon_blocks(data@, i as int) == seq![block] + icon_blocks(
                data@,
                start + w * h,
            ));
            assert(old_seen + (seq![block] + icon_blocks(data@, start + w * h)) =~= seen
                + icon_blocks(data@, start + w * h));
            let best_at = k;
            if is_better {
                k = old_seen.len() as int;
                assert forall|j: int| 0 <= j < k implies better(
                    block.w,
                    (#[trigger] seen[j]).w,
                    target,
                ) by {
                    assert(seen[j] == old_seen[j]);
                    if old_seen.len() > 0 {
                        assert(!better(old_seen[j].w, old_seen[best_at].w, target));
                    }
                }
            } else {
                assert(seen[k] == old_seen[k]);
                assert forall|j: int| 0 <= j < seen.len() implies !better(
                    (#[trigger] seen[j]).w,
                    seen[k].w,
                    target,
                ) by {
                    if j < old_seen.len() {
                        assert(seen[j] == old_seen[j]);
                    }
                }
                assert forall|j: int| 0 <= j < k implies better(
                    seen[k].w,
                    (#[trigger] seen[j]).w,
                    target,
                ) by {
                    assert(seen[j] == old_seen[j]);
                }
            }
        }
        if is_better {
            best = Some((w, h, start));
        }
        i = start + count as usize;
        if n - i < 2 {
            assert(icon_blocks(data@, i as int) =~= seq![]);
            assert(seen + icon_blocks(data@, i as int) =~= seen);
        }
    }
    match best {
        None => None,
        Some((w, h, at)) => {
            let ghost len = seen[k].w * seen[k].h;
            let count: usize = (w as u64 * h as u64) as usize;
            let px: Vec<u32> = vstd::slice::slice_to_vec(
                vstd::slice::slice_subrange(data, at, at + count),
            );
            let icon = (w, h, px);
            assert(is_icon(icon, data@, all[k]));
            Some(icon)
        },
    }
}

/// The first value of a property, where it has values of 32 bits.
pub fn first_cardinal(format: u8, values: &Vec<u32>) -> (r: Option<u32>)
    ensures
        r == if format == 32 && values.len() > 0 {
            Some(values[0])
        } else {
            None
        },
{
    if format == 32 && values.len() > 0 {
        Some(values[0])
    } else {
        None
    }
}

/// The desktop to switch to before a window is activated: that of the window, unless it is on all
/// desktops, its desktop is unknown, or that desktop is already shown. An unknown current desktop
/// counts as the right one.
pub open spec fn switch_target(window_desktop: Option<u32>, current: Option<u32>) -> Option<u32> {
    match (window_desktop, current) {
        (Some(d), Some(c)) => if d != ALL_DESKTOPS && c != d {
            Some(d)
        } else {
            None
        },
        _ => None,
    }
}

/// The desktop to switch to before a window is activated.
pub fn desktop_switch(window_desktop: Option<u32>, current: Option<u32>) -> (r: Option<u32>)
    ensures
        r == switch_target(window_desktop, current),
{
    match (window_desktop, current) {
        (Some(d), Some(c)) => if d != ALL_DESKTOPS && c != d {
            Some(d)
        } else {
            None
        },
        _ => None,
    }
}

/// The desktop that is shown after the switch is the window's own, unless the window is on all
/// desktops, which leaves the shown one alone.
pub proof fn law_activation_shows_the_window(window_desktop: u32, current: u32)
    ensures
        ({
            let shown = match switch_target(Some(window_desktop), Some(current)) {
                Some(d) => d,
                None => current,
            };
            shown == if window_desktop == ALL_DESKTOPS {
                current
            } else {
                window_desktop
            }
        }),
{
}

/// The data of the message that asks the window manager to activate a window: the request comes
/// from a pager, at no particular time.
pub fn activate_message(current_time: u32) -> (r: [u32; 5])
    ensures
        r@ == seq![2u32, current_time, 0u32, 0u32, 0u32],
{
    let r: [u32; 5] = [2, current_time, 0, 0, 0];
    assert(r@ =~= seq![2u32, current_time, 0u32, 0u32, 0u32]);
    r
}

/// The data of the message that asks the window manager to switch to a desktop.
pub fn desktop_message(desktop: u32, current_time: u32) -> (r: [u32; 5])
    ensures
        r@ == seq![desktop, current_time, 0u32, 0u32, 0u32],
{
    let r: [u32; 5] = [desktop, current_time, 0, 0, 0];
    assert(r@ =~= seq![desktop, current_time, 0u32, 0u32, 0u32]);
    r
}

/// One number of a rectangle: x, y, width, height. Negative coordinates are sent as the 32 bits
/// that stand for them.
pub open spec fn rect_part(r: (i16, i16, u16, u16), k: int) -> u32 {
    if k == 0 {
        wire::u32_of(r.0 as int) as u32
    } else if k == 1 {
        wire::u32_of(r.1 as int) as u32
    } else if k == 2 {
        r.2 as u32
    } else {
        r.3 as u32
    }
}

/// The numbers of all rectangles in a row.
pub open spec fn region_of(rects: Seq<(i16, i16, u16, u16)>) -> Seq<u32> {
    Seq::new(4 * rects.len(), |i: int| rect_part(rects[i / 4], i % 4))
}

/// The value of the blur hint for some regions of a window. No regions mean the whole window.
pub fn blur_region(rects: &Vec<(i16, i16, u16, u16)>) -> (r: Vec<u32>)
    ensures
        r@ == region_of(rects@),
{
    let n: usize = rects.len();
    let mut r: Vec<u32> = Vec::new();
    let mut i: usize = 0;
    while i < n
        invariant
            i <= n,
            n == rects.len(),
            r@ == region_of(rects@.take(i as int)),
        decreases n - i,
    {
        let (x, y, w, h): (i16, i16, u16, u16) = rects[i];
        let ghost before = r@;
        r.push(wire::bits_of(x));
        r.push(wire::bits_of(y));
        r.push(w as u32);
        r.push(h as u32);
        proof {
            let want = region_of(rects@.take(i + 1));
            assert forall|k: int| 0 <= k < want.len() implies r@[k] == want[k] by {
                if k < before.len() {
                    assert(r@[k] == before[k]);
                    assert(rects@.take(i + 1)[k / 4] == rects@.take(i as int)[k / 4]);
                } else {
                    assert(k / 4 == i);
                    assert(rects@.take(i + 1)[k / 4] == rects@[i as int]);
                }
            }
            assert(r@ =~= want);
        }
        i = i + 1;
    }
    assert(rects@.take(n as int) =~= rects@);
    r
}

/// A UTF-8 name is taken as it is: the name that an application sets, in either property, is the
/// one that is shown.
pub proof fn law_utf8_names_are_kept(
    net: Option<Seq<u8>>,
    wm: Option<Seq<u8>>,
    set: Seq<char>,
    name: Seq<char>,
)
    requires
        name_bytes(net, wm) == Some(encode_utf8(set)),
        is_window_name(net, wm, name),
    ensures
        name == set,
{
    encode_utf8_valid_utf8(set);
    encode_utf8_decode_utf8(set);
}

/// Each atom is the one that the server gives for its name.
pub proof fn law_atoms_have_their_names(atoms: Atoms, given: spec_fn(Seq<char>) -> u32)
    requires
        atoms.listed() == atom_names().map_values(given),
    ensures
        atoms.net_client_list_stacking == given("_NET_CLIENT_LIST_STACKING"@),
        atoms.net_client_list == given("_NET_CLIENT_LIST"@),
        atoms.net_wm_window_type == given("_NET_WM_WINDOW_TYPE"@),
        atoms.wt_desktop == given("_NET_WM_WINDOW_TYPE_DESKTOP"@),
        atoms.wt_dock == given("_NET_WM_WINDOW_TYPE_DOCK"@),
        atoms.wt_toolbar == given("_NET_WM_WINDOW_TYPE_TOOLBAR"@),
        atoms.wt_splash == given("_NET_WM_WINDOW_TYPE_SPLASH"@),
        atoms.wt_notification == given("_NET_WM_WINDOW_TYPE_NOTIFICATION"@),
        atoms.net_wm_name == given("_NET_WM_NAME"@),
        atoms.utf8_string == given("UTF8_STRING"@),
        atoms.net_wm_icon == given("_NET_WM_ICON"@),
{
    let l = atoms.listed();
    let m = atom_names().map_values(given);
    assert(l[0] == m[0] && l[1] == m[1] && l[2] == m[2] && l[3] == m[3]);
    assert(l[4] == m[4] && l[5] == m[5] && l[6] == m[6] && l[7] == m[7]);
    assert(l[8] == m[8] && l[9] == m[9] && l[10] == m[10]);
}

/// The first of the two names counts wherever it says anything, and else the second.
pub proof fn law_the_first_name_counts(net: Seq<u8>, wm: Option<Seq<u8>>)
    ensures
        net.len() > 0 ==> name_bytes(Some(net), wm) == Some(net),
        name_bytes(Some(seq![]), wm) == wm,
        name_bytes(None, wm) == wm,
{
}

/// Of an instance and a class, each ended by a zero, the class is taken; without a class, the
/// instance.
pub proof fn law_the_class_follows_the_instance(instance: Seq<u8>, class: Seq<u8>, more: Seq<u8>)
    requires
        !instance.contains(0u8),
        !class.contains(0u8),
    ensures
        class.len() > 0 ==> class_bytes(instance.push(0) + class.push(0) + more) == class,
        class.len() > 0 ==> class_bytes(instance.push(0) + class) == class,
        class_bytes(instance.push(0)) == instance,
        class_bytes(instance.push(0).push(0)) == instance,
        class_bytes(instance) == instance,
{
    lemma_before_zero(instance, class.push(0) + more);
    lemma_before_zero(instance, class);
    lemma_before_zero(instance, seq![]);
    lemma_before_zero(instance, seq![0u8]);
    lemma_before_zero(class, more);
    lemma_before_zero(seq![], seq![]);
    let n = instance.len() as int;
    let whole = instance.push(0) + class.push(0) + more;
    assert(whole =~= instance.push(0) + (class.push(0) + more));
    assert(whole.skip(n + 1) =~= class.push(0) + more);
    assert((instance.push(0) + class).skip(n + 1) =~= class);
    assert(instance.push(0) + seq![] =~= instance.push(0));
    assert(instance.push(0).skip(n + 1) =~= seq![]);
    assert(instance.push(0) + seq![0u8] =~= instance.push(0).push(0));
    assert(instance.push(0).push(0).skip(n + 1) =~= seq![0u8]);
    assert(Seq::<u8>::empty().push(0) + Seq::<u8>::empty() =~= seq![0u8]);
}

/// What stands before a zero, with something after it and alone.
proof fn lemma_before_zero(a: Seq<u8>, b: Seq<u8>)
    requires
        !a.contains(0u8),
    ensures
        first_zero(a.push(0) + b) == a.len(),
        before_zero(a.push(0) + b) == a,
        first_zero(a) == a.len(),
        before_zero(a) == a,
{
    let s = a.push(0) + b;
    assert forall|k: int| 0 <= k < a.len() implies #[trigger] s[k] != 0 by {
        assert(s[k] == a[k] && a.contains(a[k]));
    }
    assert forall|k: int| 0 <= k < a.len() implies #[trigger] a[k] != 0 by {
        assert(a.contains(a[k]));
    }
    lemma_first_zero(s, a.len() as int);
    lemma_first_zero(a, a.len() as int);
    assert(s.take(a.len() as int) =~= a);
    assert(a.take(a.len() as int) =~= a);
}

/// The icon to use is nearest to the wanted width among all, the wider of two that are as near, and
/// the first of equals.
pub proof fn law_the_nearest_icon_is_used(blocks: Seq<IconBlock>, k: int, j: int, target: int)
    requires
        is_best(blocks, k, target),
        0 <= j < blocks.len(),
    ensures
        ({
            let (w, v) = (blocks[k].w, blocks[j].w);
            let near = if w < target { target - w } else { w - target };
            let other = if v < target { target - v } else { v - target };
            &&& near <= other
            &&& near == other ==> w >= v
            &&& w == v ==> k <= j
        }),
{
}

/// The icons of a property are read one after the other: a width, a height, then so many pixels.
pub proof fn law_icons_follow_each_other(w: u32, h: u32, px: Seq<u32>, rest: Seq<u32>)
    requires
        px.len() == w * h,
    ensures
        ({
            let all = icon_blocks(seq![w, h] + px + rest, 0);
            let others = icon_blocks(rest, 0);
            &&& all.len() == 1 + others.len()
            &&& all[0] == (IconBlock { w: w as int, h: h as int, at: 2 })
            &&& forall|j: int|
                0 <= j < others.len() ==> #[trigger] all[j + 1] == (IconBlock {
                    at: others[j].at + 2 + px.len(),
                    ..others[j]
                })
        }),
{
    let data = seq![w, h] + px + rest;
    let next = 2 + px.len() as int;
    assert(w * h >= 0) by (nonlinear_arith)
        requires
            w >= 0,
            h >= 0,
    ;
    assert(data.skip(next) =~= rest);
    lemma_blocks_move(data, next, 0);
    let all = icon_blocks(data, 0);
    let others = icon_blocks(rest, 0);
    assert(all == seq![IconBlock { w: w as int, h: h as int, at: 2 }] + icon_blocks(data, next));
    assert forall|j: int| 0 <= j < others.len() implies #[trigger] all[j + 1] == (IconBlock {
        at: others[j].at + 2 + px.len(),
        ..others[j]
    }) by {
        assert(all[j + 1] == icon_blocks(data, next)[j]);
    }
}

/// Icons of the end of a property, seen from its start.
proof fn lemma_blocks_move(data: Seq<u32>, from: int, i: int)
    requires
        0 <= from <= data.len(),
        0 <= i,
    ensures
        icon_blocks(data, from + i).len() == icon_blocks(data.skip(from), i).len(),
        forall|j: int|
            0 <= j < icon_blocks(data, from + i).len() ==> #[trigger] icon_blocks(data, from + i)[j]
                == (IconBlock {
                at: icon_blocks(data.skip(from), i)[j].at + from,
                ..icon_blocks(data.skip(from), i)[j]
            }),
    decreases data.len() - i,
{
    let t = data.skip(from);
    if i + 2 <= t.len() {
        let (w, h) = (data[from + i] as int, data[from + i + 1] as int);
        assert(t[i] == data[from + i] && t[i + 1] == data[from + i + 1]);
        assert(w * h >= 0) by (nonlinear_arith)
            requires
                w >= 0,
                h >= 0,
        ;
        if i + 2 + w * h <= t.len() {
            lemma_blocks_move(data, from, i + 2 + w * h);
        }
    }
}

/// A window with one icon shows that icon, pixel by pixel, whatever width is wanted.
pub proof fn law_icons_are_read_back(
    icon: (u32, u32, Vec<u32>),
    w: u32,
    h: u32,
    px: Seq<u32>,
    target: int,
)
    requires
        px.len() == w * h,
        is_best_icon(icon, seq![w, h] + px, target),
    ensures
        icon.0 == w,
        icon.1 == h,
        icon.2@ == px,
{
    let data = seq![w, h] + px;
    law_icons_follow_each_other(w, h, px, seq![]);
    assert(data + seq![] =~= data);
    let all = icon_blocks(data, 0);
    assert(icon_blocks(seq![], 0).len() == 0);
    let k = choose|k: int|
        #[trigger] is_best(all, k, target) && is_icon(icon, data, all[k]);
    assert(k == 0);
    assert(data.subrange(2, 2 + w * h) =~= px);
}

/// A region is written as the place and the size of each rectangle, in order.
pub proof fn law_regions_list_their_rectangles(rects: Seq<(i16, i16, u16, u16)>, i: int)
    requires
        0 <= i < rects.len(),
    ensures
        ({
            let r = region_of(rects);
            &&& r.len() == 4 * rects.len()
            &&& rects[i].0 >= 0 ==> r[4 * i] == rects[i].0
            &&& rects[i].1 >= 0 ==> r[4 * i + 1] == rects[i].1
            &&& rects[i].0 < 0 ==> r[4 * i] == 0x1_0000_0000 + rects[i].0
            &&& rects[i].1 < 0 ==> r[4 * i + 1] == 0x1_0000_0000 + rects[i].1
            &&& r[4 * i + 2] == rects[i].2
            &&& r[4 * i + 3] == rects[i].3
        }),
{
}

/// The desktop is switched just when the window is on another one, and never for a window on all
/// desktops, whose number is the largest, or when either desktop is unknown.
pub proof fn law_desktops_are_switched_when_needed(window: u32, current: u32, any: Option<u32>)
    ensures
        switch_target(Some(0xffff_ffff), any) is None,
        switch_target(Some(window), Some(window)) is None,
        window != current && window != 0xffff_ffff ==> switch_target(Some(window), Some(current))
            == Some(window),
        switch_target(None, any) is None,
        switch_target(any, None) is None,
{
}

} // verus!
