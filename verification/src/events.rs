//! From input events to what the switcher is asked to do.
use vstd::prelude::*;

use crate::keys;
use crate::text;
use crate::wire;

verus! {

/// Return always commits, whatever the bindings are.
pub const XK_RETURN: u32 = 0xff0d;

/// Backspace deletes the last character of the filter.
pub const XK_BACKSPACE: u32 = 0xff08;

pub const XK_LEFT: u32 = 0xff51;

pub const XK_UP: u32 = 0xff52;

pub const XK_RIGHT: u32 = 0xff53;

pub const XK_DOWN: u32 = 0xff54;

/// A direction in the grid.
#[derive(Debug, Clone, Copy, PartialEq, Eq)]
pub enum NavDir {
    Left,
    Right,
    Up,
    Down,
}

/// What a key press asks for.
#[derive(Debug, Clone, Copy, PartialEq, Eq)]
pub enum KeyAction {
    Nothing,
    /// Open the popup, for all windows or for those of the current application.
    Show { app: bool, backward: bool },
    Next,
    Prev,
    Cancel,
    Navigate(NavDir),
    CloseSelected,
    Commit,
    PopFilter,
    QuickSelect(u32),
    PushFilter(u32),
}

/// What a button press asks for.
#[derive(Debug, Clone, Copy, PartialEq, Eq)]
pub enum ButtonAction {
    Nothing,
    Close,
    Prev,
    Next,
    Click,
}

/// A trigger: the primary modifier, and the next and previous keys with their extra modifiers.
#[derive(Debug)]
pub struct Trigger {
    pub primary: u32,
    pub next: (u32, u32),
    pub prev: (u32, u32),
    /// The keysyms whose release commits.
    pub release: Vec<u32>,
}

/// The bindings, parsed once.
#[derive(Debug)]
pub struct Bindings {
    pub main: Trigger,
    /// The trigger for the windows of one application, where it is enabled.
    pub app: Option<Trigger>,
    pub cancel: u32,
    pub close: u32,
    /// Digits select tiles.
    pub quick_select: bool,
}

impl Trigger {
    /// The trigger for a modifier name and two bindings.
    pub open spec fn is_for(self, modifier: Seq<char>, next: Seq<char>, prev: Seq<char>) -> bool {
        &&& self.primary == keys::mask_of(modifier)
        &&& self.next == keys::binding_of(next)
        &&& self.prev == keys::binding_of(prev)
        &&& self.release@ == keys::release_keysyms(modifier)
    }

    /// Parses the trigger's names.
    pub fn new(modifier: &str, next: &str, prev: &str) -> (r: Trigger)
        ensures
            r.is_for(modifier@, next@, prev@),
    {
        Trigger {
            primary: keys::modifier_mask(modifier),
            next: keys::parse_key_binding(next),
            prev: keys::parse_key_binding(prev),
            release: keys::modifier_release_keysyms(modifier),
        }
    }

    /// The key is the previous key: the primary modifier is held, and all extra modifiers are.
    pub open spec fn is_prev(self, sym: u32, mods: u32) -> bool {
        sym == self.prev.0 && mods & self.primary != 0 && mods & self.prev.1 == self.prev.1
    }

    /// The key is the next key, and not the previous one as well.
    pub open spec fn is_next(self, sym: u32, mods: u32) -> bool {
        sym == self.next.0 && mods & self.primary != 0 && mods & self.next.1 == self.next.1
            && !self.is_prev(sym, mods)
    }

    /// Whether the key goes forward (`Some(false)`), backward (`Some(true)`), or is not a trigger.
    pub open spec fn step(self, sym: u32, mods: u32) -> Option<bool> {
        if self.is_next(sym, mods) {
            Some(false)
        } else if self.is_prev(sym, mods) {
            Some(true)
        } else {
            None
        }
    }

    /// Whether a key press goes forward or backward.
    pub fn step_of(&self, sym: u32, mods: u32) -> (r: Option<bool>)
        ensures
            r == self.step(sym, mods),
    {
        let active = mods & self.primary != 0;
        if active && sym == self.prev.0 && mods & self.prev.1 == self.prev.1 {
            Some(true)
        } else if active && sym == self.next.0 && mods & self.next.1 == self.next.1 {
            Some(false)
        } else {
            None
        }
    }
}

/// A trigger key opens the popup, or moves on in the open one.
pub open spec fn trigger_action(visible: bool, app: bool, backward: bool) -> KeyAction {
    if !visible {
        KeyAction::Show { app, backward }
    } else if backward {
        KeyAction::Prev
    } else {
        KeyAction::Next
    }
}

impl Bindings {
    /// The bindings for the names of the configuration. An empty `app_next` disables the
    /// application trigger.
    pub fn new(
        main: Trigger,
        app_modifier: &str,
        app_next: &str,
        app_prev: &str,
        cancel: &str,
        close: &str,
        quick_select: bool,
    ) -> (r: Bindings)
        ensures
            r.main == main,
            r.app is None <==> app_next@.len() == 0,
            r.app matches Some(t) ==> t.is_for(app_modifier@, app_next@, app_prev@),
            r.cancel == keys::binding_of(cancel@).0,
            r.close == keys::binding_of(close@).0,
            r.quick_select == quick_select,
    {
        let app: Option<Trigger> = if app_next.is_empty() {
            None
        } else {
            Some(Trigger::new(app_modifier, app_next, app_prev))
        };
        let (cancel_sym, _): (u32, u32) = keys::parse_key_binding(cancel);
        let (close_sym, _): (u32, u32) = keys::parse_key_binding(close);
        Bindings { main, app, cancel: cancel_sym, close: close_sym, quick_select }
    }

    /// What a key means in the open popup, when it is not a trigger.
    pub open spec fn popup_action(self, sym: u32) -> KeyAction {
        if sym == self.cancel {
            KeyAction::Cancel
        } else if sym == XK_LEFT {
            KeyAction::Navigate(NavDir::Left)
        } else if sym == XK_RIGHT {
            KeyAction::Navigate(NavDir::Right)
        } else if sym == XK_UP {
            KeyAction::Navigate(NavDir::Up)
        } else if sym == XK_DOWN {
            KeyAction::Navigate(NavDir::Down)
        } else if sym == self.close {
            KeyAction::CloseSelected
        } else if sym == XK_RETURN {
            KeyAction::Commit
        } else if sym == XK_BACKSPACE {
            KeyAction::PopFilter
        } else if self.quick_select && 0x31 <= sym <= 0x39 {
            KeyAction::QuickSelect((sym - 0x31) as u32)
        } else if 0x20 <= sym <= 0x7e {
            KeyAction::PushFilter(sym)
        } else {
            KeyAction::Nothing
        }
    }

    /// What a key press asks for. The main trigger comes before the application trigger, and both
    /// before everything else; other keys count only while the popup is visible.
    pub open spec fn action(self, sym: u32, mods: u32, visible: bool) -> KeyAction {
        let app_step = match self.app {
            Some(t) => t.step(sym, mods),
            None => None,
        };
        match self.main.step(sym, mods) {
            Some(backward) => trigger_action(visible, false, backward),
            None => match app_step {
                Some(backward) => trigger_action(visible, true, backward),
                None => if visible {
                    self.popup_action(sym)
                } else {
                    KeyAction::Nothing
                },
            },
        }
    }

    fn popup_key(&self, sym: u32) -> (r: KeyAction)
        ensures
            r == self.popup_action(sym),
    {
        if sym == self.cancel {
            KeyAction::Cancel
        } else if sym == XK_LEFT {
            KeyAction::Navigate(NavDir::Left)
        } else if sym == XK_RIGHT {
            KeyAction::Navigate(NavDir::Right)
        } else if sym == XK_UP {
            KeyAction::Navigate(NavDir::Up)
        } else if sym == XK_DOWN {
            KeyAction::Navigate(NavDir::Down)
        } else if sym == self.close {
            KeyAction::CloseSelected
        } else if sym == XK_RETURN {
            KeyAction::Commit
        } else if sym == XK_BACKSPACE {
            KeyAction::PopFilter
        } else if self.quick_select && sym >= 0x31 && sym <= 0x39 {
            KeyAction::QuickSelect(sym - 0x31)
        } else if sym >= 0x20 && sym <= 0x7e {
            KeyAction::PushFilter(sym)
        } else {
            KeyAction::Nothing
        }
    }

    fn opened_or_moved(visible: bool, app: bool, backward: bool) -> (r: KeyAction)
        ensures
            r == trigger_action(visible, app, backward),
    {
        if !visible {
            KeyAction::Show { app, backward }
        } else if backward {
            KeyAction::Prev
        } else {
            KeyAction::Next
        }
    }

    /// What a key press asks for.
    pub fn key_press(&self, sym: u32, mods: u32, visible: bool) -> (r: KeyAction)
        ensures
            r == self.action(sym, mods, visible),
    {
        if let Some(backward) = self.main.step_of(sym, mods) {
            return Self::opened_or_moved(visible, false, backward);
        }
        if let Some(app) = &self.app {
            if let Some(backward) = app.step_of(sym, mods) {
                return Self::opened_or_moved(visible, true, backward);
            }
        }
        if visible {
            self.popup_key(sym)
        } else {
            KeyAction::Nothing
        }
    }

    /// The keysyms whose release commits the popup that was opened by the main or the
    /// application trigger.
    pub open spec fn release_of(self, app: bool) -> Seq<u32> {
        match self.app {
            Some(t) => if app {
                t.release@
            } else {
                self.main.release@
            },
            None => self.main.release@,
        }
    }

    /// A key release commits: the popup is visible, and the key belongs to the modifier that
    /// opened it.
    pub fn key_release(&self, opened_by_app: bool, sym: u32, visible: bool) -> (r: bool)
        ensures
            r == (visible && self.release_of(opened_by_app).contains(sym)),
    {
        if !visible {
            return false;
        }
        match &self.app {
            Some(t) => if opened_by_app {
                wire::holds(&t.release, sym)
            } else {
                wire::holds(&self.main.release, sym)
            },
            None => wire::holds(&self.main.release, sym),
        }
    }
}

/// What a button press asks for: the middle button closes a window, the wheel moves the selection,
/// any other button clicks. Without a popup it asks for nothing.
pub open spec fn button_action(button: u8, visible: bool) -> ButtonAction {
    if !visible {
        ButtonAction::Nothing
    } else if button == 2 {
        ButtonAction::Close
    } else if button == 4 {
        ButtonAction::Prev
    } else if button == 5 {
        ButtonAction::Next
    } else {
        ButtonAction::Click
    }
}

/// What a button press asks for.
pub fn button_press(button: u8, visible: bool) -> (r: ButtonAction)
    ensures
        r == button_action(button, visible),
{
    if !visible {
        return ButtonAction::Nothing;
    }
    match button {
        2 => ButtonAction::Close,
        4 => ButtonAction::Prev,
        5 => ButtonAction::Next,
        _ => ButtonAction::Click,
    }
}

/// Without a popup, keys only ever open one: nothing else reacts.
pub proof fn law_hidden_popup_reacts_to_triggers_only(b: Bindings, sym: u32, mods: u32)
    ensures
        b.action(sym, mods, false) is Show || b.action(sym, mods, false) is Nothing,
{
}

/// A binding with several extra modifiers needs all of them: with one of them missing, the key is
/// not the previous key.
pub proof fn law_all_extra_modifiers_are_needed(t: Trigger, sym: u32, mods: u32, bit: u32)
    requires
        bit & t.prev.1 == bit,
        bit != 0,
        mods & bit == 0,
    ensures
        !t.is_prev(sym, mods),
{
    let extra = t.prev.1;
    assert(bit & extra == bit && bit != 0 && mods & bit == 0 ==> mods & extra != extra)
        by (bit_vector);
}

/// The key with these modifiers is a trigger: the next or the previous key, with the primary
/// modifier and all of its own extra modifiers held.
pub open spec fn triggers(t: Trigger, sym: u32, mods: u32) -> bool {
    &&& mods & t.primary != 0
    &&& (sym == t.next.0 && mods & t.next.1 == t.next.1) || (sym == t.prev.0 && mods & t.prev.1
        == t.prev.1)
}

/// The key is no trigger, neither the main one nor that of the application.
pub open spec fn is_plain(b: Bindings, sym: u32, mods: u32) -> bool {
    !triggers(b.main, sym, mods) && (b.app matches Some(t) ==> !triggers(t, sym, mods))
}

/// The keys of the main trigger open the popup, at the front or at the back, and move the selection
/// in the open one: the previous key backward, and the next key forward where it is not the previous
/// key as well.
pub proof fn law_main_keys_open_and_move(b: Bindings, sym: u32, mods: u32, visible: bool)
    requires
        triggers(b.main, sym, mods),
    ensures
        ({
            let backward = sym == b.main.prev.0 && mods & b.main.prev.1 == b.main.prev.1;
            &&& !visible ==> b.action(sym, mods, visible) == (KeyAction::Show {
                app: false,
                backward,
            })
            &&& visible && backward ==> b.action(sym, mods, visible) == KeyAction::Prev
            &&& visible && !backward ==> b.action(sym, mods, visible) == KeyAction::Next
        }),
{
}

/// The keys of the application trigger do the same for the windows of one application, where they
/// are not keys of the main trigger.
pub proof fn law_app_keys_open_and_move(b: Bindings, t: Trigger, sym: u32, mods: u32, visible: bool)
    requires
        b.app == Some(t),
        triggers(t, sym, mods),
        !triggers(b.main, sym, mods),
    ensures
        ({
            let backward = sym == t.prev.0 && mods & t.prev.1 == t.prev.1;
            &&& !visible ==> b.action(sym, mods, visible) == (KeyAction::Show {
                app: true,
                backward,
            })
            &&& visible && backward ==> b.action(sym, mods, visible) == KeyAction::Prev
            &&& visible && !backward ==> b.action(sym, mods, visible) == KeyAction::Next
        }),
{
}

/// A key that is no trigger does nothing while there is no popup.
pub proof fn law_plain_keys_need_a_popup(b: Bindings, sym: u32, mods: u32)
    requires
        is_plain(b, sym, mods),
    ensures
        b.action(sym, mods, false) == KeyAction::Nothing,
{
}

/// In the popup every printable key is typed into the filter as it is, unless it is a trigger, the
/// cancel or the close key, or a digit that selects a window.
pub proof fn law_printable_keys_are_typed(b: Bindings, sym: u32, mods: u32)
    requires
        is_plain(b, sym, mods),
        0x20 <= sym <= 0x7e,
        sym != b.cancel,
        sym != b.close,
        !(b.quick_select && '1' as u32 <= sym <= '9' as u32),
    ensures
        b.action(sym, mods, true) == KeyAction::PushFilter(sym),
{
}

/// With quick selection, the digits from one to nine select the first nine windows.
pub proof fn law_digits_select_windows(b: Bindings, sym: u32, mods: u32)
    requires
        is_plain(b, sym, mods),
        '1' as u32 <= sym <= '9' as u32,
        sym != b.cancel,
        sym != b.close,
        b.quick_select,
    ensures
        b.action(sym, mods, true) matches KeyAction::QuickSelect(i) && i + '1' as u32 == sym,
{
}

/// The cancel key cancels, whatever else it might mean; the close key closes the selected window
/// unless it is also the cancel key or an arrow key.
pub proof fn law_bound_keys_come_first(b: Bindings, sym: u32, mods: u32)
    requires
        is_plain(b, sym, mods),
    ensures
        sym == b.cancel ==> b.action(sym, mods, true) == KeyAction::Cancel,
        sym == b.close && sym != b.cancel && !(0xff51 <= sym <= 0xff54) ==> b.action(
            sym,
            mods,
            true,
        ) == KeyAction::CloseSelected,
{
}

/// The arrow keys move in the grid, Return commits, and Backspace takes back a character of the
/// filter, where they are not bound otherwise.
pub proof fn law_special_keys(b: Bindings, sym: u32, mods: u32)
    requires
        is_plain(b, sym, mods),
        sym != b.cancel,
    ensures
        sym == 0xff51 ==> b.action(sym, mods, true) == KeyAction::Navigate(NavDir::Left),
        sym == 0xff52 ==> b.action(sym, mods, true) == KeyAction::Navigate(NavDir::Up),
        sym == 0xff53 ==> b.action(sym, mods, true) == KeyAction::Navigate(NavDir::Right),
        sym == 0xff54 ==> b.action(sym, mods, true) == KeyAction::Navigate(NavDir::Down),
        sym == 0xff0d && sym != b.close ==> b.action(sym, mods, true) == KeyAction::Commit,
        sym == 0xff08 && sym != b.close ==> b.action(sym, mods, true) == KeyAction::PopFilter,
{
}

/// All other keys do nothing in the popup.
pub proof fn law_other_keys_do_nothing(b: Bindings, sym: u32, mods: u32)
    requires
        is_plain(b, sym, mods),
        sym != b.cancel,
        sym != b.close,
        !(0x20 <= sym <= 0x7e),
        !(0xff51 <= sym <= 0xff54),
        sym != 0xff0d,
        sym != 0xff08,
    ensures
        b.action(sym, mods, true) == KeyAction::Nothing,
{
}

/// The popup is committed by the release of the modifier that opened it: either of its two keys, and
/// none of the other modifier.
pub proof fn law_the_opening_modifier_commits(b: Bindings, sym: u32)
    ensures
        b.release_of(false).contains(sym) <==> b.main.release@.contains(sym),
        b.app matches Some(t) ==> (b.release_of(true).contains(sym) <==> t.release@.contains(sym)),
{
}

/// In the popup the wheel moves the selection, up to the previous and down to the next window; the
/// middle button closes a window; every other button clicks. Without a popup no button does
/// anything.
pub proof fn law_buttons(button: u8)
    ensures
        button_action(button, false) == ButtonAction::Nothing,
        button == 4 <==> button_action(button, true) == ButtonAction::Prev,
        button == 5 <==> button_action(button, true) == ButtonAction::Next,
        button == 2 <==> button_action(button, true) == ButtonAction::Close,
        button != 2 && button != 4 && button != 5 <==> button_action(button, true)
            == ButtonAction::Click,
{
}

/// A trigger is held by the modifier that it names and fired by the keys that it names.
pub proof fn law_triggers_follow_their_names(
    t: Trigger,
    modifier: Seq<char>,
    next: Seq<char>,
    prev: Seq<char>,
)
    requires
        t.is_for(modifier, next, prev),
        !next.contains('+'),
        !prev.contains('+'),
    ensures
        t.next == (keys::keysym_of(next), 0u32),
        t.prev == (keys::keysym_of(prev), 0u32),
        ({
            let name = text::trimmed(modifier);
            &&& name == "Super"@ ==> t.primary == 64 && t.release@ == seq![0xffebu32, 0xffecu32]
            &&& name == "Ctrl"@ ==> t.primary == 4 && t.release@ == seq![0xffe3u32, 0xffe4u32]
            &&& name == "Shift"@ ==> t.primary == 1 && t.release@ == seq![0xffe1u32, 0xffe2u32]
            &&& name == "Alt"@ ==> t.primary == 8 && t.release@ == seq![0xffe9u32, 0xffeau32]
        }),
{
    keys::law_modifier_names(modifier);
    keys::law_bindings_add_their_modifiers(next, seq![]);
    keys::law_bindings_add_their_modifiers(prev, seq![]);
    reveal_strlit("Alt");
    reveal_strlit("Win");
    reveal_strlit("Super");
    reveal_strlit("Mod4");
    reveal_strlit("Ctrl");
    reveal_strlit("Control");
    reveal_strlit("Shift");
    assert("Alt"@.len() == 3 && "Alt"@[0] == 'A' && "Win"@[0] == 'W');
    assert("Super"@.len() == 5 && "Mod4"@.len() == 4 && "Ctrl"@.len() == 4 && "Control"@.len() == 7
        && "Shift"@.len() == 5);
}

} // verus!
