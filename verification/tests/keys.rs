use hop::events::{button_press, Bindings, ButtonAction, KeyAction, NavDir, Trigger};
use hop::keys::{
    grab_keys, keysym_from_name, modifier_mask, modifier_release_keysyms, offending_modifiers,
    parse_key_binding, KeyMap,
};

#[test]
fn modifiers_have_their_bits() {
    assert_eq!(modifier_mask("Super"), 64);
    assert_eq!(modifier_mask(" Win "), 64);
    assert_eq!(modifier_mask("Mod4"), 64);
    assert_eq!(modifier_mask("Ctrl"), 4);
    assert_eq!(modifier_mask("Control"), 4);
    assert_eq!(modifier_mask("Shift"), 1);
    assert_eq!(modifier_mask("Alt"), 8);
    assert_eq!(modifier_mask("whatever"), 8);
    assert_eq!(offending_modifiers(), [0, 2, 16, 18]);
}

#[test]
fn modifiers_have_release_keysyms() {
    assert_eq!(modifier_release_keysyms("Win"), [0xffeb, 0xffec]);
    assert_eq!(modifier_release_keysyms("Control"), [0xffe3, 0xffe4]);
    assert_eq!(modifier_release_keysyms(" Shift"), [0xffe1, 0xffe2]);
    assert_eq!(modifier_release_keysyms("Alt"), [0xffe9, 0xffea]);
    assert_eq!(modifier_release_keysyms("Mod4"), [0xffeb, 0xffec]);
}

#[test]
fn keys_have_keysyms() {
    let cases = [
        ("Tab", 0xff09),
        ("Escape", 0xff1b),
        ("Esc", 0xff1b),
        ("Return", 0xff0d),
        ("Enter", 0xff0d),
        ("space", 0x20),
        ("Space", 0x20),
        ("grave", 0x60),
        ("quoteleft", 0x60),
        ("F1", 0xffbe),
        ("F9", 0xffc6),
        ("F12", 0xffc9),
        ("F13", 0),
        ("a", 0x61),
        ("~", 0x7e),
        ("ä", 0),
        ("", 0),
        ("tab", 0),
    ];
    for (name, sym) in cases {
        assert_eq!(keysym_from_name(name), sym, "{name}");
    }
}

#[test]
fn bindings_split_at_plus_signs() {
    assert_eq!(parse_key_binding("Tab"), (0xff09, 0));
    assert_eq!(parse_key_binding("Shift+Tab"), (0xff09, 1));
    assert_eq!(parse_key_binding("Ctrl + Shift+grave"), (0x60, 5));
    assert_eq!(parse_key_binding("Shift+ Tab"), (0, 1));
    assert_eq!(parse_key_binding("+"), (0, 8));
    assert_eq!(parse_key_binding(""), (0, 0));
}

fn keymap() -> KeyMap {
    KeyMap {
        min_keycode: 8,
        per_keycode: 2,
        keysyms: vec![0, 0, 0xff09, 0xfe20, 0x61, 0x41, 0xff09, 0],
    }
}

#[test]
fn keycodes_are_looked_up() {
    let map = keymap();
    assert!(map.is_valid());
    assert_eq!(map.keysym_to_keycode(0xff09), Some(9));
    assert_eq!(map.keysym_to_keycode(0x41), Some(10));
    assert_eq!(map.keysym_to_keycode(0x42), None);
    assert_eq!(map.keysym_to_keycode(0), None);
    assert_eq!(map.keysym(9), 0xff09);
    assert_eq!(map.keysym(10), 0x61);
    assert_eq!(map.keysym(3), 0);
    assert_eq!(map.keysym(200), 0);
    assert!(!KeyMap { min_keycode: 8, per_keycode: 0, keysyms: vec![] }.is_valid());
    assert!(!KeyMap { min_keycode: 255, per_keycode: 1, keysyms: vec![1, 2] }.is_valid());
}

#[test]
fn grabs_cover_the_locks() {
    let map = keymap();
    assert_eq!(
        grab_keys(&map, "Alt", "Tab", "Shift+Tab"),
        [(8, 9), (10, 9), (24, 9), (26, 9), (9, 9), (11, 9), (25, 9), (27, 9)],
    );
    // The same binding twice is grabbed once, an unknown key not at all.
    assert_eq!(grab_keys(&map, "Super", "a", "a"), [(64, 10), (66, 10), (80, 10), (82, 10)]);
    assert!(grab_keys(&map, "Alt", "F5", "nonsense").is_empty());
}

fn bindings(quick_select: bool) -> Bindings {
    Bindings::new(
        Trigger::new("Alt", "Tab", "Ctrl+Shift+Tab"),
        "Super",
        "Tab",
        "Shift+Tab",
        "Escape",
        "F4",
        quick_select,
    )
}

#[test]
fn triggers_open_and_move() {
    let b = bindings(false);
    let tab = 0xff09;
    assert_eq!(b.key_press(tab, 8, false), KeyAction::Show { app: false, backward: false });
    assert_eq!(b.key_press(tab, 8 | 4 | 1, false), KeyAction::Show { app: false, backward: true });
    // One of two extra modifiers is not enough to go backward.
    assert_eq!(b.key_press(tab, 8 | 1, false), KeyAction::Show { app: false, backward: false });
    assert_eq!(b.key_press(tab, 8, true), KeyAction::Next);
    assert_eq!(b.key_press(tab, 13, true), KeyAction::Prev);
    assert_eq!(b.key_press(tab, 64, false), KeyAction::Show { app: true, backward: false });
    assert_eq!(b.key_press(tab, 65, false), KeyAction::Show { app: true, backward: true });
    assert_eq!(b.key_press(tab, 0, false), KeyAction::Nothing);
}

#[test]
fn popup_keys_count_while_it_is_visible() {
    let b = bindings(false);
    let cases = [
        (0xff1b, KeyAction::Cancel),
        (0xff51, KeyAction::Navigate(NavDir::Left)),
        (0xff52, KeyAction::Navigate(NavDir::Up)),
        (0xff53, KeyAction::Navigate(NavDir::Right)),
        (0xff54, KeyAction::Navigate(NavDir::Down)),
        (0xffc1, KeyAction::CloseSelected),
        (0xff0d, KeyAction::Commit),
        (0xff08, KeyAction::PopFilter),
        (0x31, KeyAction::PushFilter(0x31)),
        (0x20, KeyAction::PushFilter(0x20)),
        (0x7f, KeyAction::Nothing),
    ];
    for (sym, action) in cases {
        assert_eq!(b.key_press(sym, 0, true), action);
        assert_eq!(b.key_press(sym, 0, false), KeyAction::Nothing);
    }
    let quick = bindings(true);
    assert_eq!(quick.key_press(0x31, 0, true), KeyAction::QuickSelect(0));
    assert_eq!(quick.key_press(0x39, 0, true), KeyAction::QuickSelect(8));
    assert_eq!(quick.key_press(0x30, 0, true), KeyAction::PushFilter(0x30));
}

#[test]
fn releasing_the_opening_modifier_commits() {
    let b = bindings(false);
    assert!(b.key_release(false, 0xffe9, true));
    assert!(b.key_release(false, 0xffea, true));
    assert!(!b.key_release(false, 0xffe9, false));
    assert!(!b.key_release(false, 0xffeb, true));
    assert!(b.key_release(true, 0xffeb, true));
    assert!(!b.key_release(true, 0xffe9, true));
    let plain = Bindings::new(Trigger::new("Alt", "Tab", "Tab"), "Super", "", "", "Esc", "", false);
    assert!(plain.app.is_none());
    assert!(plain.key_release(true, 0xffe9, true));
    assert_eq!(plain.key_press(0xff09, 64, false), KeyAction::Nothing);
}

#[test]
fn buttons_and_the_wheel() {
    assert_eq!(button_press(1, true), ButtonAction::Click);
    assert_eq!(button_press(2, true), ButtonAction::Close);
    assert_eq!(button_press(3, true), ButtonAction::Click);
    assert_eq!(button_press(4, true), ButtonAction::Prev);
    assert_eq!(button_press(5, true), ButtonAction::Next);
    assert_eq!(button_press(1, false), ButtonAction::Nothing);
}
