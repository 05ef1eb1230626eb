//! Key bindings: modifier and key names, key codes, and the keys to grab.
use vstd::prelude::*;
use vstd::string::*;
use x11rb::protocol::xproto::ModMask;

use crate::text;

verus! {

/// The bits of the modifiers that bindings and key grabs use.
pub struct ModifierBits {
    pub shift: u32,
    pub lock: u32,
    pub control: u32,
    pub mod1: u32,
    pub mod2: u32,
    pub mod4: u32,
}

/// `u32::from` of x11rb on its constants `ModMask::SHIFT`, `LOCK`, `CONTROL`, `M1`, `M2` and `M4`:
/// the bits that the X protocol gives to these modifiers.
#[verifier::external_body]
fn modifier_bits() -> (r: ModifierBits)
    ensures
        r.shift == 1,
        r.lock == 2,
        r.control == 4,
        r.mod1 == 8,
        r.mod2 == 16,
        r.mod4 == 64,
{
    ModifierBits {
        shift: u32::from(ModMask::SHIFT),
        lock: u32::from(ModMask::LOCK),
        control: u32::from(ModMask::CONTROL),
        mod1: u32::from(ModMask::M1),
        mod2: u32::from(ModMask::M2),
        mod4: u32::from(ModMask::M4),
    }
}

pub open spec fn is_super(name: Seq<char>) -> bool {
    name == "Super"@ || name == "Win"@ || name == "Mod4"@
}

pub open spec fn is_control(name: Seq<char>) -> bool {
    name == "Ctrl"@ || name == "Control"@
}

/// The bit of a modifier name. "Alt", and anything that is not a modifier name, is the first
/// modifier.
pub open spec fn mask_of(s: Seq<char>) -> u32 {
    let name = text::trimmed(s);
    if is_super(name) {
        64
    } else if is_control(name) {
        4
    } else if name == "Shift"@ {
        1
    } else {
        8
    }
}

/// Parses a modifier name ("Alt", "Super", "Ctrl", "Shift") into its mask value.
pub fn modifier_mask(s: &str) -> (r: u32)
    ensures
        r == mask_of(s@),
{
    let bits = modifier_bits();
    let name: &str = text::trim(s);
    if text::same_text(name, "Super") || text::same_text(name, "Win") || text::same_text(
        name,
        "Mod4",
    ) {
        bits.mod4
    } else if text::same_text(name, "Ctrl") || text::same_text(name, "Control") {
        bits.control
    } else if text::same_text(name, "Shift") {
        bits.shift
    } else {
        bits.mod1
    }
}

/// The keysyms of the left and the right key of a modifier.
pub open spec fn release_keysyms(s: Seq<char>) -> Seq<u32> {
    let name = text::trimmed(s);
    if is_super(name) {
        seq![0xffebu32, 0xffecu32]
    } else if is_control(name) {
        seq![0xffe3u32, 0xffe4u32]
    } else if name == "Shift"@ {
        seq![0xffe1u32, 0xffe2u32]
    } else {
        seq![0xffe9u32, 0xffeau32]
    }
}

/// The keysyms for both sides of the given modifier key, used to detect its release.
pub fn modifier_release_keysyms(modifier: &str) -> (r: Vec<u32>)
    ensures
        r@ == release_keysyms(modifier@),
{
    let name: &str = text::trim(modifier);
    if text::same_text(name, "Super") || text::same_text(name, "Win") || text::same_text(
        name,
        "Mod4",
    ) {
        vec![0xffeb, 0xffec]
    } else if text::same_text(name, "Ctrl") || text::same_text(name, "Control") {
        vec![0xffe3, 0xffe4]
    } else if text::same_text(name, "Shift") {
        vec![0xffe1, 0xffe2]
    } else {
        vec![0xffe9, 0xffea]
    }
}

/// Names of the same modifier are released by the same keys, and names of different ones by
/// different keys.
pub proof fn law_release_belongs_to_the_modifier(a: Seq<char>, b: Seq<char>)
    ensures
        mask_of(a) == mask_of(b) <==> release_keysyms(a) == release_keysyms(b),
{
    assert(release_keysyms(a)[0] == release_keysyms(b)[0] || release_keysyms(a)
        != release_keysyms(b));
}

/// The keysym of a function key name, "F1" to "F12".
pub open spec fn function_keysym(name: Seq<char>) -> Option<u32> {
    if name == "F1"@ {
        Some(0xffbe)
    } else if name == "F2"@ {
        Some(0xffbf)
    } else if name == "F3"@ {
        Some(0xffc0)
    } else if name == "F4"@ {
        Some(0xffc1)
    } else if name == "F5"@ {
        Some(0xffc2)
    } else if name == "F6"@ {
        Some(0xffc3)
    } else if name == "F7"@ {
        Some(0xffc4)
    } else if name == "F8"@ {
        Some(0xffc5)
    } else if name == "F9"@ {
        Some(0xffc6)
    } else if name == "F10"@ {
        Some(0xffc7)
    } else if name == "F11"@ {
        Some(0xffc8)
    } else if name == "F12"@ {
        Some(0xffc9)
    } else {
        None
    }
}

/// The keysym of a key name: a few named keys, the function keys, and single ASCII characters,
/// which stand for themselves. Zero for anything else.
pub open spec fn keysym_of(name: Seq<char>) -> u32 {
    if name == "Tab"@ {
        0xff09
    } else if name == "Escape"@ || name == "Esc"@ {
        0xff1b
    } else if name == "Return"@ || name == "Enter"@ {
        0xff0d
    } else if name == "space"@ || name == "Space"@ {
        0x20
    } else if name == "grave"@ || name == "quoteleft"@ {
        0x60
    } else if function_keysym(name) is Some {
        function_keysym(name)->0
    } else if name.len() == 1 && (name[0] as u32) < 0x80 {
        name[0] as u32
    } else {
        0
    }
}

fn function_key(name: &str) -> (r: Option<u32>)
    ensures
        r == function_keysym(name@),
{
    if text::same_text(name, "F1") {
        Some(0xffbe)
    } else if text::same_text(name, "F2") {
        Some(0xffbf)
    } else if text::same_text(name, "F3") {
        Some(0xffc0)
    } else if text::same_text(name, "F4") {
        Some(0xffc1)
    } else if text::same_text(name, "F5") {
        Some(0xffc2)
    } else if text::same_text(name, "F6") {
        Some(0xffc3)
    } else if text::same_text(name, "F7") {
        Some(0xffc4)
    } else if text::same_text(name, "F8") {
        Some(0xffc5)
    } else if text::same_text(name, "F9") {
        Some(0xffc6)
    } else if text::same_text(name, "F10") {
        Some(0xffc7)
    } else if text::same_text(name, "F11") {
        Some(0xffc8)
    } else if text::same_text(name, "F12") {
        Some(0xffc9)
    } else {
        None
    }
}

/// Maps a key name to its X11 keysym. Returns 0 for unrecognised names.
pub fn keysym_from_name(name: &str) -> (r: u32)
    ensures
        r == keysym_of(name@),
{
    if text::same_text(name, "Tab") {
        0xff09
    } else if text::same_text(name, "Escape") || text::same_text(name, "Esc") {
        0xff1b
    } else if text::same_text(name, "Return") || text::same_text(name, "Enter") {
        0xff0d
    } else if text::same_text(name, "space") || text::same_text(name, "Space") {
        0x20
    } else if text::same_text(name, "grave") || text::same_text(name, "quoteleft") {
        0x60
    } else if let Some(sym) = function_key(name) {
        sym
    } else if name.unicode_len() == 1 {
        let c: u32 = name.get_char(0) as u32;
        if c < 0x80 {
            c
        } else {
            0
        }
    } else {
        0
    }
}

/// A binding like "Shift+Tab": the keysym of the last part, and the bits of the modifiers before.
pub open spec fn binding_of(s: Seq<char>) -> (u32, u32)
    decreases s.len(),
{
    match text::split_at_first(s, '+') {
        Some((modifier, rest)) => if rest.len() < s.len() {
            (binding_of(rest).0, mask_of(modifier) | binding_of(rest).1)
        } else {
            (0, 0)
        },
        None => (keysym_of(s), 0),
    }
}

/// Parses a key binding string like "Tab", "Shift+Tab", "grave". Returns the keysym and the mask
/// of the extra modifiers.
pub fn parse_key_binding(s: &str) -> (r: (u32, u32))
    ensures
        r == binding_of(s@),
{
    let mut rest: &str = s;
    let mut extra: u32 = 0;
    let ghost whole = binding_of(s@);
    proof {
        let m = binding_of(s@).1;
        assert(0u32 | m == m) by (bit_vector);
    }
    loop
        invariant
            whole.0 == binding_of(rest@).0,
            whole.1 == extra | binding_of(rest@).1,
        ensures
            text::split_at_first(rest@, '+') is None,
            whole.0 == binding_of(rest@).0,
            whole.1 == extra | binding_of(rest@).1,
        decreases rest@.len(),
    {
        match text::split_once(rest, '+') {
            None => {
                break ;
            },
            Some((modifier, tail)) => {
                let mask: u32 = modifier_mask(modifier);
                proof {
                    text::lemma_split_is_shorter(rest@, '+');
                    let m = binding_of(tail@).1;
                    assert(extra | (mask | m) == (extra | mask) | m) by (bit_vector);
                }
                extra = extra | mask;
                rest = tail;
            },
        }
    }
    assert(extra | 0u32 == extra) by (bit_vector);
    (keysym_from_name(rest), extra)
}

/// A keyboard mapping: for each keycode from `min_keycode` on, a row of `per_keycode` keysyms.
#[derive(Debug)]
pub struct KeyMap {
    pub min_keycode: u8,
    pub per_keycode: u8,
    pub keysyms: Vec<u32>,
}

impl KeyMap {
    /// Every row has at least one keysym, and no row is beyond keycode 255.
    pub open spec fn wf(self) -> bool {
        &&& self.per_keycode >= 1
        &&& self.min_keycode * self.per_keycode + self.keysyms.len() <= 256 * self.per_keycode
    }

    /// Whether the mapping can be looked up.
    pub fn is_valid(&self) -> (r: bool)
        ensures
            r == self.wf(),
    {
        proof {
            let (m, k) = (self.min_keycode as int, self.per_keycode as int);
            assert(0 <= (256 - m) * k <= 256 * 255 && (256 - m) * k == 256 * k - m * k)
                by (nonlinear_arith)
                requires
                    0 <= m <= 255,
                    0 <= k <= 255,
            ;
        }
        let room: usize = (256 - self.min_keycode as usize) * self.per_keycode as usize;
        self.per_keycode >= 1 && self.keysyms.len() <= room
    }

    /// The keycode whose row holds the keysym first.
    pub open spec fn keycode_of(self, keysym: u32) -> Option<int> {
        let p = first_at(self.keysyms@, keysym);
        if keysym == 0 || p >= self.keysyms.len() {
            None
        } else {
            Some(self.min_keycode + p as int / self.per_keycode as int)
        }
    }

    /// Looks up the keycode for a keysym; `None` for keysym 0 and for one that no key has.
    pub fn keysym_to_keycode(&self, keysym: u32) -> (r: Option<u8>)
        requires
            self.wf(),
        ensures
            match r {
                Some(k) => self.keycode_of(keysym) == Some(k as int),
                None => self.keycode_of(keysym) is None,
            },
    {
        if keysym == 0 {
            return None;
        }
        let n: usize = self.keysyms.len();
        let mut p: usize = 0;
        while p < n && self.keysyms[p] != keysym
            invariant
                p <= n,
                n == self.keysyms.len(),
                forall|k: int| 0 <= k < p ==> self.keysyms[k] != keysym,
            decreases n - p,
        {
            p = p + 1;
        }
        proof {
            lemma_first_at(self.keysyms@, keysym, p as int);
        }
        if p < n {
            let row: usize = p / self.per_keycode as usize;
            proof {
                let (k, m, q) = (self.per_keycode as int, self.min_keycode as int, row as int);
                assert(m + q <= 255) by (nonlinear_arith)
                    requires
                        q == p as int / k,
                        k >= 1,
                        p < n,
                        m * k + n <= 256 * k,
                ;
            }
            Some(self.min_keycode + row as u8)
        } else {
            None
        }
    }

    /// The unshifted keysym of a keycode; zero where the mapping has none.
    pub open spec fn keysym_at(self, keycode: u8) -> u32 {
        let at = (keycode - self.min_keycode) * self.per_keycode;
        if keycode < self.min_keycode || at >= self.keysyms.len() {
            0
        } else {
            self.keysyms[at]
        }
    }

    /// The keysym that a key event's keycode stands for.
    pub fn keysym(&self, keycode: u8) -> (r: u32)
        ensures
            r == self.keysym_at(keycode),
    {
        if keycode < self.min_keycode {
            return 0;
        }
        assert(0 <= (keycode - self.min_keycode) * self.per_keycode <= 255 * 255)
            by (nonlinear_arith)
            requires
                0 <= keycode - self.min_keycode <= 255,
                0 <= self.per_keycode <= 255,
        ;
        let at: usize = (keycode - self.min_keycode) as usize * self.per_keycode as usize;
        if at >= self.keysyms.len() {
            0
        } else {
            self.keysyms[at]
        }
    }
}

/// The first position of `x` in `s`, or `s.len()` where there is none.
pub open spec fn first_at(s: Seq<u32>, x: u32) -> nat
    decreases s.len(),
{
    if s.len() == 0 || s[0] == x {
        0
    } else {
        1 + first_at(s.drop_first(), x)
    }
}

proof fn lemma_first_at(s: Seq<u32>, x: u32, i: int)
    requires
        0 <= i <= s.len(),
        forall|k: int| 0 <= k < i ==> #[trigger] s[k] != x,
        i < s.len() ==> s[i] == x,
    ensures
        first_at(s, x) == i,
    decreases i,
{
    if i > 0 {
        lemma_first_at(s.drop_first(), x, i - 1);
    }
}

/// The keysym stands in column `c` of a row of the mapping.
pub open spec fn has_at(map: KeyMap, row: int, c: int, keysym: u32) -> bool {
    0 <= c < map.per_keycode && map.keysyms@[row * map.per_keycode + c] == keysym
}

/// The keysym stands in a row of the mapping.
pub open spec fn row_has(map: KeyMap, row: int, keysym: u32) -> bool {
    exists|c: int| #[trigger] has_at(map, row, c, keysym)
}

/// The key that a mapping gives for a keysym is one that produces it: some keysym of its row.
pub proof fn law_keycode_has_the_keysym(map: KeyMap, keysym: u32)
    requires
        map.wf(),
        map.keycode_of(keysym) is Some,
    ensures
        row_has(map, map.keycode_of(keysym)->0 - map.min_keycode, keysym),
{
    let p = first_at(map.keysyms@, keysym) as int;
    lemma_first_at_hit(map.keysyms@, keysym);
    let k = map.per_keycode as int;
    vstd::arithmetic::div_mod::lemma_fundamental_div_mod(p, k);
    let row = p / k;
    let c = p % k;
    assert(row * k == k * row) by (nonlinear_arith);
    assert(has_at(map, row, c, keysym));
}

proof fn lemma_first_at_hit(s: Seq<u32>, x: u32)
    ensures
        first_at(s, x) <= s.len(),
        first_at(s, x) < s.len() ==> s[first_at(s, x) as int] == x,
    decreases s.len(),
{
    if s.len() > 0 && s[0] != x {
        lemma_first_at_hit(s.drop_first(), x);
    }
}

/// The lock modifiers with which a grab must hold as well: none, caps lock, num lock, both.
pub open spec fn lock_masks() -> Seq<u32> {
    seq![0u32, 2u32, 16u32, 18u32]
}

/// All combinations of lock modifiers to grab.
pub fn offending_modifiers() -> (r: Vec<u32>)
    ensures
        r@ == lock_masks(),
{
    let bits = modifier_bits();
    assert(2u32 | 16u32 == 18u32) by (bit_vector);
    vec![0, bits.lock, bits.mod2, bits.lock | bits.mod2]
}

/// The grabs of one binding: its key with its modifiers and each combination of locks.
pub open spec fn grabs_of(map: KeyMap, primary: u32, binding: (u32, u32)) -> Seq<(u32, u8)> {
    match map.keycode_of(binding.0) {
        Some(code) => Seq::new(
            4,
            |i: int| (primary | binding.1 | lock_masks()[i], code as u8),
        ),
        None => seq![],
    }
}

/// The grabs for the two trigger keys. The second is left out where it is the same binding.
pub open spec fn grab_plan(map: KeyMap, primary: u32, next: (u32, u32), prev: (u32, u32)) -> Seq<
    (u32, u8),
> {
    grabs_of(map, primary, next) + if prev != next {
        grabs_of(map, primary, prev)
    } else {
        seq![]
    }
}

fn add_grabs(map: &KeyMap, primary: u32, binding: (u32, u32), out: &mut Vec<(u32, u8)>)
    requires
        map.wf(),
    ensures
        final(out)@ == old(out)@ + grabs_of(*map, primary, binding),
{
    match map.keysym_to_keycode(binding.0) {
        Some(code) => {
            let locks: Vec<u32> = offending_modifiers();
            let mut i: usize = 0;
            let ghost start = out@;
            let ghost all = grabs_of(*map, primary, binding);
            assert(all.take(0) =~= seq![]);
            while i < 4
                invariant
                    i <= 4,
                    locks@ == lock_masks(),
                    all == grabs_of(*map, primary, binding),
                    map.keycode_of(binding.0) == Some(code as int),
                    out@ == start + all.take(i as int),
                decreases 4 - i,
            {
                out.push((primary | binding.1 | locks[i], code));
                i = i + 1;
                assert(all.take(i as int) =~= all.take(i - 1).push(all[i - 1]));
            }
            assert(all.take(4) =~= all);
        },
        None => {},
    }
}

/// The keys to grab, as modifier masks and keycodes: the primary modifier with the next and the
/// previous key, in every combination of lock modifiers.
pub fn grab_keys(map: &KeyMap, modifier: &str, next_key: &str, prev_key: &str) -> (r: Vec<
    (u32, u8),
>)
    requires
        map.wf(),
    ensures
        r@ == grab_plan(*map, mask_of(modifier@), binding_of(next_key@), binding_of(prev_key@)),
{
    let primary: u32 = modifier_mask(modifier);
    let next: (u32, u32) = parse_key_binding(next_key);
    let prev: (u32, u32) = parse_key_binding(prev_key);
    let mut r: Vec<(u32, u8)> = Vec::new();
    add_grabs(map, primary, next, &mut r);
    if prev.0 != next.0 || prev.1 != next.1 {
        add_grabs(map, primary, prev, &mut r);
    }
    r
}

/// A modifier name stands for its bit and for its two keys, white space aside; any other name
/// stands for Alt.
pub proof fn law_modifier_names(s: Seq<char>)
    ensures
        ({
            let name = text::trimmed(s);
            &&& name == "Super"@ || name == "Win"@ || name == "Mod4"@ ==> mask_of(s) == 64
                && release_keysyms(s) == seq![0xffebu32, 0xffecu32]
            &&& name == "Ctrl"@ || name == "Control"@ ==> mask_of(s) == 4 && release_keysyms(s)
                == seq![0xffe3u32, 0xffe4u32]
            &&& name == "Shift"@ ==> mask_of(s) == 1 && release_keysyms(s) == seq![
                0xffe1u32,
                0xffe2u32,
            ]
            &&& name != "Super"@ && name != "Win"@ && name != "Mod4"@ && name != "Ctrl"@ && name
                != "Control"@ && name != "Shift"@ ==> mask_of(s) == 8 && release_keysyms(s) == seq![
                0xffe9u32,
                0xffeau32,
            ]
        }),
{
    reveal_strlit("Super");
    reveal_strlit("Win");
    reveal_strlit("Mod4");
    reveal_strlit("Ctrl");
    reveal_strlit("Control");
    reveal_strlit("Shift");
    assert("Super"@[1] != "Shift"@[1]);
    assert("Mod4"@[0] != "Ctrl"@[0]);
    assert("Super"@.len() == 5 && "Win"@.len() == 3 && "Mod4"@.len() == 4 && "Ctrl"@.len() == 4
        && "Control"@.len() == 7 && "Shift"@.len() == 5);
}

/// A modifier before a plus sign adds its bit to the binding and changes nothing else; without one
/// the binding is the key alone.
pub proof fn law_bindings_add_their_modifiers(modifier: Seq<char>, rest: Seq<char>)
    requires
        !modifier.contains('+'),
    ensures
        binding_of(modifier.push('+') + rest) == (
            binding_of(rest).0,
            mask_of(modifier) | binding_of(rest).1,
        ),
        binding_of(modifier) == (keysym_of(modifier), 0u32),
{
    text::law_texts_split_at_the_separator(modifier, '+', rest);
}

/// A key that is named by its ASCII character has the code of that character.
pub proof fn law_characters_name_their_keys(c: char)
    requires
        (c as u32) < 0x80,
    ensures
        keysym_of(seq![c]) == c as u32,
{
    lemma_key_names_are_long();
    let name = seq![c];
    assert(name.len() == 1 && name[0] == c);
    assert("Tab"@.len() == 3 && "Esc"@.len() == 3);
    assert("F1"@.len() == 2 && "F2"@.len() == 2 && "F3"@.len() == 2 && "F4"@.len() == 2);
    assert("F5"@.len() == 2 && "F6"@.len() == 2 && "F7"@.len() == 2 && "F8"@.len() == 2);
    assert("F9"@.len() == 2 && "F10"@.len() == 3 && "F11"@.len() == 3 && "F12"@.len() == 3);
}

/// The function keys follow each other.
pub proof fn law_function_keys_follow_each_other(n: nat)
    requires
        1 <= n <= 12,
    ensures
        keysym_of(seq!['F'] + text::decimal_of(n)) == 0xffbd + n,
{
    lemma_key_names_are_long();
    let d = text::decimal_of(n);
    let name = seq!['F'] + d;
    if n >= 10 {
        assert(text::decimal_of(1) =~= seq!['1']);
        assert(d =~= seq!['1', text::digit_char((n - 10) as nat)]);
        assert(name =~= seq!['F', '1', text::digit_char((n - 10) as nat)]);
    } else {
        assert(d =~= seq![text::digit_char(n)]);
        assert(name =~= seq!['F', text::digit_char(n)]);
    }
    assert(n == 1 ==> name =~= "F1"@);
    assert(n == 2 ==> name =~= "F2"@);
    assert(n == 3 ==> name =~= "F3"@);
    assert(n == 4 ==> name =~= "F4"@);
    assert(n == 5 ==> name =~= "F5"@);
    assert(n == 6 ==> name =~= "F6"@);
    assert(n == 7 ==> name =~= "F7"@);
    assert(n == 8 ==> name =~= "F8"@);
    assert(n == 9 ==> name =~= "F9"@);
    assert(n == 10 ==> name =~= "F10"@);
    assert(n == 11 ==> name =~= "F11"@);
    assert(n == 12 ==> name =~= "F12"@);
}

proof fn lemma_key_names_are_long()
    ensures
        "Tab"@ == seq!['T', 'a', 'b'],
        "Escape"@.len() == 6,
        "Esc"@ == seq!['E', 's', 'c'],
        "Return"@.len() == 6,
        "Enter"@.len() == 5,
        "space"@.len() == 5,
        "Space"@.len() == 5,
        "grave"@.len() == 5,
        "quoteleft"@.len() == 9,
        "F1"@ == seq!['F', '1'],
        "F2"@ == seq!['F', '2'],
        "F3"@ == seq!['F', '3'],
        "F4"@ == seq!['F', '4'],
        "F5"@ == seq!['F', '5'],
        "F6"@ == seq!['F', '6'],
        "F7"@ == seq!['F', '7'],
        "F8"@ == seq!['F', '8'],
        "F9"@ == seq!['F', '9'],
        "F10"@ == seq!['F', '1', '0'],
        "F11"@ == seq!['F', '1', '1'],
        "F12"@ == seq!['F', '1', '2'],
{
    reveal_strlit("Tab");
    reveal_strlit("Escape");
    reveal_strlit("Esc");
    reveal_strlit("Return");
    reveal_strlit("Enter");
    reveal_strlit("space");
    reveal_strlit("Space");
    reveal_strlit("grave");
    reveal_strlit("quoteleft");
    reveal_strlit("F1");
    reveal_strlit("F2");
    reveal_strlit("F3");
    reveal_strlit("F4");
    reveal_strlit("F5");
    reveal_strlit("F6");
    reveal_strlit("F7");
    reveal_strlit("F8");
    reveal_strlit("F9");
    reveal_strlit("F10");
    reveal_strlit("F11");
    reveal_strlit("F12");
}

/// Every keysym of the mapping, zero aside, has a keycode: that of the first key which has it. The
/// first keysym of a key's row is what the key means, and keys outside the mapping mean nothing.
pub proof fn law_every_keysym_has_a_key(map: KeyMap, p: int, code: u8)
    requires
        map.wf(),
        0 <= p < map.keysyms.len(),
        map.keysyms[p] != 0,
    ensures
        map.keycode_of(map.keysyms[p]) matches Some(k) && map.min_keycode <= k <= 255 && (k
            - map.min_keycode) * map.per_keycode <= p,
        map.keycode_of(0) is None,
        !map.keysyms@.contains(map.keysyms[p]) || map.keycode_of(map.keysyms[p]) is Some,
        code < map.min_keycode ==> map.keysym_at(code) == 0,
        code >= map.min_keycode && (code - map.min_keycode) * map.per_keycode < map.keysyms.len()
            ==> map.keysym_at(code) == map.keysyms[(code - map.min_keycode) * map.per_keycode],
{
    let x = map.keysyms[p];
    let q = first_at(map.keysyms@, x) as int;
    lemma_first_at_before(map.keysyms@, x, p);
    let (k, m) = (map.per_keycode as int, map.min_keycode as int);
    vstd::arithmetic::div_mod::lemma_fundamental_div_mod(q, k);
    let row = q / k;
    assert(row >= 0 && row * k <= q && row < 256 - m) by (nonlinear_arith)
        requires
            q == k * row + q % k,
            0 <= q % k < k,
            0 <= q < map.keysyms.len(),
            m * k + map.keysyms.len() <= 256 * k,
            k >= 1,
    ;
}

proof fn lemma_first_at_before(s: Seq<u32>, x: u32, p: int)
    requires
        0 <= p < s.len(),
        s[p] == x,
    ensures
        first_at(s, x) <= p,
    decreases s.len(),
{
    if s[0] != x {
        lemma_first_at_before(s.drop_first(), x, p - 1);
    }
}

/// Both trigger keys are grabbed with their modifiers, whether caps lock and num lock are on or
/// off, and nothing else is grabbed.
pub proof fn law_grabs_hold_under_locks(
    map: KeyMap,
    primary: u32,
    next: (u32, u32),
    prev: (u32, u32),
    b: (u32, u32),
    lock: u32,
    i: int,
)
    requires
        map.wf(),
        b == next || b == prev,
        lock == 0 || lock == 2 || lock == 16 || lock == 18,
        0 <= i < grab_plan(map, primary, next, prev).len(),
    ensures
        map.keycode_of(b.0) matches Some(code) ==> grab_plan(map, primary, next, prev).contains(
            (primary | b.1 | lock, code as u8),
        ),
        ({
            let g = grab_plan(map, primary, next, prev)[i];
            ||| map.keycode_of(next.0) matches Some(k) && g.1 == k as u8 && is_locked(
                g.0,
                primary | next.1,
            )
            ||| map.keycode_of(prev.0) matches Some(k) && g.1 == k as u8 && is_locked(
                g.0,
                primary | prev.1,
            )
        }),
{
    let plan = grab_plan(map, primary, next, prev);
    let first = grabs_of(map, primary, next);
    if let Some(code) = map.keycode_of(b.0) {
        let at: int = if lock == 0 {
            0
        } else if lock == 2 {
            1
        } else if lock == 16 {
            2
        } else {
            3
        };
        if b == next {
            assert(plan[at] == (primary | b.1 | lock, code as u8));
        } else {
            assert(plan[first.len() + at] == (primary | b.1 | lock, code as u8));
        }
    }
}

/// The modifiers with caps lock, num lock, both or neither.
pub open spec fn is_locked(mask: u32, modifiers: u32) -> bool {
    mask == modifiers | 0 || mask == modifiers | 2 || mask == modifiers | 16 || mask == modifiers
        | 18
}

/// A key behind the end of the mapping means nothing.
pub proof fn law_keys_behind_the_mapping_mean_nothing(map: KeyMap, code: u8)
    requires
        code >= map.min_keycode,
        (code - map.min_keycode) * map.per_keycode >= map.keysyms.len(),
    ensures
        map.keysym_at(code) == 0,
{
}

} // verus!
