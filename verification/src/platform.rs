//! Keyboard automation as data: which keys are pressed and released, in
//! which order, with which pauses, and how key specs map to Windows
//! virtual-key codes.
//!
//! The program around this library injects the steps with `SendInput`
//! (with scan codes) on Windows and does nothing elsewhere, since CS2 only
//! runs on Windows.

use vstd::prelude::*;
use crate::text::{
    char_is_ascii_alnum, char_upper, chars_are, chars_of, is_ascii_alnum, is_ascii_digit, lower,
    lower_chars, trim, trim_bounds, upper_char,
};

verus! {

/// Floor of every pause between synthesised key events, in milliseconds:
/// CS2's chat box can drop keystrokes that come faster.
pub const MIN_KEY_INTERVAL_MS: u64 = 15;

/// Virtual-key code of Ctrl.
pub const VK_CONTROL: u8 = 0x11;
/// Virtual-key code of Enter.
pub const VK_RETURN: u8 = 0x0D;
/// Virtual-key code of Delete.
pub const VK_DELETE: u8 = 0x2E;
/// Virtual-key code of A.
pub const VK_A: u8 = 0x41;
/// Virtual-key code of V.
pub const VK_V: u8 = 0x56;

/// `KEYEVENTF_EXTENDEDKEY`.
pub const KEYEVENTF_EXTENDEDKEY: u32 = 0x0001;
/// `KEYEVENTF_KEYUP`.
pub const KEYEVENTF_KEYUP: u32 = 0x0002;
/// `KEYEVENTF_SCANCODE`.
pub const KEYEVENTF_SCANCODE: u32 = 0x0008;

/// A key, by its virtual-key code or, for a character whose code depends
/// on the keyboard layout, by that character.
#[derive(Debug, Clone, Copy, PartialEq, Eq, Structural)]
pub enum VirtualKey {
    /// A fixed virtual-key code.
    Code(u8),
    /// The code that the active keyboard layout gives this character.
    Layout(char),
}

/// One step of a key sequence.
#[derive(Debug, Clone, Copy, PartialEq, Eq, Structural)]
pub enum KeyStep {
    /// Press a key.
    Down(VirtualKey),
    /// Release a key.
    Up(VirtualKey),
    /// Wait this many milliseconds.
    Pause(u64),
}

// ---------------------------------------------------------------------
// Specification
// ---------------------------------------------------------------------

/// A pause of at least [`MIN_KEY_INTERVAL_MS`].
pub open spec fn at_least_spec(ms: u64) -> u64 {
    if ms < MIN_KEY_INTERVAL_MS {
        MIN_KEY_INTERVAL_MS
    } else {
        ms
    }
}

/// The key of a single character.
pub open spec fn char_to_vk_spec(ch: char) -> VirtualKey {
    let u = ch as u32;
    if u == 0x0D {
        VirtualKey::Code(VK_RETURN)
    } else if u == 0x11 {
        VirtualKey::Code(VK_CONTROL)
    } else if u == 0x2E {
        VirtualKey::Code(VK_DELETE)
    } else if u == 0x41 {
        VirtualKey::Code(VK_A)
    } else if u == 0x56 {
        VirtualKey::Code(VK_V)
    } else {
        VirtualKey::Layout(ch)
    }
}

/// The value of a string of decimal digits.
pub open spec fn digits_value(s: Seq<char>) -> nat
    decreases s.len(),
{
    if s.len() == 0 {
        0
    } else {
        digits_value(s.drop_last()) * 10 + ((s.last() as u32) - 48) as nat
    }
}

/// Every character of `d` is a decimal digit.
pub open spec fn all_digits(d: Seq<char>) -> bool {
    forall|i: int| 0 <= i < d.len() ==> is_ascii_digit(#[trigger] d[i])
}

/// `u8::from_str`: an optional `+`, then at least one decimal digit, with
/// a value that fits in a `u8`.
pub open spec fn parse_u8_spec(s: Seq<char>) -> Option<u8> {
    let d = if s.len() > 0 && s[0] == '+' {
        s.drop_first()
    } else {
        s
    };
    if d.len() > 0 && all_digits(d) && digits_value(d) <= 255 {
        Some(digits_value(d) as u8)
    } else {
        None
    }
}

/// The code of a named key (lower-case spelling), `f1`..`f24` included.
pub open spec fn named_vk(l: Seq<char>) -> Option<u8> {
    if l == "ins"@ || l == "insert"@ {
        Some(0x2D)
    } else if l == "home"@ {
        Some(0x24)
    } else if l == "end"@ {
        Some(0x23)
    } else if l == "del"@ || l == "delete"@ {
        Some(0x2E)
    } else if l == "pgup"@ || l == "pageup"@ {
        Some(0x21)
    } else if l == "pgdn"@ || l == "pgdown"@ || l == "pagedown"@ {
        Some(0x22)
    } else if l == "up"@ {
        Some(0x26)
    } else if l == "down"@ {
        Some(0x28)
    } else if l == "left"@ {
        Some(0x25)
    } else if l == "right"@ {
        Some(0x27)
    } else if l == "space"@ {
        Some(0x20)
    } else if l == "tab"@ {
        Some(0x09)
    } else if l == "enter"@ || l == "return"@ {
        Some(0x0D)
    } else if l == "backspace"@ || l == "bksp"@ {
        Some(0x08)
    } else if l == "esc"@ || l == "escape"@ {
        Some(0x1B)
    } else if l.len() > 0 && l[0] == 'f' {
        match parse_u8_spec(l.drop_first()) {
            Some(n) => if 1 <= n <= 24 {
                Some((0x70 + n - 1) as u8)
            } else {
                None
            },
            None => None,
        }
    } else {
        None
    }
}

/// The key of a CS2-style key spec: a single ASCII letter or digit, or a
/// named key in any case; `None` when blank or unknown.
pub open spec fn spec_to_vk_spec(spec: Seq<char>) -> Option<VirtualKey> {
    let s = trim(spec);
    if s.len() == 0 {
        None
    } else if s.len() == 1 && is_ascii_alnum(s[0]) {
        Some(char_to_vk_spec(s[0]))
    } else {
        match named_vk(lower(s)) {
            Some(vk) => Some(VirtualKey::Code(vk)),
            None => None,
        }
    }
}

/// Codes that need `KEYEVENTF_EXTENDEDKEY`: the navigation cluster, the
/// arrows, and the right-side modifiers.
pub open spec fn is_extended_vk_spec(vk: u8) -> bool {
    vk == 0x21 || vk == 0x22 || vk == 0x23 || vk == 0x24 || vk == 0x25 || vk == 0x26 || vk
        == 0x27 || vk == 0x28 || vk == 0x2D || vk == 0x2E || vk == 0x6F || vk == 0x90 || vk
        == 0xA3 || vk == 0xA5
}

/// The flags of a keyboard event: scan code, extended when needed, key-up
/// when releasing.
pub open spec fn key_event_flags_spec(vk: u8, up: bool) -> u32 {
    (KEYEVENTF_SCANCODE + (if is_extended_vk_spec(vk) {
        KEYEVENTF_EXTENDEDKEY
    } else {
        0
    }) + (if up {
        KEYEVENTF_KEYUP
    } else {
        0
    })) as u32
}

/// A press and release, holding the key down for at least the floor.
pub open spec fn key_tap_spec(vk: VirtualKey, hold_ms: u64) -> Seq<KeyStep> {
    seq![KeyStep::Down(vk), KeyStep::Pause(at_least_spec(hold_ms)), KeyStep::Up(vk)]
}

/// A key tap followed by a rest of the same length.
pub open spec fn press_spec(vk: VirtualKey, delay_ms: u64) -> Seq<KeyStep> {
    key_tap_spec(vk, delay_ms).push(KeyStep::Pause(at_least_spec(delay_ms)))
}

/// Codes that are not keyboard keys: mouse buttons and reserved codes
/// 0x01..=0x06, and `VK_PACKET` (0xE7).
pub open spec fn releasable(vk: int) -> bool {
    !(1 <= vk <= 6 || vk == 0xE7)
}

/// The keys among codes `1..n` that the keyboard state marks as down
/// (high bit set), in ascending order.
pub open spec fn pressed_keys(state: Seq<u8>, n: int) -> Seq<u8>
    decreases n,
{
    if n <= 1 {
        Seq::empty()
    } else {
        let r = pressed_keys(state, n - 1);
        let vk = n - 1;
        if releasable(vk) && state[vk] >= 0x80 {
            r.push(vk as u8)
        } else {
            r
        }
    }
}

// ---------------------------------------------------------------------
// Exec
// ---------------------------------------------------------------------

/// A pause of at least [`MIN_KEY_INTERVAL_MS`].
pub fn at_least(ms: u64) -> (r: u64)
    ensures
        r == at_least_spec(ms),
{
    if ms < MIN_KEY_INTERVAL_MS {
        MIN_KEY_INTERVAL_MS
    } else {
        ms
    }
}

/// The key of a single character.
pub fn char_to_vk(ch: char) -> (r: VirtualKey)
    ensures
        r == char_to_vk_spec(ch),
{
    let u = ch as u32;
    if u == 0x0D {
        VirtualKey::Code(VK_RETURN)
    } else if u == 0x11 {
        VirtualKey::Code(VK_CONTROL)
    } else if u == 0x2E {
        VirtualKey::Code(VK_DELETE)
    } else if u == 0x41 {
        VirtualKey::Code(VK_A)
    } else if u == 0x56 {
        VirtualKey::Code(VK_V)
    } else {
        VirtualKey::Layout(ch)
    }
}

/// The code of a layout-dependent character, given what `VkKeyScanW`
/// returned for it: the low byte, or the upper-cased character when the
/// layout has no key for it (`-1`).
pub fn vk_from_key_scan(ch: char, raw: i16) -> (r: u8)
    ensures
        raw == -1 ==> r == (upper_char(ch) as u32) % 256,
        raw != -1 ==> r == (raw as int) % 256,
{
    if raw == -1 {
        let u = char_upper(ch) as u32;
        (u % 256) as u8
    } else {
        let w = raw as i32;
        let m = if w < 0 {
            w + 65536
        } else {
            w
        };
        assert((raw as int) % 256 == m % 256);
        (m % 256) as u8
    }
}

/// `u8::from_str` on characters.
fn parse_u8_chars(s: &[char]) -> (r: Option<u8>)
    ensures
        r == parse_u8_spec(s@),
{
    let start: usize = if s.len() > 0 && s[0] == '+' {
        1
    } else {
        0
    };
    let ghost d = s@.skip(start as int);
    assert(d == (if s@.len() > 0 && s@[0] == '+' {
        s@.drop_first()
    } else {
        s@
    }));
    if start >= s.len() {
        return None;
    }
    let mut value: u32 = 0;
    let mut i: usize = start;
    while i < s.len()
        invariant
            start <= i <= s@.len(),
            d == s@.skip(start as int),
            d == (if s@.len() > 0 && s@[0] == '+' {
                s@.drop_first()
            } else {
                s@
            }),
            forall|k: int| 0 <= k < i - start ==> is_ascii_digit(#[trigger] d[k]),
            value == digits_value(d.take(i - start)),
            value <= 255,
        decreases s@.len() - i,
    {
        let c = s[i] as u32;
        assert(d[i - start] == s@[i as int]);
        if c < 48 || c > 57 {
            assert(!is_ascii_digit(d[i - start]));
            assert(!all_digits(d));
            return None;
        }
        assert(d.take(i + 1 - start).drop_last() == d.take(i - start));
        assert(d.take(i + 1 - start).last() == s@[i as int]);
        let next = value * 10 + (c - 48);
        if next > 255 {
            proof {
                if all_digits(d) {
                    lemma_digits_value_prefix_bound(d, i + 1 - start);
                    assert(digits_value(d) > 255);
                }
            }
            return None;
        }
        value = next;
        i = i + 1;
    }
    assert(d.take(d.len() as int) == d);
    Some(value as u8)
}

/// A longer digit string is worth at least as much as its prefix.
proof fn lemma_digits_value_prefix_bound(d: Seq<char>, k: int)
    requires
        0 <= k <= d.len(),
        forall|i: int| 0 <= i < d.len() ==> is_ascii_digit(#[trigger] d[i]),
    ensures
        digits_value(d.take(k)) <= digits_value(d),
    decreases d.len() - k,
{
    if k < d.len() {
        lemma_digits_value_prefix_bound(d, k + 1);
        assert(d.take(k + 1).drop_last() == d.take(k));
        assert(is_ascii_digit(d.take(k + 1).last()));
    } else {
        assert(d.take(k) == d);
    }
}

/// The code of a named key.
fn named_vk_exec(l: &[char]) -> (r: Option<u8>)
    ensures
        r == named_vk(l@),
{
    if chars_are(l, "ins") || chars_are(l, "insert") {
        Some(0x2D)
    } else if chars_are(l, "home") {
        Some(0x24)
    } else if chars_are(l, "end") {
        Some(0x23)
    } else if chars_are(l, "del") || chars_are(l, "delete") {
        Some(0x2E)
    } else if chars_are(l, "pgup") || chars_are(l, "pageup") {
        Some(0x21)
    } else if chars_are(l, "pgdn") || chars_are(l, "pgdown") || chars_are(l, "pagedown") {
        Some(0x22)
    } else if chars_are(l, "up") {
        Some(0x26)
    } else if chars_are(l, "down") {
        Some(0x28)
    } else if chars_are(l, "left") {
        Some(0x25)
    } else if chars_are(l, "right") {
        Some(0x27)
    } else if chars_are(l, "space") {
        Some(0x20)
    } else if chars_are(l, "tab") {
        Some(0x09)
    } else if chars_are(l, "enter") || chars_are(l, "return") {
        Some(0x0D)
    } else if chars_are(l, "backspace") || chars_are(l, "bksp") {
        Some(0x08)
    } else if chars_are(l, "esc") || chars_are(l, "escape") {
        Some(0x1B)
    } else if l.len() > 0 && l[0] == 'f' {
        assert(l@.skip(1) == l@.drop_first());
        match parse_u8_chars(&l[1..l.len()]) {
            Some(n) => if 1 <= n && n <= 24 {
                Some(0x70 + n - 1)
            } else {
                None
            },
            None => None,
        }
    } else {
        None
    }
}

/// Resolve a CS2-style key spec (`"k"`, `"ins"`, `"f5"`, ...) to a key.
/// Returns `None` for blank or unknown specs.
pub fn spec_to_vk(spec: &str) -> (r: Option<VirtualKey>)
    ensures
        r == spec_to_vk_spec(spec@),
{
    let v = chars_of(spec);
    let (a, b) = trim_bounds(v.as_slice());
    let s = &v.as_slice()[a..b];
    assert(s@ == trim(spec@));
    if s.len() == 0 {
        return None;
    }
    if s.len() == 1 && char_is_ascii_alnum(s[0]) {
        return Some(char_to_vk(s[0]));
    }
    let l = lower_chars(s);
    match named_vk_exec(l.as_slice()) {
        Some(vk) => Some(VirtualKey::Code(vk)),
        None => None,
    }
}

/// Whether a code needs `KEYEVENTF_EXTENDEDKEY`.
pub fn is_extended_vk(vk: u8) -> (r: bool)
    ensures
        r == is_extended_vk_spec(vk),
{
    vk == 0x21 || vk == 0x22 || vk == 0x23 || vk == 0x24 || vk == 0x25 || vk == 0x26 || vk
        == 0x27 || vk == 0x28 || vk == 0x2D || vk == 0x2E || vk == 0x6F || vk == 0x90 || vk
        == 0xA3 || vk == 0xA5
}

/// The flags of the keyboard event for `vk`.
pub fn key_event_flags(vk: u8, up: bool) -> (r: u32)
    ensures
        r == key_event_flags_spec(vk, up),
{
    let mut flags = KEYEVENTF_SCANCODE;
    if is_extended_vk(vk) {
        flags = flags + KEYEVENTF_EXTENDEDKEY;
    }
    if up {
        flags = flags + KEYEVENTF_KEYUP;
    }
    flags
}

/// Press and release `vk`, holding it down for `hold_ms` (at least the
/// floor).
pub fn key_tap(vk: VirtualKey, hold_ms: u64) -> (r: Vec<KeyStep>)
    ensures
        r@ == key_tap_spec(vk, hold_ms),
{
    let r = vec![KeyStep::Down(vk), KeyStep::Pause(at_least(hold_ms)), KeyStep::Up(vk)];
    assert(r@ =~= key_tap_spec(vk, hold_ms));
    r
}

/// A single press-and-release of a character's key; `delay_ms` is both
/// the hold time and the rest afterwards.
pub fn press_key(ch: char, delay_ms: u64) -> (r: Vec<KeyStep>)
    ensures
        r@ == press_spec(char_to_vk_spec(ch), delay_ms),
{
    let mut r = key_tap(char_to_vk(ch), delay_ms);
    r.push(KeyStep::Pause(at_least(delay_ms)));
    r
}

/// Like [`press_key`] for a key spec; `None` when the spec is unknown and
/// no key is to be pressed.
pub fn press_key_spec(spec: &str, delay_ms: u64) -> (r: Option<Vec<KeyStep>>)
    ensures
        match spec_to_vk_spec(spec@) {
            Some(vk) => r is Some && r->0@ == press_spec(vk, delay_ms),
            None => r is None,
        },
{
    match spec_to_vk(spec) {
        Some(vk) => {
            let mut r = key_tap(vk, delay_ms);
            r.push(KeyStep::Pause(at_least(delay_ms)));
            Some(r)
        },
        None => None,
    }
}

/// Hold a character's key down without releasing it.
pub fn key_down(ch: char) -> (r: Vec<KeyStep>)
    ensures
        r@ == seq![KeyStep::Down(char_to_vk_spec(ch))],
{
    let r = vec![KeyStep::Down(char_to_vk(ch))];
    assert(r@ =~= seq![KeyStep::Down(char_to_vk_spec(ch))]);
    r
}

/// Release a previously held character key.
pub fn key_up(ch: char) -> (r: Vec<KeyStep>)
    ensures
        r@ == seq![KeyStep::Up(char_to_vk_spec(ch))],
{
    let r = vec![KeyStep::Up(char_to_vk(ch))];
    assert(r@ =~= seq![KeyStep::Up(char_to_vk_spec(ch))]);
    r
}

/// The movement set the player is most likely to hold when chat opens.
pub open spec fn movement_keys() -> Seq<u8> {
    seq![0x57u8, 0x41u8, 0x53u8, 0x44u8, 0x20u8, 0x10u8, 0x11u8, 0x12u8]
}

/// Release W, A, S, D, Space, Shift, Ctrl and Alt, then rest 30 ms.
pub fn release_movement_keys() -> (r: Vec<KeyStep>)
    ensures
        r@.len() == 9,
        forall|i: int|
            0 <= i < 8 ==> #[trigger] r@[i] == KeyStep::Up(VirtualKey::Code(movement_keys()[i])),
        r@[8] == KeyStep::Pause(30),
{
    let keys: [u8; 8] = [0x57, 0x41, 0x53, 0x44, 0x20, 0x10, 0x11, 0x12];
    let mut r: Vec<KeyStep> = Vec::new();
    let mut i: usize = 0;
    assert(keys@ == movement_keys());
    while i < 8
        invariant
            i <= 8,
            keys@ == movement_keys(),
            r@.len() == i,
            forall|k: int|
                0 <= k < i ==> #[trigger] r@[k] == KeyStep::Up(VirtualKey::Code(movement_keys()[k])),
        decreases 8 - i,
    {
        r.push(KeyStep::Up(VirtualKey::Code(keys[i])));
        i = i + 1;
    }
    r.push(KeyStep::Pause(30));
    r
}

/// The keys to release: every keyboard key that the 256-entry keyboard
/// state marks as down, codes 1..=254, mouse buttons and `VK_PACKET`
/// excepted.
pub fn keys_to_release(state: &[u8]) -> (r: Vec<u8>)
    requires
        state@.len() == 256,
    ensures
        r@ == pressed_keys(state@, 255),
{
    let mut r: Vec<u8> = Vec::new();
    let mut vk: usize = 1;
    while vk <= 254
        invariant
            1 <= vk <= 255,
            state@.len() == 256,
            r@ == pressed_keys(state@, vk as int),
        decreases 255 - vk,
    {
        let skip = (1 <= vk && vk <= 6) || vk == 0xE7;
        if !skip && state[vk] >= 0x80 {
            r.push(vk as u8);
        }
        vk = vk + 1;
    }
    r
}

/// Select all and delete in the focused control: Ctrl+A, then Delete.
pub fn clear_input(delay_ms: u64) -> (r: Vec<KeyStep>)
    ensures
        r@ == seq![
            KeyStep::Down(VirtualKey::Code(VK_CONTROL)),
            KeyStep::Pause(MIN_KEY_INTERVAL_MS),
        ] + key_tap_spec(VirtualKey::Code(VK_A), at_least_spec(delay_ms)) + seq![
            KeyStep::Up(VirtualKey::Code(VK_CONTROL)),
            KeyStep::Pause(MIN_KEY_INTERVAL_MS),
        ] + key_tap_spec(VirtualKey::Code(VK_DELETE), at_least_spec(delay_ms)),
{
    let delay = at_least(delay_ms);
    let mut r = vec![KeyStep::Down(VirtualKey::Code(VK_CONTROL)), KeyStep::Pause(MIN_KEY_INTERVAL_MS)];
    let mut a = key_tap(VirtualKey::Code(VK_A), delay);
    r.append(&mut a);
    r.push(KeyStep::Up(VirtualKey::Code(VK_CONTROL)));
    r.push(KeyStep::Pause(MIN_KEY_INTERVAL_MS));
    let mut d = key_tap(VirtualKey::Code(VK_DELETE), delay);
    r.append(&mut d);
    assert(r@ =~= seq![
        KeyStep::Down(VirtualKey::Code(VK_CONTROL)),
        KeyStep::Pause(MIN_KEY_INTERVAL_MS),
    ] + key_tap_spec(VirtualKey::Code(VK_A), at_least_spec(delay_ms)) + seq![
        KeyStep::Up(VirtualKey::Code(VK_CONTROL)),
        KeyStep::Pause(MIN_KEY_INTERVAL_MS),
    ] + key_tap_spec(VirtualKey::Code(VK_DELETE), at_least_spec(delay_ms)));
    r
}

/// The Ctrl+V paste shortcut, with a trailing rest so the next key is not
/// read as Ctrl-modified.
pub fn paste_clipboard() -> (r: Vec<KeyStep>)
    ensures
        r@ == seq![
            KeyStep::Down(VirtualKey::Code(VK_CONTROL)),
            KeyStep::Pause(MIN_KEY_INTERVAL_MS),
            KeyStep::Down(VirtualKey::Code(VK_V)),
            KeyStep::Pause(MIN_KEY_INTERVAL_MS),
            KeyStep::Up(VirtualKey::Code(VK_V)),
            KeyStep::Up(VirtualKey::Code(VK_CONTROL)),
            KeyStep::Pause(MIN_KEY_INTERVAL_MS),
        ],
{
    let mut r = vec![KeyStep::Down(VirtualKey::Code(VK_CONTROL)), KeyStep::Pause(MIN_KEY_INTERVAL_MS)];
    let mut v = key_tap(VirtualKey::Code(VK_V), MIN_KEY_INTERVAL_MS);
    r.append(&mut v);
    r.push(KeyStep::Up(VirtualKey::Code(VK_CONTROL)));
    r.push(KeyStep::Pause(MIN_KEY_INTERVAL_MS));
    assert(r@ =~= seq![
        KeyStep::Down(VirtualKey::Code(VK_CONTROL)),
        KeyStep::Pause(MIN_KEY_INTERVAL_MS),
        KeyStep::Down(VirtualKey::Code(VK_V)),
        KeyStep::Pause(MIN_KEY_INTERVAL_MS),
        KeyStep::Up(VirtualKey::Code(VK_V)),
        KeyStep::Up(VirtualKey::Code(VK_CONTROL)),
        KeyStep::Pause(MIN_KEY_INTERVAL_MS),
    ]);
    r
}

/// Press the Enter key once.
pub fn press_enter() -> (r: Vec<KeyStep>)
    ensures
        r@ == key_tap_spec(VirtualKey::Code(VK_RETURN), MIN_KEY_INTERVAL_MS),
{
    key_tap(VirtualKey::Code(VK_RETURN), MIN_KEY_INTERVAL_MS)
}

/// Whether the foreground window's process image is `cs2.exe` (ASCII
/// case ignored). `None`, when no foreground process could be read or
/// on a platform without CS2, is never CS2.
pub fn is_cs2_active(foreground_image: Option<&str>) -> (r: bool)
    ensures
        r == match foreground_image {
            Some(name) => lower(name@) == lower("cs2.exe"@),
            None => false,
        },
{
    match foreground_image {
        Some(name) => {
            let v = chars_of(name);
            let l = lower_chars(v.as_slice());
            let c = chars_of("cs2.exe");
            let lc = lower_chars(c.as_slice());
            crate::text::same_chars(l.as_slice(), lc.as_slice())
        },
        None => false,
    }
}

/// Milliseconds since the last input, from the tick counts of now and of
/// the last input; 0 when the clock reads earlier than the input.
pub fn idle_millis(now_ticks: u32, last_input_ticks: u32) -> (r: u32)
    ensures
        r == if now_ticks >= last_input_ticks {
            (now_ticks - last_input_ticks) as u32
        } else {
            0
        },
{
    now_ticks.saturating_sub(last_input_ticks)
}

} // verus!
