//! Keys as the hotkey rules see them, and the macOS virtual-key table.
use vstd::prelude::*;

use crate::text::{ascii_upper, chars_of, to_ascii_upper};

verus! {

/// A keyboard key. Keys the rules never name are `Other`; `Unknown` carries a raw code that no
/// name was found for.
#[derive(Clone, Copy, Debug, PartialEq, Eq, Structural)]
pub enum Key {
    ShiftLeft,
    ShiftRight,
    ControlLeft,
    ControlRight,
    KeyA,
    KeyB,
    KeyC,
    KeyD,
    KeyE,
    KeyF,
    KeyG,
    KeyH,
    KeyI,
    KeyJ,
    KeyK,
    KeyL,
    KeyM,
    KeyN,
    KeyO,
    KeyP,
    KeyQ,
    KeyR,
    KeyS,
    KeyT,
    KeyU,
    KeyV,
    KeyW,
    KeyX,
    KeyY,
    KeyZ,
    Num0,
    Num1,
    Num2,
    Num3,
    Num4,
    Num5,
    Num6,
    Num7,
    Num8,
    Num9,
    Equal,
    Minus,
    LeftBracket,
    RightBracket,
    Quote,
    SemiColon,
    BackSlash,
    Comma,
    Slash,
    Dot,
    Unknown(u32),
    Other,
}

/// A key going down or coming up.
#[derive(Clone, Copy, Debug, PartialEq, Eq, Structural)]
pub enum KeyEvent {
    Press(Key),
    Release(Key),
}

/// Either shift key.
pub open spec fn is_shift(k: Key) -> bool {
    k == Key::ShiftLeft || k == Key::ShiftRight
}

/// Either control key.
pub open spec fn is_control(k: Key) -> bool {
    k == Key::ControlLeft || k == Key::ControlRight
}

/// The letter or digit key for an upper-case letter or a digit; `H` for anything else.
pub open spec fn char_key(c: char) -> Key {
    match c {
        'A' => Key::KeyA,
        'B' => Key::KeyB,
        'C' => Key::KeyC,
        'D' => Key::KeyD,
        'E' => Key::KeyE,
        'F' => Key::KeyF,
        'G' => Key::KeyG,
        'H' => Key::KeyH,
        'I' => Key::KeyI,
        'J' => Key::KeyJ,
        'K' => Key::KeyK,
        'L' => Key::KeyL,
        'M' => Key::KeyM,
        'N' => Key::KeyN,
        'O' => Key::KeyO,
        'P' => Key::KeyP,
        'Q' => Key::KeyQ,
        'R' => Key::KeyR,
        'S' => Key::KeyS,
        'T' => Key::KeyT,
        'U' => Key::KeyU,
        'V' => Key::KeyV,
        'W' => Key::KeyW,
        'X' => Key::KeyX,
        'Y' => Key::KeyY,
        'Z' => Key::KeyZ,
        '0' => Key::Num0,
        '1' => Key::Num1,
        '2' => Key::Num2,
        '3' => Key::Num3,
        '4' => Key::Num4,
        '5' => Key::Num5,
        '6' => Key::Num6,
        '7' => Key::Num7,
        '8' => Key::Num8,
        '9' => Key::Num9,
        _ => Key::KeyH,
    }
}

/// The place in the alphabet of the letter printed on a letter key (`A` is 0, `Z` is 25), or
/// -1 for a key without a letter.
pub open spec fn alphabet_position(k: Key) -> int {
    match k {
        Key::KeyA => 0,
        Key::KeyB => 1,
        Key::KeyC => 2,
        Key::KeyD => 3,
        Key::KeyE => 4,
        Key::KeyF => 5,
        Key::KeyG => 6,
        Key::KeyH => 7,
        Key::KeyI => 8,
        Key::KeyJ => 9,
        Key::KeyK => 10,
        Key::KeyL => 11,
        Key::KeyM => 12,
        Key::KeyN => 13,
        Key::KeyO => 14,
        Key::KeyP => 15,
        Key::KeyQ => 16,
        Key::KeyR => 17,
        Key::KeyS => 18,
        Key::KeyT => 19,
        Key::KeyU => 20,
        Key::KeyV => 21,
        Key::KeyW => 22,
        Key::KeyX => 23,
        Key::KeyY => 24,
        Key::KeyZ => 25,
        _ => -1,
    }
}

/// The digit printed on a digit key, or -1 for a key without one.
pub open spec fn digit_on(k: Key) -> int {
    match k {
        Key::Num0 => 0,
        Key::Num1 => 1,
        Key::Num2 => 2,
        Key::Num3 => 3,
        Key::Num4 => 4,
        Key::Num5 => 5,
        Key::Num6 => 6,
        Key::Num7 => 7,
        Key::Num8 => 8,
        Key::Num9 => 9,
        _ => -1,
    }
}

/// A letter designates the key that bears it, and a digit the key that bears it: the key for
/// the `n`-th capital letter is the `n`-th letter key, and the key for a digit `d` shows `d`.
pub proof fn lemma_char_key_bears_char(c: char)
    ensures
        'A' <= c <= 'Z' ==> alphabet_position(char_key(c)) == (c as int) - ('A' as int),
        '0' <= c <= '9' ==> digit_on(char_key(c)) == (c as int) - ('0' as int),
{
}

/// The configured combo key is the key bearing the string's first character, in either case:
/// a string starting with `j` or `J` designates the `J` key, one starting with `7` the `7` key.
pub proof fn lemma_combo_key_bears_first_char(s: Seq<char>)
    requires
        s.len() > 0,
    ensures
        'A' <= s[0] <= 'Z' ==> alphabet_position(combo_key_of(s)) == (s[0] as int) - ('A' as int),
        'a' <= s[0] <= 'z' ==> alphabet_position(combo_key_of(s)) == (s[0] as int) - ('a' as int),
        '0' <= s[0] <= '9' ==> digit_on(combo_key_of(s)) == (s[0] as int) - ('0' as int),
{
    lemma_char_key_bears_char(ascii_upper(s[0]));
}

/// Computes `char_key`.
pub fn key_of_char(c: char) -> (k: Key)
    ensures
        k == char_key(c),
{
    match c {
        'A' => Key::KeyA,
        'B' => Key::KeyB,
        'C' => Key::KeyC,
        'D' => Key::KeyD,
        'E' => Key::KeyE,
        'F' => Key::KeyF,
        'G' => Key::KeyG,
        'H' => Key::KeyH,
        'I' => Key::KeyI,
        'J' => Key::KeyJ,
        'K' => Key::KeyK,
        'L' => Key::KeyL,
        'M' => Key::KeyM,
        'N' => Key::KeyN,
        'O' => Key::KeyO,
        'P' => Key::KeyP,
        'Q' => Key::KeyQ,
        'R' => Key::KeyR,
        'S' => Key::KeyS,
        'T' => Key::KeyT,
        'U' => Key::KeyU,
        'V' => Key::KeyV,
        'W' => Key::KeyW,
        'X' => Key::KeyX,
        'Y' => Key::KeyY,
        'Z' => Key::KeyZ,
        '0' => Key::Num0,
        '1' => Key::Num1,
        '2' => Key::Num2,
        '3' => Key::Num3,
        '4' => Key::Num4,
        '5' => Key::Num5,
        '6' => Key::Num6,
        '7' => Key::Num7,
        '8' => Key::Num8,
        '9' => Key::Num9,
        _ => Key::KeyH,
    }
}

/// The key a configured combo-key string designates: its first character, in upper case, when
/// that is a letter or digit; `H` otherwise and for the empty string.
pub open spec fn combo_key_of(configured: Seq<char>) -> Key {
    if configured.len() == 0 {
        Key::KeyH
    } else {
        char_key(ascii_upper(configured[0]))
    }
}

/// Whether `key` is the configured combo key.
pub fn is_combo_key(key: Key, configured_key: &str) -> (r: bool)
    ensures
        r == (key == combo_key_of(configured_key@)),
{
    let cs = chars_of(configured_key);
    if cs.len() == 0 {
        return key == Key::KeyH;
    }
    let c = to_ascii_upper(cs[0]);
    key == key_of_char(c)
}

/// The macOS virtual key codes the listener understands.
pub open spec fn mac_key(code: u16) -> Key {
    match code {
        0 => Key::KeyA,
        1 => Key::KeyS,
        2 => Key::KeyD,
        3 => Key::KeyF,
        4 => Key::KeyH,
        5 => Key::KeyG,
        6 => Key::KeyZ,
        7 => Key::KeyX,
        8 => Key::KeyC,
        9 => Key::KeyV,
        11 => Key::KeyB,
        12 => Key::KeyQ,
        13 => Key::KeyW,
        14 => Key::KeyE,
        15 => Key::KeyR,
        16 => Key::KeyY,
        17 => Key::KeyT,
        18 => Key::Num1,
        19 => Key::Num2,
        20 => Key::Num3,
        21 => Key::Num4,
        22 => Key::Num6,
        23 => Key::Num5,
        24 => Key::Equal,
        25 => Key::Num9,
        26 => Key::Num7,
        27 => Key::Minus,
        28 => Key::Num8,
        29 => Key::Num0,
        30 => Key::RightBracket,
        31 => Key::KeyO,
        32 => Key::KeyU,
        33 => Key::LeftBracket,
        34 => Key::KeyI,
        35 => Key::KeyP,
        37 => Key::KeyL,
        38 => Key::KeyJ,
        39 => Key::Quote,
        40 => Key::KeyK,
        41 => Key::SemiColon,
        42 => Key::BackSlash,
        43 => Key::Comma,
        44 => Key::Slash,
        45 => Key::KeyN,
        46 => Key::KeyM,
        47 => Key::Dot,
        56 => Key::ShiftLeft,
        59 => Key::ControlLeft,
        60 => Key::ShiftRight,
        62 => Key::ControlRight,
        _ => Key::Unknown(code as u32),
    }
}

/// The macOS modifier codes: 56 is left Shift, 60 right Shift, 59 left Control and 62 right
/// Control (`kVK_Shift`, `kVK_RightShift`, `kVK_Control`, `kVK_RightControl`), and no other code
/// is read as a Shift or Control key.
pub proof fn lemma_mac_modifier_codes(code: u16)
    ensures
        mac_key(56) == Key::ShiftLeft,
        mac_key(60) == Key::ShiftRight,
        mac_key(59) == Key::ControlLeft,
        mac_key(62) == Key::ControlRight,
        is_shift(mac_key(code)) <==> (code == 56 || code == 60),
        is_control(mac_key(code)) <==> (code == 59 || code == 62),
{
}

/// Maps a macOS virtual key code to a key.
pub fn key_from_code(code: u16) -> (k: Key)
    ensures
        k == mac_key(code),
{
    match code {
        0 => Key::KeyA,
        1 => Key::KeyS,
        2 => Key::KeyD,
        3 => Key::KeyF,
        4 => Key::KeyH,
        5 => Key::KeyG,
        6 => Key::KeyZ,
        7 => Key::KeyX,
        8 => Key::KeyC,
        9 => Key::KeyV,
        11 => Key::KeyB,
        12 => Key::KeyQ,
        13 => Key::KeyW,
        14 => Key::KeyE,
        15 => Key::KeyR,
        16 => Key::KeyY,
        17 => Key::KeyT,
        18 => Key::Num1,
        19 => Key::Num2,
        20 => Key::Num3,
        21 => Key::Num4,
        22 => Key::Num6,
        23 => Key::Num5,
        24 => Key::Equal,
        25 => Key::Num9,
        26 => Key::Num7,
        27 => Key::Minus,
        28 => Key::Num8,
        29 => Key::Num0,
        30 => Key::RightBracket,
        31 => Key::KeyO,
        32 => Key::KeyU,
        33 => Key::LeftBracket,
        34 => Key::KeyI,
        35 => Key::KeyP,
        37 => Key::KeyL,
        38 => Key::KeyJ,
        39 => Key::Quote,
        40 => Key::KeyK,
        41 => Key::SemiColon,
        42 => Key::BackSlash,
        43 => Key::Comma,
        44 => Key::Slash,
        45 => Key::KeyN,
        46 => Key::KeyM,
        47 => Key::Dot,
        56 => Key::ShiftLeft,
        59 => Key::ControlLeft,
        60 => Key::ShiftRight,
        62 => Key::ControlRight,
        _ => Key::Unknown(code as u32),
    }
}

/// Why the macOS key listener could not start.
#[derive(Clone, Copy, Debug, PartialEq, Eq, Structural)]
pub enum MacHotkeyListenError {
    /// The event tap could not be created.
    EventTapError,
    /// The event tap's run-loop source could not be created.
    LoopSourceError,
}

/// The kinds of macOS event-tap events the listener handles.
#[derive(Clone, Copy, Debug, PartialEq, Eq, Structural)]
pub enum MacEventKind {
    KeyDown,
    KeyUp,
    FlagsChanged,
    Other,
}

/// Turns a macOS keyboard event into a press or release. A modifier-flags change is a release
/// when the flag bits decreased since the previous such event, a press otherwise.
pub fn convert_event(kind: MacEventKind, code: u16, current_flags: u64, previous_flags: u64) -> (r: Option<KeyEvent>)
    ensures
        r == (match kind {
            MacEventKind::KeyDown => Some(KeyEvent::Press(mac_key(code))),
            MacEventKind::KeyUp => Some(KeyEvent::Release(mac_key(code))),
            MacEventKind::FlagsChanged => if current_flags < previous_flags {
                Some(KeyEvent::Release(mac_key(code)))
            } else {
                Some(KeyEvent::Press(mac_key(code)))
            },
            MacEventKind::Other => None,
        }),
{
    let key = key_from_code(code);
    match kind {
        MacEventKind::KeyDown => Some(KeyEvent::Press(key)),
        MacEventKind::KeyUp => Some(KeyEvent::Release(key)),
        MacEventKind::FlagsChanged => {
            if current_flags < previous_flags {
                Some(KeyEvent::Release(key))
            } else {
                Some(KeyEvent::Press(key))
            }
        },
        MacEventKind::Other => None,
    }
}

} // verus!
