use clip_keeper::detectors::{DoubleTapDetector, DOUBLE_TAP_WINDOW_NANOS};
use clip_keeper::hotkey::{HotkeyMonitor, HotkeyTrigger};
use clip_keeper::keys::{convert_event, is_combo_key, key_from_code, key_of_char, Key, KeyEvent, MacEventKind};
use clip_keeper::settings::HotkeySettings;

const MS: u64 = 1_000_000;

fn settings(mode: i32, ctrl: bool, shift: bool, key: &str) -> HotkeySettings {
    HotkeySettings { hotkey_mode: mode, combo_ctrl_required: ctrl, combo_shift_required: shift, combo_key: key.to_string() }
}

#[test]
fn combo_key_matching() {
    assert!(is_combo_key(Key::KeyA, "a"));
    assert!(is_combo_key(Key::KeyA, "A"));
    assert!(is_combo_key(Key::Num3, "3"));
    assert!(is_combo_key(Key::KeyH, ""));
    assert!(is_combo_key(Key::KeyH, "#"));
    assert!(!is_combo_key(Key::KeyB, " b"));
    assert!(is_combo_key(Key::KeyH, " b"));
    assert!(!is_combo_key(Key::ShiftLeft, "h"));
    assert_eq!(key_of_char('Q'), Key::KeyQ);
    assert_eq!(key_of_char('q'), Key::KeyH);
}

#[test]
fn mac_key_codes() {
    assert_eq!(key_from_code(0), Key::KeyA);
    assert_eq!(key_from_code(4), Key::KeyH);
    assert_eq!(key_from_code(29), Key::Num0);
    assert_eq!(key_from_code(47), Key::Dot);
    assert_eq!(key_from_code(56), Key::ShiftLeft);
    assert_eq!(key_from_code(62), Key::ControlRight);
    assert_eq!(key_from_code(10), Key::Unknown(10));
    assert_eq!(key_from_code(300), Key::Unknown(300));
}

#[test]
fn mac_event_conversion() {
    assert_eq!(convert_event(MacEventKind::KeyDown, 0, 0, 0), Some(KeyEvent::Press(Key::KeyA)));
    assert_eq!(convert_event(MacEventKind::KeyUp, 1, 0, 0), Some(KeyEvent::Release(Key::KeyS)));
    assert_eq!(convert_event(MacEventKind::FlagsChanged, 56, 0x20002, 0x100), Some(KeyEvent::Press(Key::ShiftLeft)));
    assert_eq!(convert_event(MacEventKind::FlagsChanged, 56, 0x100, 0x20002), Some(KeyEvent::Release(Key::ShiftLeft)));
    assert_eq!(convert_event(MacEventKind::Other, 56, 0, 0), None);
}

#[test]
fn double_tap_window() {
    let mut d = DoubleTapDetector::default();
    assert!(!d.register_tap(1_000 * MS));
    assert!(d.register_tap(1_000 * MS + DOUBLE_TAP_WINDOW_NANOS));
    assert!(!d.register_tap(2_000 * MS + DOUBLE_TAP_WINDOW_NANOS + 1));
    // a clock that went backwards counts as no time elapsed
    assert!(d.register_tap(10));
    assert_eq!(d.last_tap, Some(10));
}

#[test]
fn shift_double_tap_in_mode_zero() {
    let s = settings(0, true, false, "H");
    let mut m = HotkeyMonitor::new();
    assert_eq!(m.handle_event(KeyEvent::Press(Key::ShiftLeft), &s, 0), None);
    assert!(m.shift_down);
    assert_eq!(m.handle_event(KeyEvent::Release(Key::ShiftLeft), &s, 10 * MS), None);
    assert!(!m.shift_down);
    m.handle_event(KeyEvent::Press(Key::ShiftRight), &s, 100 * MS);
    assert_eq!(m.handle_event(KeyEvent::Release(Key::ShiftRight), &s, 200 * MS), Some(HotkeyTrigger::ShiftDoubleTap));
    // too slow
    m.handle_event(KeyEvent::Press(Key::ShiftLeft), &s, 1000 * MS);
    assert_eq!(m.handle_event(KeyEvent::Release(Key::ShiftLeft), &s, 1000 * MS), None);
    // ctrl double taps do nothing in mode 0
    m.handle_event(KeyEvent::Release(Key::ControlLeft), &s, 1100 * MS);
    assert_eq!(m.handle_event(KeyEvent::Release(Key::ControlLeft), &s, 1150 * MS), None);
}

#[test]
fn ctrl_double_tap_in_mode_one() {
    let s = settings(1, true, false, "H");
    let mut m = HotkeyMonitor::new();
    assert_eq!(m.handle_event(KeyEvent::Release(Key::ControlLeft), &s, 0), None);
    assert_eq!(m.handle_event(KeyEvent::Release(Key::ControlRight), &s, 300 * MS), Some(HotkeyTrigger::CtrlDoubleTap));
    assert_eq!(m.handle_event(KeyEvent::Release(Key::ShiftLeft), &s, 310 * MS), None);
    assert_eq!(m.handle_event(KeyEvent::Release(Key::ShiftLeft), &s, 320 * MS), None);
}

#[test]
fn combo_in_mode_two() {
    let s = settings(2, true, false, "h");
    let mut m = HotkeyMonitor::new();
    // without ctrl held: the key is armed but nothing fires
    assert_eq!(m.handle_event(KeyEvent::Press(Key::KeyH), &s, 0), None);
    assert!(m.combo_key_down);
    m.handle_event(KeyEvent::Release(Key::KeyH), &s, 0);
    assert!(!m.combo_key_down);
    m.handle_event(KeyEvent::Press(Key::ControlLeft), &s, 0);
    assert_eq!(m.handle_event(KeyEvent::Press(Key::KeyH), &s, 0), Some(HotkeyTrigger::Combo));
    // auto-repeat does not fire again
    assert_eq!(m.handle_event(KeyEvent::Press(Key::KeyH), &s, 0), None);
    m.handle_event(KeyEvent::Release(Key::KeyH), &s, 0);
    assert_eq!(m.handle_event(KeyEvent::Press(Key::KeyH), &s, 0), Some(HotkeyTrigger::Combo));
    // other keys do nothing
    assert_eq!(m.handle_event(KeyEvent::Press(Key::KeyJ), &s, 0), None);
    // shift double taps do nothing in mode 2
    m.handle_event(KeyEvent::Release(Key::ShiftLeft), &s, 0);
    assert_eq!(m.handle_event(KeyEvent::Release(Key::ShiftLeft), &s, 1), None);
}

#[test]
fn combo_needs_shift_when_required() {
    let s = settings(2, false, true, "7");
    let mut m = HotkeyMonitor::new();
    assert_eq!(m.handle_event(KeyEvent::Press(Key::Num7), &s, 0), None);
    m.handle_event(KeyEvent::Release(Key::Num7), &s, 0);
    m.handle_event(KeyEvent::Press(Key::ShiftRight), &s, 0);
    assert_eq!(m.handle_event(KeyEvent::Press(Key::Num7), &s, 0), Some(HotkeyTrigger::Combo));
}

#[test]
fn combo_ignored_outside_mode_two() {
    let s = settings(0, false, false, "h");
    let mut m = HotkeyMonitor::new();
    assert_eq!(m.handle_event(KeyEvent::Press(Key::KeyH), &s, 0), None);
    assert!(!m.combo_key_down);
}
