//! The global-hotkey rules: which key events open the history window.
use vstd::prelude::*;

use crate::detectors::{elapsed, DoubleTapDetector, DOUBLE_TAP_WINDOW_NANOS};
use crate::keys::{combo_key_of, is_combo_key, is_control, is_shift, Key, KeyEvent};
use crate::settings::HotkeySettings;

verus! {

/// Why the history window is to be shown.
#[derive(Clone, Copy, Debug, PartialEq, Eq, Structural)]
pub enum HotkeyTrigger {
    /// The combo key went down with the required modifiers held.
    Combo,
    /// Shift was released twice in quick succession.
    ShiftDoubleTap,
    /// Ctrl was released twice in quick succession.
    CtrlDoubleTap,
}

/// Whether a double-tap detector fires when tapped at `now`.
pub open spec fn tap_fires(d: DoubleTapDetector, now: u64) -> bool {
    match d.last_tap {
        Some(last) => elapsed(now, last) <= DOUBLE_TAP_WINDOW_NANOS,
        None => false,
    }
}

/// What the hotkey monitor remembers between key events.
pub struct HotkeyMonitor {
    pub shift_down: bool,
    pub ctrl_down: bool,
    pub combo_key_down: bool,
    pub shift_double_tap: DoubleTapDetector,
    pub ctrl_double_tap: DoubleTapDetector,
}

impl HotkeyMonitor {
    /// No key held and no tap seen.
    pub fn new() -> (m: Self)
        ensures
            !m.shift_down && !m.ctrl_down && !m.combo_key_down,
            m.shift_double_tap.last_tap is None,
            m.ctrl_double_tap.last_tap is None,
    {
        HotkeyMonitor {
            shift_down: false,
            ctrl_down: false,
            combo_key_down: false,
            shift_double_tap: DoubleTapDetector::new(),
            ctrl_double_tap: DoubleTapDetector::new(),
        }
    }

    /// Handles one key event at time `now` (nanoseconds, monotonic) under `settings`; returns
    /// the trigger when the history window is to be shown.
    ///
    /// A Shift or Ctrl press only records that the modifier is down. In mode 2 the first press of
    /// the combo key (repeats are ignored until it is released) fires when every required
    /// modifier is down. Releasing Shift in mode 0, or Ctrl in mode 1, registers a tap that
    /// fires on a double tap; in other modes the release only records the modifier as up.
    /// Releasing the combo key re-arms it.
    pub fn handle_event(&mut self, event: KeyEvent, settings: &HotkeySettings, now: u64) -> (r: Option<HotkeyTrigger>)
        ensures
            ({
                let o = *old(self);
                let n = *final(self);
                let combo = combo_key_of(settings.combo_key@);
                match event {
                    KeyEvent::Press(k) => {
                        if is_shift(k) {
                            r is None && n == (HotkeyMonitor { shift_down: true, ..o })
                        } else if is_control(k) {
                            r is None && n == (HotkeyMonitor { ctrl_down: true, ..o })
                        } else if settings.hotkey_mode == 2 && k == combo && !o.combo_key_down {
                            &&& n == (HotkeyMonitor { combo_key_down: true, ..o })
                            &&& r == (if (!settings.combo_ctrl_required || o.ctrl_down)
                                && (!settings.combo_shift_required || o.shift_down) {
                                Some(HotkeyTrigger::Combo)
                            } else {
                                None
                            })
                        } else {
                            r is None && n == o
                        }
                    },
                    KeyEvent::Release(k) => {
                        if is_shift(k) {
                            if settings.hotkey_mode == 0 {
                                &&& n == (HotkeyMonitor {
                                    shift_down: false,
                                    shift_double_tap: DoubleTapDetector { last_tap: Some(now) },
                                    ..o
                                })
                                &&& r == (if tap_fires(o.shift_double_tap, now) {
                                    Some(HotkeyTrigger::ShiftDoubleTap)
                                } else {
                                    None
                                })
                            } else {
                                r is None && n == (HotkeyMonitor { shift_down: false, ..o })
                            }
                        } else if is_control(k) {
                            if settings.hotkey_mode == 1 {
                                &&& n == (HotkeyMonitor {
                                    ctrl_down: false,
                                    ctrl_double_tap: DoubleTapDetector { last_tap: Some(now) },
                                    ..o
                                })
                                &&& r == (if tap_fires(o.ctrl_double_tap, now) {
                                    Some(HotkeyTrigger::CtrlDoubleTap)
                                } else {
                                    None
                                })
                            } else {
                                r is None && n == (HotkeyMonitor { ctrl_down: false, ..o })
                            }
                        } else if k == combo {
                            r is None && n == (HotkeyMonitor { combo_key_down: false, ..o })
                        } else {
                            r is None && n == o
                        }
                    },
                }
            }),
    {
        match event {
            KeyEvent::Press(key) => {
                if key == Key::ShiftLeft || key == Key::ShiftRight {
                    if !self.shift_down {
                        self.shift_down = true;
                    }
                    None
                } else if key == Key::ControlLeft || key == Key::ControlRight {
                    if !self.ctrl_down {
                        self.ctrl_down = true;
                    }
                    None
                } else if settings.hotkey_mode == 2 && is_combo_key(key, settings.combo_key.as_str()) {
                    if !self.combo_key_down {
                        self.combo_key_down = true;
                        let ctrl_ok = !settings.combo_ctrl_required || self.ctrl_down;
                        let shift_ok = !settings.combo_shift_required || self.shift_down;
                        if ctrl_ok && shift_ok {
                            return Some(HotkeyTrigger::Combo);
                        }
                    }
                    None
                } else {
                    None
                }
            },
            KeyEvent::Release(key) => {
                if key == Key::ShiftLeft || key == Key::ShiftRight {
                    self.shift_down = false;
                    if settings.hotkey_mode == 0 && self.shift_double_tap.register_tap(now) {
                        Some(HotkeyTrigger::ShiftDoubleTap)
                    } else {
                        None
                    }
                } else if key == Key::ControlLeft || key == Key::ControlRight {
                    self.ctrl_down = false;
                    if settings.hotkey_mode == 1 && self.ctrl_double_tap.register_tap(now) {
                        Some(HotkeyTrigger::CtrlDoubleTap)
                    } else {
                        None
                    }
                } else {
                    if is_combo_key(key, settings.combo_key.as_str()) {
                        self.combo_key_down = false;
                    }
                    None
                }
            },
        }
    }
}

} // verus!
