//! Hotkey settings: their state, the rules that normalise them, and their persisted form.
use vstd::prelude::*;

use crate::text::{ascii_upper, chars_of, is_ascii_alnum, is_unicode_whitespace, is_whitespace, push_char, to_ascii_upper};

verus! {

/// The first character of `s` that is not white space.
pub open spec fn first_non_whitespace(s: Seq<char>) -> Option<char>
    decreases s.len(),
{
    if s.len() == 0 {
        None
    } else if is_unicode_whitespace(s[0]) {
        first_non_whitespace(s.drop_first())
    } else {
        Some(s[0])
    }
}

/// The combo key a typed value stands for: the first character after leading white space, in
/// upper case, when it is an ASCII letter or digit; `H` otherwise.
pub open spec fn combo_key_char(s: Seq<char>) -> char {
    match first_non_whitespace(s) {
        Some(c) => if is_ascii_alnum(c) { ascii_upper(c) } else { 'H' },
        None => 'H',
    }
}

/// Normalises a typed combo key to one upper-case letter or digit.
pub fn normalize_combo_key(input: &str) -> (r: String)
    ensures
        r@ == seq![combo_key_char(input@)],
{
    let cs = chars_of(input);
    let mut i: usize = 0;
    proof {
        assert(input@.skip(0) =~= input@);
    }
    while i < cs.len() && is_whitespace(cs[i])
        invariant
            i <= cs@.len(),
            cs@ == input@,
            first_non_whitespace(input@) == first_non_whitespace(input@.skip(i as int)),
        decreases cs@.len() - i,
    {
        proof {
            assert(input@.skip(i as int).drop_first() =~= input@.skip(i + 1));
        }
        i = i + 1;
    }
    let c = if i < cs.len() {
        let first = cs[i];
        proof {
            assert(input@.skip(i as int)[0] == first);
        }
        if ('0' <= first && first <= '9') || ('A' <= first && first <= 'Z') || ('a' <= first && first <= 'z') {
            to_ascii_upper(first)
        } else {
            'H'
        }
    } else {
        proof {
            assert(input@.skip(i as int).len() == 0);
        }
        'H'
    };
    let mut r = String::new();
    push_char(&mut r, c);
    r
}

/// A normalised combo key is an upper-case letter or a digit, and normalising it again keeps it.
pub proof fn lemma_combo_key_normal(s: Seq<char>)
    ensures
        ('A' <= combo_key_char(s) && combo_key_char(s) <= 'Z') || ('0' <= combo_key_char(s)
            && combo_key_char(s) <= '9'),
        combo_key_char(seq![combo_key_char(s)]) == combo_key_char(s),
{
    let c = combo_key_char(s);
    let t = seq![c];
    assert(!is_unicode_whitespace(c));
    assert(t.drop_first() =~= Seq::<char>::empty());
    assert(first_non_whitespace(t) == Some(c));
}

/// The persisted hotkey state. Mode 0: double-tap Shift; 1: double-tap Ctrl; 2: modifiers plus
/// the combo key.
pub struct SettingsState {
    pub hotkey_mode: i32,
    pub hotkey_combo_ctrl_required: bool,
    pub hotkey_combo_shift_required: bool,
    pub hotkey_combo_key: String,
}

impl Default for SettingsState {
    /// Shift double-tap; the combo is Ctrl+H.
    fn default() -> (s: Self)
        ensures
            s.hotkey_mode == 0,
            s.hotkey_combo_ctrl_required,
            !s.hotkey_combo_shift_required,
            s.hotkey_combo_key@ == seq!['H'],
    {
        proof {
            reveal_strlit("H");
        }
        SettingsState {
            hotkey_mode: 0,
            hotkey_combo_ctrl_required: true,
            hotkey_combo_shift_required: false,
            hotkey_combo_key: "H".to_owned(),
        }
    }
}

/// The hotkey settings as the monitor reads them.
pub struct HotkeySettings {
    /// 0: double-tap Shift; 1: double-tap Ctrl; 2: modifiers plus the combo key.
    pub hotkey_mode: i32,
    pub combo_ctrl_required: bool,
    pub combo_shift_required: bool,
    pub combo_key: String,
}

/// The settings file's contents. The two double-tap flags come from an older format and are
/// only read.
pub struct PersistedSettings {
    pub version: u32,
    pub hotkey_mode: i32,
    pub hotkey_combo_ctrl_required: bool,
    pub hotkey_combo_shift_required: bool,
    pub hotkey_combo_key: String,
    pub hotkey_ctrl_double_tap_enabled: Option<bool>,
    pub hotkey_shift_double_tap_enabled: Option<bool>,
}

/// The format version written by `persisted_snapshot`.
pub const SETTINGS_FORMAT_VERSION: u32 = 2;

/// The hotkey mode a persisted file stands for: a file with mode 0 written by the older format
/// that enabled the Ctrl double tap means mode 1.
pub open spec fn migrated_mode(p: PersistedSettings) -> i32 {
    if p.hotkey_mode == 0 && p.hotkey_ctrl_double_tap_enabled == Some(true) {
        1
    } else {
        p.hotkey_mode
    }
}

/// `p` is what the settings file holds for state `s`.
pub open spec fn settings_persisted_matches(p: PersistedSettings, s: SettingsState) -> bool {
    &&& p.version == SETTINGS_FORMAT_VERSION
    &&& p.hotkey_mode == s.hotkey_mode
    &&& p.hotkey_combo_ctrl_required == s.hotkey_combo_ctrl_required
    &&& p.hotkey_combo_shift_required == s.hotkey_combo_shift_required
    &&& p.hotkey_combo_key@ == s.hotkey_combo_key@
    &&& p.hotkey_ctrl_double_tap_enabled is None
    &&& p.hotkey_shift_double_tap_enabled is None
}

/// A hotkey mode brought into the documented modes `0 ..= 2`: below 0 gives 0, above 2 gives 2.
pub open spec fn clamped_mode(mode: int) -> int {
    if mode < 0 {
        0
    } else if mode > 2 {
        2
    } else {
        mode
    }
}

/// Whether `s` holds one of the documented hotkey modes 0, 1 or 2.
pub open spec fn mode_valid(s: SettingsState) -> bool {
    0 <= s.hotkey_mode <= 2
}

/// `n` is the state after taking over the settings file `p`: the migrated mode, clamped into
/// `0 ..= 2`, the two modifier flags and the normalised combo key.
pub open spec fn settings_loaded_from(p: PersistedSettings, n: SettingsState) -> bool {
    &&& n.hotkey_mode == clamped_mode(migrated_mode(p) as int)
    &&& n.hotkey_combo_ctrl_required == p.hotkey_combo_ctrl_required
    &&& n.hotkey_combo_shift_required == p.hotkey_combo_shift_required
    &&& n.hotkey_combo_key@ == seq![combo_key_char(p.hotkey_combo_key@)]
}

/// Writing the settings file and reading it back gives the same settings, provided the combo
/// key is already normalised (as every key the service stores is).
pub proof fn lemma_settings_round_trip(s: SettingsState, p: PersistedSettings, n: SettingsState, typed: Seq<char>)
    requires
        mode_valid(s),
        s.hotkey_combo_key@ == seq![combo_key_char(typed)],
        settings_persisted_matches(p, s),
        settings_loaded_from(p, n),
    ensures
        n.hotkey_mode == s.hotkey_mode,
        n.hotkey_combo_ctrl_required == s.hotkey_combo_ctrl_required,
        n.hotkey_combo_shift_required == s.hotkey_combo_shift_required,
        n.hotkey_combo_key@ == s.hotkey_combo_key@,
{
    lemma_combo_key_normal(typed);
}

/// Whatever a settings file holds, the state taken over from it has one of the hotkey modes
/// 0, 1 or 2.
pub proof fn lemma_loaded_mode_valid(p: PersistedSettings, n: SettingsState)
    requires
        settings_loaded_from(p, n),
    ensures
        mode_valid(n),
{
}

/// Reads and updates the hotkey settings.
pub struct SettingsService {
    settings_state: SettingsState,
}

impl SettingsService {
    /// The service over `settings_state`.
    pub fn new(settings_state: SettingsState) -> (s: Self)
        ensures
            s.state() == settings_state,
    {
        SettingsService { settings_state }
    }

    /// The current state.
    pub closed spec fn state(&self) -> SettingsState {
        self.settings_state
    }

    /// A copy of the current settings.
    pub fn current_hotkey_settings(&self) -> (r: HotkeySettings)
        ensures
            r.hotkey_mode == self.state().hotkey_mode,
            r.combo_ctrl_required == self.state().hotkey_combo_ctrl_required,
            r.combo_shift_required == self.state().hotkey_combo_shift_required,
            r.combo_key@ == self.state().hotkey_combo_key@,
    {
        HotkeySettings {
            hotkey_mode: self.settings_state.hotkey_mode,
            combo_ctrl_required: self.settings_state.hotkey_combo_ctrl_required,
            combo_shift_required: self.settings_state.hotkey_combo_shift_required,
            combo_key: self.settings_state.hotkey_combo_key.clone(),
        }
    }

    /// Sets the hotkey mode, clamped into `0 ..= 2`.
    pub fn set_hotkey_mode(&mut self, mode: i32)
        ensures
            final(self).state().hotkey_mode == clamped_mode(mode as int),
            mode_valid(final(self).state()),
            final(self).state().hotkey_combo_ctrl_required == old(self).state().hotkey_combo_ctrl_required,
            final(self).state().hotkey_combo_shift_required == old(self).state().hotkey_combo_shift_required,
            final(self).state().hotkey_combo_key == old(self).state().hotkey_combo_key,
    {
        self.settings_state.hotkey_mode = if mode < 0 { 0 } else if mode > 2 { 2 } else { mode };
    }

    /// Sets whether the combo needs Ctrl held.
    pub fn set_combo_ctrl_required(&mut self, enabled: bool)
        ensures
            final(self).state() == (SettingsState {
                hotkey_combo_ctrl_required: enabled,
                ..old(self).state()
            }),
    {
        self.settings_state.hotkey_combo_ctrl_required = enabled;
    }

    /// Sets whether the combo needs Shift held.
    pub fn set_combo_shift_required(&mut self, enabled: bool)
        ensures
            final(self).state() == (SettingsState {
                hotkey_combo_shift_required: enabled,
                ..old(self).state()
            }),
    {
        self.settings_state.hotkey_combo_shift_required = enabled;
    }

    /// Sets the combo key from a typed value, normalised.
    pub fn set_combo_key(&mut self, key: String)
        ensures
            final(self).state().hotkey_combo_key@ == seq![combo_key_char(key@)],
            final(self).state().hotkey_mode == old(self).state().hotkey_mode,
            final(self).state().hotkey_combo_ctrl_required == old(self).state().hotkey_combo_ctrl_required,
            final(self).state().hotkey_combo_shift_required == old(self).state().hotkey_combo_shift_required,
    {
        self.settings_state.hotkey_combo_key = normalize_combo_key(key.as_str());
    }

    /// Takes over the settings read from the settings file, migrating the older format,
    /// keeping the hotkey mode within the documented modes `0 ..= 2` and normalising the combo
    /// key.
    pub fn load_persisted(&mut self, persisted: PersistedSettings)
        ensures
            settings_loaded_from(persisted, final(self).state()),
            mode_valid(final(self).state()),
    {
        let migrated: i32 = if persisted.hotkey_mode == 0 {
            if persisted.hotkey_ctrl_double_tap_enabled == Some(true) {
                1
            } else if persisted.hotkey_shift_double_tap_enabled == Some(true) {
                0
            } else {
                persisted.hotkey_mode
            }
        } else {
            persisted.hotkey_mode
        };
        self.settings_state.hotkey_mode = if migrated < 0 { 0 } else if migrated > 2 { 2 } else { migrated };
        self.settings_state.hotkey_combo_ctrl_required = persisted.hotkey_combo_ctrl_required;
        self.settings_state.hotkey_combo_shift_required = persisted.hotkey_combo_shift_required;
        self.settings_state.hotkey_combo_key = normalize_combo_key(persisted.hotkey_combo_key.as_str());
    }

    /// What the settings file holds for the current settings.
    pub fn persisted_snapshot(&self) -> (p: PersistedSettings)
        ensures
            settings_persisted_matches(p, self.state()),
    {
        PersistedSettings {
            version: SETTINGS_FORMAT_VERSION,
            hotkey_mode: self.settings_state.hotkey_mode,
            hotkey_combo_ctrl_required: self.settings_state.hotkey_combo_ctrl_required,
            hotkey_combo_shift_required: self.settings_state.hotkey_combo_shift_required,
            hotkey_combo_key: self.settings_state.hotkey_combo_key.clone(),
            hotkey_ctrl_double_tap_enabled: None,
            hotkey_shift_double_tap_enabled: None,
        }
    }
}

} // verus!
