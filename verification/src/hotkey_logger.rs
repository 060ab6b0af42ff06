//! The hotkey log: one line per trigger, written only when logging is enabled.
use vstd::prelude::*;

use crate::calendar::{format_utc, utc_timestamp};
use crate::text::{push_char, push_str};

verus! {

/// `[<timestamp>] Trigger: <trigger>` followed by a newline.
pub open spec fn log_line(timestamp: Seq<char>, trigger: Seq<char>) -> Seq<char> {
    seq!['['] + timestamp + seq![']', ' ', 'T', 'r', 'i', 'g', 'g', 'e', 'r', ':', ' '] + trigger + seq!['\n']
}

/// Where hotkey triggers are logged, and whether they are.
pub struct HotkeyLogger {
    log_path: String,
    enabled: bool,
}

impl HotkeyLogger {
    /// A disabled logger that would write to `log_path`.
    pub fn new(log_path: String) -> (l: Self)
        ensures
            l.path()@ == log_path@,
            !l.enabled(),
    {
        Self::new_with_enabled(log_path, false)
    }

    /// A logger writing to `log_path` when `enabled`.
    pub fn new_with_enabled(log_path: String, enabled: bool) -> (l: Self)
        ensures
            l.path()@ == log_path@,
            l.enabled() == enabled,
    {
        HotkeyLogger { log_path, enabled }
    }

    /// The log file.
    pub closed spec fn path(&self) -> String {
        self.log_path
    }

    /// Whether triggers are logged.
    pub closed spec fn enabled(&self) -> bool {
        self.enabled
    }

    /// Turns logging on or off.
    pub fn set_enabled(&mut self, enabled: bool)
        ensures
            final(self).enabled() == enabled,
            final(self).path() == old(self).path(),
    {
        self.enabled = enabled;
    }

    /// Turns logging on.
    pub fn enable(&mut self)
        ensures
            final(self).enabled(),
            final(self).path() == old(self).path(),
    {
        self.set_enabled(true);
    }

    /// Turns logging off.
    pub fn disable(&mut self)
        ensures
            !final(self).enabled(),
            final(self).path() == old(self).path(),
    {
        self.set_enabled(false);
    }

    /// Whether triggers are logged.
    pub fn is_enabled(&self) -> (r: bool)
        ensures
            r == self.enabled(),
    {
        self.enabled
    }

    /// The log file.
    pub fn log_path(&self) -> (r: &str)
        ensures
            r@ == self.path()@,
    {
        self.log_path.as_str()
    }

    /// The line to append for `trigger` at Unix time `unix_secs`, when logging is enabled.
    pub fn log_entry(&self, trigger: &str, unix_secs: u64) -> (r: Option<String>)
        ensures
            match r {
                Some(line) => self.enabled() && line@ == log_line(utc_timestamp(unix_secs as nat), trigger@),
                None => !self.enabled(),
            },
    {
        if !self.enabled {
            return None;
        }
        let timestamp = format_utc(unix_secs);
        let mut line = String::new();
        push_char(&mut line, '[');
        push_str(&mut line, timestamp.as_str());
        push_str(&mut line, "] Trigger: ");
        push_str(&mut line, trigger);
        push_char(&mut line, '\n');
        proof {
            reveal_strlit("] Trigger: ");
            assert(line@ =~= log_line(utc_timestamp(unix_secs as nat), trigger@));
        }
        Some(line)
    }
}

} // verus!
