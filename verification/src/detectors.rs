//! Double-tap detection: two presses of the same key in quick succession.
use vstd::prelude::*;

verus! {

/// The longest gap between two taps that still makes a double tap, in nanoseconds (450 ms).
pub const DOUBLE_TAP_WINDOW_NANOS: u64 = 450_000_000;

/// The time from `last` to `now`, or zero when `last` is later (as `Instant::duration_since`).
pub open spec fn elapsed(now: u64, last: u64) -> int {
    if now >= last { now - last } else { 0 }
}

/// Remembers the time of the previous tap. Times are nanoseconds on a monotonic clock.
pub struct DoubleTapDetector {
    pub last_tap: Option<u64>,
}

impl DoubleTapDetector {
    /// A detector that has seen no tap yet.
    pub fn new() -> (d: Self)
        ensures
            d.last_tap is None,
    {
        DoubleTapDetector { last_tap: None }
    }

    /// Registers a tap at `now`; returns true when the previous tap was at most
    /// `DOUBLE_TAP_WINDOW_NANOS` earlier.
    pub fn register_tap(&mut self, now: u64) -> (fired: bool)
        ensures
            final(self).last_tap == Some(now),
            fired == (match old(self).last_tap {
                Some(last) => elapsed(now, last) <= DOUBLE_TAP_WINDOW_NANOS,
                None => false,
            }),
    {
        let fired = match self.last_tap {
            Some(last) => {
                let gap = if now >= last { now - last } else { 0 };
                gap <= DOUBLE_TAP_WINDOW_NANOS
            },
            None => false,
        };
        self.last_tap = Some(now);
        fired
    }
}

impl Default for DoubleTapDetector {
    fn default() -> (d: Self)
        ensures
            d.last_tap is None,
    {
        DoubleTapDetector::new()
    }
}

} // verus!
