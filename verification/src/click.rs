//! Multi-click detection for the mouse: consecutive left presses on the
//! same screen cell count up to a triple click. Time comes in as plain
//! milliseconds of a monotonic clock, read by the caller.
use vstd::prelude::*;

verus! {

/// A press at the same cell within this window continues the
/// multi-click run. GUI convention is ~500ms; 400ms leaves margin for
/// SSH/PTY forwarding jitter.
pub const MULTI_CLICK_WINDOW_MS: u64 = 400;

/// Whether a press at `now` (ms) falls within the window of the press
/// at `last` (ms). Elapsed time saturates at zero, so a clock reading
/// that goes backwards counts as no time at all.
pub open spec fn spec_in_window(last: u64, now: u64) -> bool {
    now <= last || now - last < MULTI_CLICK_WINDOW_MS
}

pub fn in_window(last: u64, now: u64) -> (b: bool)
    ensures
        b == spec_in_window(last, now),
{
    now <= last || now - last < MULTI_CLICK_WINDOW_MS
}

/// Click count after a press: a press continuing the run (same cell,
/// within the window, after an earlier press) counts one more, clamped
/// at 3; any other press starts over at 1.
pub open spec fn spec_next_count(n: u8, same_cell: bool, in_window: bool) -> u8 {
    if n > 0 && same_cell && in_window {
        if n + 1 > 3 {
            3
        } else {
            (n + 1) as u8
        }
    } else {
        1
    }
}

pub fn next_count(n: u8, same_cell: bool, in_window: bool) -> (c: u8)
    ensures
        c == spec_next_count(n, same_cell, in_window),
{
    if n > 0 && same_cell && in_window {
        if n >= 3 {
            3
        } else {
            n + 1
        }
    } else {
        1
    }
}

/// Counts consecutive left presses on the same screen cell so the
/// caller can map 1/2/3 to move / word / line selection. The clock is
/// injected into `press` as milliseconds.
pub struct ClickTracker {
    at: (u16, u16),
    n: u8,
    last_ms: u64,
}

impl ClickTracker {
    /// The current run: the cell of the last press, its count, and when
    /// it happened (ms).
    pub closed spec fn run(self) -> ((u16, u16), u8, u64) {
        (self.at, self.n, self.last_ms)
    }

    /// Record a left press at screen cell (col, row) at `now_ms` and
    /// return its click count: 1 single, 2 double, 3 triple; further
    /// rapid presses on the same cell stay 3. A press continues the run
    /// when it is on the same cell less than `MULTI_CLICK_WINDOW_MS`
    /// after the previous press.
    pub fn press(&mut self, col: u16, row: u16, now_ms: u64) -> (c: u8)
        ensures
            c == spec_next_count(
                old(self).run().1,
                (old(self).run().0) == (col, row),
                spec_in_window(old(self).run().2, now_ms),
            ),
            1 <= c <= 3,
            final(self).run() == ((col, row), c, now_ms),
    {
        let same = self.at.0 == col && self.at.1 == row;
        let w = in_window(self.last_ms, now_ms);
        let c = next_count(self.n, same, w);
        self.n = c;
        self.at = (col, row);
        self.last_ms = now_ms;
        c
    }
}

impl Default for ClickTracker {
    fn default() -> (t: Self)
        ensures
            t.run() == ((0u16, 0u16), 0u8, 0u64),
    {
        // `n == 0` forces the first press to count 1 whatever the time.
        ClickTracker { at: (0, 0), n: 0, last_ms: 0 }
    }
}

} // verus!
