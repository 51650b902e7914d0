//! How many bytes have passed since a rate was last computed.

use vstd::prelude::*;

verus! {

/// The shortest time between two computations of a rate, in milliseconds
pub const MIN_WINDOW_MS: u64 = 500;

/// The bytes that have passed since a point in time.
///
/// Call `record` whenever bytes are transferred, and `flush` on a periodic tick.
#[derive(Debug, Clone, Copy, PartialEq, Eq, Structural)]
pub struct RateWindow {
    pub window_bytes: u64,
    pub last_update_ms: u64,
}

/// The window after it was closed and the next was opened, and its bytes and milliseconds; it is
/// not closed in less than half a second.
pub open spec fn flushed(w: RateWindow, now_ms: u64) -> (RateWindow, Option<(u64, u64)>) {
    let elapsed = now_ms - w.last_update_ms;
    if elapsed < 500 {
        (w, None)
    } else {
        (
            RateWindow { window_bytes: 0, last_update_ms: now_ms },
            Some((w.window_bytes, elapsed as u64)),
        )
    }
}

impl RateWindow {
    /// An empty window that starts now
    pub fn new(now_ms: u64) -> (r: Self)
        ensures
            r == (RateWindow { window_bytes: 0, last_update_ms: now_ms }),
    {
        RateWindow { window_bytes: 0, last_update_ms: now_ms }
    }

    /// Accumulate bytes into the current window.
    pub fn record(&mut self, bytes: u64)
        requires
            old(self).window_bytes + bytes <= u64::MAX,
        ensures
            final(self).window_bytes == old(self).window_bytes + bytes,
            final(self).last_update_ms == old(self).last_update_ms,
    {
        self.window_bytes = self.window_bytes + bytes;
    }

    /// Closes the window and opens the next; gives its bytes and its length in milliseconds.
    ///
    /// No-ops if less than 500ms have elapsed.
    pub fn flush(&mut self, now_ms: u64) -> (r: Option<(u64, u64)>)
        ensures
            (*final(self), r) == flushed(*old(self), now_ms),
    {
        let elapsed_ms: u64 = now_ms.saturating_sub(self.last_update_ms);
        if elapsed_ms < MIN_WINDOW_MS {
            return None;
        }
        let bytes: u64 = self.window_bytes;
        self.window_bytes = 0;
        self.last_update_ms = now_ms;
        Some((bytes, elapsed_ms))
    }

    /// Bytes accumulated in the current window (not yet flushed).
    pub fn window_bytes(&self) -> (r: u64)
        ensures
            r == self.window_bytes,
    {
        self.window_bytes
    }

    /// Reset window and timestamp. Use when a peer slot is reused.
    pub fn reset(&mut self, now_ms: u64)
        ensures
            *final(self) == (RateWindow { window_bytes: 0, last_update_ms: now_ms }),
    {
        self.window_bytes = 0;
        self.last_update_ms = now_ms;
    }
}

} // verus!
