//! The reconnection policy of a point-to-point client: on every connection
//! failure, wait a fixed interval and retry, indefinitely — no backoff, no
//! attempt cap. Each successful connection starts a fresh session with fresh
//! peer state.

use vstd::prelude::*;

verus! {

/// Seconds between two connection attempts after a failure.
pub const RETRY_INTERVAL_SECONDS: u64 = 60;

/// Seconds between two change-detector polls of the clipboard.
pub const DETECTOR_INTERVAL_SECONDS: u64 = 2;

/// Tracks connection attempts of the reconnecting client.
#[derive(Debug, PartialEq, Eq, Structural, Clone, Copy)]
pub struct ReconnectPolicy {
    /// Connection failures since the last successful connection.
    pub failures: u64,
}

impl ReconnectPolicy {
    /// The policy at start: nothing failed yet.
    pub fn new() -> (r: ReconnectPolicy)
        ensures
            r.failures == 0,
    {
        ReconnectPolicy { failures: 0 }
    }

    /// Called after a failed connection attempt: counts the failure and gives
    /// the seconds to wait before the next attempt — always the fixed
    /// interval, however many attempts failed before.
    pub fn on_failure(&mut self) -> (wait_seconds: u64)
        ensures
            wait_seconds == RETRY_INTERVAL_SECONDS,
            final(self).failures == if old(self).failures < u64::MAX {
                old(self).failures + 1
            } else {
                u64::MAX as int
            },
    {
        if self.failures < u64::MAX {
            self.failures = self.failures + 1;
        }
        RETRY_INTERVAL_SECONDS
    }

    /// Called after a successful connection: the failure count starts over,
    /// so a later failure waits the same fixed interval again.
    pub fn on_success(&mut self)
        ensures
            final(self).failures == 0,
    {
        self.failures = 0;
    }
}

} // verus!
