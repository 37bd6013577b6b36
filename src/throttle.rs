//! A rate limiter for a repeated error report: the report goes out at most
//! once per quiet period. It is an explicit value owned by whoever performs
//! desktop switches, not ambient global state.
use vstd::prelude::*;

verus! {

/// Milliseconds that must pass after one report before the next goes out.
pub const QUIET_PERIOD_MS: u64 = 3000;

/// When the last report went out.
#[derive(Clone, Copy, Debug, PartialEq, Eq, Structural)]
pub struct ReportThrottle {
    /// Time of the last report, in milliseconds on a monotonic clock.
    pub last_ms: u64,
}

impl ReportThrottle {
    /// A throttle whose quiet period starts at `now_ms`.
    pub fn new(now_ms: u64) -> (r: Self)
        ensures
            r.last_ms == now_ms,
    {
        ReportThrottle { last_ms: now_ms }
    }

    /// Whether a report may go out at `now_ms`: only once more than the
    /// quiet period has passed since the last one, which then becomes
    /// `now_ms`.
    pub fn should_report(&mut self, now_ms: u64) -> (r: bool)
        ensures
            r == (now_ms > old(self).last_ms + QUIET_PERIOD_MS),
            final(self).last_ms == (if r {
                now_ms
            } else {
                old(self).last_ms
            }),
    {
        if now_ms > self.last_ms && now_ms - self.last_ms > QUIET_PERIOD_MS {
            self.last_ms = now_ms;
            true
        } else {
            false
        }
    }
}

} // verus!
