//! A fixed-window rate limiter for client events: at most `max` events per
//! one-second window, the window restarting at the first event that comes a
//! second or more after it began.

use vstd::prelude::*;
use std::time::Duration;
use tokio::time::Instant;

verus! {

/// The monotonic instant type of tokio, opaque to Verus.
#[verifier::external_type_specification]
#[verifier::external_body]
pub struct ExInstant(Instant);

/// Reads the monotonic clock with `tokio::time::Instant::now`. Nothing is
/// promised of the reading.
#[verifier::external_body]
fn instant_now() -> (now: Instant) {
    Instant::now()
}

/// `later.duration_since(earlier)` (zero when `later` is not after
/// `earlier`). Nothing is promised of the value: the instants are opaque
/// readings of the clock.
#[verifier::external_body]
fn elapsed_between(earlier: &Instant, later: &Instant) -> (d: Duration) {
    later.duration_since(*earlier)
}

/// `Duration::as_nanos`. Nothing is promised of the value.
#[verifier::external_body]
fn duration_nanos(d: &Duration) -> (n: u128) {
    d.as_nanos()
}

/// One second, in nanoseconds.
pub const WINDOW_NANOS: u128 = 1_000_000_000;

/// `n` nanoseconds is what the monotonic clock measured from `window` to
/// `now`, where `now` is a reading of that clock: the results of
/// `instant_now`, `elapsed_between` and `duration_nanos` on those values.
pub closed spec fn measured(window: Instant, now: Instant, n: u128) -> bool {
    &&& call_ensures(instant_now, (), now)
    &&& exists|d: Duration|
        call_ensures(elapsed_between, (&window, &now), d) && call_ensures(duration_nanos, (&d,), n)
}

/// The count of a window after one more event: 1 in a fresh window, else
/// one more (saturating at `u32::MAX`).
pub open spec fn next_count(count: u32, fresh: bool) -> u32 {
    if fresh {
        1
    } else if count == u32::MAX {
        u32::MAX
    } else {
        (count + 1) as u32
    }
}

/// The count after `n` events in one window.
pub open spec fn count_after(n: nat) -> u32
    decreases n,
{
    if n == 0 {
        0
    } else {
        next_count(count_after((n - 1) as nat), false)
    }
}

/// A fixed-window rate limiter: at most `max` events per second.
pub struct RateLimiter {
    window: Instant,
    count: u32,
    max: u32,
}

impl RateLimiter {
    /// Events counted in the current window.
    pub closed spec fn count(&self) -> u32 {
        self.count
    }

    /// Events allowed per window.
    pub closed spec fn max(&self) -> u32 {
        self.max
    }

    /// When the current window began.
    pub closed spec fn window(&self) -> Instant {
        self.window
    }

    /// A limiter allowing `max` events per second, its window starting now.
    pub fn new(max: u32) -> (r: Self)
        ensures
            r.count() == 0,
            r.max() == max,
    {
        RateLimiter { window: instant_now(), count: 0, max }
    }

    /// Counts one event that comes `elapsed` nanoseconds after the window
    /// began, read at `now`: a second or more restarts the window at `now`.
    /// The event is allowed while the window's count stays within `max`.
    pub fn allow_after(&mut self, elapsed: u128, now: Instant) -> (allowed: bool)
        ensures
            final(self).max() == old(self).max(),
            final(self).count() == next_count(old(self).count(), elapsed >= WINDOW_NANOS),
            final(self).window() == if elapsed >= WINDOW_NANOS { now } else { old(self).window() },
            allowed == (final(self).count() <= final(self).max()),
    {
        if elapsed >= WINDOW_NANOS {
            self.window = now;
            self.count = 0;
        }
        self.count = self.count.saturating_add(1);
        self.count <= self.max
    }

    /// Counts one event now: the window restarts exactly when the monotonic
    /// clock, read now, has advanced a second or more since the window
    /// began (the count is then 1), as `allow_after` does with that measure.
    pub fn allow(&mut self) -> (allowed: bool)
        ensures
            final(self).max() == old(self).max(),
            final(self).count() == next_count(old(self).count(), true) || final(self).count() == next_count(
                old(self).count(),
                false,
            ),
            allowed == (final(self).count() <= final(self).max()),
            exists|now: Instant, n: u128|
                #![trigger measured(old(self).window(), now, n)]
                measured(old(self).window(), now, n) && final(self).count() == next_count(
                    old(self).count(),
                    n >= WINDOW_NANOS,
                ) && final(self).window() == (if n >= WINDOW_NANOS {
                    now
                } else {
                    old(self).window()
                }),
    {
        let now = instant_now();
        let d = elapsed_between(&self.window, &now);
        let elapsed = duration_nanos(&d);
        proof {
            assert(measured(old(self).window(), now, elapsed));
        }
        let allowed = self.allow_after(elapsed, now);
        assert(measured(old(self).window(), now, elapsed) && final(self).count() == next_count(
            old(self).count(),
            elapsed >= WINDOW_NANOS,
        ));
        allowed
    }
}

} // verus!
