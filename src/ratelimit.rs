use vstd::prelude::*;

verus! {

/// Fixed-window message budget: at most `max_messages` sends are admitted
/// within `window` time units of the first send of a window.
#[derive(Debug, Clone, Copy, PartialEq, Eq, Structural)]
pub struct RateLimiter {
    pub max_messages: u64,
    pub window: u64,
    pub window_start: u64,
    pub count: u64,
}

impl RateLimiter {
    /// Whether the current window is over at time `now`. A clock that went
    /// backwards keeps the window open.
    pub open spec fn window_expired(self, now: u64) -> bool {
        now >= self.window_start && now - self.window_start >= self.window
    }

    /// The limiter with an expired window restarted at `now`.
    pub open spec fn rolled(self, now: u64) -> RateLimiter {
        if self.window_expired(now) {
            RateLimiter { window_start: now, count: 0, ..self }
        } else {
            self
        }
    }

    /// Whether an attempt at time `now` exceeds the budget.
    pub open spec fn over_limit(self, now: u64) -> bool {
        self.rolled(now).count >= self.max_messages
    }

    /// The limiter after an attempt at time `now`: an admitted attempt is
    /// counted, a rejected one is not.
    pub open spec fn after(self, now: u64) -> RateLimiter {
        let r = self.rolled(now);
        if r.count >= r.max_messages {
            r
        } else {
            RateLimiter { count: (r.count + 1) as u64, ..r }
        }
    }

    pub fn new(max_messages: u64, window: u64) -> (r: RateLimiter)
        ensures
            r == (RateLimiter { max_messages, window, window_start: 0, count: 0 }),
    {
        RateLimiter { max_messages, window, window_start: 0, count: 0 }
    }

    /// Records an attempt at time `now` and returns whether it was over the
    /// budget.
    pub fn check_new_message(&mut self, now: u64) -> (limited: bool)
        ensures
            limited == old(self).over_limit(now),
            *final(self) == old(self).after(now),
    {
        if now >= self.window_start && now - self.window_start >= self.window {
            self.window_start = now;
            self.count = 0;
        }
        if self.count >= self.max_messages {
            true
        } else {
            self.count = self.count + 1;
            false
        }
    }
}

} // verus!
