//! Coalescing bursts of writes into one UI notification. The caller owns
//! the clock and the sleeping; these types decide.
use vstd::prelude::*;

verus! {

pub open spec fn sat_add(a: u64, b: u64) -> u64 {
    if a + b <= u64::MAX {
        (a + b) as u64
    } else {
        u64::MAX
    }
}

/// A one-shot timer armed by the first trigger of a burst.
#[derive(Debug, Clone, Copy)]
pub struct Debounce {
    pub max_ms: u64,
    pub deadline: Option<u64>,
}

impl Default for Debounce {
    fn default() -> (r: Debounce)
        ensures
            r.max_ms == 100 && r.deadline is None,
    {
        Debounce { max_ms: 100, deadline: None }
    }
}

impl Debounce {
    pub fn new(max_ms: u64) -> (r: Debounce)
        ensures
            r.max_ms == max_ms && r.deadline is None,
    {
        Debounce { max_ms, deadline: None }
    }

    /// Arms the timer to fire `max_ms` after `now_ms`, unless it is armed
    /// already.
    pub fn trigger(&mut self, now_ms: u64)
        ensures
            final(self).max_ms == old(self).max_ms,
            final(self).deadline == match old(self).deadline {
                Some(d) => Some(d),
                None => Some(sat_add(now_ms, old(self).max_ms)),
            },
    {
        if self.deadline.is_none() {
            let d = if now_ms <= u64::MAX - self.max_ms {
                now_ms + self.max_ms
            } else {
                u64::MAX
            };
            self.deadline = Some(d);
        }
    }

    /// Whether the armed timer has elapsed at `now_ms`; if so it is
    /// disarmed. An unarmed timer never fires.
    pub fn ready(&mut self, now_ms: u64) -> (r: bool)
        ensures
            final(self).max_ms == old(self).max_ms,
            r == (old(self).deadline matches Some(d) && now_ms >= d),
            final(self).deadline == if r {
                None
            } else {
                old(self).deadline
            },
    {
        match self.deadline {
            Some(d) => if now_ms >= d {
                self.deadline = None;
                true
            } else {
                false
            },
            None => false,
        }
    }
}

/// Time from `from` to `to`; none when the clock went back.
pub open spec fn elapsed(from: u64, to: u64) -> int {
    if to >= from {
        to - from
    } else {
        0
    }
}

/// Runs a callback at most once per `max_ms`.
#[derive(Debug, Clone, Copy)]
pub struct Throttle {
    pub max_ms: u64,
    pub last_run_ms: u64,
}

impl Throttle {
    pub fn new(max_ms: u64, now_ms: u64) -> (r: Throttle)
        ensures
            r.max_ms == max_ms && r.last_run_ms == now_ms,
    {
        Throttle { max_ms, last_run_ms: now_ms }
    }

    /// Whether the callback may run at `now_ms`: when at least `max_ms` have
    /// passed since it last ran. If so, `now_ms` becomes the last run.
    pub fn throttled(&mut self, now_ms: u64) -> (r: bool)
        ensures
            final(self).max_ms == old(self).max_ms,
            r == (elapsed(old(self).last_run_ms, now_ms) >= old(self).max_ms),
            final(self).last_run_ms == if r {
                now_ms
            } else {
                old(self).last_run_ms
            },
    {
        let elapsed = if now_ms >= self.last_run_ms {
            now_ms - self.last_run_ms
        } else {
            0
        };
        if elapsed < self.max_ms {
            return false;
        }
        self.last_run_ms = now_ms;
        true
    }
}

} // verus!
