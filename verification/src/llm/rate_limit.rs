//! Pacing of requests: each call reserves the next free slot and waits for it.
use vstd::prelude::*;

verus! {

/// Throttles requests to a rate. No request is dropped; each is dispatched when its
/// slot comes. Times are in nanoseconds since some fixed instant.
pub struct RateLimitedProvider {
    /// Minimum gap between successive requests.
    pub interval: u64,
    /// Earliest time at which the next request may be dispatched.
    pub next_slot: u128,
}

/// The gap for a number of requests per minute: none for zero, which is unlimited.
pub open spec fn gap(requests_per_minute: u32) -> int {
    if requests_per_minute == 0 {
        0
    } else {
        (60_000int / (requests_per_minute as int)) * 1_000_000
    }
}

/// The later of two times.
pub open spec fn later(a: u128, b: u128) -> u128 {
    if a < b {
        b
    } else {
        a
    }
}

impl RateLimitedProvider {
    /// A limiter that starts at `now`.
    pub fn new(requests_per_minute: u32, now: u128) -> (r: RateLimitedProvider)
        ensures
            r.interval == gap(requests_per_minute),
            r.next_slot == now,
    {
        let interval: u64 = if requests_per_minute == 0 {
            0
        } else {
            (60_000 / (requests_per_minute as u64)) * 1_000_000
        };
        RateLimitedProvider { interval, next_slot: now }
    }

    /// Reserve a slot and return how long to wait before the request fires.
    pub fn reserve_slot(&mut self, now: u128) -> (r: u128)
        requires
            later(old(self).next_slot, now) + old(self).interval <= u128::MAX,
        ensures
            r == (if old(self).interval == 0 || old(self).next_slot <= now {
                0
            } else {
                old(self).next_slot - now
            }),
            *final(self) == (if old(self).interval == 0 {
                *old(self)
            } else {
                RateLimitedProvider {
                    next_slot: (later(old(self).next_slot, now) + old(self).interval) as u128,
                    ..*old(self)
                }
            }),
    {
        if self.interval == 0 {
            return 0;
        }
        let slot = self.next_slot;
        let wait: u128 = if slot <= now {
            0
        } else {
            slot - now
        };
        let start: u128 = if slot < now {
            now
        } else {
            slot
        };
        self.next_slot = start + self.interval as u128;
        wait
    }
}

/// When the request that reserves at `now` is dispatched.
pub open spec fn dispatch_time(p: RateLimitedProvider, now: u128) -> u128 {
    if p.interval == 0 {
        now
    } else {
        later(p.next_slot, now)
    }
}

/// The limiter after a reservation at `now`.
pub open spec fn reserved(p: RateLimitedProvider, now: u128) -> RateLimitedProvider {
    if p.interval == 0 {
        p
    } else {
        RateLimitedProvider { next_slot: (later(p.next_slot, now) + p.interval) as u128, ..p }
    }
}

/// Two requests in a row are dispatched at least an interval apart, in the order in
/// which they were made, and never before they were made.
pub proof fn law_requests_are_spaced(p: RateLimitedProvider, first: u128, second: u128)
    requires
        first <= second,
        later(p.next_slot, first) + p.interval <= u128::MAX,
    ensures
        dispatch_time(p, first) >= first,
        dispatch_time(reserved(p, first), second) >= second,
        dispatch_time(reserved(p, first), second) >= dispatch_time(p, first) + p.interval,
{
}

} // verus!
