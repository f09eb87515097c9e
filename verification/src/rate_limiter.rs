//! A fixed-delay rate limiter for calls against the service's API.
//! Time is carried as milliseconds; the sleeping itself happens
//! outside, guided by the decisions made here.

use vstd::prelude::*;

verus! {

/// Enforces a minimum delay between consecutive requests.
pub struct RateLimiter {
    /// When the last request went out, in milliseconds, if any has.
    pub last_request_ms: Option<u64>,
    /// The minimum delay between requests, in milliseconds.
    pub delay_ms: u64,
}

impl RateLimiter {
    /// A limiter with the given delay and no request seen yet.
    pub fn new(delay_ms: u64) -> (r: Self)
        ensures
            r.delay_ms == delay_ms,
            r.last_request_ms is None,
    {
        RateLimiter { last_request_ms: None, delay_ms }
    }

    /// Decides, at time `now_ms`, how long the next request must still
    /// wait.  A first request, or one after the delay has passed, may
    /// go at once and is recorded; otherwise the remaining delay is
    /// returned and nothing is recorded until `record` is called after
    /// the sleep.
    pub fn plan_wait(&mut self, now_ms: u64) -> (w: Option<u64>)
        ensures
            match old(self).last_request_ms {
                Option::None => w is None && final(self).last_request_ms == Some(now_ms),
                Option::Some(last) => {
                    if now_ms >= last && now_ms - last < old(self).delay_ms {
                        &&& w == Some((old(self).delay_ms - (now_ms - last)) as u64)
                        &&& final(self).last_request_ms == Some(last)
                    } else {
                        w is None && final(self).last_request_ms == Some(now_ms)
                    }
                },
            },
            final(self).delay_ms == old(self).delay_ms,
    {
        match self.last_request_ms {
            Option::None => {
                self.last_request_ms = Some(now_ms);
                None
            },
            Option::Some(last) => {
                if now_ms >= last && now_ms - last < self.delay_ms {
                    Some(self.delay_ms - (now_ms - last))
                } else {
                    self.last_request_ms = Some(now_ms);
                    None
                }
            },
        }
    }

    /// Records that a request went out at time `now_ms`, after the
    /// planned wait.
    pub fn record(&mut self, now_ms: u64)
        ensures
            final(self).last_request_ms == Some(now_ms),
            final(self).delay_ms == old(self).delay_ms,
    {
        self.last_request_ms = Some(now_ms);
    }
}

impl Default for RateLimiter {
    /// The stock limiter: half a second between requests.
    fn default() -> (r: RateLimiter)
        ensures
            r.delay_ms == 500,
            r.last_request_ms is None,
    {
        RateLimiter::new(500)
    }
}

} // verus!