//! Placeholder for a shared request limiter.

use vstd::prelude::*;

verus! {

/// A request limiter that holds no state yet.
pub struct RateLimiter {}

impl RateLimiter {
    /// Makes a limiter.
    pub fn new() -> (r: Self)
        ensures
            r == (RateLimiter {}),
    {
        RateLimiter {}
    }
}

impl Default for RateLimiter {
    fn default() -> (r: Self)
        ensures
            r == (RateLimiter {}),
    {
        RateLimiter::new()
    }
}

} // verus!
