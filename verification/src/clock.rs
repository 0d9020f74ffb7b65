//! A monotonic clock read in milliseconds.
use std::time::{Duration, Instant};
use vstd::prelude::*;

verus! {

#[verifier::external_type_specification]
#[verifier::external_body]
pub struct ExInstant(Instant);

/// Milliseconds counted from the moment the clock was started.
pub struct Clock {
    origin: Instant,
}

impl Clock {
    /// A clock started at `std::time::Instant::now()`; nothing is claimed of that instant.
    #[verifier::external_body]
    pub(crate) fn start() -> (r: Clock) {
        Clock { origin: Instant::now() }
    }

    /// The time `Instant::elapsed` reports since the clock started. Nothing is claimed of
    /// it: it depends on the time of the call.
    #[verifier::external_body]
    fn elapsed(&self) -> (r: Duration) {
        self.origin.elapsed()
    }

    /// The whole milliseconds of `d`, as `Duration::as_millis` counts them. Nothing is
    /// claimed of the value: a `Duration` is opaque here.
    #[verifier::external_body]
    fn whole_millis(d: Duration) -> (r: u128) {
        d.as_millis()
    }

    /// The whole milliseconds since the clock started, held at `u64::MAX` past that.
    pub(crate) fn now_ms(&self) -> (r: u64) {
        let ms = Clock::whole_millis(self.elapsed());
        if ms > 0xffff_ffff_ffff_ffffu128 {
            0xffff_ffff_ffff_ffffu64
        } else {
            ms as u64
        }
    }
}

} // verus!
