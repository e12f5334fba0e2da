//! The one place the library reads the wall clock.

use vstd::prelude::*;

verus! {

/// Relies on std::time::SystemTime::now and duration_since(UNIX_EPOCH):
/// the clock read relative to the Unix epoch, as whole seconds, with the
/// flag telling on which side of the epoch the clock stands. Both arms are
/// returned as plain values, so no clock state can abort the process.
/// Nothing is promised of the value; every caller holds for all outcomes.
#[verifier::external_body]
fn clock_since_epoch() -> (bool, u64) {
    match std::time::SystemTime::now().duration_since(std::time::UNIX_EPOCH) {
        Ok(since_epoch) => (true, since_epoch.as_secs()),
        Err(before_epoch) => (false, before_epoch.duration().as_secs()),
    }
}

/// The current time in Unix seconds. Total for every clock state: a clock
/// set before the epoch reads as a negative count, and a clock beyond the
/// representable range saturates.
pub fn now_unix_seconds() -> i64 {
    let (after_epoch, seconds) = clock_since_epoch();
    if after_epoch {
        if seconds > 0x7fff_ffff_ffff_ffff {
            i64::MAX
        } else {
            seconds as i64
        }
    } else {
        if seconds >= 0x8000_0000_0000_0000 {
            i64::MIN
        } else {
            -(seconds as i64)
        }
    }
}

} // verus!
