//! Wall-clock access and the elapsed-time helper on timestamps.

use vstd::prelude::*;

use crate::TimestampMs;
use std::time::Duration;

verus! {

/// The current time as a UNIX timestamp in milliseconds.
///
/// Relies on std's `SystemTime`; nothing can be promised of a clock reading.
/// If the clock is before the UNIX epoch the process fails fast.
#[verifier::external_body]
pub fn now() -> TimestampMs {
    let since_epoch = std::time::SystemTime::now().duration_since(
        std::time::SystemTime::UNIX_EPOCH,
    ).expect("system time before UNIX epoch");
    since_epoch.as_millis() as TimestampMs
}

/// Relies on std's `Duration::from_millis`.
#[verifier::external_body]
fn millis_to_duration(ms: u64) -> Duration {
    Duration::from_millis(ms)
}

/// Time elapsed between a timestamp and "now".
pub trait Timestamp {
    /// The duration from the timestamp to the current wall clock; zero when
    /// the timestamp lies in the future.
    fn elapsed(&self) -> Duration;
}

impl Timestamp for TimestampMs {
    fn elapsed(&self) -> Duration {
        let current = now();
        let diff: u64 = if current >= *self {
            current - *self
        } else {
            0
        };
        millis_to_duration(diff)
    }
}

} // verus!
