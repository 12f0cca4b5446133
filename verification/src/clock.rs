//! Monotonic clock readings used to timestamp envelopes in comparer mode.
//!
//! Nothing is stated of the readings: they come from the machine's clock.

use vstd::prelude::*;

verus! {

#[verifier::external_type_specification]
#[verifier::external_body]
pub struct ExInstant(std::time::Instant);

/// `Instant::now`: the current reading of the monotonic clock.
pub assume_specification[ std::time::Instant::now ]() -> std::time::Instant;

/// `Instant::elapsed`: time since the instant; depends on the clock.
pub assume_specification[ std::time::Instant::elapsed ](i: &std::time::Instant) -> std::time::Duration;

/// `Duration::as_nanos`: the duration in whole nanoseconds; `Duration` is
/// opaque here, so the result is left unstated.
pub assume_specification[ core::time::Duration::as_nanos ](d: &core::time::Duration) -> u128;

/// Nanoseconds elapsed since `epoch`.
pub fn nanos_since(epoch: &std::time::Instant) -> u128 {
    let d = epoch.elapsed();
    d.as_nanos()
}

} // verus!
