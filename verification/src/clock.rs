//! Wall-clock measurement of elapsed time.

use vstd::prelude::*;

verus! {

#[verifier::external_type_specification]
#[verifier::external_body]
pub struct ExInstant(std::time::Instant);

/// Calls `Instant::now`; nothing is promised of the instant it returns.
#[verifier::external_body]
pub(crate) fn instant_now() -> std::time::Instant {
    std::time::Instant::now()
}

/// Calls `Instant::elapsed`; nothing is promised of the duration, which
/// depends on the clock.
#[verifier::external_body]
pub(crate) fn instant_elapsed(start: &std::time::Instant) -> std::time::Duration {
    start.elapsed()
}

/// Calls `Duration::as_millis`, which std documents as the number of whole
/// milliseconds the duration holds; nothing more is stated.
#[verifier::external_body]
pub(crate) fn duration_millis(d: &std::time::Duration) -> u128 {
    d.as_millis()
}

/// Milliseconds elapsed since `start`, capped at `u64::MAX`. What it
/// answers depends on the clock.
pub(crate) fn millis_since(start: &std::time::Instant) -> u64 {
    let d = instant_elapsed(start);
    let ms = duration_millis(&d);
    if ms > 0xffff_ffff_ffff_ffffu128 { 0xffff_ffff_ffff_ffffu64 } else { ms as u64 }
}

} // verus!
