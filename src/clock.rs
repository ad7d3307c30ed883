use vstd::prelude::*;
use std::time::Instant;

verus! {

#[verifier::external_type_specification]
#[verifier::external_body]
pub struct ExInstant(Instant);

/// Relies on std::time::Instant::now: a reading of the monotonic clock.
#[verifier::external_body]
pub(crate) fn instant_now() -> (r: Instant) {
    Instant::now()
}

/// Relies on std::time::Instant::elapsed: whole milliseconds of the monotonic
/// clock since `epoch`.
#[verifier::external_body]
pub(crate) fn millis_since(epoch: &Instant) -> (r: u64) {
    epoch.elapsed().as_millis() as u64
}

/// Relies on std::time::SystemTime::now and duration_since: whole seconds of the
/// wall clock since the Unix epoch, none when the clock reads earlier than it.
#[verifier::external_body]
pub(crate) fn wall_clock_secs() -> (r: Option<u64>) {
    std::time::SystemTime::now().duration_since(std::time::UNIX_EPOCH).ok().map(|d| d.as_secs())
}

} // verus!
