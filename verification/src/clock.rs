//! The clock that latencies are measured with.

use tokio::time::Instant;
use vstd::prelude::*;

use crate::metrics::Nanos;

verus! {

/// `tokio::time::Instant`, of which the verifier sees nothing inside.
#[verifier::external_type_specification]
#[verifier::external_body]
pub struct ExInstant(Instant);

/// `tokio::time::Instant::now`: the present moment. Nothing is claimed of
/// it.
#[verifier::external_body]
pub(crate) fn clock_now() -> Instant {
    Instant::now()
}

/// `tokio::time::Instant::elapsed`, read in whole nanoseconds by
/// `Duration::as_nanos`: the time that has passed since `started`. Nothing
/// is claimed of it.
#[verifier::external_body]
pub(crate) fn clock_elapsed(started: &Instant) -> u128 {
    started.elapsed().as_nanos()
}

/// `nanos` as a span, held at the largest span that can be told.
pub fn saturating_nanos(nanos: u128) -> (span: Nanos)
    ensures
        span == if nanos > u64::MAX {
            u64::MAX
        } else {
            nanos as u64
        },
{
    if nanos > u64::MAX as u128 {
        u64::MAX
    } else {
        nanos as u64
    }
}

/// The time that has passed since `started`, as the clock tells it.
pub fn elapsed_since(started: &Instant) -> Nanos {
    saturating_nanos(clock_elapsed(started))
}

} // verus!
