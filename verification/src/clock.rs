//! The wall clock, through std's `Instant`.

use vstd::prelude::*;
use std::time::{Duration, Instant};

verus! {

/// std's `Instant`, held opaquely: only the clock gives it meaning.
#[verifier::external_type_specification]
#[verifier::external_body]
pub struct ExInstant(Instant);

/// `Instant::now`: the current moment. It comes from the clock, so nothing is
/// stated of it.
#[verifier::external_body]
pub(crate) fn instant_now() -> Instant {
    Instant::now()
}

/// `Instant::elapsed`: the time since `t`. It comes from the clock, so nothing
/// is stated of it.
#[verifier::external_body]
pub(crate) fn instant_elapsed(t: &Instant) -> Duration {
    t.elapsed()
}

/// `Duration::as_millis`: the whole milliseconds in `d`. `Duration` is held
/// opaquely, so the result is not tied to `d` here; the only caller passes a
/// duration read from the clock, of which nothing is known either.
#[verifier::external_body]
pub(crate) fn duration_millis(d: &Duration) -> u128 {
    d.as_millis()
}

} // verus!
