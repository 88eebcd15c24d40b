//! The monotonic clock.
//!
//! Two calls into the standard library. Whatever the clock says, the delivery logic
//! must do the right thing: the functions that act on a reading take it as an
//! argument.

use std::time::Instant;
use vstd::prelude::*;

verus! {

/// A point on the monotonic clock, carried through unread.
#[verifier::external_type_specification]
#[verifier::external_body]
pub struct ExInstant(Instant);

/// That the clock was read and showed this. It relates, and does not determine: the
/// next reading shows another point.
pub uninterp spec fn clock_read(now: Instant) -> bool;

/// `Instant::now` reads the clock. What it shows is up to the clock; what is recorded is
/// that it was read.
pub assume_specification[ Instant::now ]() -> (now: Instant)
    ensures
        clock_read(now),
;

/// That the clock was read this many nanoseconds after this point. It relates, and
/// does not determine: a later reading gives another number.
pub uninterp spec fn elapsed_read(since: Instant, nanos: u128) -> bool;

/// `Instant::elapsed`, in nanoseconds. The number depends on when the call is made;
/// what is recorded is from which point it was counted.
#[verifier::external_body]
pub(crate) fn elapsed_nanos(since: &Instant) -> (nanos: u128)
    ensures
        elapsed_read(*since, nanos),
{
    since.elapsed().as_nanos()
}

} // verus!
