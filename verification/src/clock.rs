//! The monotonic clock of the standard library, as far as a deadline needs it.

use std::time::{Duration, Instant};
use vstd::prelude::*;

verus! {

/// A point in time as `std::time::Instant` holds it; nothing is known of what is inside.
#[verifier::external_type_specification]
#[verifier::external_body]
pub struct ExInstant(Instant);

/// `Instant::now` reads the clock. Nothing is claimed of what it returns.
pub assume_specification[ Instant::now ]() -> (now: Instant)
;

/// `Instant::elapsed` gives the time since the instant was taken. Nothing is
/// claimed of what it returns.
pub assume_specification[ Instant::elapsed ](start: &Instant) -> (elapsed: Duration)
;

/// `Duration::as_nanos` gives a span of time in nanoseconds. Nothing is
/// claimed of what it returns.
pub assume_specification[ Duration::as_nanos ](span: &Duration) -> (nanos: u128)
;

/// A deadline that starts to run when it is made.
pub struct Deadline {
    started: Instant,
    timeout_nanos: u128,
}

impl Deadline {
    /// The time allowed, in nanoseconds.
    pub closed spec fn timeout_nanos(&self) -> u128 {
        self.timeout_nanos
    }

    /// A deadline that passes `timeout_nanos` nanoseconds from now.
    pub fn start(timeout_nanos: u128) -> (deadline: Deadline)
        ensures
            deadline.timeout_nanos() == timeout_nanos,
    {
        Deadline { started: Instant::now(), timeout_nanos }
    }

    /// True when the time allowed has run out once `elapsed_nanos`
    /// nanoseconds have gone by since the deadline was made.
    pub fn passed_after(&self, elapsed_nanos: u128) -> (over: bool)
        ensures
            over == (elapsed_nanos >= self.timeout_nanos()),
    {
        elapsed_nanos >= self.timeout_nanos
    }

    /// The nanoseconds that have gone by since the deadline was made, as
    /// the clock has them now.
    pub(crate) fn elapsed_nanos(&self) -> u128 {
        let elapsed: Duration = self.started.elapsed();
        elapsed.as_nanos()
    }

    /// True when the time allowed has run out. The answer depends on the
    /// clock; only a deadline of no time at all is known to have passed.
    pub fn passed(&self) -> (over: bool)
        ensures
            self.timeout_nanos() == 0 ==> over,
    {
        self.passed_after(self.elapsed_nanos())
    }
}

} // verus!
