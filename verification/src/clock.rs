use std::time::{Duration, Instant};
use vstd::prelude::*;

verus! {

/// `std::time::Instant`, an opaque point on the monotonic clock.
#[verifier::external_type_specification]
#[verifier::external_body]
pub struct ExInstant(Instant);

/// The current instant, from `std::time::Instant::now`.
///
/// Nothing is promised of the result: it depends on the machine's clock.
#[verifier::external_body]
fn instant_now() -> Instant {
    Instant::now()
}

/// Time elapsed since `origin`, from `std::time::Instant::elapsed`.
///
/// Nothing is promised of the result: it depends on the machine's clock.
#[verifier::external_body]
fn instant_elapsed(origin: &Instant) -> Duration {
    origin.elapsed()
}

/// The whole number of nanoseconds in the span `d`, as
/// `std::time::Duration::as_nanos` computes it from its seconds and
/// sub-second nanoseconds.
pub uninterp spec fn total_nanos(d: Duration) -> u128;

/// Whole nanoseconds in `d`, from `std::time::Duration::as_nanos`; the
/// result is a function of the span alone.
#[verifier::external_body]
pub(crate) fn duration_as_nanos(d: Duration) -> (n: u128)
    ensures
        n == total_nanos(d),
{
    d.as_nanos()
}

/// Nanoseconds in `d`, saturating at `u64::MAX` (about 584 years).
fn duration_nanos(d: Duration) -> (n: u64)
    ensures
        n == if total_nanos(d) > u64::MAX { u64::MAX as u128 } else { total_nanos(d) },
{
    let wide = duration_as_nanos(d);
    if wide > 18_446_744_073_709_551_615u128 {
        u64::MAX
    } else {
        wide as u64
    }
}

/// A monotonic clock abstraction so time-dependent primitives are testable.
pub trait Clock: Send + Sync {
    /// Whether `t` is a reading this clock may give now.
    spec fn reads(&self, t: u64) -> bool;

    /// Nanoseconds elapsed since some fixed, arbitrary epoch.
    fn now(&self) -> (t: u64)
        ensures
            self.reads(t),
    ;
}

/// A real clock backed by `std::time::Instant`.
#[derive(Clone, Copy)]
pub struct SystemClock {
    origin: Instant,
}

impl SystemClock {
    /// Create a system clock anchored at the current instant.
    pub fn new() -> (c: SystemClock) {
        SystemClock { origin: instant_now() }
    }
}

impl Default for SystemClock {
    fn default() -> (c: SystemClock) {
        SystemClock::new()
    }
}

impl Clock for SystemClock {
    /// Any reading: the machine's clock decides.
    open spec fn reads(&self, t: u64) -> bool {
        true
    }

    fn now(&self) -> (t: u64) {
        duration_nanos(instant_elapsed(&self.origin))
    }
}

/// A manually advanced clock for deterministic tests.
#[derive(Debug, Clone, Copy, Default, PartialEq, Eq, Structural)]
pub struct ManualClock {
    /// Nanoseconds since the clock's start.
    pub elapsed: u64,
}

impl ManualClock {
    /// Create a manual clock starting at zero.
    pub fn new() -> (c: ManualClock)
        ensures
            c.elapsed == 0,
    {
        ManualClock { elapsed: 0 }
    }

    /// Advance the clock by `delta` nanoseconds.
    pub fn advance(&mut self, delta: u64)
        requires
            old(self).elapsed + delta <= u64::MAX,
        ensures
            final(self).elapsed == old(self).elapsed + delta,
    {
        self.elapsed = self.elapsed + delta;
    }
}

impl Clock for ManualClock {
    /// Exactly the nanoseconds the clock has been advanced by.
    open spec fn reads(&self, t: u64) -> bool {
        t == self.elapsed
    }

    fn now(&self) -> (t: u64)
        ensures
            t == self.elapsed,
    {
        self.elapsed
    }
}

} // verus!
