use vstd::prelude::*;

use crate::clock::{Clock, SystemClock};
use crate::text::push_str;

verus! {

/// Returned when the breaker is open and rejects a call fast.
#[derive(Debug, Clone, Copy, PartialEq, Eq, Structural)]
pub struct RejectedByBreaker;

impl RejectedByBreaker {
    /// The human-readable description of the error.
    pub fn to_string(&self) -> (s: String)
        ensures
            s@ == "circuit breaker is open"@,
    {
        let mut s = String::new();
        push_str(&mut s, "circuit breaker is open");
        assert(s@ =~= "circuit breaker is open"@);
        s
    }
}

/// Observable breaker state.
#[derive(Debug, Clone, Copy, PartialEq, Eq, Structural)]
pub enum BreakerState {
    /// Calls flow normally.
    Closed,
    /// Calls are rejected until the cooldown elapses.
    Open,
    /// A single trial call is allowed to probe recovery.
    HalfOpen,
}

impl BreakerState {
    /// Stable label for metrics.
    pub fn as_str(self) -> (s: &'static str)
        ensures
            s@ == match self {
                BreakerState::Closed => "closed"@,
                BreakerState::Open => "open"@,
                BreakerState::HalfOpen => "half_open"@,
            },
    {
        match self {
            BreakerState::Closed => "closed",
            BreakerState::Open => "open",
            BreakerState::HalfOpen => "half_open",
        }
    }
}

/// The abstract state of a circuit breaker.
pub struct Breaker {
    /// Current state.
    pub state: BreakerState,
    /// Failures recorded since the last success.
    pub consecutive_failures: u32,
    /// Clock reading (nanoseconds) at which the breaker last opened.
    pub opened_at: u64,
    /// Consecutive failures that open the breaker (at least one).
    pub failure_threshold: u32,
    /// Nanoseconds the breaker stays open before probing recovery.
    pub cooldown: u64,
    /// Whether the half-open trial call has been admitted and not yet
    /// reported.
    pub probe_in_flight: bool,
}

impl Breaker {
    /// The breaker as seen at clock reading `now`: an open breaker whose
    /// cooldown has elapsed turns half-open, with no trial call admitted yet.
    pub open spec fn observed(self, now: u64) -> Breaker {
        if self.state == BreakerState::Open && now.saturating_sub(self.opened_at) >= self.cooldown {
            Breaker { state: BreakerState::HalfOpen, probe_in_flight: false, ..self }
        } else {
            self
        }
    }

    /// Whether a call is admitted at clock reading `now`: always while
    /// closed, never while open, and while half-open only the single trial
    /// call.
    pub open spec fn admits(self, now: u64) -> bool {
        let b = self.observed(now);
        b.state == BreakerState::Closed || (b.state == BreakerState::HalfOpen && !b.probe_in_flight)
    }

    /// The breaker after asking to make a call at clock reading `now`: an
    /// admitted half-open call becomes the trial call in flight.
    pub open spec fn after_acquire(self, now: u64) -> Breaker {
        let b = self.observed(now);
        if b.state == BreakerState::HalfOpen && !b.probe_in_flight {
            Breaker { probe_in_flight: true, ..b }
        } else {
            b
        }
    }

    /// The breaker after a successful call: closed, no failures counted, no
    /// trial call in flight.
    pub open spec fn after_success(self) -> Breaker {
        Breaker { state: BreakerState::Closed, consecutive_failures: 0, probe_in_flight: false, ..self }
    }

    /// The breaker after a failed call at clock reading `now`: the failure
    /// is counted, and the breaker opens (from `now`) at the threshold or
    /// when the failed call was the half-open probe.
    pub open spec fn after_failure(self, now: u64) -> Breaker {
        let failures = self.consecutive_failures.saturating_add(1);
        if failures >= self.failure_threshold || self.state == BreakerState::HalfOpen {
            Breaker {
                state: BreakerState::Open,
                consecutive_failures: failures,
                opened_at: now,
                probe_in_flight: false,
                ..self
            }
        } else {
            Breaker { consecutive_failures: failures, ..self }
        }
    }

    /// The breaker after failures at the clock readings `times`, in order.
    pub open spec fn after_failures(self, times: Seq<u64>) -> Breaker
        decreases times.len(),
    {
        if times.len() == 0 {
            self
        } else {
            self.after_failures(times.drop_last()).after_failure(times.last())
        }
    }
}

/// A circuit breaker that opens after `failure_threshold` consecutive failures
/// and probes recovery after `cooldown` nanoseconds.
pub struct CircuitBreaker<C: Clock = SystemClock> {
    failure_threshold: u32,
    cooldown: u64,
    clock: C,
    state: BreakerState,
    consecutive_failures: u32,
    opened_at: u64,
    probe_in_flight: bool,
}

impl<C: Clock> View for CircuitBreaker<C> {
    type V = Breaker;

    closed spec fn view(&self) -> Breaker {
        Breaker {
            state: self.state,
            consecutive_failures: self.consecutive_failures,
            opened_at: self.opened_at,
            failure_threshold: self.failure_threshold,
            cooldown: self.cooldown,
            probe_in_flight: self.probe_in_flight,
        }
    }
}

impl CircuitBreaker<SystemClock> {
    /// Create a breaker backed by the system clock.
    pub fn new(failure_threshold: u32, cooldown: u64) -> (cb: CircuitBreaker<SystemClock>)
        ensures
            cb@.state == BreakerState::Closed,
            cb@.consecutive_failures == 0,
            cb@.opened_at == 0,
            cb@.failure_threshold == if failure_threshold == 0 { 1 } else { failure_threshold },
            cb@.cooldown == cooldown,
            !cb@.probe_in_flight,
    {
        Self::with_clock(failure_threshold, cooldown, SystemClock::new())
    }
}

impl<C: Clock> CircuitBreaker<C> {
    /// Create a breaker with an injected clock (threshold at least one).
    pub fn with_clock(failure_threshold: u32, cooldown: u64, clock: C) -> (cb: CircuitBreaker<C>)
        ensures
            cb@.state == BreakerState::Closed,
            cb@.consecutive_failures == 0,
            cb@.opened_at == 0,
            cb@.failure_threshold == if failure_threshold == 0 { 1 } else { failure_threshold },
            cb@.cooldown == cooldown,
            !cb@.probe_in_flight,
            cb.spec_clock() == clock,
    {
        CircuitBreaker {
            failure_threshold: if failure_threshold == 0 { 1 } else { failure_threshold },
            cooldown,
            clock,
            state: BreakerState::Closed,
            consecutive_failures: 0,
            opened_at: 0,
            probe_in_flight: false,
        }
    }

    /// The clock the breaker reads.
    pub closed spec fn spec_clock(&self) -> C {
        self.clock
    }

    /// The breaker's clock.
    pub fn clock(&self) -> (c: &C)
        ensures
            *c == self.spec_clock(),
    {
        &self.clock
    }

    /// The breaker's clock, for advancing a manual clock; the breaker's
    /// state is left as it is.
    pub fn clock_mut(&mut self) -> (c: &mut C)
        ensures
            *c == old(self).spec_clock(),
            final(self)@ == old(self)@,
            final(self).spec_clock() == *final(c),
    {
        &mut self.clock
    }

    /// Current state at clock reading `now` (transitioning Open -> HalfOpen
    /// when the cooldown has elapsed).
    pub fn state_at(&mut self, now: u64) -> (s: BreakerState)
        ensures
            final(self)@ == old(self)@.observed(now),
            s == final(self)@.state,
            final(self).spec_clock() == old(self).spec_clock(),
    {
        if self.state == BreakerState::Open && now.saturating_sub(self.opened_at) >= self.cooldown {
            self.state = BreakerState::HalfOpen;
            self.probe_in_flight = false;
        }
        self.state
    }

    /// Current state, at a reading of the breaker's clock (transitioning
    /// Open -> HalfOpen when the cooldown has elapsed).
    pub fn state(&mut self) -> (s: BreakerState)
        ensures
            exists|now: u64|
                old(self).spec_clock().reads(now) && #[trigger] old(self)@.observed(now) == final(self)@,
            s == final(self)@.state,
            final(self).spec_clock() == old(self).spec_clock(),
    {
        let now = self.clock.now();
        let s = self.state_at(now);
        assert(old(self).spec_clock().reads(now) && old(self)@.observed(now) == self@);
        s
    }

    /// Acquire permission to make a call at clock reading `now`: refused
    /// while the breaker is open, and while half-open once the single trial
    /// call has been admitted.
    pub fn acquire_at(&mut self, now: u64) -> (r: Result<(), RejectedByBreaker>)
        ensures
            final(self)@ == old(self)@.after_acquire(now),
            r is Ok == old(self)@.admits(now),
            final(self).spec_clock() == old(self).spec_clock(),
    {
        match self.state_at(now) {
            BreakerState::Open => Err(RejectedByBreaker),
            BreakerState::Closed => Ok(()),
            BreakerState::HalfOpen => {
                if self.probe_in_flight {
                    Err(RejectedByBreaker)
                } else {
                    self.probe_in_flight = true;
                    Ok(())
                }
            },
        }
    }

    /// Acquire permission to make a call, at a reading of the breaker's
    /// clock; refused while open, and while half-open once the trial call
    /// has been admitted.
    pub fn acquire(&mut self) -> (r: Result<(), RejectedByBreaker>)
        ensures
            exists|now: u64|
                old(self).spec_clock().reads(now) && #[trigger] old(self)@.after_acquire(now) == final(self)@
                    && (r is Ok == old(self)@.admits(now)),
            final(self).spec_clock() == old(self).spec_clock(),
    {
        let now = self.clock.now();
        let r = self.acquire_at(now);
        assert(old(self).spec_clock().reads(now) && old(self)@.after_acquire(now) == self@ && (r is Ok
            == old(self)@.admits(now)));
        r
    }

    /// Record a successful call, closing the breaker.
    pub fn on_success(&mut self)
        ensures
            final(self)@ == old(self)@.after_success(),
            final(self).spec_clock() == old(self).spec_clock(),
            final(self)@.state == BreakerState::Closed,
            final(self)@.consecutive_failures == 0,
    {
        self.consecutive_failures = 0;
        self.state = BreakerState::Closed;
        self.probe_in_flight = false;
    }

    /// Record a failed call at clock reading `now`, opening the breaker at
    /// the threshold.
    pub fn on_failure_at(&mut self, now: u64)
        ensures
            final(self)@ == old(self)@.after_failure(now),
            final(self).spec_clock() == old(self).spec_clock(),
    {
        self.consecutive_failures = self.consecutive_failures.saturating_add(1);
        if self.consecutive_failures >= self.failure_threshold || self.state == BreakerState::HalfOpen {
            self.state = BreakerState::Open;
            self.opened_at = now;
            self.probe_in_flight = false;
        }
    }

    /// Record a failed call at a reading of the breaker's clock, opening the
    /// breaker at the threshold or when the failed call was the half-open
    /// trial.
    pub fn on_failure(&mut self)
        ensures
            exists|now: u64|
                old(self).spec_clock().reads(now) && #[trigger] old(self)@.after_failure(now) == final(self)@,
            final(self).spec_clock() == old(self).spec_clock(),
    {
        let now = self.clock.now();
        self.on_failure_at(now);
        assert(old(self).spec_clock().reads(now) && old(self)@.after_failure(now) == self@);
    }
}

/// From a closed breaker, consecutive failures are counted one by one, and
/// the breaker opens exactly when the count reaches the threshold.
pub proof fn lemma_opens_at_threshold(b: Breaker, times: Seq<u64>)
    requires
        b.state == BreakerState::Closed,
        b.consecutive_failures + times.len() <= u32::MAX,
    ensures
        b.after_failures(times).consecutive_failures == b.consecutive_failures + times.len(),
        b.after_failures(times).state == if b.consecutive_failures + times.len() >= b.failure_threshold
            && times.len() > 0 {
            BreakerState::Open
        } else {
            BreakerState::Closed
        },
        b.after_failures(times).failure_threshold == b.failure_threshold,
        b.after_failures(times).cooldown == b.cooldown,
    decreases times.len(),
{
    if times.len() > 0 {
        lemma_opens_at_threshold(b, times.drop_last());
    }
}

/// An open breaker rejects every call until the cooldown has elapsed since
/// it opened, and admits the call (half-open) from then on.
pub proof fn lemma_open_until_cooldown(b: Breaker, now: u64)
    requires
        b.state == BreakerState::Open,
    ensures
        b.admits(now) <==> now.saturating_sub(b.opened_at) >= b.cooldown,
        b.admits(now) ==> b.observed(now).state == BreakerState::HalfOpen,
{
}

/// The half-open probe decides recovery: its success closes the breaker,
/// its failure opens it again for a full cooldown from the failure.
pub proof fn lemma_half_open_probe(b: Breaker, now: u64)
    requires
        b.state == BreakerState::HalfOpen,
    ensures
        b.after_success().state == BreakerState::Closed,
        b.after_success().consecutive_failures == 0,
        b.after_failure(now).state == BreakerState::Open,
        b.after_failure(now).opened_at == now,
        !b.after_failure(now).admits(now) <==> b.cooldown > 0,
{
}

/// While half-open only a single trial call is admitted: once it has been,
/// every further call is refused until a success or a failure is recorded.
pub proof fn lemma_single_trial(b: Breaker, now: u64, later: u64)
    requires
        b.admits(now),
        b.observed(now).state == BreakerState::HalfOpen,
    ensures
        b.after_acquire(now).state == BreakerState::HalfOpen,
        b.after_acquire(now).probe_in_flight,
        !b.after_acquire(now).admits(later),
        b.after_acquire(now).after_acquire(later) == b.after_acquire(now),
{
}

/// A success resets the breaker from any state, closed included: it is
/// closed with no failures counted, so it opens again only after
/// `failure_threshold` further failures with no success in between.
pub proof fn lemma_success_resets(b: Breaker, times: Seq<u64>)
    ensures
        b.after_success().state == BreakerState::Closed,
        b.after_success().consecutive_failures == 0,
        times.len() < b.failure_threshold ==> b.after_success().after_failures(times).state
            == BreakerState::Closed,
        times.len() > 0 && times.len() >= b.failure_threshold && times.len() <= u32::MAX
            ==> b.after_success().after_failures(times).state == BreakerState::Open,
{
    if times.len() <= u32::MAX {
        lemma_opens_at_threshold(b.after_success(), times);
    }
}

} // verus!
