use vstd::prelude::*;

use crate::clock::{Clock, SystemClock};
use crate::text::push_str;

verus! {

/// Nanoseconds per second: one token is stored as this many units, so a
/// refill of `r` tokens per second adds exactly `r` units per nanosecond.
pub const UNITS_PER_TOKEN: u64 = 1_000_000_000;

/// Returned when a request is denied because the token bucket is empty.
#[derive(Debug, Clone, Copy, PartialEq, Eq, Structural)]
pub struct RateLimited;

impl RateLimited {
    /// The human-readable description of the error.
    pub fn to_string(&self) -> (s: String)
        ensures
            s@ == "rate limit exceeded"@,
    {
        let mut s = String::new();
        push_str(&mut s, "rate limit exceeded");
        assert(s@ =~= "rate limit exceeded"@);
        s
    }
}

/// The abstract state of a token bucket.
pub struct TokenBucket {
    /// Burst capacity in tokens.
    pub capacity: nat,
    /// Sustained refill rate in tokens per second.
    pub refill_per_sec: nat,
    /// Tokens currently available, in units of 1e-9 token.
    pub units: nat,
    /// Clock reading (nanoseconds) of the last refill.
    pub last_refill: nat,
}

impl TokenBucket {
    /// Capacity in units.
    pub open spec fn capacity_units(self) -> nat {
        self.capacity * UNITS_PER_TOKEN as nat
    }

    /// The bucket is never over capacity and admits at least one token.
    pub open spec fn sound(self) -> bool {
        self.capacity >= 1 && self.units <= self.capacity_units()
    }

    /// The bucket after refilling up to clock reading `now`: tokens accrue at
    /// the refill rate since the last refill, up to capacity. A reading at or
    /// before the last refill changes nothing.
    pub open spec fn refilled(self, now: nat) -> TokenBucket {
        if now > self.last_refill {
            let gained = ((now - self.last_refill) * self.refill_per_sec) as nat;
            TokenBucket {
                units: if self.units + gained > self.capacity_units() {
                    self.capacity_units()
                } else {
                    self.units + gained
                },
                last_refill: now,
                ..self
            }
        } else {
            self
        }
    }

    /// Outcome of asking for `n` tokens at clock reading `now`: the new
    /// bucket, and whether the tokens were granted.
    pub open spec fn acquire(self, now: nat, n: nat) -> (TokenBucket, bool) {
        let r = self.refilled(now);
        if r.units >= n * UNITS_PER_TOKEN as nat {
            (TokenBucket { units: (r.units - n * UNITS_PER_TOKEN as nat) as nat, ..r }, true)
        } else {
            (r, false)
        }
    }
}

/// The product of two 64-bit numbers fits in 128 bits.
proof fn lemma_mul_fits_u128(a: u64, b: u64)
    ensures
        (a as int) * (b as int) <= u128::MAX,
{
    assert((a as int) * (b as int) <= (u64::MAX as int) * (u64::MAX as int)) by (nonlinear_arith)
        requires
            0 <= a <= u64::MAX,
            0 <= b <= u64::MAX,
    ;
}

/// A token-bucket rate limiter, generic over a [`Clock`] for deterministic
/// tests.
pub struct RateLimiter<C: Clock = SystemClock> {
    capacity: u64,
    refill_per_sec: u64,
    clock: C,
    units: u128,
    last_refill: u64,
}

impl<C: Clock> View for RateLimiter<C> {
    type V = TokenBucket;

    closed spec fn view(&self) -> TokenBucket {
        TokenBucket {
            capacity: self.capacity as nat,
            refill_per_sec: self.refill_per_sec as nat,
            units: self.units as nat,
            last_refill: self.last_refill as nat,
        }
    }
}

impl RateLimiter<SystemClock> {
    /// Create a limiter allowing `refill_per_sec` sustained requests with a
    /// burst of `capacity` (at least one), backed by the system clock.
    pub fn new(capacity: u64, refill_per_sec: u64) -> (rl: RateLimiter<SystemClock>)
        ensures
            rl@.sound(),
            rl@.capacity == if capacity == 0 { 1 } else { capacity as nat },
            rl@.refill_per_sec == refill_per_sec,
            rl@.units == rl@.capacity_units(),
    {
        Self::with_clock(capacity, refill_per_sec, SystemClock::new())
    }
}

impl<C: Clock> RateLimiter<C> {
    /// Create a limiter with an injected clock; the bucket starts full and
    /// its last refill is the clock's current reading.
    pub fn with_clock(capacity: u64, refill_per_sec: u64, clock: C) -> (rl: RateLimiter<C>)
        ensures
            rl@.sound(),
            rl@.capacity == if capacity == 0 { 1 } else { capacity as nat },
            rl@.refill_per_sec == refill_per_sec,
            rl@.units == rl@.capacity_units(),
            rl.spec_clock() == clock,
            clock.reads(rl@.last_refill as u64),
            rl@.last_refill <= u64::MAX,
    {
        let now = clock.now();
        let capacity = if capacity == 0 { 1 } else { capacity };
        proof {
            lemma_mul_fits_u128(capacity, UNITS_PER_TOKEN);
        }
        let units = (capacity as u128) * (UNITS_PER_TOKEN as u128);
        RateLimiter { capacity, refill_per_sec, clock, units, last_refill: now }
    }

    /// The clock the limiter reads.
    pub closed spec fn spec_clock(&self) -> C {
        self.clock
    }

    /// The limiter's clock.
    pub fn clock(&self) -> (c: &C)
        ensures
            *c == self.spec_clock(),
    {
        &self.clock
    }

    /// The limiter's clock, for advancing a manual clock; the bucket is
    /// left as it is.
    pub fn clock_mut(&mut self) -> (c: &mut C)
        ensures
            *c == old(self).spec_clock(),
            final(self)@ == old(self)@,
            final(self).spec_clock() == *final(c),
    {
        &mut self.clock
    }

    /// Refill up to clock reading `now`.
    fn refill(&mut self, now: u64)
        requires
            old(self)@.sound(),
        ensures
            final(self)@ == old(self)@.refilled(now as nat),
            final(self)@.sound(),
            final(self).spec_clock() == old(self).spec_clock(),
    {
        if now > self.last_refill {
            let elapsed = now - self.last_refill;
            proof {
                lemma_mul_fits_u128(elapsed, self.refill_per_sec);
                lemma_mul_fits_u128(self.capacity, UNITS_PER_TOKEN);
            }
            let gained = (elapsed as u128) * (self.refill_per_sec as u128);
            let cap_units = (self.capacity as u128) * (UNITS_PER_TOKEN as u128);
            if gained >= cap_units - self.units {
                self.units = cap_units;
            } else {
                self.units = self.units + gained;
            }
            self.last_refill = now;
        }
    }

    /// Try to acquire `n` tokens at clock reading `now`.
    pub fn try_acquire_n_at(&mut self, now: u64, n: u64) -> (r: Result<(), RateLimited>)
        requires
            old(self)@.sound(),
        ensures
            (final(self)@, r is Ok) == old(self)@.acquire(now as nat, n as nat),
            final(self)@.sound(),
            final(self).spec_clock() == old(self).spec_clock(),
    {
        self.refill(now);
        proof {
            lemma_mul_fits_u128(n, UNITS_PER_TOKEN);
        }
        let need = (n as u128) * (UNITS_PER_TOKEN as u128);
        if self.units >= need {
            self.units = self.units - need;
            Ok(())
        } else {
            Err(RateLimited)
        }
    }

    /// Try to acquire `n` tokens at once, at a reading of the limiter's
    /// clock.
    pub fn try_acquire_n(&mut self, n: u64) -> (r: Result<(), RateLimited>)
        requires
            old(self)@.sound(),
        ensures
            exists|now: u64|
                old(self).spec_clock().reads(now) && #[trigger] old(self)@.acquire(now as nat, n as nat) == (
                final(self)@,
                r is Ok,
            ),
            final(self)@.sound(),
            final(self).spec_clock() == old(self).spec_clock(),
    {
        let now = self.clock.now();
        let r = self.try_acquire_n_at(now, n);
        assert(old(self).spec_clock().reads(now) && old(self)@.acquire(now as nat, n as nat) == (self@, r is Ok));
        r
    }

    /// Try to acquire a single token at a reading of the limiter's clock.
    pub fn try_acquire(&mut self) -> (r: Result<(), RateLimited>)
        requires
            old(self)@.sound(),
        ensures
            exists|now: u64|
                old(self).spec_clock().reads(now) && #[trigger] old(self)@.acquire(now as nat, 1) == (
                final(self)@,
                r is Ok,
            ),
            final(self)@.sound(),
            final(self).spec_clock() == old(self).spec_clock(),
    {
        self.try_acquire_n(1)
    }
}

/// Replays requests `(clock reading, tokens)` against bucket `b`: the
/// final bucket and the units granted in total.
pub open spec fn replay(b: TokenBucket, reqs: Seq<(nat, nat)>) -> (TokenBucket, nat)
    decreases reqs.len(),
{
    if reqs.len() == 0 {
        (b, 0)
    } else {
        let (mid, granted) = replay(b, reqs.drop_last());
        let (now, n) = reqs.last();
        let (next, ok) = mid.acquire(now, n);
        (next, granted + if ok { n * UNITS_PER_TOKEN as nat } else { 0 })
    }
}

/// The token-bucket guarantee: over any sequence of requests, the tokens
/// granted never exceed what the bucket held at the start plus what the
/// refill rate accrues over the clock time the bucket has seen; in
/// particular at most a full burst plus rate × elapsed time.
pub proof fn lemma_admission_budget(b: TokenBucket, reqs: Seq<(nat, nat)>)
    requires
        b.sound(),
    ensures
        replay(b, reqs).0.sound(),
        replay(b, reqs).0.last_refill >= b.last_refill,
        replay(b, reqs).1 + replay(b, reqs).0.units <= b.units + b.refill_per_sec * (
        replay(b, reqs).0.last_refill - b.last_refill),
        replay(b, reqs).1 <= b.capacity_units() + b.refill_per_sec * (replay(b, reqs).0.last_refill
            - b.last_refill),
        replay(b, reqs).0.capacity == b.capacity,
        replay(b, reqs).0.refill_per_sec == b.refill_per_sec,
    decreases reqs.len(),
{
    if reqs.len() > 0 {
        lemma_admission_budget(b, reqs.drop_last());
        let (mid, granted) = replay(b, reqs.drop_last());
        let (now, n) = reqs.last();
        let r = mid.refilled(now);
        if now > mid.last_refill {
            let rate = b.refill_per_sec;
            let a = (mid.last_refill - b.last_refill) as nat;
            let d = (now - mid.last_refill) as nat;
            assert(rate * (a + d) == rate * a + rate * d) by (nonlinear_arith);
            assert((now - b.last_refill) == a + d);
            assert(((now - mid.last_refill) * rate) as nat == rate * d) by (nonlinear_arith)
                requires
                    d == now - mid.last_refill,
                    now > mid.last_refill,
            ;
        }
    }
}

/// Refilling adds exactly `refill_per_sec` units per elapsed nanosecond
/// (`refill_per_sec` tokens per second), up to capacity: after `elapsed`
/// nanoseconds the bucket holds the smaller of its capacity and what it held
/// plus `elapsed * refill_per_sec` units, and a request for `n` tokens is
/// granted exactly when that covers `n` tokens.
pub proof fn lemma_refill_rate(b: TokenBucket, elapsed: nat, n: nat)
    requires
        elapsed > 0,
    ensures
        b.refilled(b.last_refill + elapsed).units == if b.units + elapsed * b.refill_per_sec
            > b.capacity * 1_000_000_000 {
            b.capacity * 1_000_000_000
        } else {
            b.units + elapsed * b.refill_per_sec
        },
        b.refilled(b.last_refill + elapsed).last_refill == b.last_refill + elapsed,
        b.acquire(b.last_refill + elapsed, n).1 <==> n * 1_000_000_000 <= b.refilled(
            b.last_refill + elapsed,
        ).units,
        b.acquire(b.last_refill + elapsed, n).1 ==> b.acquire(b.last_refill + elapsed, n).0.units
            == b.refilled(b.last_refill + elapsed).units - n * 1_000_000_000,
{
    assert(elapsed * b.refill_per_sec == (elapsed * b.refill_per_sec) as nat);
}

} // verus!
