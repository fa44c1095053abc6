use std::time::Duration;

use vstd::prelude::*;

use crate::timestamp::{since_unix_epoch, system_time_now};

verus! {

/// The fractional part of `d` in nanoseconds, from
/// `std::time::Duration::subsec_nanos`, which documents it as always below
/// one billion.
#[verifier::external_body]
fn subsec_nanos(d: Duration) -> (n: u32)
    ensures
        n < 1_000_000_000,
{
    d.subsec_nanos()
}

/// Nanoseconds within the current wall-clock second (0 if the clock reads
/// before the Unix epoch); the source of backoff jitter.
fn jitter_source() -> (n: u32)
    ensures
        n < 1_000_000_000,
{
    match since_unix_epoch(system_time_now()) {
        Ok(d) => subsec_nanos(d),
        Err(_) => 0,
    }
}

/// Configuration for bounded retries with equal-jitter exponential backoff.
/// Delays are in nanoseconds.
#[derive(Debug, Clone, Copy, PartialEq, Eq, Structural)]
pub struct RetryPolicy {
    /// Maximum number of attempts (at least one attempt is always made).
    pub max_attempts: u32,
    /// Base backoff applied after the first failure (nanoseconds).
    pub base_delay: u64,
    /// Upper bound on any single backoff (nanoseconds).
    pub max_delay: u64,
}

impl Default for RetryPolicy {
    fn default() -> (p: RetryPolicy)
        ensures
            p.max_attempts == 3,
            p.base_delay == 20_000_000,
            p.max_delay == 1_000_000_000,
    {
        RetryPolicy { max_attempts: 3, base_delay: 20_000_000, max_delay: 1_000_000_000 }
    }
}

/// `2^k` for `k <= 16`.
pub open spec fn pow2(k: nat) -> nat
    decreases k,
{
    if k == 0 {
        1
    } else {
        2 * pow2((k - 1) as nat)
    }
}

impl RetryPolicy {
    /// The exponential delay for zero-based `attempt`: the base doubled per
    /// attempt (at most 16 doublings), saturating, then capped at `max_delay`.
    pub open spec fn capped_delay(self, attempt: u32) -> nat {
        let doublings: nat = if attempt > 16 { 16 } else { attempt as nat };
        let exp: nat = (self.base_delay * pow2(doublings)) as nat;
        let saturated = if exp > u64::MAX { u64::MAX as nat } else { exp };
        if saturated > self.max_delay { self.max_delay as nat } else { saturated }
    }

    /// Equal-jitter backoff: half the capped delay, plus `jitter` taken
    /// modulo one more than that half.
    pub open spec fn backoff_with(self, attempt: u32, jitter: nat) -> nat {
        let half = self.capped_delay(attempt) / 2;
        if half == 0 {
            0
        } else {
            half + jitter % (half + 1)
        }
    }

    /// Backoff for a given zero-based attempt index, with the jitter given.
    pub fn backoff_jittered(&self, attempt: u32, jitter: u32) -> (d: u64)
        ensures
            d == self.backoff_with(attempt, jitter as nat),
            self.capped_delay(attempt) / 2 <= d <= self.capped_delay(attempt),
    {
        let doublings: u32 = if attempt > 16 { 16 } else { attempt };
        let factor: u64 = 1u64 << doublings;
        proof {
            lemma_shift_is_pow2(doublings);
        }
        let exp: u64 = if self.base_delay > 0 && factor > u64::MAX / self.base_delay {
            proof {
                lemma_product_exceeds(self.base_delay, factor);
            }
            u64::MAX
        } else {
            proof {
                lemma_product_fits(self.base_delay, factor);
            }
            self.base_delay * factor
        };
        let capped = if exp > self.max_delay { self.max_delay } else { exp };
        let half = capped / 2;
        if half == 0 {
            0
        } else {
            half + (jitter as u64) % (half + 1)
        }
    }

    /// Backoff for a given zero-based attempt index using equal jitter; the
    /// jitter comes from the wall clock's sub-second nanoseconds.
    pub fn backoff(&self, attempt: u32) -> (d: u64)
        ensures
            exists|jitter: nat| jitter < 1_000_000_000 && d == #[trigger] self.backoff_with(attempt, jitter),
            self.capped_delay(attempt) / 2 <= d <= self.capped_delay(attempt),
    {
        let jitter = jitter_source();
        let d = self.backoff_jittered(attempt, jitter);
        assert(d == self.backoff_with(attempt, jitter as nat));
        d
    }

    /// Whether the retry loop tries again after failed attempt number
    /// `attempt` (counting from one): not once the attempts are used up or
    /// the error is not worth retrying.
    pub open spec fn retries(self, attempt: u32, retryable: bool) -> bool {
        attempt < self.max_attempts && retryable
    }

    /// Decide, after failed attempt number `attempt` (counting from one),
    /// whether to try again and after what delay.
    pub fn retry_delay(&self, attempt: u32, retryable: bool) -> (r: Option<u64>)
        requires
            attempt >= 1,
        ensures
            r is Some <==> self.retries(attempt, retryable),
            r matches Some(d) ==> exists|jitter: nat|
                jitter < 1_000_000_000 && d == #[trigger] self.backoff_with((attempt - 1) as u32, jitter),
    {
        if attempt >= self.max_attempts || !retryable {
            None
        } else {
            Some(self.backoff(attempt - 1))
        }
    }
}

/// Shifting one left by `k` bits gives `2^k`.
proof fn lemma_shift_is_pow2(k: u32)
    requires
        k <= 16,
    ensures
        (1u64 << k) as nat == pow2(k as nat),
        pow2(k as nat) <= 65536,
{
    assert(pow2(0) == 1);
    assert(pow2(1) == 2);
    assert(pow2(2) == 4);
    assert(pow2(3) == 8);
    assert(pow2(4) == 16);
    assert(pow2(5) == 32);
    assert(pow2(6) == 64);
    assert(pow2(7) == 128);
    assert(pow2(8) == 256);
    assert(pow2(9) == 512);
    assert(pow2(10) == 1024);
    assert(pow2(11) == 2048);
    assert(pow2(12) == 4096);
    assert(pow2(13) == 8192);
    assert(pow2(14) == 16384);
    assert(pow2(15) == 32768);
    assert(pow2(16) == 65536);
    assert(1u64 << 0u32 == 1) by (bit_vector);
    assert(1u64 << 1u32 == 2) by (bit_vector);
    assert(1u64 << 2u32 == 4) by (bit_vector);
    assert(1u64 << 3u32 == 8) by (bit_vector);
    assert(1u64 << 4u32 == 16) by (bit_vector);
    assert(1u64 << 5u32 == 32) by (bit_vector);
    assert(1u64 << 6u32 == 64) by (bit_vector);
    assert(1u64 << 7u32 == 128) by (bit_vector);
    assert(1u64 << 8u32 == 256) by (bit_vector);
    assert(1u64 << 9u32 == 512) by (bit_vector);
    assert(1u64 << 10u32 == 1024) by (bit_vector);
    assert(1u64 << 11u32 == 2048) by (bit_vector);
    assert(1u64 << 12u32 == 4096) by (bit_vector);
    assert(1u64 << 13u32 == 8192) by (bit_vector);
    assert(1u64 << 14u32 == 16384) by (bit_vector);
    assert(1u64 << 15u32 == 32768) by (bit_vector);
    assert(1u64 << 16u32 == 65536) by (bit_vector);
}

/// When `f` exceeds `u64::MAX / b`, the product overflows.
proof fn lemma_product_exceeds(b: u64, f: u64)
    requires
        b > 0,
        f > u64::MAX / b,
    ensures
        b * f > u64::MAX,
{
    assert(b * f > u64::MAX) by (nonlinear_arith)
        requires
            b > 0,
            f > u64::MAX / b,
    ;
}

/// When `f` is at most `u64::MAX / b` (or `b` is zero), the product fits.
proof fn lemma_product_fits(b: u64, f: u64)
    requires
        b == 0 || f <= u64::MAX / b,
    ensures
        b * f <= u64::MAX,
{
    if b > 0 {
        assert(b * f <= u64::MAX) by (nonlinear_arith)
            requires
                b > 0,
                f <= u64::MAX / b,
        ;
    }
}

/// A retry loop driven by `retry_delay` makes at most `max(max_attempts, 1)`
/// attempts: if the failures of attempts 1..=k were each followed by a
/// further try (`retryable[j]` being whether failure j+1 was worth
/// retrying), then the k + 1 attempts made fit in the policy.
pub proof fn lemma_attempts_bounded(p: RetryPolicy, retryable: Seq<bool>)
    requires
        forall|j: int| 0 <= j < retryable.len() ==> p.retries((j + 1) as u32, #[trigger] retryable[j]),
        retryable.len() < u32::MAX,
    ensures
        retryable.len() + 1 <= if p.max_attempts == 0 { 1 } else { p.max_attempts as int },
        forall|j: int| 0 <= j < retryable.len() ==> #[trigger] retryable[j],
{
    if retryable.len() > 0 {
        let last = retryable.len() - 1;
        assert(p.retries((last + 1) as u32, retryable[last]));
    }
}

/// Exponential backoff: before jitter, the first delay is the base delay
/// (at most `max_delay`), each of the next sixteen doubles the previous one
/// up to `max_delay`, and from the sixteenth attempt on the delay no longer
/// grows.
pub proof fn lemma_backoff_doubles(p: RetryPolicy, attempt: u32)
    ensures
        p.capped_delay(0) == if p.base_delay > p.max_delay { p.max_delay as nat } else { p.base_delay as nat },
        attempt < 16 ==> p.capped_delay((attempt + 1) as u32) == if 2 * p.capped_delay(attempt) > p.max_delay {
            p.max_delay as nat
        } else {
            2 * p.capped_delay(attempt)
        },
        attempt >= 16 ==> p.capped_delay(attempt) == p.capped_delay(16),
{
    assert(pow2(0) == 1);
    assert(p.base_delay * pow2(0) == p.base_delay);
    if attempt < 16 {
        let a = attempt as nat;
        assert(pow2(a + 1) == 2 * pow2(a));
        let e = p.base_delay * pow2(a);
        assert(p.base_delay * pow2(a + 1) == 2 * e) by (nonlinear_arith)
            requires
                pow2(a + 1) == 2 * pow2(a),
                e == p.base_delay * pow2(a),
        ;
        assert(e >= 0) by (nonlinear_arith)
            requires
                e == p.base_delay * pow2(a),
                pow2(a) >= 0,
        ;
    }
}

} // verus!
