use std::sync::Arc;

use tokio::sync::{OwnedSemaphorePermit, Semaphore, TryAcquireError};
use vstd::prelude::*;

use crate::text::push_str;

verus! {

/// `tokio::sync::Semaphore`, held behind an `Arc` and opaque here.
#[verifier::external_type_specification]
#[verifier::external_body]
pub struct ExSemaphore(Semaphore);

/// `tokio::sync::OwnedSemaphorePermit`: a permit that returns to its
/// semaphore when dropped.
#[verifier::external_type_specification]
#[verifier::external_body]
pub struct ExOwnedSemaphorePermit(OwnedSemaphorePermit);

/// `tokio::sync::TryAcquireError`.
#[verifier::external_type_specification]
#[verifier::external_body]
pub struct ExTryAcquireError(TryAcquireError);

/// The number of permits a semaphore was created with.
pub uninterp spec fn semaphore_limit(sem: Semaphore) -> nat;

/// Largest permit count `tokio::sync::Semaphore::new` accepts
/// (`Semaphore::MAX_PERMITS`, `usize::MAX >> 3`).
pub open spec fn max_permits() -> nat {
    (usize::MAX as nat) / 8
}

/// A semaphore holding `permits` permits, from `tokio::sync::Semaphore::new`,
/// shared through an `Arc`. Tokio panics above `MAX_PERMITS`, hence the
/// requirement.
#[verifier::external_body]
fn semaphore_new(permits: usize) -> (s: Arc<Semaphore>)
    requires
        permits <= max_permits(),
    ensures
        semaphore_limit(*s) == permits,
{
    Arc::new(Semaphore::new(permits))
}

/// Another handle on the same semaphore (`Arc::clone`).
#[verifier::external_body]
fn share(sem: &Arc<Semaphore>) -> (r: Arc<Semaphore>)
    ensures
        r == *sem,
{
    sem.clone()
}

/// Take one permit without waiting, from
/// `tokio::sync::Semaphore::try_acquire_owned`.
///
/// Nothing is promised of the outcome: it depends on how many permits
/// other holders of the semaphore have taken.
#[verifier::external_body]
fn semaphore_try_acquire_owned(sem: Arc<Semaphore>) -> Result<OwnedSemaphorePermit, TryAcquireError> {
    sem.try_acquire_owned()
}

/// Permits currently free, from `tokio::sync::Semaphore::available_permits`.
///
/// Nothing is promised of the number: it depends on how many permits
/// other holders of the semaphore have taken.
#[verifier::external_body]
fn semaphore_available(sem: &Semaphore) -> usize {
    sem.available_permits()
}

/// Returned when the bulkhead is at capacity and admits no more work.
#[derive(Debug, Clone, Copy, PartialEq, Eq, Structural)]
pub struct BulkheadFull;

impl BulkheadFull {
    /// The human-readable description of the error.
    pub fn to_string(&self) -> (s: String)
        ensures
            s@ == "bulkhead is full"@,
    {
        let mut s = String::new();
        push_str(&mut s, "bulkhead is full");
        assert(s@ =~= "bulkhead is full"@);
        s
    }
}

/// A concurrency limiter that bounds the number of simultaneous in-flight
/// operations, isolating a slow dependency from exhausting the runtime.
pub struct Bulkhead {
    sem: Arc<Semaphore>,
}

/// A bulkhead slot, released when the guard is dropped.
pub struct BulkheadGuard(pub OwnedSemaphorePermit);

impl Bulkhead {
    /// The number of operations the bulkhead admits at once.
    pub closed spec fn capacity(&self) -> nat {
        semaphore_limit(*self.sem)
    }

    /// Create a bulkhead admitting at most `max_concurrent` operations (at
    /// least one).
    pub fn new(max_concurrent: usize) -> (b: Bulkhead)
        requires
            max_concurrent <= max_permits(),
        ensures
            b.capacity() == if max_concurrent == 0 { 1 } else { max_concurrent as nat },
    {
        let permits = if max_concurrent == 0 { 1 } else { max_concurrent };
        Bulkhead { sem: semaphore_new(permits) }
    }

    /// Another handle on the same bulkhead: both share its slots.
    pub fn clone(&self) -> (b: Bulkhead)
        ensures
            b.capacity() == self.capacity(),
    {
        Bulkhead { sem: share(&self.sem) }
    }

    /// Try to acquire a slot without waiting; `BulkheadFull` when no slot is
    /// free.
    pub fn try_acquire(&self) -> (r: Result<BulkheadGuard, BulkheadFull>) {
        match semaphore_try_acquire_owned(share(&self.sem)) {
            Ok(permit) => Ok(BulkheadGuard(permit)),
            Err(_) => Err(BulkheadFull),
        }
    }

    /// Number of currently available slots.
    pub fn available(&self) -> (n: usize) {
        semaphore_available(&self.sem)
    }
}

} // verus!
