use scanengine::{
    BreakerState, Bulkhead, BulkheadFull, CircuitBreaker, Clock, ManualClock, RateLimited,
    RateLimiter, RejectedByBreaker, SystemClock,
};

const SECOND: u64 = 1_000_000_000;
const MILLISECOND: u64 = 1_000_000;

#[test]
fn opens_after_threshold_and_recovers() {
    let clock = ManualClock::new();
    let mut cb = CircuitBreaker::with_clock(2, SECOND, clock);
    assert_eq!(cb.state(), BreakerState::Closed);
    cb.on_failure();
    assert!(cb.acquire().is_ok());
    cb.on_failure();
    assert_eq!(cb.state(), BreakerState::Open);
    assert_eq!(cb.acquire(), Err(RejectedByBreaker));

    cb.clock_mut().advance(SECOND);
    assert_eq!(cb.state(), BreakerState::HalfOpen);
    cb.on_success();
    assert_eq!(cb.state(), BreakerState::Closed);
}

#[test]
fn half_open_failure_reopens() {
    let clock = ManualClock::new();
    let mut cb = CircuitBreaker::with_clock(1, SECOND, clock);
    cb.on_failure();
    assert_eq!(cb.state(), BreakerState::Open);
    cb.clock_mut().advance(SECOND);
    assert_eq!(cb.state(), BreakerState::HalfOpen);
    cb.on_failure();
    assert_eq!(cb.state(), BreakerState::Open);
}

#[test]
fn admits_up_to_capacity_then_rejects() {
    let bh = Bulkhead::new(2);
    let g1 = bh.try_acquire().unwrap();
    let _g2 = bh.try_acquire().unwrap();
    assert_eq!(bh.available(), 0);
    assert_eq!(bh.try_acquire().err(), Some(BulkheadFull));
    drop(g1);
    assert!(bh.try_acquire().is_ok());
}

#[test]
fn manual_clock_advances() {
    let mut c = ManualClock::new();
    assert_eq!(c.now(), 0);
    c.advance(50 * MILLISECOND);
    assert_eq!(c.now(), 50 * MILLISECOND);
}

#[test]
fn system_clock_is_monotonic() {
    let c = SystemClock::new();
    let a = c.now();
    let b = c.now();
    assert!(b >= a);
}

#[test]
fn denies_when_bucket_empty_and_refills_over_time() {
    let clock = ManualClock::new();
    let mut rl = RateLimiter::with_clock(2, 1, clock);
    assert!(rl.try_acquire().is_ok());
    assert!(rl.try_acquire().is_ok());
    assert_eq!(rl.try_acquire(), Err(RateLimited));

    rl.clock_mut().advance(SECOND);
    assert!(rl.try_acquire().is_ok());
    assert_eq!(rl.try_acquire(), Err(RateLimited));
}
