//! ScanEngine: an incremental complex-event-processing (CEP) scanner engine
//! that evaluates live scanner conditions over market ticks and emits
//! signals on rising edges, with the resilience primitives (rate limiter,
//! circuit breaker, bulkhead, retry policy) that guard its boundaries.

pub mod breaker;
pub mod bulkhead;
pub mod clock;
pub mod config;
pub mod engine;
pub mod error;
pub mod explain;
pub mod generator;
pub mod index;
pub mod limiter;
pub mod model;
pub mod retry;
pub mod rule;
pub mod signal;
pub mod stats;
pub mod table;
pub mod text;
pub mod tick;
pub mod timeout;
pub mod timestamp;
pub mod units;

pub use breaker::{BreakerState, CircuitBreaker, RejectedByBreaker};
pub use bulkhead::{Bulkhead, BulkheadFull, BulkheadGuard};
pub use clock::{Clock, ManualClock, SystemClock};
pub use config::ScanConfig;
pub use engine::{ScanEngine, TickOutcome};
pub use error::{CoreError, InvalidRule, InvalidTick, PortError};
pub use explain::{Explainer, HeuristicExplainer};
pub use generator::TickGenerator;
pub use index::RuleIndex;
pub use limiter::{RateLimited, RateLimiter};
pub use retry::RetryPolicy;
pub use rule::{Comparator, Condition, Field, Rule, RuleId, Scope};
pub use signal::Signal;
pub use stats::ScanStats;
pub use tick::{InstrumentState, MarketTick};
pub use timeout::TimeoutError;
pub use timestamp::Timestamp;
pub use units::{InstrumentId, Price, MAX_INSTRUMENT_LEN};
