use vstd::prelude::*;

verus! {

/// Tuning knobs for the scan engine.
#[derive(Debug, Clone, Copy, PartialEq, Eq, Structural)]
pub struct ScanConfig {
    /// Maximum number of distinct instruments tracked.
    pub max_instruments: usize,
    /// Token-bucket burst capacity (ticks) for ingest admission control.
    pub ingest_burst: u64,
    /// Sustained ingest rate (ticks/sec) for admission control.
    pub ingest_refill_per_sec: u64,
    /// Per-subscriber signal buffer depth.
    pub signal_buffer: usize,
}

impl Default for ScanConfig {
    fn default() -> (c: ScanConfig)
        ensures
            c.max_instruments == 100_000,
            c.ingest_burst == 1_000_000,
            c.ingest_refill_per_sec == 1_000_000,
            c.signal_buffer == 4_096,
    {
        ScanConfig {
            max_instruments: 100_000,
            ingest_burst: 1_000_000,
            ingest_refill_per_sec: 1_000_000,
            signal_buffer: 4_096,
        }
    }
}

} // verus!
