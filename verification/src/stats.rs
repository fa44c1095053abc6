use vstd::prelude::*;

verus! {

/// Aggregate counters describing engine activity.
#[derive(Debug, Clone, Copy, PartialEq, Eq, Structural)]
pub struct ScanStats {
    /// Ticks accepted and evaluated.
    pub ticks_processed: u64,
    /// Ticks rejected by validation.
    pub ticks_rejected: u64,
    /// Total condition evaluations performed.
    pub evaluations: u64,
    /// Signals emitted (rising edges).
    pub signals_emitted: u64,
    /// Rules currently registered.
    pub rules: u64,
    /// Instruments currently tracked.
    pub instruments: u64,
}

impl ScanStats {
    /// All counters at zero.
    pub open spec fn zero() -> ScanStats {
        ScanStats {
            ticks_processed: 0,
            ticks_rejected: 0,
            evaluations: 0,
            signals_emitted: 0,
            rules: 0,
            instruments: 0,
        }
    }
}

impl Default for ScanStats {
    fn default() -> (s: ScanStats)
        ensures
            s == ScanStats::zero(),
    {
        ScanStats {
            ticks_processed: 0,
            ticks_rejected: 0,
            evaluations: 0,
            signals_emitted: 0,
            rules: 0,
            instruments: 0,
        }
    }
}

} // verus!
