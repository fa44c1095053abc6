use vstd::prelude::*;

use crate::error::InvalidTick;
use crate::timestamp::Timestamp;
use crate::units::InstrumentId;

verus! {

/// Basis points in one unit (1% = 100 bps).
pub const BPS_SCALE: i64 = 10_000;

/// Whether `x` is representable as an `i64`.
pub open spec fn fits_i64(x: int) -> bool {
    i64::MIN <= x <= i64::MAX
}

/// Integer division rounding towards zero, for a positive divisor.
pub open spec fn trunc_div_pos(a: int, b: int) -> int {
    if a >= 0 {
        a / b
    } else {
        -((-a) / b)
    }
}

/// Integer division rounding towards zero (Rust's `/` on signed integers).
pub open spec fn trunc_div(a: int, b: int) -> int {
    if b < 0 {
        trunc_div_pos(-a, -b)
    } else {
        trunc_div_pos(a, b)
    }
}

/// Dividing by a divisor of magnitude at least one never grows the magnitude.
proof fn lemma_trunc_div_pos_bound(a: int, b: int)
    requires
        b >= 1,
    ensures
        -(if a < 0 { -a } else { a }) <= trunc_div_pos(a, b) <= (if a < 0 { -a } else { a }),
{
    if a >= 0 {
        assert(a / b <= a) by (nonlinear_arith)
            requires
                a >= 0,
                b >= 1,
        ;
        assert(a / b >= 0) by (nonlinear_arith)
            requires
                a >= 0,
                b >= 1,
        ;
    } else {
        let m = -a;
        assert(m / b <= m) by (nonlinear_arith)
            requires
                m >= 0,
                b >= 1,
        ;
        assert(m / b >= 0) by (nonlinear_arith)
            requires
                m >= 0,
                b >= 1,
        ;
    }
}

/// Rust's truncating division of `n` by a non-zero `d`, on operands far
/// inside the `i128` range.
fn div_toward_zero(n: i128, d: i128) -> (q: i128)
    requires
        d != 0,
        -0x1_0000_0000_0000_0000_0000_0000 < n < 0x1_0000_0000_0000_0000_0000_0000,
        -0x1_0000_0000_0000_0000_0000_0000 < d < 0x1_0000_0000_0000_0000_0000_0000,
    ensures
        q == trunc_div(n as int, d as int),
        -(if n < 0 { -n } else { n as int }) <= q <= (if n < 0 { -n } else { n as int }),
{
    let wide_n = n;
    let wide_d = d;
    let q: i128 = if wide_d > 0 {
        wide_n / wide_d
    } else {
        (-wide_n) / (-wide_d)
    };
    proof {
        if d > 0 {
            lemma_trunc_div_pos_bound(n as int, d as int);
        } else {
            lemma_trunc_div_pos_bound(-n, -d);
        }
    }
    q
}

/// Change from `open` to `price` in basis points of `open` (0 when `open` is 0).
pub open spec fn bps_change(price: int, open: int) -> int {
    if open == 0 {
        0
    } else {
        trunc_div((price - open) * 10_000, open)
    }
}

/// The change from `open` to `price` can be computed in `i64` arithmetic
/// (`(price - open) * 10_000 / open`) without overflow.
pub open spec fn bps_computable(price: int, open: int) -> bool {
    open == 0 || (fits_i64(price - open) && fits_i64((price - open) * 10_000))
}

/// `x` clamped to the `i64` range.
pub open spec fn saturate_i64(x: int) -> int {
    if x > i64::MAX {
        i64::MAX as int
    } else if x < i64::MIN {
        i64::MIN as int
    } else {
        x
    }
}

/// The change from `open` to `price` in basis points as an `i64`: the exact
/// truncated change, clamped to the `i64` range.
pub open spec fn bps_value(price: int, open: int) -> int {
    saturate_i64(bps_change(price, open))
}

/// Wherever the change can be computed in `i64` arithmetic, its value is
/// the exact truncated change: no clamping happens.
pub proof fn lemma_bps_exact(price: int, open: int)
    requires
        bps_computable(price, open),
    ensures
        bps_value(price, open) == bps_change(price, open),
{
    if open != 0 {
        let a = (price - open) * 10_000;
        if open > 0 {
            lemma_trunc_div_pos_bound(a, open);
        } else {
            lemma_trunc_div_pos_bound(-a, -open);
        }
    }
}

/// A market update for a single instrument, the unit of evaluation.
#[derive(Debug, Clone)]
pub struct MarketTick {
    /// Instrument the update refers to.
    pub instrument: InstrumentId,
    /// Last traded price in ticks (non-negative).
    pub last_price: i64,
    /// Cumulative session volume.
    pub volume: u64,
    /// Exchange timestamp.
    pub exchange_time: Timestamp,
}

impl MarketTick {
    /// What validation gives: a negative price is refused.
    pub open spec fn check(&self) -> Result<(), InvalidTick> {
        if self.last_price < 0 {
            Err(InvalidTick::NegativePrice(self.last_price))
        } else {
            Ok(())
        }
    }

    /// Validate the tick's field invariants.
    pub fn validate(&self) -> (r: Result<(), InvalidTick>)
        ensures
            r == self.check(),
    {
        if self.last_price < 0 {
            return Err(InvalidTick::NegativePrice(self.last_price));
        }
        Ok(())
    }
}

/// Rolling per-instrument state maintained by the engine and read by
/// conditions. Holds the previous last price so edge (cross) comparators are
/// deterministic.
#[derive(Debug, Clone, Copy, PartialEq, Eq, Structural)]
pub struct InstrumentState {
    /// Session open price.
    pub open: i64,
    /// Most recent last price.
    pub last: i64,
    /// Previous last price (before the current tick).
    pub prev_last: i64,
    /// Session high.
    pub high: i64,
    /// Session low.
    pub low: i64,
    /// Latest cumulative volume.
    pub volume: u64,
    /// Number of ticks applied.
    pub updates: u64,
}

impl InstrumentState {
    /// The state seeded by a session's first tick.
    pub open spec fn seeded(tick: &MarketTick) -> InstrumentState {
        InstrumentState {
            open: tick.last_price,
            last: tick.last_price,
            prev_last: tick.last_price,
            high: tick.last_price,
            low: tick.last_price,
            volume: tick.volume,
            updates: 1,
        }
    }

    /// The state after applying a subsequent tick.
    pub open spec fn advanced(self, tick: &MarketTick) -> InstrumentState {
        InstrumentState {
            open: self.open,
            last: tick.last_price,
            prev_last: self.last,
            high: if tick.last_price > self.high { tick.last_price } else { self.high },
            low: if tick.last_price < self.low { tick.last_price } else { self.low },
            volume: tick.volume,
            updates: self.updates.wrapping_add(1),
        }
    }

    /// Session bounds: the low never exceeds the open, last or previous last
    /// price, and the high is never below them.
    pub open spec fn ohlc_consistent(self) -> bool {
        &&& self.low <= self.open <= self.high
        &&& self.low <= self.last <= self.high
        &&& self.low <= self.prev_last <= self.high
    }

    /// Seed state from the first tick of the session.
    pub fn from_first(tick: &MarketTick) -> (s: InstrumentState)
        ensures
            s == Self::seeded(tick),
            s.ohlc_consistent(),
            s.open == tick.last_price && s.last == tick.last_price && s.prev_last == tick.last_price,
            s.high == tick.last_price && s.low == tick.last_price,
            s.volume == tick.volume,
            s.updates == 1,
    {
        InstrumentState {
            open: tick.last_price,
            last: tick.last_price,
            prev_last: tick.last_price,
            high: tick.last_price,
            low: tick.last_price,
            volume: tick.volume,
            updates: 1,
        }
    }

    /// Apply a subsequent tick, advancing OHLC and the previous-last marker.
    pub fn apply(&mut self, tick: &MarketTick)
        ensures
            *final(self) == old(self).advanced(tick),
            old(self).ohlc_consistent() ==> final(self).ohlc_consistent(),
            final(self).open == old(self).open,
            final(self).last == tick.last_price,
            final(self).prev_last == old(self).last,
            final(self).high >= old(self).high && final(self).high >= tick.last_price,
            final(self).high == old(self).high || final(self).high == tick.last_price,
            final(self).low <= old(self).low && final(self).low <= tick.last_price,
            final(self).low == old(self).low || final(self).low == tick.last_price,
            final(self).volume == tick.volume,
            final(self).updates == old(self).updates.wrapping_add(1),
    {
        self.prev_last = self.last;
        self.last = tick.last_price;
        if tick.last_price > self.high {
            self.high = tick.last_price;
        }
        if tick.last_price < self.low {
            self.low = tick.last_price;
        }
        self.volume = tick.volume;
        self.updates = self.updates.wrapping_add(1);
    }

    /// Percentage change from open, in basis points.
    pub open spec fn spec_pct_change_bps(self) -> int {
        bps_value(self.last as int, self.open as int)
    }

    /// Previous percentage change from open, in basis points.
    pub open spec fn spec_prev_pct_change_bps(self) -> int {
        bps_value(self.prev_last as int, self.open as int)
    }

    /// Percentage change from open, expressed in basis points (1% = 100 bps):
    /// `(last - open) * 10_000 / open`, truncated, and 0 when the open is 0.
    /// It is computed in 128-bit arithmetic, so it is exact wherever the
    /// 64-bit computation does not overflow, and clamped to the `i64` range
    /// beyond.
    pub fn pct_change_bps(&self) -> (r: i64)
        ensures
            r == self.spec_pct_change_bps(),
    {
        bps_of(self.last, self.open)
    }

    /// Previous percentage change from open in basis points, computed as
    /// `pct_change_bps` is.
    pub fn prev_pct_change_bps(&self) -> (r: i64)
        ensures
            r == self.spec_prev_pct_change_bps(),
    {
        bps_of(self.prev_last, self.open)
    }
}

/// The change from `open` to `price` in basis points, as `bps_value`.
fn bps_of(price: i64, open: i64) -> (r: i64)
    ensures
        r == bps_value(price as int, open as int),
{
    if open == 0 {
        return 0;
    }
    let diff: i128 = (price as i128) - (open as i128);
    let scaled: i128 = diff * 10_000;
    let q = div_toward_zero(scaled, open as i128);
    if q > 9_223_372_036_854_775_807i128 {
        i64::MAX
    } else if q < -9_223_372_036_854_775_808i128 {
        i64::MIN
    } else {
        q as i64
    }
}

/// A tick moves the session on: the open stays, the tick's price becomes
/// the last price and the old last price the previous one, the high and low
/// become the largest and smallest of the old bounds and the tick's price,
/// and the volume becomes the tick's (latest cumulative) volume.
pub proof fn lemma_tick_advances_session(s: InstrumentState, tick: &MarketTick)
    ensures
        s.advanced(tick).open == s.open,
        s.advanced(tick).last == tick.last_price,
        s.advanced(tick).prev_last == s.last,
        s.advanced(tick).high >= s.high && s.advanced(tick).high >= tick.last_price,
        s.advanced(tick).high == s.high || s.advanced(tick).high == tick.last_price,
        s.advanced(tick).low <= s.low && s.advanced(tick).low <= tick.last_price,
        s.advanced(tick).low == s.low || s.advanced(tick).low == tick.last_price,
        s.advanced(tick).volume == tick.volume,
        InstrumentState::seeded(tick).volume == tick.volume,
        InstrumentState::seeded(tick).open == tick.last_price,
{
}

/// The change in basis points is `(price - open) * 10_000 / open` rounded
/// toward zero: for a positive open, its magnitude times the open is at most
/// the scaled move and one more would exceed it, with the sign of the move.
pub proof fn lemma_bps_meaning(price: int, open: int)
    requires
        open > 0,
    ensures
        price >= open ==> bps_change(price, open) >= 0 && bps_change(price, open) * open <= (price - open) * 10_000
            < (bps_change(price, open) + 1) * open,
        price < open ==> bps_change(price, open) <= 0 && -bps_change(price, open) * open <= (open - price) * 10_000
            < (-bps_change(price, open) + 1) * open,
{
    let a = (price - open) * 10_000;
    if price >= open {
        assert(a >= 0) by (nonlinear_arith)
            requires
                price >= open,
                a == (price - open) * 10_000,
        ;
        let q = a / open;
        assert(q >= 0 && q * open <= a < (q + 1) * open) by (nonlinear_arith)
            requires
                a >= 0,
                open > 0,
                q == a / open,
        ;
    } else {
        let m = (open - price) * 10_000;
        assert(m > 0 && a == -m) by (nonlinear_arith)
            requires
                price < open,
                a == (price - open) * 10_000,
                m == (open - price) * 10_000,
        ;
        let q = m / open;
        assert(q >= 0 && q * open <= m < (q + 1) * open) by (nonlinear_arith)
            requires
                m > 0,
                open > 0,
                q == m / open,
        ;
    }
}

} // verus!
