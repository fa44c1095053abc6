use vstd::prelude::*;
use vstd::utf8::{encode_utf8, is_ascii_chars};

use crate::text::{decimal, lemma_decimal_shape, lemma_u64_below_pow10_20, push_str, push_zero_padded, zero_padded};
use crate::rule::{Comparator, Condition, Field, Rule, Scope};
use crate::text::push_decimal;
use crate::tick::MarketTick;
use crate::timestamp::Timestamp;
use crate::units::{byte_len, instrument_check, InstrumentId};

verus! {

/// Multiplier of the generator's linear congruential sequence.
pub const LCG_MULTIPLIER: u64 = 6_364_136_223_846_793_005;

/// Increment of the generator's linear congruential sequence.
pub const LCG_INCREMENT: u64 = 1_442_695_040_888_963_407;

/// The next state of the linear congruential sequence (wrapping arithmetic).
pub open spec fn lcg_next(state: u64) -> u64 {
    state.wrapping_mul(LCG_MULTIPLIER).wrapping_add(LCG_INCREMENT)
}

/// Name of the `i`-th synthetic instrument: "SIM:" and `i` zero-padded to
/// six digits.
pub open spec fn sim_name(i: nat) -> Seq<char> {
    "SIM:"@ + zero_padded(i, 6)
}

/// Rust's `%` on signed integers (remainder with the dividend's sign), for a
/// positive divisor.
pub open spec fn trunc_rem(a: int, b: int) -> int {
    if a >= 0 {
        a % b
    } else {
        -((-a) % b)
    }
}

/// Price of the instrument at position `idx` once the cursor has reached
/// `cursor`: a stable base per instrument plus a slow triangular oscillation
/// driven by how often the instruments have been cycled through, at least 1.
pub open spec fn sim_price(idx: usize, cursor: usize, count: usize) -> i64 {
    let base = 100 + trunc_rem((idx as i64) as int, 400);
    let cycle = (cursor / count) as i64;
    let phase = trunc_rem(cycle.wrapping_add(idx as i64) as int, 200);
    let osc = (if phase < 100 { phase } else { 200 - phase }) - 50;
    if base + osc < 1 { 1 } else { (base + osc) as i64 }
}

/// The synthetic instrument named `sim_name(i)`.
fn sim_instrument(i: usize) -> (id: InstrumentId)
    ensures
        id@ == sim_name(i as nat),
{
    let mut text = String::new();
    push_str(&mut text, "SIM:");
    push_zero_padded(&mut text, i as u64, 6);
    proof {
        reveal_strlit("SIM:");
        lemma_u64_below_pow10_20(i as u64);
        lemma_decimal_shape(i as nat, 20);
        let digits = decimal(i as nat);
        let padded = zero_padded(i as nat, 6);
        assert(is_ascii_chars(padded)) by {
            if digits.len() < 6 {
                let zeros = Seq::new((6 - digits.len()) as nat, |j: int| '0');
                assert forall|j: int| 0 <= j < padded.len() implies '\0' <= #[trigger] padded[j] <= '\u{7f}' by {
                    if j < zeros.len() {
                        assert(padded[j] == '0');
                    } else {
                        assert(padded[j] == digits[j - zeros.len()]);
                    }
                }
            }
        }
        assert(text@ == sim_name(i as nat));
        assert(is_ascii_chars(text@)) by {
            assert forall|j: int| 0 <= j < text@.len() implies '\0' <= #[trigger] text@[j] <= '\u{7f}' by {
                if j >= 4 {
                    assert(text@[j] == padded[j - 4]);
                }
            }
        }
        vstd::utf8::is_ascii_chars_encode_utf8(text@);
        assert(encode_utf8(text@).len() <= 24);
        assert(byte_len(text@) <= 24);
        assert(instrument_check(text@) is Ok);
    }
    match InstrumentId::from_text(text) {
        Ok(id) => id,
        Err(_) => {
            proof {
                assert(false);
            }
            vstd::pervasive::unreached()
        },
    }
}

/// `sim_price`, computed.
fn price_for(idx: usize, cursor: usize, count: usize) -> (last: i64)
    requires
        count > 0,
        idx < count,
    ensures
        last == sim_price(idx, cursor, count),
        1 <= last <= 549,
{
    let wide_idx: i64 = #[verifier::truncate] (idx as i64);
    let base: i64 = 100 + wide_idx % 400;
    let cycle: i64 = #[verifier::truncate] ((cursor / count) as i64);
    let phase: i64 = cycle.wrapping_add(wide_idx) % 200;
    let osc: i64 = (if phase < 100 { phase } else { 200 - phase }) - 50;
    if base + osc < 1 { 1 } else { base + osc }
}

/// A deterministic market-tick generator (linear congruential, no `rand`)
/// for demos, replay, and load tests. Prices oscillate so that
/// threshold-cross rules fire repeatably.
pub struct TickGenerator {
    instruments: Vec<InstrumentId>,
    state: u64,
    cursor: usize,
    step: u64,
}

impl TickGenerator {
    /// The instruments cycled through, by their text.
    pub closed spec fn spec_instruments(&self) -> Seq<Seq<char>> {
        self.instruments@.map_values(|id: InstrumentId| id@)
    }

    /// The generator's random state.
    pub closed spec fn spec_state(&self) -> u64 {
        self.state
    }

    /// Ticks produced so far (wrapping).
    pub closed spec fn spec_cursor(&self) -> usize {
        self.cursor
    }

    /// At least one instrument to cycle through.
    pub closed spec fn wf(&self) -> bool {
        self.instruments@.len() >= 1
    }

    /// Build a generator over `count` (at least one) synthetic instruments
    /// named `SIM:000000`, `SIM:000001`, ..., seeded by `seed`.
    pub fn new(count: usize, seed: u64) -> (g: TickGenerator)
        ensures
            g.wf(),
            g.spec_instruments().len() == if count == 0 { 1 } else { count as nat },
            forall|i: int| 0 <= i < g.spec_instruments().len() ==> #[trigger] g.spec_instruments()[i] == sim_name(i as nat),
            g.spec_state() == seed | 1,
            g.spec_cursor() == 0,
    {
        let n = if count == 0 { 1 } else { count };
        let mut instruments: Vec<InstrumentId> = Vec::new();
        let mut i: usize = 0;
        while i < n
            invariant
                i <= n,
                instruments@.len() == i,
                forall|j: int| 0 <= j < i ==> (#[trigger] instruments@[j])@ == sim_name(j as nat),
            decreases n - i,
        {
            instruments.push(sim_instrument(i));
            i = i + 1;
        }
        TickGenerator { instruments, state: seed | 1, cursor: 0, step: 0 }
    }

    /// Advance the linear congruential sequence and return its new state.
    fn next_rand(&mut self) -> (r: u64)
        ensures
            r == lcg_next(old(self).state),
            final(self).state == r,
            final(self).instruments == old(self).instruments,
            final(self).cursor == old(self).cursor,
            final(self).step == old(self).step,
    {
        self.state = self.state.wrapping_mul(LCG_MULTIPLIER).wrapping_add(LCG_INCREMENT);
        self.state
    }

    /// Produce the next deterministic tick, cycling through instruments and
    /// oscillating each instrument's price around its own stable base so
    /// rules trigger periodically (rather than on every tick).
    pub fn next_tick(&mut self) -> (t: MarketTick)
        requires
            old(self).wf(),
        ensures
            final(self).wf(),
            final(self).spec_instruments() == old(self).spec_instruments(),
            final(self).spec_cursor() == old(self).spec_cursor().wrapping_add(1),
            final(self).spec_state() == lcg_next(old(self).spec_state()),
            t.instrument@ == old(self).spec_instruments()[(old(self).spec_cursor() as int)
                % (old(self).spec_instruments().len() as int)],
            t.last_price == sim_price(
                ((old(self).spec_cursor() as int) % (old(self).spec_instruments().len() as int)) as usize,
                final(self).spec_cursor(),
                old(self).spec_instruments().len() as usize,
            ),
            1 <= t.last_price <= 549,
            t.volume == (final(self).spec_state() >> 20u64) % 1_000_000,
    {
        let count = self.instruments.len();
        let idx = self.cursor % count;
        let instrument = self.instruments[idx].clone();
        self.cursor = self.cursor.wrapping_add(1);
        self.step = self.step.wrapping_add(1);
        let r = self.next_rand();
        let last = price_for(idx, self.cursor, count);
        proof {
            assert(self.spec_instruments() == old(self).spec_instruments());
            assert(self.spec_instruments()[idx as int] == self.instruments@[idx as int]@);
        }
        MarketTick { instrument, last_price: last, volume: (r >> 20) % 1_000_000, exchange_time: Timestamp::now() }
    }

    /// Number of distinct instruments this generator cycles through.
    pub fn instrument_count(&self) -> (n: usize)
        ensures
            n == self.spec_instruments().len(),
    {
        self.instruments.len()
    }
}

/// Basis-point threshold of the `i`-th load-test rule: from +2% in steps of
/// 0.05%, cycling every 2 000 rules.
pub open spec fn load_threshold(i: u64) -> i64 {
    (200 + (i % 2000) * 5) as i64
}

/// The `i`-th rule of the load test: named `rule-{i}`, for any instrument,
/// firing when the change from open crosses above `load_threshold(i)` while
/// the price is positive.
pub fn load_rule(i: u64) -> (r: Rule)
    ensures
        r.name@ == "rule-"@ + decimal(i as nat),
        r.scope is Any,
        r.conditions@ == seq![
            Condition { field: Field::PctChangeBps, comparator: Comparator::CrossAbove, threshold: load_threshold(i) },
            Condition { field: Field::LastPrice, comparator: Comparator::Gt, threshold: 0 },
        ],
{
    let mut name = String::new();
    push_str(&mut name, "rule-");
    push_decimal(&mut name, i);
    let threshold: i64 = (200 + (i % 2000) * 5) as i64;
    let mut conditions: Vec<Condition> = Vec::new();
    conditions.push(Condition { field: Field::PctChangeBps, comparator: Comparator::CrossAbove, threshold });
    conditions.push(Condition { field: Field::LastPrice, comparator: Comparator::Gt, threshold: 0 });
    proof {
        reveal_strlit("rule-");
        assert(name@.len() > 0);
        assert(conditions@ =~= seq![
            Condition { field: Field::PctChangeBps, comparator: Comparator::CrossAbove, threshold: load_threshold(i) },
            Condition { field: Field::LastPrice, comparator: Comparator::Gt, threshold: 0 },
        ]);
    }
    match Rule::from_parts(name, Scope::Any, conditions) {
        Ok(rule) => rule,
        Err(_) => {
            proof {
                assert(false);
            }
            vstd::pervasive::unreached()
        },
    }
}

/// The state of the linear congruential sequence `k` steps after `state`.
pub open spec fn lcg_after(state: u64, k: nat) -> u64
    decreases k,
{
    if k == 0 {
        state
    } else {
        lcg_next(lcg_after(state, (k - 1) as nat))
    }
}

/// Instrument (by its text), price and volume of the tick at position `k`
/// (from zero) that a generator built over `count` instruments with `seed`
/// produces.
pub open spec fn sim_tick(count: nat, seed: u64, k: nat) -> (Seq<char>, i64, u64) {
    let n = if count == 0 { 1 } else { count };
    let idx = k % n;
    (
        sim_name(idx),
        sim_price(idx as usize, (k + 1) as usize, n as usize),
        (lcg_after(seed | 1, k + 1) >> 20u64) % 1_000_000,
    )
}

/// Generators built alike produce the same ticks: a generator built with
/// `TickGenerator::new(count, seed)` that has produced `k` ticks (its cursor
/// at `k`, its state `k` steps along the sequence from `seed | 1`) produces
/// next the instrument, price and volume `sim_tick(count, seed, k)`, which
/// depend on `count`, `seed` and `k` alone, and moves one step along.
pub proof fn lemma_generator_ticks(g: &TickGenerator, count: nat, seed: u64, k: nat)
    requires
        g.spec_instruments().len() == if count == 0 { 1 } else { count },
        forall|i: int| 0 <= i < g.spec_instruments().len() ==> #[trigger] g.spec_instruments()[i] == sim_name(i as nat),
        g.spec_cursor() == k,
        k < usize::MAX,
        g.spec_state() == lcg_after(seed | 1, k),
    ensures
        ({
            let n = g.spec_instruments().len() as int;
            let next = g.spec_cursor().wrapping_add(1);
            &&& g.spec_instruments()[(g.spec_cursor() as int) % n] == sim_tick(count, seed, k).0
            &&& sim_price(((g.spec_cursor() as int) % n) as usize, next, n as usize) == sim_tick(count, seed, k).1
            &&& (lcg_next(g.spec_state()) >> 20u64) % 1_000_000 == sim_tick(count, seed, k).2
            &&& next == k + 1
            &&& lcg_next(g.spec_state()) == lcg_after(seed | 1, k + 1)
        }),
{
    let n = g.spec_instruments().len() as int;
    assert(0 <= (k as int) % n < n);
}

} // verus!
