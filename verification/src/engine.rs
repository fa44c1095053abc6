use std::collections::HashSet;

use dashmap::DashMap;
use vstd::prelude::*;

use crate::clock::SystemClock;
use crate::config::ScanConfig;
use crate::error::CoreError;
use crate::index::RuleIndex;
use crate::limiter::{RateLimiter, TokenBucket};
use crate::rule::{Rule, RuleId};
use crate::signal::Signal;
use crate::stats::ScanStats;
use crate::table::{table_entries, table_insert, table_len, table_new, table_remove, table_state, InstrumentEntry};
use crate::tick::{InstrumentState, MarketTick};
use crate::timestamp::Timestamp;
use crate::units::InstrumentId;

verus! {

broadcast use vstd::std_specs::hash::group_hash_axioms;

/// The facts a signal carries, apart from the time it was produced.
pub struct Emission {
    /// Rule that fired.
    pub rule_id: RuleId,
    /// Name of the rule.
    pub rule_name: Seq<char>,
    /// Instrument (by its text) the rule fired for.
    pub instrument: Seq<char>,
    /// Sequence number of the signal.
    pub sequence: u64,
    /// Last price when the rule fired.
    pub last_price: i64,
    /// Change from open in basis points when the rule fired.
    pub pct_change_bps: int,
}

/// The facts `s` carries, apart from its timestamp.
pub open spec fn emission_of(s: Signal) -> Emission {
    Emission {
        rule_id: s.rule_id,
        rule_name: s.rule_name@,
        instrument: s.instrument@,
        sequence: s.sequence,
        last_price: s.last_price,
        pct_change_bps: s.pct_change_bps as int,
    }
}

/// Progress of evaluating a tick's candidate rules: the ids of the rules
/// firing, the signals emitted so far, the last sequence number used and the
/// conditions evaluated.
pub struct Pass {
    /// Values of the ids of the firing rules.
    pub firing: Set<u128>,
    /// Signals emitted, in order.
    pub emitted: Seq<Emission>,
    /// Last sequence number handed out.
    pub sequence: u64,
    /// Condition evaluations counted (wrapping).
    pub evaluations: u64,
}

/// One candidate rule evaluated on `state` for instrument `inst`: a rule
/// that holds and was not firing starts firing and emits a signal with the
/// next sequence number; a rule that holds and was firing stays silent; a
/// rule that does not hold stops firing.
pub open spec fn rule_step(p: Pass, r: Rule, state: InstrumentState, inst: Seq<char>) -> Pass {
    let evaluations = p.evaluations.wrapping_add(r.conditions@.len() as u64);
    if r.holds(state) {
        if p.firing.contains(r.id.0) {
            Pass { evaluations, ..p }
        } else {
            let sequence = p.sequence.wrapping_add(1);
            Pass {
                firing: p.firing.insert(r.id.0),
                emitted: p.emitted.push(
                    Emission {
                        rule_id: r.id,
                        rule_name: r.name@,
                        instrument: inst,
                        sequence,
                        last_price: state.last,
                        pct_change_bps: state.spec_pct_change_bps(),
                    },
                ),
                sequence,
                evaluations,
            }
        }
    } else {
        Pass { firing: p.firing.remove(r.id.0), evaluations, ..p }
    }
}

/// The candidate rules `rules` evaluated in order from `start`.
pub open spec fn rules_pass(rules: Seq<Rule>, state: InstrumentState, inst: Seq<char>, start: Pass) -> Pass
    decreases rules.len(),
{
    if rules.len() == 0 {
        start
    } else {
        rule_step(rules_pass(rules.drop_last(), state, inst, start), rules.last(), state, inst)
    }
}

/// The state and firing set of an instrument after a valid tick: a known
/// instrument advances, a new one is seeded with nothing firing.
pub open spec fn entry_after(prior: Option<(InstrumentState, Set<u128>)>, tick: &MarketTick) -> (InstrumentState, Set<u128>) {
    match prior {
        Some(e) => (e.0.advanced(tick), e.1),
        None => (InstrumentState::seeded(tick), Set::empty()),
    }
}

/// Prices the engine keeps are non-negative.
pub open spec fn prices_non_negative(s: InstrumentState) -> bool {
    &&& 0 <= s.open
    &&& 0 <= s.last
    &&& 0 <= s.prev_last
}

/// What evaluating a tick produced: the signals emitted (rising edges) and
/// the number of condition evaluations performed.
pub struct TickOutcome {
    /// Newly firing rules, in candidate order.
    pub signals: Vec<Signal>,
    /// Condition evaluations performed for the tick.
    pub evaluations: u64,
}

/// The incremental CEP engine: maintains per-instrument state, evaluates only
/// the rules relevant to each tick, and emits signals on rising edges.
pub struct ScanEngine {
    config: ScanConfig,
    index: RuleIndex,
    table: DashMap<InstrumentId, InstrumentEntry>,
    limiter: RateLimiter<SystemClock>,
    sequence: u64,
    stats: ScanStats,
}

impl ScanEngine {
    /// The engine's configuration.
    pub closed spec fn spec_config(&self) -> ScanConfig {
        self.config
    }

    /// The rule index.
    pub closed spec fn spec_index(&self) -> RuleIndex {
        self.index
    }

    /// Per instrument (by text): its state and the ids of its firing rules.
    pub closed spec fn instruments(&self) -> Map<Seq<char>, (InstrumentState, Set<u128>)> {
        table_entries(self.table)
    }

    /// The ingest token bucket.
    pub closed spec fn admission(&self) -> TokenBucket {
        self.limiter@
    }

    /// The last sequence number handed out.
    pub closed spec fn spec_sequence(&self) -> u64 {
        self.sequence
    }

    /// The counters.
    pub closed spec fn spec_stats(&self) -> ScanStats {
        self.stats
    }

    /// The engine is well formed: a sound index and bucket, finitely many
    /// instruments, and every kept state with non-negative prices and
    /// consistent session bounds.
    pub closed spec fn wf(&self) -> bool {
        &&& self.index.wf()
        &&& self.limiter@.sound()
        &&& table_entries(self.table).dom().finite()
        &&& forall|k: Seq<char>|
            #[trigger] table_entries(self.table).contains_key(k) ==> {
                &&& prices_non_negative(table_entries(self.table)[k].0)
                &&& table_entries(self.table)[k].0.ohlc_consistent()
            }
    }

    /// Assemble an engine from its config: no rules, no instruments, a full
    /// ingest bucket.
    pub fn new(config: ScanConfig) -> (e: ScanEngine)
        ensures
            e.wf(),
            e.spec_config() == config,
            e.spec_index().total() == 0,
            e.spec_index().any_rules() == Seq::<Rule>::empty(),
            forall|x: Seq<char>| e.spec_index().scoped_rules(x) == Seq::<Rule>::empty(),
            e.instruments() == Map::<Seq<char>, (InstrumentState, Set<u128>)>::empty(),
            e.spec_sequence() == 0,
            e.spec_stats() == ScanStats::zero(),
            e.admission().capacity == if config.ingest_burst == 0 { 1 } else { config.ingest_burst as nat },
            e.admission().refill_per_sec == config.ingest_refill_per_sec,
            e.admission().units == e.admission().capacity_units(),
    {
        let limiter = RateLimiter::new(config.ingest_burst, config.ingest_refill_per_sec);
        let table = table_new();
        ScanEngine {
            config,
            index: RuleIndex::new(),
            table,
            limiter,
            sequence: 0,
            stats: ScanStats::default(),
        }
    }

    /// Register a validated rule, returning its id.
    pub fn add_rule(&mut self, rule: Rule) -> (id: RuleId)
        requires
            old(self).wf(),
        ensures
            final(self).wf(),
            id == rule.id,
            final(self).spec_index().any_rules() == if rule.scope is Any {
                old(self).spec_index().any_rules().push(rule)
            } else {
                old(self).spec_index().any_rules()
            },
            forall|x: Seq<char>|
                #[trigger] final(self).spec_index().scoped_rules(x) == if rule.scope is Instrument
                    && rule.scope.covers(x) {
                    old(self).spec_index().scoped_rules(x).push(rule)
                } else {
                    old(self).spec_index().scoped_rules(x)
                },
            final(self).spec_index().total() == old(self).spec_index().total() + 1,
            forall|r: Rule|
                #[trigger] final(self).spec_index().holds_rule(r) <==> (old(self).spec_index().holds_rule(r) || r
                    == rule),
            final(self).spec_stats() == (ScanStats {
                rules: old(self).spec_stats().rules.wrapping_add(1),
                ..old(self).spec_stats()
            }),
            final(self).instruments() == old(self).instruments(),
            final(self).spec_sequence() == old(self).spec_sequence(),
            final(self).admission() == old(self).admission(),
            final(self).spec_config() == old(self).spec_config(),
    {
        let id = rule.id;
        self.index.insert(rule);
        self.stats.rules = self.stats.rules.wrapping_add(1);
        id
    }

    /// Remove a rule by id. `stored` is whether the rule store held the rule
    /// (and removed it); the result is that answer, and the rule count drops
    /// by one when both the store and the index held the rule.
    pub fn remove_rule(&mut self, id: RuleId, stored: bool) -> (removed: bool)
        requires
            old(self).wf(),
        ensures
            final(self).wf(),
            removed == stored,
            final(self).spec_index().any_rules() == crate::index::drop_id(old(self).spec_index().any_rules(), id),
            forall|x: Seq<char>|
                #[trigger] final(self).spec_index().scoped_rules(x) == crate::index::drop_id(
                    old(self).spec_index().scoped_rules(x),
                    id,
                ),
            final(self).spec_index().total() == old(self).spec_index().total() - old(self).spec_index().count_id(id),
            forall|r: Rule|
                #[trigger] final(self).spec_index().holds_rule(r) <==> (old(self).spec_index().holds_rule(r)
                    && r.id != id),
            final(self).spec_stats() == (if stored && old(self).spec_index().holds_id(id) {
                ScanStats { rules: old(self).spec_stats().rules.saturating_sub(1), ..old(self).spec_stats() }
            } else {
                old(self).spec_stats()
            }),
            final(self).instruments() == old(self).instruments(),
            final(self).spec_sequence() == old(self).spec_sequence(),
            final(self).admission() == old(self).admission(),
            final(self).spec_config() == old(self).spec_config(),
    {
        let dropped = self.index.remove(id);
        if dropped && stored {
            self.stats.rules = self.stats.rules.saturating_sub(1);
        }
        stored
    }

    /// The entry kept for the instrument named `inst`, if any.
    pub open spec fn prior_entry(&self, inst: Seq<char>) -> Option<(InstrumentState, Set<u128>)> {
        if self.instruments().contains_key(inst) {
            Some(self.instruments()[inst])
        } else {
            None
        }
    }

    /// A tick for an instrument not yet tracked would exceed the capacity.
    pub open spec fn over_capacity(&self, tick: &MarketTick) -> bool {
        &&& !self.instruments().contains_key(tick.instrument@)
        &&& self.instruments().len() >= self.spec_config().max_instruments
    }

    /// Evaluating the candidate rules of an admitted, valid tick.
    pub open spec fn evaluation(&self, tick: &MarketTick) -> Pass {
        let entry = entry_after(self.prior_entry(tick.instrument@), tick);
        rules_pass(
            self.spec_index().candidate_rules(tick.instrument@),
            entry.0,
            tick.instrument@,
            Pass {
                firing: entry.1,
                emitted: Seq::empty(),
                sequence: self.spec_sequence(),
                evaluations: 0,
            },
        )
    }

    /// Process a single tick: admission control, validation and the
    /// capacity check, then update the instrument's state and evaluate its
    /// candidate rules, emitting a signal for each rule that starts firing.
    ///
    /// Errors: `RateLimited` when admission control refuses the tick,
    /// `InvalidTick` when validation fails (both counted as rejected), and
    /// `CapacityExceeded` when a new instrument would exceed the cap.
    pub fn process(&mut self, tick: MarketTick) -> (r: Result<TickOutcome, CoreError>)
        requires
            old(self).wf(),
        ensures
            final(self).wf(),
            final(self).spec_index() == old(self).spec_index(),
            final(self).spec_config() == old(self).spec_config(),
            exists|now: u64|
                #[trigger] old(self).admission().acquire(now as nat, 1) == (
                final(self).admission(),
                !(r matches Err(CoreError::RateLimited)),
            ),
            (r matches Err(CoreError::RateLimited)) ==> {
                &&& final(self).instruments() == old(self).instruments()
                &&& final(self).spec_sequence() == old(self).spec_sequence()
                &&& final(self).spec_stats() == (ScanStats {
                    ticks_rejected: old(self).spec_stats().ticks_rejected.wrapping_add(1),
                    ..old(self).spec_stats()
                })
            },
            !(r matches Err(CoreError::RateLimited)) ==> match tick.check() {
                Err(e) => {
                    &&& r == Err::<TickOutcome, CoreError>(CoreError::InvalidTick(e))
                    &&& final(self).instruments() == old(self).instruments()
                    &&& final(self).spec_sequence() == old(self).spec_sequence()
                    &&& final(self).spec_stats() == (ScanStats {
                        ticks_rejected: old(self).spec_stats().ticks_rejected.wrapping_add(1),
                        ..old(self).spec_stats()
                    })
                },
                Ok(_) => if old(self).over_capacity(&tick) {
                    &&& r == Err::<TickOutcome, CoreError>(
                        CoreError::CapacityExceeded(old(self).spec_config().max_instruments),
                    )
                    &&& final(self).instruments() == old(self).instruments()
                    &&& final(self).spec_sequence() == old(self).spec_sequence()
                    &&& final(self).spec_stats() == old(self).spec_stats()
                } else {
                    &&& r is Ok
                    &&& final(self).instruments() == old(self).instruments().insert(
                        tick.instrument@,
                        (
                            entry_after(old(self).prior_entry(tick.instrument@), &tick).0,
                            old(self).evaluation(&tick).firing,
                        ),
                    )
                    &&& final(self).spec_sequence() == old(self).evaluation(&tick).sequence
                    &&& final(self).spec_stats() == old(self).spec_stats()
                    &&& r->Ok_0.evaluations == old(self).evaluation(&tick).evaluations
                    &&& r->Ok_0.signals@.len() == old(self).evaluation(&tick).emitted.len()
                    &&& forall|k: int|
                        0 <= k < r->Ok_0.signals@.len() ==> emission_of(#[trigger] r->Ok_0.signals@[k])
                            == old(self).evaluation(&tick).emitted[k]
                    &&& r->Ok_0.evaluations as int == total_conditions(
                        old(self).spec_index().candidate_rules(tick.instrument@),
                    ) % 0x1_0000_0000_0000_0000
                    &&& final(self).spec_sequence() as int == (old(self).spec_sequence() + r->Ok_0.signals@.len())
                        % 0x1_0000_0000_0000_0000
                    &&& forall|k: int|
                        0 <= k < r->Ok_0.signals@.len() ==> (#[trigger] r->Ok_0.signals@[k]).sequence as int == (
                        old(self).spec_sequence() + k + 1) % 0x1_0000_0000_0000_0000
                    &&& forall|k: int|
                        0 <= k < r->Ok_0.signals@.len() ==> {
                            &&& (#[trigger] r->Ok_0.signals@[k]).last_price == tick.last_price
                            &&& r->Ok_0.signals@[k].instrument@ == tick.instrument@
                        }
                },
            },
    {
        let admitted = self.limiter.try_acquire();
        let ghost t = choose|t: u64|
            #[trigger] old(self).admission().acquire(t as nat, 1) == (self.limiter@, admitted is Ok);
        proof {
            assert(old(self).admission().acquire(t as nat, 1) == (self.admission(), admitted is Ok));
        }
        if admitted.is_err() {
            self.stats.ticks_rejected = self.stats.ticks_rejected.wrapping_add(1);
            let r = Err(CoreError::RateLimited);
            assert(old(self).admission().acquire(t as nat, 1) == (
                self.admission(),
                !(r matches Err(CoreError::RateLimited)),
            ));
            return r;
        }
        match tick.validate() {
            Err(e) => {
                self.stats.ticks_rejected = self.stats.ticks_rejected.wrapping_add(1);
                let r = Err(CoreError::InvalidTick(e));
                assert(old(self).admission().acquire(t as nat, 1) == (
                    self.admission(),
                    !(r matches Err(CoreError::RateLimited)),
                ));
                return r;
            },
            Ok(()) => {},
        }
        let inst = tick.instrument.clone();
        let ghost before = table_entries(self.table);
        let prior = table_remove(&mut self.table, &inst);
        let ghost entry = entry_after(old(self).prior_entry(inst@), &tick);
        let (state, mut firing) = match prior {
            None => {
                if table_len(&self.table) >= self.config.max_instruments {
                    proof {
                        assert(table_entries(self.table) =~= before);
                    }
                    let r = Err(CoreError::CapacityExceeded(self.config.max_instruments));
                    assert(old(self).admission().acquire(t as nat, 1) == (
                        self.admission(),
                        !(r matches Err(CoreError::RateLimited)),
                    ));
                    return r;
                }
                (InstrumentState::from_first(&tick), HashSet::new())
            },
            Some(e) => {
                let mut s = e.state;
                s.apply(&tick);
                (s, e.firing)
            },
        };
        proof {
            assert(state == entry.0);
            assert(firing@ == entry.1);
            assert(prices_non_negative(state));
            assert(state.ohlc_consistent());
        }
        let cands = self.index.candidates(&inst);
        let ghost rules = self.index.candidate_rules(inst@);
        let ghost start = Pass {
            firing: entry.1,
            emitted: Seq::empty(),
            sequence: self.sequence,
            evaluations: 0,
        };
        let mut signals: Vec<Signal> = Vec::new();
        let mut evaluations: u64 = 0;
        let mut sequence: u64 = self.sequence;
        let n = cands.len();
        let mut i: usize = 0;
        proof {
            assert(rules.take(0) =~= Seq::<Rule>::empty());
        }
        while i < n
            invariant
                n == cands@.len(),
                n == rules.len(),
                forall|k: int| 0 <= k < n ==> *(#[trigger] cands@[k]) == rules[k],
                i <= n,
                inst@ == tick.instrument@,
                ({
                    let p = rules_pass(rules.take(i as int), state, inst@, start);
                    &&& firing@ == p.firing
                    &&& sequence == p.sequence
                    &&& evaluations == p.evaluations
                    &&& signals@.len() == p.emitted.len()
                    &&& forall|k: int| 0 <= k < signals@.len() ==> emission_of(#[trigger] signals@[k]) == p.emitted[k]
                }),
            decreases n - i,
        {
            let rule: &Rule = cands[i];
            proof {
                assert(rules.take(i + 1).drop_last() =~= rules.take(i as int));
                assert(rules.take(i + 1).last() == rules[i as int]);
                assert(*rule == rules[i as int]);
            }
            let ghost p = rules_pass(rules.take(i as int), state, inst@, start);
            evaluations = evaluations.wrapping_add(rule.conditions.len() as u64);
            if rule.matches(&state) {
                if firing.insert(rule.id.0) {
                    sequence = sequence.wrapping_add(1);
                    let signal = Signal {
                        rule_id: rule.id,
                        rule_name: rule.name.clone(),
                        instrument: inst.clone(),
                        sequence,
                        last_price: state.last,
                        pct_change_bps: state.pct_change_bps(),
                        triggered_at: Timestamp::now(),
                    };
                    let ghost pre = signals@;
                    signals.push(signal);
                    proof {
                        let q = rules_pass(rules.take(i + 1), state, inst@, start);
                        assert(q.emitted == p.emitted.push(emission_of(signal)));
                        assert forall|k: int| 0 <= k < signals@.len() implies emission_of(#[trigger] signals@[k]) == q.emitted[k] by {
                            if k < p.emitted.len() {
                                assert(signals@[k] == pre[k]);
                            }
                        }
                    }
                }
            } else {
                firing.remove(&rule.id.0);
            }
            i = i + 1;
        }
        proof {
            assert(rules.take(n as int) =~= rules);
        }
        self.sequence = sequence;
        table_insert(&mut self.table, inst, InstrumentEntry { state, firing });
        proof {
            assert(table_entries(self.table) =~= before.insert(tick.instrument@, (entry.0, old(self).evaluation(&tick).firing)));
        }
        proof {
            lemma_tick_sequence(&*old(self), &tick);
            lemma_tick_evaluations(&*old(self), &tick);
            lemma_signals_carry_tick(&*old(self), &tick);
            assert forall|k: int| 0 <= k < signals@.len() implies {
                &&& (#[trigger] signals@[k]).last_price == tick.last_price
                &&& signals@[k].instrument@ == tick.instrument@
            } by {
                assert(emission_of(signals@[k]) == old(self).evaluation(&tick).emitted[k]);
            }
            assert forall|k: int| 0 <= k < signals@.len() implies (#[trigger] signals@[k]).sequence as int == (
            old(self).spec_sequence() + k + 1) % 0x1_0000_0000_0000_0000 by {
                assert(emission_of(signals@[k]) == old(self).evaluation(&tick).emitted[k]);
            }
        }
        let r = Ok(TickOutcome { signals, evaluations });
        assert(old(self).admission().acquire(t as nat, 1) == (
            self.admission(),
            !(r matches Err(CoreError::RateLimited)),
        ));
        r
    }

    /// Record a tick whose signals were delivered: one more tick processed,
    /// its evaluations and signals added, and the instrument count refreshed.
    pub fn record_processed(&mut self, outcome: &TickOutcome)
        requires
            old(self).wf(),
        ensures
            final(self).wf(),
            final(self).spec_stats() == (ScanStats {
                ticks_processed: old(self).spec_stats().ticks_processed.wrapping_add(1),
                evaluations: old(self).spec_stats().evaluations.wrapping_add(outcome.evaluations),
                signals_emitted: old(self).spec_stats().signals_emitted.wrapping_add(
                    outcome.signals@.len() as u64,
                ),
                instruments: old(self).instruments().len() as u64,
                ..old(self).spec_stats()
            }),
            final(self).spec_index() == old(self).spec_index(),
            final(self).instruments() == old(self).instruments(),
            final(self).spec_sequence() == old(self).spec_sequence(),
            final(self).admission() == old(self).admission(),
            final(self).spec_config() == old(self).spec_config(),
    {
        self.stats.ticks_processed = self.stats.ticks_processed.wrapping_add(1);
        self.stats.evaluations = self.stats.evaluations.wrapping_add(outcome.evaluations);
        self.stats.signals_emitted = self.stats.signals_emitted.wrapping_add(outcome.signals.len() as u64);
        self.stats.instruments = table_len(&self.table) as u64;
    }

    /// Current state for an instrument, if tracked; its prices are
    /// non-negative and its session bounds consistent.
    pub fn state(&self, instrument: &InstrumentId) -> (s: Option<InstrumentState>)
        requires
            self.wf(),
        ensures
            s == if self.instruments().contains_key(instrument@) {
                Some(self.instruments()[instrument@].0)
            } else {
                None::<InstrumentState>
            },
            s matches Some(st) ==> prices_non_negative(st) && st.ohlc_consistent(),
    {
        table_state(&self.table, instrument)
    }

    /// Snapshot of current statistics.
    pub fn stats(&self) -> (s: ScanStats)
        ensures
            s == self.spec_stats(),
    {
        self.stats
    }

    /// The rule index.
    pub fn index(&self) -> (idx: &RuleIndex)
        ensures
            *idx == self.spec_index(),
    {
        &self.index
    }

    /// The engine's configuration.
    pub fn config(&self) -> (c: ScanConfig)
        ensures
            c == self.spec_config(),
    {
        self.config
    }
}

/// Some emission in `emitted` is for the rule with id `id`.
pub open spec fn emits_for(emitted: Seq<Emission>, id: RuleId) -> bool {
    exists|k: int| 0 <= k < emitted.len() && (#[trigger] emitted[k]).rule_id == id
}

/// No two rules of `rules` share an id.
pub open spec fn distinct_ids(rules: Seq<Rule>) -> bool {
    forall|i: int, j: int| 0 <= i < j < rules.len() ==> (#[trigger] rules[i]).id != (#[trigger] rules[j]).id
}

/// Some rule of `rules` has id value `v`.
pub open spec fn has_id_value(rules: Seq<Rule>, v: u128) -> bool {
    exists|i: int| 0 <= i < rules.len() && (#[trigger] rules[i]).id.0 == v
}

/// One step only touches the firing state of its own rule, only emits for
/// its own rule, and hands out the next sequence number when it emits.
proof fn lemma_step_frame(p: Pass, l: Rule, state: InstrumentState, inst: Seq<char>, v: u128, id: RuleId)
    requires
        l.id.0 != v,
        l.id != id,
    ensures
        rule_step(p, l, state, inst).firing.contains(v) == p.firing.contains(v),
        emits_for(rule_step(p, l, state, inst).emitted, id) == emits_for(p.emitted, id),
{
    let q = rule_step(p, l, state, inst);
    if emits_for(q.emitted, id) {
        let k = choose|k: int| 0 <= k < q.emitted.len() && (#[trigger] q.emitted[k]).rule_id == id;
        if k < p.emitted.len() {
            assert(p.emitted[k] == q.emitted[k]);
        }
    }
    if emits_for(p.emitted, id) {
        let k = choose|k: int| 0 <= k < p.emitted.len() && (#[trigger] p.emitted[k]).rule_id == id;
        assert(q.emitted[k] == p.emitted[k]);
    }
}

/// Evaluating rules leaves the firing state of ids that none of them has.
pub proof fn lemma_pass_frame(rules: Seq<Rule>, state: InstrumentState, inst: Seq<char>, start: Pass, v: u128)
    requires
        !has_id_value(rules, v),
    ensures
        rules_pass(rules, state, inst, start).firing.contains(v) == start.firing.contains(v),
    decreases rules.len(),
{
    if rules.len() > 0 {
        let t = rules.drop_last();
        assert(!has_id_value(t, v)) by {
            if has_id_value(t, v) {
                let i = choose|i: int| 0 <= i < t.len() && (#[trigger] t[i]).id.0 == v;
                assert(rules[i] == t[i]);
            }
        }
        lemma_pass_frame(t, state, inst, start, v);
        assert(rules[rules.len() - 1].id.0 != v);
        lemma_step_frame(rules_pass(t, state, inst, start), rules.last(), state, inst, v, RuleId(v));
    }
}

/// The rising-edge rule: among candidate rules with distinct ids, a rule
/// emits a signal on a tick exactly when it holds now and was not firing
/// before the tick, and afterwards it is firing exactly when it holds.
pub proof fn lemma_rising_edge(rules: Seq<Rule>, state: InstrumentState, inst: Seq<char>, start: Pass, r: Rule)
    requires
        distinct_ids(rules),
        rules.contains(r),
        start.emitted.len() == 0,
    ensures
        rules_pass(rules, state, inst, start).firing.contains(r.id.0) <==> r.holds(state),
        emits_for(rules_pass(rules, state, inst, start).emitted, r.id) <==> (r.holds(state)
            && !start.firing.contains(r.id.0)),
    decreases rules.len(),
{
    let t = rules.drop_last();
    let l = rules.last();
    let p = rules_pass(t, state, inst, start);
    assert(distinct_ids(t)) by {
        assert forall|i: int, j: int| 0 <= i < j < t.len() implies (#[trigger] t[i]).id != (#[trigger] t[j]).id by {
            assert(rules[i] == t[i]);
            assert(rules[j] == t[j]);
        }
    }
    if l == r && !t.contains(r) {
        assert(!has_id_value(t, r.id.0)) by {
            if has_id_value(t, r.id.0) {
                let i = choose|i: int| 0 <= i < t.len() && (#[trigger] t[i]).id.0 == r.id.0;
                assert(rules[i] == t[i]);
                assert(rules[i].id != rules[rules.len() - 1].id);
            }
        }
        lemma_pass_frame(t, state, inst, start, r.id.0);
        lemma_no_emission_without_rule(t, state, inst, start, r.id);
        let q = rule_step(p, l, state, inst);
        if r.holds(state) && !p.firing.contains(r.id.0) {
            assert(q.emitted[q.emitted.len() - 1].rule_id == r.id);
        }
    } else {
        let k = choose|k: int| 0 <= k < rules.len() && rules[k] == r;
        if k == rules.len() - 1 {
            assert(t.contains(r));
        } else {
            assert(t[k] == r);
        }
        let m = choose|m: int| 0 <= m < t.len() && t[m] == r;
        assert(rules[m] == r);
        assert(l.id != r.id) by {
            assert(rules[m].id != rules[rules.len() - 1].id);
        }
        lemma_rising_edge(t, state, inst, start, r);
        lemma_step_frame(p, l, state, inst, r.id.0, r.id);
        assert(l.id.0 != r.id.0);
    }
}

/// Rules that do not have a given id never emit for it.
proof fn lemma_no_emission_without_rule(rules: Seq<Rule>, state: InstrumentState, inst: Seq<char>, start: Pass, id: RuleId)
    requires
        !has_id_value(rules, id.0),
        start.emitted.len() == 0,
    ensures
        !emits_for(rules_pass(rules, state, inst, start).emitted, id),
    decreases rules.len(),
{
    if rules.len() > 0 {
        let t = rules.drop_last();
        assert(!has_id_value(t, id.0)) by {
            if has_id_value(t, id.0) {
                let i = choose|i: int| 0 <= i < t.len() && (#[trigger] t[i]).id.0 == id.0;
                assert(rules[i] == t[i]);
            }
        }
        lemma_no_emission_without_rule(t, state, inst, start, id);
        assert(rules[rules.len() - 1].id.0 != id.0);
        lemma_step_frame(rules_pass(t, state, inst, start), rules.last(), state, inst, id.0, id);
    }
}

/// Across two ticks of an instrument evaluated against the same candidate
/// rules, a rule fires on the second tick exactly when it holds on the
/// second state and did not hold on the first: one signal per rising edge,
/// none while the condition stays true, and a new one after it resets.
pub proof fn lemma_fires_once_per_rising_edge(
    rules: Seq<Rule>,
    first: InstrumentState,
    second: InstrumentState,
    inst: Seq<char>,
    start: Pass,
    r: Rule,
)
    requires
        distinct_ids(rules),
        rules.contains(r),
        start.emitted.len() == 0,
    ensures
        ({
            let p1 = rules_pass(rules, first, inst, start);
            let p2 = rules_pass(
                rules,
                second,
                inst,
                Pass { firing: p1.firing, emitted: Seq::empty(), sequence: p1.sequence, evaluations: p1.evaluations },
            );
            emits_for(p2.emitted, r.id) <==> (r.holds(second) && !r.holds(first))
        }),
{
    let p1 = rules_pass(rules, first, inst, start);
    lemma_rising_edge(rules, first, inst, start, r);
    let s2 = Pass { firing: p1.firing, emitted: Seq::empty(), sequence: p1.sequence, evaluations: p1.evaluations };
    lemma_rising_edge(rules, second, inst, s2, r);
}

/// Signals of one tick carry consecutive sequence numbers following the
/// engine's last one (wrapping at `u64::MAX`), and the engine's counter ends
/// at the last number handed out.
pub proof fn lemma_sequence_numbers(rules: Seq<Rule>, state: InstrumentState, inst: Seq<char>, start: Pass)
    requires
        start.emitted.len() == 0,
    ensures
        ({
            let p = rules_pass(rules, state, inst, start);
            &&& p.sequence as int == (start.sequence + p.emitted.len()) % 0x1_0000_0000_0000_0000
            &&& forall|k: int|
                0 <= k < p.emitted.len() ==> (#[trigger] p.emitted[k]).sequence as int == (start.sequence + k
                    + 1) % 0x1_0000_0000_0000_0000
        }),
    decreases rules.len(),
{
    if rules.len() > 0 {
        let t = rules.drop_last();
        lemma_sequence_numbers(t, state, inst, start);
        let p = rules_pass(t, state, inst, start);
        let q = rule_step(p, rules.last(), state, inst);
        assert forall|k: int| 0 <= k < q.emitted.len() implies (#[trigger] q.emitted[k]).sequence as int == (
        start.sequence + k + 1) % 0x1_0000_0000_0000_0000 by {
            if k < p.emitted.len() {
                assert(q.emitted[k] == p.emitted[k]);
            }
        }
    }
}

/// The signals of a tick: when the tick is processed (admitted, valid and
/// within capacity), a rule held by the index that applies to the tick's
/// instrument emits exactly when it holds on the instrument's updated state
/// and was not firing before the tick; no signal carries the id of a rule
/// that is not a candidate. Candidate rules are taken to have distinct ids.
pub proof fn lemma_tick_signals(eng: &ScanEngine, tick: &MarketTick, r: Rule, id: RuleId)
    requires
        eng.wf(),
        distinct_ids(eng.spec_index().candidate_rules(tick.instrument@)),
        eng.spec_index().holds_rule(r),
    ensures
        ({
            let entry = entry_after(eng.prior_entry(tick.instrument@), tick);
            let p = eng.evaluation(tick);
            &&& r.scope.covers(tick.instrument@) ==> (emits_for(p.emitted, r.id) <==> (r.holds(entry.0)
                && !entry.1.contains(r.id.0)))
            &&& r.scope.covers(tick.instrument@) ==> (p.firing.contains(r.id.0) <==> r.holds(entry.0))
            &&& emits_for(p.emitted, id) ==> has_id_value(eng.spec_index().candidate_rules(tick.instrument@), id.0)
        }),
{
    let inst = tick.instrument@;
    let idx = eng.spec_index();
    let rules = idx.candidate_rules(inst);
    let entry = entry_after(eng.prior_entry(inst), tick);
    let start = Pass { firing: entry.1, emitted: Seq::empty(), sequence: eng.spec_sequence(), evaluations: 0 };
    crate::index::lemma_candidates_are_applicable_rules(&idx, r, inst);
    if r.scope.covers(inst) {
        lemma_rising_edge(rules, entry.0, inst, start, r);
    }
    if !has_id_value(rules, id.0) {
        lemma_no_emission_without_rule(rules, entry.0, inst, start, id);
    }
}

/// Sequence numbers across ticks: the signals of a processed tick carry the
/// numbers following the engine's last one, in order (wrapping at
/// `u64::MAX`), and the engine's counter moves on to the last of them, so
/// the next tick continues from there.
pub proof fn lemma_tick_sequence(eng: &ScanEngine, tick: &MarketTick)
    ensures
        ({
            let p = eng.evaluation(tick);
            &&& p.sequence as int == (eng.spec_sequence() + p.emitted.len()) % 0x1_0000_0000_0000_0000
            &&& forall|k: int|
                0 <= k < p.emitted.len() ==> (#[trigger] p.emitted[k]).sequence as int == (eng.spec_sequence()
                    + k + 1) % 0x1_0000_0000_0000_0000
        }),
{
    let inst = tick.instrument@;
    let entry = entry_after(eng.prior_entry(inst), tick);
    let start = Pass { firing: entry.1, emitted: Seq::empty(), sequence: eng.spec_sequence(), evaluations: 0 };
    lemma_sequence_numbers(eng.spec_index().candidate_rules(inst), entry.0, inst, start);
}

/// The number of conditions of `rules`, all together.
pub open spec fn total_conditions(rules: Seq<Rule>) -> nat
    decreases rules.len(),
{
    if rules.len() == 0 {
        0
    } else {
        total_conditions(rules.drop_last()) + rules.last().conditions@.len()
    }
}

/// Evaluating rules counts every one of their conditions (wrapping at
/// `u64::MAX`).
proof fn lemma_pass_evaluations(rules: Seq<Rule>, state: InstrumentState, inst: Seq<char>, start: Pass)
    ensures
        rules_pass(rules, state, inst, start).evaluations as int == (start.evaluations + total_conditions(rules))
            % 0x1_0000_0000_0000_0000,
    decreases rules.len(),
{
    let m: int = 0x1_0000_0000_0000_0000;
    if rules.len() == 0 {
        vstd::arithmetic::div_mod::lemma_small_mod(start.evaluations as nat, m as nat);
    } else {
        let t = rules.drop_last();
        lemma_pass_evaluations(t, state, inst, start);
        let p = rules_pass(t, state, inst, start);
        let l = rules.last().conditions@.len();
        assert(rules.last().conditions.len() == l);
        assert(l < m);
        let w = p.evaluations.wrapping_add(l as u64);
        assert(w as int == (p.evaluations + l) % m) by {
            if p.evaluations + l < m {
                vstd::arithmetic::div_mod::lemma_small_mod((p.evaluations + l) as nat, m as nat);
            } else {
                vstd::arithmetic::div_mod::lemma_fundamental_div_mod(p.evaluations + l, m);
                assert(p.evaluations + l < 2 * m);
                assert((p.evaluations + l) / m == 1) by (nonlinear_arith)
                    requires
                        m <= p.evaluations + l < 2 * m,
                        m > 0,
                ;
            }
        }
        let a = start.evaluations + total_conditions(t);
        vstd::arithmetic::div_mod::lemma_add_mod_noop(a, l as int, m);
        vstd::arithmetic::div_mod::lemma_small_mod(l as nat, m as nat);
        vstd::arithmetic::div_mod::lemma_mod_twice(a, m);
        vstd::arithmetic::div_mod::lemma_add_mod_noop(a % m, l as int, m);
        assert(rule_step(p, rules.last(), state, inst).evaluations == w);
    }
}

/// The conditions evaluated for a processed tick: every condition of every
/// candidate rule, that is of every rule held that applies to the tick's
/// instrument, counted once (wrapping at `u64::MAX`).
pub proof fn lemma_tick_evaluations(eng: &ScanEngine, tick: &MarketTick)
    ensures
        eng.evaluation(tick).evaluations as int == total_conditions(
            eng.spec_index().candidate_rules(tick.instrument@),
        ) % 0x1_0000_0000_0000_0000,
{
    let inst = tick.instrument@;
    let entry = entry_after(eng.prior_entry(inst), tick);
    let start = Pass { firing: entry.1, emitted: Seq::empty(), sequence: eng.spec_sequence(), evaluations: 0 };
    lemma_pass_evaluations(eng.spec_index().candidate_rules(inst), entry.0, inst, start);
}

/// Every signal emitted while evaluating rules on `state` for `inst` names
/// `inst` and carries `state`'s last price.
proof fn lemma_pass_emissions(rules: Seq<Rule>, state: InstrumentState, inst: Seq<char>, start: Pass)
    requires
        start.emitted.len() == 0,
    ensures
        forall|k: int|
            0 <= k < rules_pass(rules, state, inst, start).emitted.len() ==> {
                &&& (#[trigger] rules_pass(rules, state, inst, start).emitted[k]).last_price == state.last
                &&& rules_pass(rules, state, inst, start).emitted[k].instrument == inst
            },
    decreases rules.len(),
{
    if rules.len() > 0 {
        let t = rules.drop_last();
        lemma_pass_emissions(t, state, inst, start);
        let p = rules_pass(t, state, inst, start);
        let q = rule_step(p, rules.last(), state, inst);
        assert forall|k: int| 0 <= k < q.emitted.len() implies {
            &&& (#[trigger] q.emitted[k]).last_price == state.last
            &&& q.emitted[k].instrument == inst
        } by {
            if k < p.emitted.len() {
                assert(q.emitted[k] == p.emitted[k]);
            }
        }
    }
}

/// A signal emitted while processing a tick is for the tick's instrument
/// and carries the price the rule fired at: the tick's own last price, which
/// is the instrument's last price once the tick is applied.
pub proof fn lemma_signals_carry_tick(eng: &ScanEngine, tick: &MarketTick)
    ensures
        forall|k: int|
            0 <= k < eng.evaluation(tick).emitted.len() ==> {
                &&& (#[trigger] eng.evaluation(tick).emitted[k]).last_price == tick.last_price
                &&& eng.evaluation(tick).emitted[k].instrument == tick.instrument@
            },
{
    let inst = tick.instrument@;
    let entry = entry_after(eng.prior_entry(inst), tick);
    let start = Pass { firing: entry.1, emitted: Seq::empty(), sequence: eng.spec_sequence(), evaluations: 0 };
    lemma_pass_emissions(eng.spec_index().candidate_rules(inst), entry.0, inst, start);
    assert(entry.0.last == tick.last_price);
}

} // verus!
