use scanengine::generator::load_rule;
use scanengine::model::{ComparatorGql, ConditionInput, FieldGql, RuleInput, RuleObject, SignalObject, StateObject, TickInput};
use scanengine::{
    BreakerState, Comparator, Condition, CoreError, Explainer, Field, HeuristicExplainer,
    InstrumentId, InstrumentState, InvalidRule, InvalidTick, MarketTick, PortError, RetryPolicy,
    Rule, RuleId, RuleIndex, ScanConfig, ScanEngine, Scope, Signal, TickGenerator, Timestamp,
    ManualClock, RateLimiter, RateLimited, CircuitBreaker,
};

fn tick(inst: &str, px: i64) -> MarketTick {
    MarketTick {
        instrument: InstrumentId::new(inst).unwrap(),
        last_price: px,
        volume: 7,
        exchange_time: Timestamp { secs: 0, nanos: 0 },
    }
}

fn gt_rule(name: &str, scope: Scope, threshold: i64) -> Rule {
    Rule::new(
        name,
        scope,
        vec![Condition { field: Field::LastPrice, comparator: Comparator::Gt, threshold }],
    )
    .unwrap()
}

#[test]
fn error_messages_are_exact() {
    assert_eq!(InvalidTick::EmptyInstrument.to_string(), "instrument identifier must not be empty");
    assert_eq!(InvalidTick::InstrumentTooLong(65).to_string(), "instrument identifier too long: 65 bytes");
    assert_eq!(InvalidTick::NegativePrice(-5).to_string(), "price must be non-negative, got -5");
    assert_eq!(InvalidRule::EmptyName.to_string(), "rule name must not be empty");
    assert_eq!(CoreError::CapacityExceeded(3).to_string(), "instrument capacity 3 exceeded");
    assert_eq!(CoreError::RateLimited.to_string(), "ingest rate limit exceeded");
    assert_eq!(
        CoreError::InvalidRule(InvalidRule::NoConditions).to_string(),
        "invalid rule: rule must have at least one condition"
    );
    assert_eq!(
        CoreError::Port(PortError::Transient("x".to_owned())).to_string(),
        "transient port error: x"
    );
}

#[test]
fn port_error_retryability() {
    assert!(PortError::Transient("t".to_owned()).is_retryable());
    assert!(PortError::Unavailable("u".to_owned()).is_retryable());
    assert!(!PortError::NotFound("n".to_owned()).is_retryable());
}

#[test]
fn instrument_errors_carry_byte_length() {
    assert_eq!(InstrumentId::new("x".repeat(65)).unwrap_err(), InvalidTick::InstrumentTooLong(65));
    // Each 'é' takes two bytes: 33 of them are 66 bytes.
    assert_eq!(InstrumentId::new("é".repeat(33)).unwrap_err(), InvalidTick::InstrumentTooLong(66));
    assert!(InstrumentId::new("x".repeat(64)).is_ok());
    assert_eq!(InstrumentId::new(String::new()).unwrap_err(), InvalidTick::EmptyInstrument);
}

#[test]
fn rule_validation_order() {
    assert_eq!(Rule::new("", Scope::Any, vec![]).unwrap_err(), InvalidRule::EmptyName);
    assert_eq!(Rule::new("n", Scope::Any, vec![]).unwrap_err(), InvalidRule::NoConditions);
}

#[test]
fn explanation_text_is_exact() {
    let s = Signal {
        rule_id: RuleId(1),
        rule_name: "Breakout".to_owned(),
        instrument: InstrumentId::new("NSE:TCS").unwrap(),
        sequence: 1,
        last_price: 105,
        pct_change_bps: 600,
        triggered_at: Timestamp { secs: 0, nanos: 0 },
    };
    assert_eq!(
        HeuristicExplainer::new().explain(&s),
        "Breakout triggered on NSE:TCS at price 105 (+6.00% from open) \u{2014} a strong upward move."
    );
    let dip = Signal { pct_change_bps: -5, ..s.clone() };
    assert!(HeuristicExplainer::new().explain(&dip).contains("(-0.05% from open)"));
    assert!(HeuristicExplainer::new().explain(&dip).contains("a mild dip"));
    let flat = Signal { pct_change_bps: 0, ..s };
    assert!(HeuristicExplainer::new().explain(&flat).contains("(+0.00% from open) \u{2014} a flat session."));
}

#[test]
fn momentum_boundaries() {
    assert_eq!(HeuristicExplainer::momentum(500), "a strong upward move");
    assert_eq!(HeuristicExplainer::momentum(499), "a moderate gain");
    assert_eq!(HeuristicExplainer::momentum(100), "a moderate gain");
    assert_eq!(HeuristicExplainer::momentum(1), "a mild uptick");
    assert_eq!(HeuristicExplainer::momentum(-99), "a mild dip");
    assert_eq!(HeuristicExplainer::momentum(-100), "a moderate decline");
    assert_eq!(HeuristicExplainer::momentum(-500), "a sharp sell-off");
}

#[test]
fn rule_id_text_is_hyphenated_uuid() {
    let id = RuleId(0x67e5504410b1426f9247bb680e5fe0c8);
    assert_eq!(id.to_string(), "67e55044-10b1-426f-9247-bb680e5fe0c8");
    assert_ne!(RuleId::new(), RuleId::new());
}

#[test]
fn pct_change_truncates_towards_zero() {
    let mut s = InstrumentState::from_first(&tick("A", 3));
    s.apply(&tick("A", 2));
    assert_eq!(s.pct_change_bps(), -3333);
    assert_eq!(s.prev_pct_change_bps(), 0);
    let z = InstrumentState::from_first(&tick("A", 0));
    assert_eq!(z.pct_change_bps(), 0);
}

#[test]
fn cross_below_and_volume_fields() {
    let mut s = InstrumentState::from_first(&tick("A", 100));
    s.apply(&tick("A", 90));
    let c = Condition { field: Field::LastPrice, comparator: Comparator::CrossBelow, threshold: 95 };
    assert!(c.evaluate(&s));
    assert_eq!(Field::Volume.current(&s), 7);
    assert_eq!(Field::LastPrice.previous(&s), 100);
    assert_eq!(s.updates, 2);
}

#[test]
fn engine_capacity_and_state() {
    let mut eng = ScanEngine::new(ScanConfig { max_instruments: 1, ..ScanConfig::default() });
    assert!(eng.process(tick("A", 10)).is_ok());
    let err = eng.process(tick("B", 10)).err().unwrap();
    assert_eq!(err, CoreError::CapacityExceeded(1));
    // A known instrument is still accepted.
    assert!(eng.process(tick("A", 11)).is_ok());
    let st = eng.state(&InstrumentId::new("A").unwrap()).unwrap();
    assert_eq!((st.open, st.last, st.prev_last, st.updates), (10, 11, 10, 2));
    assert!(eng.state(&InstrumentId::new("B").unwrap()).is_none());
    assert_eq!(eng.stats().ticks_rejected, 0);
}

#[test]
fn engine_rate_limits_ingest() {
    let mut eng = ScanEngine::new(ScanConfig { ingest_burst: 1, ingest_refill_per_sec: 0, ..ScanConfig::default() });
    assert!(eng.process(tick("A", 10)).is_ok());
    assert_eq!(eng.process(tick("A", 11)).err().unwrap(), CoreError::RateLimited);
    assert_eq!(eng.stats().ticks_rejected, 1);
}

#[test]
fn engine_sequences_and_counts() {
    let mut eng = ScanEngine::new(ScanConfig::default());
    eng.add_rule(gt_rule("a", Scope::Any, 5));
    eng.add_rule(gt_rule("b", Scope::Any, 6));
    let out = eng.process(tick("A", 10)).unwrap();
    let seqs: Vec<u64> = out.signals.iter().map(|s| s.sequence).collect();
    assert_eq!(seqs, vec![1, 2]);
    assert_eq!(out.evaluations, 2);
    assert_eq!(out.signals[0].rule_name, "a");
    assert_eq!(out.signals[0].last_price, 10);
    eng.record_processed(&out);
    let out = eng.process(tick("B", 10)).unwrap();
    assert_eq!(out.signals[0].sequence, 3);
    eng.record_processed(&out);
    let stats = eng.stats();
    assert_eq!(stats.ticks_processed, 2);
    assert_eq!(stats.signals_emitted, 4);
    assert_eq!(stats.evaluations, 4);
    assert_eq!(stats.rules, 2);
    assert_eq!(stats.instruments, 2);
}

#[test]
fn engine_remove_rule() {
    let mut eng = ScanEngine::new(ScanConfig::default());
    let id = eng.add_rule(gt_rule("a", Scope::Any, 5));
    assert!(eng.remove_rule(id, true));
    assert_eq!(eng.stats().rules, 0);
    assert!(!eng.remove_rule(id, false));
    assert!(eng.process(tick("A", 10)).unwrap().signals.is_empty());
}

#[test]
fn index_removes_scoped_rules() {
    let tcs = InstrumentId::new("NSE:TCS").unwrap();
    let mut idx = RuleIndex::new();
    let r = gt_rule("t", Scope::Instrument(tcs.clone()), 1);
    let id = r.id;
    idx.insert(r);
    idx.insert(gt_rule("u", Scope::Instrument(tcs.clone()), 2));
    assert_eq!(idx.candidates(&tcs).len(), 2);
    assert!(idx.remove(id));
    assert_eq!(idx.len(), 1);
    assert_eq!(idx.candidates(&tcs)[0].name, "u");
    assert!(idx.candidates(&InstrumentId::new("X").unwrap()).is_empty());
}

#[test]
fn limiter_refills_exactly_at_rate() {
    let mut rl = RateLimiter::with_clock(2, 1, ManualClock::new());
    assert!(rl.try_acquire_n(2).is_ok());
    rl.clock_mut().advance(500_000_000);
    assert_eq!(rl.try_acquire(), Err(RateLimited));
    rl.clock_mut().advance(500_000_000);
    assert!(rl.try_acquire().is_ok());
    assert_eq!(rl.try_acquire_n_at(10_000_000_000, 3), Err(RateLimited));
    assert!(rl.try_acquire_n_at(10_000_000_000, 2).is_ok());
}

#[test]
fn breaker_labels_and_threshold_floor() {
    assert_eq!(BreakerState::Closed.as_str(), "closed");
    assert_eq!(BreakerState::Open.as_str(), "open");
    assert_eq!(BreakerState::HalfOpen.as_str(), "half_open");
    let mut cb = CircuitBreaker::with_clock(0, 10, ManualClock::new());
    cb.on_failure();
    assert_eq!(cb.state(), BreakerState::Open);
    assert!(cb.acquire_at(9).is_err());
    assert!(cb.acquire_at(10).is_ok());
}

#[test]
fn backoff_is_equal_jitter() {
    let p = RetryPolicy { max_attempts: 5, base_delay: 1_000_000, max_delay: 4_000_000 };
    assert_eq!(p.backoff_jittered(0, 0), 500_000);
    assert_eq!(p.backoff_jittered(0, 7), 500_007);
    assert_eq!(p.backoff_jittered(0, 500_001), 500_000);
    assert_eq!(p.backoff_jittered(5, 0), 2_000_000);
    let d = p.backoff(1);
    assert!((1_000_000..=2_000_000).contains(&d));
    let q = RetryPolicy::default();
    assert_eq!((q.max_attempts, q.base_delay, q.max_delay), (3, 20_000_000, 1_000_000_000));
}

#[test]
fn retry_delay_stops_at_budget() {
    let p = RetryPolicy { max_attempts: 3, base_delay: 0, max_delay: 0 };
    assert_eq!(p.retry_delay(1, true), Some(0));
    assert_eq!(p.retry_delay(2, true), Some(0));
    assert_eq!(p.retry_delay(3, true), None);
    assert_eq!(p.retry_delay(1, false), None);
}

#[test]
fn generator_names_and_prices() {
    let mut g = TickGenerator::new(0, 5);
    assert_eq!(g.instrument_count(), 1);
    let t = g.next_tick();
    assert_eq!(t.instrument.as_str(), "SIM:000000");
    assert!(t.volume < 1_000_000);
    let mut g = TickGenerator::new(3, 5);
    let names: Vec<String> = (0..3).map(|_| g.next_tick().instrument.as_str().to_owned()).collect();
    assert_eq!(names, vec!["SIM:000000", "SIM:000001", "SIM:000002"]);
    for _ in 0..500 {
        let p = g.next_tick().last_price;
        assert!((1..=549).contains(&p));
    }
}

#[test]
fn load_rules_follow_threshold_schedule() {
    let r = load_rule(3);
    assert_eq!(r.name, "rule-3");
    assert_eq!(r.conditions[0].threshold, 215);
    assert_eq!(r.conditions[0].comparator, Comparator::CrossAbove);
    assert_eq!(load_rule(2000).conditions[0].threshold, 200);
}

#[test]
fn api_model_conversions() {
    let input = RuleInput {
        name: "n".to_owned(),
        instrument: Some("NSE:TCS".to_owned()),
        conditions: vec![ConditionInput { field: FieldGql::PctChangeBps, comparator: ComparatorGql::Lte, threshold: 3 }],
    };
    let (name, scope, conditions) = input.into_parts().unwrap();
    assert_eq!(name, "n");
    assert_eq!(scope, Scope::Instrument(InstrumentId::new("NSE:TCS").unwrap()));
    assert_eq!(conditions, vec![Condition { field: Field::PctChangeBps, comparator: Comparator::Lte, threshold: 3 }]);
    let bad = RuleInput { name: "n".to_owned(), instrument: Some(String::new()), conditions: vec![] };
    assert_eq!(bad.into_parts().unwrap_err(), InvalidTick::EmptyInstrument);

    let rule = Rule::new("r", Scope::Any, conditions).unwrap();
    let obj = RuleObject::from_rule(rule);
    assert_eq!(obj.scope, "*");
    assert_eq!(obj.conditions[0].field, "PctChangeBps");
    assert_eq!(obj.conditions[0].comparator, "Lte");
    assert_eq!(obj.id.len(), 36);

    let t = TickInput { instrument: "NSE:TCS".to_owned(), last_price: 5, volume: 1 }.into_tick().unwrap();
    assert_eq!((t.instrument.as_str(), t.last_price, t.volume), ("NSE:TCS", 5, 1));

    let mut s = InstrumentState::from_first(&tick("A", 100));
    s.apply(&tick("A", 105));
    assert_eq!(StateObject::from_state(s).pct_change_bps, 500);

    let sig = Signal {
        rule_id: RuleId(0),
        rule_name: "x".to_owned(),
        instrument: InstrumentId::new("A").unwrap(),
        sequence: 9,
        last_price: 1,
        pct_change_bps: 0,
        triggered_at: Timestamp { secs: 0, nanos: 0 },
    };
    let so = SignalObject::from_signal(sig);
    assert_eq!(so.triggered_at, "1970-01-01T00:00:00+00:00");
    assert_eq!(so.rule_id, "00000000-0000-0000-0000-000000000000");
    assert!(so.explanation.starts_with("x triggered on A at price 1"));
}

#[test]
fn subscription_filter_selects_listed_rules() {
    let wanted = RuleId(1);
    let other = RuleId(2);
    let sig = Signal {
        rule_id: wanted,
        rule_name: "r".to_owned(),
        instrument: InstrumentId::new("NSE:TCS").unwrap(),
        sequence: 1,
        last_price: 100,
        pct_change_bps: 0,
        triggered_at: Timestamp { secs: 0, nanos: 0 },
    };
    assert!(sig.selected_by(&vec![]));
    assert!(sig.selected_by(&vec![other, wanted]));
    assert!(!sig.selected_by(&vec![other]));
}

#[test]
fn for_each_candidate_visits_any_then_scoped() {
    let tcs = InstrumentId::new("NSE:TCS").unwrap();
    let infy = InstrumentId::new("NSE:INFY").unwrap();
    let mut idx = RuleIndex::new();
    idx.insert(gt_rule("scoped", Scope::Instrument(tcs.clone()), 1));
    idx.insert(gt_rule("any", Scope::Any, 1));
    idx.insert(gt_rule("other", Scope::Instrument(infy), 1));
    let mut seen: Vec<String> = Vec::new();
    idx.for_each_candidate(&tcs, |r| seen.push(r.name.clone()));
    assert_eq!(seen, vec!["any".to_owned(), "scoped".to_owned()]);
}

#[test]
fn instrument_converts_to_and_from_text() {
    let id = InstrumentId::try_from("NSE:TCS".to_owned()).unwrap();
    assert_eq!(String::from(id), "NSE:TCS");
    assert_eq!(InstrumentId::try_from(String::new()), Err(InvalidTick::EmptyInstrument));
    assert_eq!(InstrumentId::try_from("X".repeat(65)), Err(InvalidTick::InstrumentTooLong(65)));
}

#[test]
fn engine_keeps_session_bounds() {
    let mut eng = ScanEngine::new(ScanConfig::default());
    for px in [100, 130, 80, 95] {
        assert!(eng.process(tick("A", px)).is_ok());
    }
    let st = eng.state(&InstrumentId::new("A").unwrap()).unwrap();
    assert_eq!((st.open, st.high, st.low, st.last, st.prev_last), (100, 130, 80, 95, 80));
    assert!(st.low <= st.open && st.open <= st.high);
}

#[test]
fn half_open_admits_a_single_trial_call() {
    let mut cb = CircuitBreaker::with_clock(1, 1_000_000_000, ManualClock::new());
    cb.on_failure();
    cb.clock_mut().advance(1_000_000_000);
    assert_eq!(cb.state(), BreakerState::HalfOpen);
    assert!(cb.acquire().is_ok());
    assert!(cb.acquire().is_err());
    assert_eq!(cb.state(), BreakerState::HalfOpen);
    cb.on_success();
    assert!(cb.acquire().is_ok());
    assert!(cb.acquire().is_ok());
}

#[test]
fn large_prices_are_processed() {
    let mut eng = ScanEngine::new(ScanConfig::default());
    eng.add_rule(gt_rule("big", Scope::Any, 1_000_000_000_000_000));
    assert!(eng.process(tick("A", 1_000_000_000_000_000)).unwrap().signals.is_empty());
    let out = eng.process(tick("A", 1_500_000_000_000_000)).unwrap();
    assert_eq!(out.signals.len(), 1);
    assert_eq!(out.signals[0].pct_change_bps, 5_000);
    let st = eng.state(&InstrumentId::new("A").unwrap()).unwrap();
    assert_eq!(st.pct_change_bps(), 5_000);
}

#[test]
fn pct_change_clamps_beyond_i64() {
    let mut s = InstrumentState::from_first(&tick("A", 1));
    s.apply(&tick("A", i64::MAX));
    assert_eq!(s.pct_change_bps(), i64::MAX);
    assert_eq!(s.prev_pct_change_bps(), 0);
}

#[test]
fn remove_drops_every_rule_with_the_id() {
    let tcs = InstrumentId::new("NSE:TCS").unwrap();
    let mut idx = RuleIndex::new();
    let a = gt_rule("a", Scope::Any, 1);
    let mut twin = gt_rule("twin", Scope::Instrument(tcs.clone()), 1);
    twin.id = a.id;
    idx.insert(a.clone());
    idx.insert(twin);
    idx.insert(gt_rule("other", Scope::Any, 1));
    assert_eq!(idx.len(), 3);
    assert!(idx.remove(a.id));
    assert_eq!(idx.len(), 1);
    assert!(!idx.remove(a.id));
    assert_eq!(idx.len(), 1);
}

#[test]
fn instrument_text_round_trip() {
    let id = InstrumentId::new("NSE:TCS").unwrap();
    let text = String::from(id.clone());
    assert_eq!(InstrumentId::try_from(text), Ok(id));
    assert_eq!(InstrumentId::new("NSE:TCS".to_owned()), InstrumentId::try_from("NSE:TCS".to_owned()));
}

#[test]
fn removed_rule_is_never_evaluated_again() {
    let mut eng = ScanEngine::new(ScanConfig::default());
    let id = eng.add_rule(gt_rule("above-5", Scope::Any, 5));
    assert_eq!(eng.process(tick("A", 10)).unwrap().signals.len(), 1);
    assert!(eng.remove_rule(id, true));
    let out = eng.process(tick("A", 3)).unwrap();
    assert_eq!(out.evaluations, 0);
    let out = eng.process(tick("A", 20)).unwrap();
    assert!(out.signals.is_empty());
    assert_eq!(out.evaluations, 0);
}

fn explained_with(bps: i64) -> String {
    let s = Signal {
        rule_id: RuleId(7),
        rule_name: "r".to_owned(),
        instrument: InstrumentId::new("X").unwrap(),
        sequence: 1,
        last_price: 5,
        pct_change_bps: bps,
        triggered_at: Timestamp { secs: 0, nanos: 0 },
    };
    HeuristicExplainer::new().explain(&s)
}

fn float_rendering(bps: i64) -> String {
    format!(
        "r triggered on X at price 5 ({:+.2}% from open) \u{2014} {}.",
        bps as f64 / 100.0,
        HeuristicExplainer::momentum(bps)
    )
}

#[test]
fn percentage_matches_float_rendering() {
    let mut cases: Vec<i64> = vec![i64::MIN, i64::MIN + 1, i64::MAX, i64::MAX - 1, 9_007_199_254_740_993];
    for b in -3000..3000 {
        cases.push(b);
    }
    for e in 40..63 {
        let p = 1i64 << e;
        for d in [-3i64, -2, -1, 0, 1, 2, 3, 50, 99, 100, 101, 150, 250] {
            cases.push(p + d);
            cases.push(-(p + d));
            cases.push(p / 2 * 3 + d);
        }
    }
    let mut x: u64 = 0x9E37_79B9_7F4A_7C15;
    for _ in 0..200_000 {
        x = x.wrapping_mul(6_364_136_223_846_793_005).wrapping_add(1_442_695_040_888_963_407);
        let shift = (x >> 58) as u32;
        cases.push(((x >> 1) as i64) >> shift);
        cases.push(-(((x >> 1) as i64) >> shift));
    }
    for b in cases {
        assert_eq!(explained_with(b), float_rendering(b), "bps {}", b);
    }
}

#[test]
fn rule_ids_are_version_4_uuids() {
    for _ in 0..64 {
        let id = RuleId::new();
        assert_eq!((id.0 >> 76) & 0xf, 4);
        assert_eq!((id.0 >> 62) & 0x3, 2);
        let text = id.to_string();
        assert_eq!(text.as_bytes()[14], b'4');
        assert_ne!(RuleId::new(), id);
    }
    let d = RuleId::default();
    assert_eq!((d.0 >> 76) & 0xf, 4);
}

#[test]
fn timestamps_from_unix_offsets() {
    assert_eq!(Timestamp::from_unix_nanos(false, 1_500_000_000), Timestamp { secs: 1, nanos: 500_000_000 });
    assert_eq!(Timestamp::from_unix_nanos(true, 1_500_000_000), Timestamp { secs: -2, nanos: 500_000_000 });
    assert_eq!(Timestamp::from_unix_nanos(true, 2_000_000_000), Timestamp { secs: -2, nanos: 0 });
    assert_eq!(Timestamp::from_unix_nanos(false, u128::MAX), Timestamp { secs: i64::MAX, nanos: 999_999_999 });
    assert_eq!(Timestamp::from_unix_nanos(true, u128::MAX), Timestamp { secs: i64::MIN, nanos: 0 });
    let now = Timestamp::now();
    assert!(now.secs > 1_600_000_000);
    assert!(now.nanos < 1_000_000_000);
}

#[test]
fn unrepresentable_signal_time_reads_empty() {
    let sig = Signal {
        rule_id: RuleId(0),
        rule_name: "x".to_owned(),
        instrument: InstrumentId::new("A").unwrap(),
        sequence: 1,
        last_price: 1,
        pct_change_bps: 0,
        triggered_at: Timestamp { secs: i64::MAX, nanos: 0 },
    };
    assert_eq!(SignalObject::from_signal(sig).triggered_at, "");
    let ok = Signal {
        rule_id: RuleId(0),
        rule_name: "x".to_owned(),
        instrument: InstrumentId::new("A").unwrap(),
        sequence: 1,
        last_price: 1,
        pct_change_bps: 0,
        triggered_at: Timestamp { secs: 1_700_000_000, nanos: 5 },
    };
    assert_eq!(SignalObject::from_signal(ok).triggered_at, "2023-11-14T22:13:20.000000005+00:00");
}
