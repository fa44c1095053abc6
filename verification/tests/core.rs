use scanengine::{
    Comparator, Condition, CoreError, Explainer, Field, HeuristicExplainer, InstrumentId,
    MarketTick, Rule, RuleId, RuleIndex, ScanConfig, ScanEngine, Scope, Signal, Timestamp,
};

fn tick(inst: &str, px: i64) -> MarketTick {
    MarketTick {
        instrument: InstrumentId::new(inst).unwrap(),
        last_price: px,
        volume: 100,
        exchange_time: Timestamp::now(),
    }
}

fn engine() -> ScanEngine {
    ScanEngine::new(ScanConfig::default())
}

/// Process a tick the way the service does once every signal has been
/// delivered: evaluate, then record it.
fn process(eng: &mut ScanEngine, t: MarketTick) -> Result<Vec<Signal>, CoreError> {
    let outcome = eng.process(t)?;
    eng.record_processed(&outcome);
    Ok(outcome.signals)
}

#[test]
fn fires_once_on_rising_edge_then_resets() {
    let mut eng = engine();
    eng.add_rule(
        Rule::new(
            "above-105",
            Scope::Any,
            vec![Condition {
                field: Field::LastPrice,
                comparator: Comparator::Gt,
                threshold: 105,
            }],
        )
        .unwrap(),
    );

    // Seed at 100 (below threshold) -> no signal.
    assert!(process(&mut eng, tick("NSE:TCS", 100)).unwrap().is_empty());
    // Cross to 110 -> exactly one signal (rising edge).
    assert_eq!(process(&mut eng, tick("NSE:TCS", 110)).unwrap().len(), 1);
    // Stay above -> no new signal (already firing).
    assert!(process(&mut eng, tick("NSE:TCS", 111)).unwrap().is_empty());
    // Drop below -> resets firing state.
    assert!(process(&mut eng, tick("NSE:TCS", 100)).unwrap().is_empty());
    // Cross again -> fires again.
    assert_eq!(process(&mut eng, tick("NSE:TCS", 120)).unwrap().len(), 1);

    assert_eq!(eng.stats().signals_emitted, 2);
}

#[test]
fn rejects_negative_price() {
    let mut eng = engine();
    let err = process(&mut eng, tick("NSE:TCS", -1)).unwrap_err();
    assert!(matches!(err, CoreError::InvalidTick(_)));
    assert_eq!(eng.stats().ticks_rejected, 1);
}

#[test]
fn scoped_rule_ignores_other_instruments() {
    let mut eng = engine();
    eng.add_rule(
        Rule::new(
            "tcs-only",
            Scope::Instrument(InstrumentId::new("NSE:TCS").unwrap()),
            vec![Condition {
                field: Field::LastPrice,
                comparator: Comparator::Gt,
                threshold: 50,
            }],
        )
        .unwrap(),
    );
    // INFY is out of scope -> no signal even though price > 50.
    assert!(process(&mut eng, tick("NSE:INFY", 100)).unwrap().is_empty());
    // TCS in scope -> fires.
    assert_eq!(process(&mut eng, tick("NSE:TCS", 100)).unwrap().len(), 1);
}

fn signal(bps: i64) -> Signal {
    Signal {
        rule_id: RuleId::new(),
        rule_name: "Breakout".to_owned(),
        instrument: InstrumentId::new("NSE:TCS").unwrap(),
        sequence: 1,
        last_price: 105,
        pct_change_bps: bps,
        triggered_at: Timestamp::now(),
    }
}

#[test]
fn explains_upward_momentum() {
    let text = HeuristicExplainer::new().explain(&signal(600));
    assert!(text.contains("Breakout"));
    assert!(text.contains("NSE:TCS"));
    assert!(text.contains("strong upward move"));
}

#[test]
fn explains_sell_off() {
    let text = HeuristicExplainer::new().explain(&signal(-800));
    assert!(text.contains("sharp sell-off"));
}

fn rule(scope: Scope) -> Rule {
    Rule::new(
        "r",
        scope,
        vec![Condition {
            field: Field::LastPrice,
            comparator: Comparator::Gt,
            threshold: 1,
        }],
    )
    .unwrap()
}

#[test]
fn candidates_include_any_and_scoped() {
    let tcs = InstrumentId::new("NSE:TCS").unwrap();
    let infy = InstrumentId::new("NSE:INFY").unwrap();
    let mut idx = RuleIndex::new();
    idx.insert(rule(Scope::Any));
    idx.insert(rule(Scope::Instrument(tcs.clone())));
    idx.insert(rule(Scope::Instrument(infy.clone())));
    assert_eq!(idx.len(), 3);
    assert_eq!(idx.candidates(&tcs).len(), 2); // any + tcs
    assert_eq!(idx.candidates(&infy).len(), 2); // any + infy
}

#[test]
fn remove_prunes() {
    let mut idx = RuleIndex::new();
    let r = rule(Scope::Any);
    let id = r.id;
    idx.insert(r);
    assert!(idx.remove(id));
    assert!(!idx.remove(id));
    assert!(idx.is_empty());
}
