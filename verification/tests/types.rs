use scanengine::{
    Comparator, Condition, Field, InstrumentId, InstrumentState, MarketTick, Price, Rule, Scope,
    Timestamp,
};

fn tick(px: i64, vol: u64) -> MarketTick {
    MarketTick {
        instrument: InstrumentId::new("NSE:TCS").unwrap(),
        last_price: px,
        volume: vol,
        exchange_time: Timestamp::now(),
    }
}

fn state(open: i64, prev: i64, last: i64) -> InstrumentState {
    let t = MarketTick {
        instrument: InstrumentId::new("X").unwrap(),
        last_price: open,
        volume: 0,
        exchange_time: Timestamp::now(),
    };
    let mut s = InstrumentState::from_first(&t);
    s.prev_last = prev;
    s.last = last;
    if last > s.high {
        s.high = last;
    }
    if last < s.low {
        s.low = last;
    }
    s
}

#[test]
fn cross_above_is_rising_edge_only() {
    let c = Condition {
        field: Field::LastPrice,
        comparator: Comparator::CrossAbove,
        threshold: 100,
    };
    assert!(c.evaluate(&state(90, 99, 101))); // crossed up
    assert!(!c.evaluate(&state(90, 101, 102))); // already above
}

#[test]
fn rule_is_conjunction() {
    let rule = Rule::new(
        "breakout",
        Scope::Any,
        vec![
            Condition {
                field: Field::LastPrice,
                comparator: Comparator::Gt,
                threshold: 100,
            },
            Condition {
                field: Field::PctChangeBps,
                comparator: Comparator::Gte,
                threshold: 200,
            },
        ],
    )
    .unwrap();
    // open 100, last 105 => +500 bps, price 105 > 100
    assert!(rule.matches(&state(100, 104, 105)));
    // last 101 => +100 bps < 200 bps
    assert!(!rule.matches(&state(100, 100, 101)));
}

#[test]
fn rule_validation() {
    assert!(Rule::new("", Scope::Any, vec![]).is_err());
    assert!(Rule::new("n", Scope::Any, vec![]).is_err());
}

#[test]
fn state_tracks_ohlc_and_prev() {
    let mut s = InstrumentState::from_first(&tick(100, 10));
    s.apply(&tick(120, 20));
    s.apply(&tick(90, 30));
    assert_eq!(s.high, 120);
    assert_eq!(s.low, 90);
    assert_eq!(s.open, 100);
    assert_eq!(s.last, 90);
    assert_eq!(s.prev_last, 120);
}

#[test]
fn pct_change_in_bps() {
    let mut s = InstrumentState::from_first(&tick(100, 0));
    s.apply(&tick(105, 0));
    assert_eq!(s.pct_change_bps(), 500);
}

#[test]
fn instrument_validation() {
    assert!(InstrumentId::new("").is_err());
    assert!(InstrumentId::new("x".repeat(65)).is_err());
    assert_eq!(InstrumentId::new("NSE:TCS").unwrap().as_str(), "NSE:TCS");
}

#[test]
fn price_rejects_negative() {
    assert!(Price::new(-1).is_err());
    assert_eq!(Price::new(10).unwrap().ticks(), 10);
}
