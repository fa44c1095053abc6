use scanengine::TickGenerator;

#[test]
fn is_deterministic_for_a_given_seed() {
    let mut a = TickGenerator::new(8, 42);
    let mut b = TickGenerator::new(8, 42);
    for _ in 0..200 {
        let ta = a.next_tick();
        let tb = b.next_tick();
        assert_eq!(ta.instrument, tb.instrument);
        assert_eq!(ta.last_price, tb.last_price);
    }
}

#[test]
fn produces_valid_ticks() {
    let mut g = TickGenerator::new(16, 7);
    for _ in 0..1_000 {
        assert!(g.next_tick().validate().is_ok());
    }
}
