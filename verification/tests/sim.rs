use orderbook::sim::sim::{
    draw_quantity, quantity_bounds, update_price_history, QuantityTier, PRICE_HISTORY_LENGTH,
};
use std::collections::VecDeque;

#[test]
fn quantity_tiers() {
    assert_eq!(quantity_bounds(1, 50, QuantityTier::Small), (1, 12));
    assert_eq!(quantity_bounds(1, 50, QuantityTier::Medium), (12, 25));
    assert_eq!(quantity_bounds(1, 50, QuantityTier::Large), (25, 50));
    assert_eq!(quantity_bounds(1, 100, QuantityTier::Small), (1, 25));
    assert_eq!(quantity_bounds(5, 3, QuantityTier::Large), (1, 3));
}

#[test]
fn drawn_quantities_stay_within_their_tier() {
    for _ in 0..200 {
        let q = draw_quantity(1, 50, QuantityTier::Small).unwrap();
        assert!((1..=12).contains(&q));
        let q = draw_quantity(1, 50, QuantityTier::Medium).unwrap();
        assert!((12..=25).contains(&q));
        let q = draw_quantity(1, 50, QuantityTier::Large).unwrap();
        assert!((25..=50).contains(&q));
    }
    assert_eq!(draw_quantity(40, 160, QuantityTier::Small), Some(40));
}

#[test]
fn drawn_quantities_vary() {
    let mut seen = std::collections::BTreeSet::new();
    for _ in 0..200 {
        seen.insert(draw_quantity(1_000, 4_000_000, QuantityTier::Large).unwrap());
    }
    assert!(seen.len() > 1);
}

#[test]
fn empty_tier_draws_nothing() {
    assert_eq!(draw_quantity(1, 2, QuantityTier::Small), None);
    assert_eq!(draw_quantity(10, 20, QuantityTier::Small), None);
    assert!(draw_quantity(1, 2, QuantityTier::Medium).is_some());
}

#[test]
fn price_history_keeps_the_last_twenty() {
    assert_eq!(PRICE_HISTORY_LENGTH, 20);
    let mut history: VecDeque<f64> = VecDeque::new();
    for i in 0..20 {
        update_price_history(&mut history, i as f64);
    }
    assert_eq!(history.len(), 20);
    assert_eq!(history[0], 0.0);
    update_price_history(&mut history, 20.0);
    assert_eq!(history.len(), 20);
    assert_eq!(history[0], 1.0);
    assert_eq!(history[19], 20.0);
}
