use commit_miner::cost::{price, CostEstimate};

#[test]
fn known_prices_and_usage() {
    let p = price("jev-1.13.0").unwrap();
    assert_eq!(f64::from_bits(p.input_per_million_usd), 0.042);
    assert_eq!(f64::from_bits(p.output_per_million_usd), 0.0);
    assert_eq!(p.checked_on, "2026-09-17");
    assert!(price("jev-1.12").is_some());
    assert!(price("jev-latest").is_none());
    let mut cost = CostEstimate::new();
    cost.record("jev-1.13.0", 100_000, 99_999);
    cost.record("jev-future", 10, 0);
    cost.record("jev-1.13.0", 900_000, 1);
    assert_eq!(cost.models.len(), 2);
    assert_eq!(cost.models[0].0, "jev-1.13.0");
    assert_eq!((cost.models[0].1.input_tokens, cost.models[0].1.output_tokens), (1_000_000, 100_000));
    assert!(cost.models[1].1.price.is_none());
}

/// The dollar figure of what the library recorded: tokens times the recorded prices.
fn usd(cost: &CostEstimate) -> Option<f64> {
    if cost.models.is_empty() {
        return None;
    }
    cost.models.iter().try_fold(0., |sum, (_, usage)| {
        let p = usage.price.as_ref()?;
        Some(
            sum + (usage.input_tokens as f64 * f64::from_bits(p.input_per_million_usd)
                + usage.output_tokens as f64 * f64::from_bits(p.output_per_million_usd))
                / 1_000_000.,
        )
    })
}

#[test]
fn calculates_reported_tokens_and_preserves_the_price_snapshot() {
    let mut cost = CostEstimate::new();
    cost.record("jev-1.13.0", 100_000, 99_999);
    assert!((usd(&cost).unwrap() - 0.0042).abs() < 1e-12);
    cost.record("jev-1.13.0", 900_000, 1);
    assert_eq!(cost.models.len(), 1);
    assert_eq!(cost.models[0].1.price.as_ref().unwrap().checked_on, "2026-09-17");
    assert!((usd(&cost).unwrap() - 0.042).abs() < 1e-12);
}

#[test]
fn unknown_models_and_tiny_costs_are_not_shown_as_free() {
    let mut cost = CostEstimate::new();
    cost.record("jev-1.13.0", 1, 0);
    let tiny = usd(&cost).unwrap();
    assert!(tiny > 0. && tiny < 0.000001);
    cost.record("jev-future", 10, 0);
    assert!(cost.models[1].1.price.is_none());
    assert_eq!(usd(&cost), None);
    assert!(price("jev-latest").is_none());
}
