use moni_strategy_beta::decimal::Decimal;
use moni_strategy_beta::error::StrategyError;
use moni_strategy_beta::gate::{
    all_keys, CalibrationSample, CircuitState, DurationBucket, Gate, GateKey, GateState,
};
use moni_strategy_beta::pricing::Direction;

fn sample(index: usize, profit: i64) -> CalibrationSample {
    CalibrationSample {
        episode_id: format!("episode-{index}"),
        observed_at_ms: index as i64,
        terminal: true,
        valid_data: true,
        unresolved_orphan: false,
        net_profit: Decimal::new(profit, 2),
        slippage: Decimal::new(index as i64, 4),
        latency_cost: Decimal::new(1, 3),
        orphan_loss: Decimal::zero(),
    }
}

#[test]
fn unlocks_only_after_independent_mature_profitable_coverage() {
    let key = GateKey { direction: Direction::BuyMerge, bucket: DurationBucket::Under15m };
    let mut state = GateState::default();
    for index in 0..100 {
        assert!(state.record(key, sample(index, 1)));
        assert!(!state.record(key, sample(index, 1)));
    }
    let status = state.evaluate(key, 24 * 60 * 60 * 1_000, 24, 100, Decimal::new(99, 2));
    assert!(status.unlocked);
    assert_eq!(status.independent_cycles, 100);
}

#[test]
fn measures_of_a_gate_are_exact() {
    let key = GateKey { direction: Direction::BuyMerge, bucket: DurationBucket::Under15m };
    let mut state = GateState::default();
    for index in 0..100 {
        let mut one = sample(index, index as i64);
        one.valid_data = index != 50;
        assert!(state.record(key, one));
    }
    let status = state.evaluate(key, 1_000, 24, 100, Decimal::new(99, 2)).clone();
    assert!(!status.unlocked);
    assert_eq!(status.relock_reason, None);
    assert_eq!(status.valid_coverage, Decimal::new(99, 2));
    // 0 + 1 + ... + 99 - 50 cents
    assert_eq!(status.aggregate_profit, Decimal::new(4_900, 2));
    // 99 values, 49 of them below and 49 above the middle one
    assert_eq!(status.median_profit, Decimal::new(49, 2));
    assert_eq!(status.reserves.slippage_p99, Decimal::new(98, 4));
    assert_eq!(status.reserves.latency_p99, Decimal::new(1, 3));

}

#[test]
fn a_gate_that_is_too_young_stays_locked() {
    let key = GateKey { direction: Direction::BuyMerge, bucket: DurationBucket::Under15m };
    let mut state = GateState::default();
    for index in 1..101 {
        state.record(key, sample(index, 1));
    }
    let day = 24 * 60 * 60 * 1_000;
    assert!(!state.evaluate(key, day, 24, 100, Decimal::new(99, 2)).unlocked);
    assert!(state.evaluate(key, day + 1, 24, 100, Decimal::new(99, 2)).unlocked);
    assert!(!state.evaluate(key, day + 1, 24, 101, Decimal::new(99, 2)).unlocked);
}

#[test]
fn the_mean_of_the_middle_two_is_taken() {
    let key = GateKey { direction: Direction::BuyMerge, bucket: DurationBucket::Under15m };
    let mut state = GateState::default();
    for (index, profit) in [(0, 7), (1, 1), (2, 4), (3, 5)] {
        state.record(key, sample(index, profit));
    }
    let status = state.evaluate(key, 1, 24, 100, Decimal::zero());
    assert_eq!(status.median_profit, Decimal::new(45, 3));
    assert_eq!(status.aggregate_profit, Decimal::new(17, 2));
}

#[test]
fn invalid_data_and_orphan_relock() {
    let key = GateKey { direction: Direction::SplitSell, bucket: DurationBucket::From1hTo6h };
    let mut state = GateState::default();
    let mut invalid = sample(0, 1);
    invalid.valid_data = false;
    state.record(key, invalid);
    let status = state.evaluate(key, 100_000_000, 24, 1, Decimal::zero());
    assert!(!status.unlocked);
    assert_eq!(status.relock_reason.as_deref(), Some("invalid_data"));
}

#[test]
fn orphans_and_losses_relock() {
    let key = GateKey { direction: Direction::SplitSell, bucket: DurationBucket::From1hTo6h };
    let mut state = GateState::default();
    let mut orphan = sample(0, 1);
    orphan.unresolved_orphan = true;
    state.record(key, orphan);
    let status = state.evaluate(key, 100_000_000, 24, 1, Decimal::zero());
    assert_eq!(status.relock_reason.as_deref(), Some("unresolved_orphan"));
    state.record(key, sample(1, -1));
    let status = state.evaluate(key, 100_000_000, 24, 2, Decimal::zero());
    assert_eq!(status.relock_reason.as_deref(), Some("non_positive_aggregate_profit"));
    assert!(!status.unlocked);
}

#[test]
fn ages_that_cannot_be_counted_are_told_apart() {
    let key = GateKey { direction: Direction::SplitSell, bucket: DurationBucket::From1hTo6h };
    let mut state = GateState::default();
    assert!(state.try_evaluate(key, 5, u64::MAX, 100, Decimal::zero()).is_none());
    assert!(state.status(key).is_none());
    let status = state.try_evaluate(key, 5, 24, 100, Decimal::zero()).unwrap();
    assert_eq!(status.first_observed_at_ms, 5);
    assert!(state.status(key).is_some());
}

#[test]
fn relocking_keeps_the_measures() {
    let key = GateKey { direction: Direction::BuyMerge, bucket: DurationBucket::Under15m };
    let other = GateKey { direction: Direction::SplitSell, bucket: DurationBucket::Under15m };
    let mut state = GateState::default();
    for index in 0..100 {
        state.record(key, sample(index, 1));
    }
    assert!(state.evaluate(key, 86_400_000, 24, 100, Decimal::zero()).unlocked);
    state.relock_all("daily_loss_limit");
    let locked = state.status(key).unwrap();
    assert!(!locked.unlocked);
    assert_eq!(locked.relock_reason.as_deref(), Some("daily_loss_limit"));
    assert_eq!(locked.independent_cycles, 100);
    assert!(state.status(other).is_none());
    state.relock(other, "invalid_data");
    let summaries = state.summaries();
    assert_eq!(summaries.len(), 2);
    assert_eq!(summaries[0].0, key);
    assert_eq!(summaries[1].0, other);
    assert_eq!(summaries[1].1.relock_reason.as_deref(), Some("invalid_data"));
}

#[test]
fn restored_gates_still_know_their_episodes() {
    let key = GateKey { direction: Direction::SplitSell, bucket: DurationBucket::From1hTo6h };
    let mut state = GateState::default();
    assert!(state.record(key, sample(1, 1)));
    let held = state.get(key);
    let mut copy = Gate::new();
    copy.samples = held.samples.clone();
    for i in 0..held.episodes.len() {
        copy.episodes.insert(held.episodes.item_at(i).clone());
    }
    let mut restored = GateState::default();
    restored.restore(key, copy);
    assert!(!restored.record(key, sample(1, 1)));
    assert!(restored.record(key, sample(2, 1)));
}

#[test]
fn keys_round_trip_through_their_text() {
    let keys = all_keys();
    assert_eq!(keys.len(), 8);
    for key in &keys {
        assert_eq!(GateKey::from_text(&key.to_text()), Ok(*key));
    }
    assert_eq!(keys[0].to_text(), "buy_merge:under_15m");
    assert_eq!(keys[7].to_text(), "split_sell:6h_to_24h");
    assert_eq!(GateKey::from_text("buy_merge"), Err(StrategyError::InvalidGateKey));
    assert_eq!(GateKey::from_text(":under_15m"), Err(StrategyError::InvalidGateDirection));
    assert_eq!(GateKey::from_text("buy_merge:"), Err(StrategyError::InvalidGateBucket));
    assert_eq!(GateKey::from_text("buy_merge:under_15m:"), Err(StrategyError::InvalidGateBucket));
}

#[test]
fn durations_fall_into_buckets() {
    let bucket = DurationBucket::from_remaining_ms;
    assert_eq!(bucket(0), None);
    assert_eq!(bucket(-5), None);
    assert_eq!(bucket(1), Some(DurationBucket::Under15m));
    assert_eq!(bucket(899_999), Some(DurationBucket::Under15m));
    assert_eq!(bucket(900_000), Some(DurationBucket::From15mTo1h));
    assert_eq!(bucket(3_599_999), Some(DurationBucket::From15mTo1h));
    assert_eq!(bucket(3_600_000), Some(DurationBucket::From1hTo6h));
    assert_eq!(bucket(21_600_000), Some(DurationBucket::From6hTo24h));
    assert_eq!(bucket(86_400_000), Some(DurationBucket::From6hTo24h));
    assert_eq!(bucket(86_400_001), None);
}

#[test]
fn circuit_enforces_single_cycle_orphan_and_rate_limit() {
    let mut circuit = CircuitState::default();
    assert!(circuit.can_start("m", Direction::BuyMerge, 0, 1).is_ok());
    circuit.started("m".to_owned(), Direction::BuyMerge, 0);
    assert!(circuit.can_start("m", Direction::BuyMerge, 1, 1).is_err());
    circuit.terminal("m", Direction::BuyMerge);
    assert!(circuit.can_start("other", Direction::BuyMerge, 1, 1).is_err());
    circuit.set_unresolved_orphan(true);
    assert!(circuit.can_start("other", Direction::BuyMerge, 60_001, 1).is_err());
}

#[test]
fn circuits_say_what_holds_a_cycle_back() {
    let mut circuit = CircuitState::default();
    circuit.started("m".to_owned(), Direction::BuyMerge, 0);
    assert_eq!(
        circuit.can_start("m", Direction::BuyMerge, 1, 9),
        Err(StrategyError::CycleActive)
    );
    assert_eq!(circuit.can_start("m", Direction::SplitSell, 1, 9), Ok(()));
    assert_eq!(
        circuit.can_start("m", Direction::SplitSell, 59_999, 1),
        Err(StrategyError::RateLimited)
    );
    assert_eq!(circuit.can_start("m", Direction::SplitSell, 60_000, 1), Ok(()));
    circuit.set_unresolved_orphan(true);
    assert_eq!(
        circuit.can_start("m", Direction::SplitSell, 60_000, 1),
        Err(StrategyError::UnresolvedOrphan)
    );
}
