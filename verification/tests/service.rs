use moni_strategy_beta::clob::MarketInfo;
use moni_strategy_beta::collections::StringMap;
use moni_strategy_beta::config::ReserveConfig;
use moni_strategy_beta::decimal::Decimal;
use moni_strategy_beta::error::StrategyError;
use moni_strategy_beta::gamma::{BinaryCryptoMarket, OutcomeToken};
use moni_strategy_beta::gate::{GateStatus, LearnedReserves};
use moni_strategy_beta::pricing::{Book, Direction, FeeSchedule, Opportunity};
use moni_strategy_beta::service::{
    effective_reserves, should_log_rejection, signal_name, signal_source, stable_signal_id,
    try_effective_reserves, validate_market_info, EpisodeTracker, REJECTION_HEARTBEAT_MS,
};

#[test]
fn repeated_rejections_log_on_change_or_heartbeat() {
    let mut heartbeats = StringMap::new();
    assert!(should_log_rejection(&mut heartbeats, "market", "no_profitable_depth", 1_000));
    assert!(!should_log_rejection(&mut heartbeats, "market", "no_profitable_depth", 2_000));
    assert!(should_log_rejection(&mut heartbeats, "market", "outside_price_band", 3_000));
    assert!(should_log_rejection(
        &mut heartbeats,
        "market",
        "outside_price_band",
        3_000 + REJECTION_HEARTBEAT_MS
    ));
}

fn market() -> BinaryCryptoMarket {
    BinaryCryptoMarket {
        market_id: "market".to_owned(),
        condition_id: "condition".to_owned(),
        question: "question".to_owned(),
        rules: "rules".to_owned(),
        underlying: "BTC".to_owned(),
        outcomes: [
            OutcomeToken { label: "Yes".to_owned(), token_id: "a".to_owned() },
            OutcomeToken { label: "No".to_owned(), token_id: "b".to_owned() },
        ],
        start_time_ms: None,
        end_time_ms: 10_000,
        tick_size: Decimal::new(1, 2),
        min_order_size: Decimal::one(),
        neg_risk: false,
        gamma_fee_rate: Some(Decimal::new(7, 2)),
        gamma_fee_exponent: Some(1),
        gamma_fee_taker_only: Some(true),
        active: true,
        accepting_orders: true,
    }
}

fn info(tokens: &[&str]) -> MarketInfo {
    MarketInfo {
        condition_id: "condition".to_owned(),
        token_ids: tokens.iter().map(|token| (*token).to_owned()).collect(),
        fee_rate: Some(Decimal::new(7, 2)),
        fee_exponent: Some(1),
        fee_taker_only: Some(true),
        tick_size: Decimal::new(1, 2),
        accepting_orders: true,
    }
}

#[test]
fn market_info_validation_rejects_changed_token_mapping() {
    let market = market();
    let info = info(&["a", "different"]);

    assert!(validate_market_info(&market, &info)
        .unwrap_err()
        .message()
        .contains("token mapping mismatch"));
}

#[test]
fn market_info_must_agree_in_everything() {
    let market = market();
    let agreed = Ok(FeeSchedule { rate: Decimal::new(7, 2) });
    assert_eq!(validate_market_info(&market, &info(&["b", "a"])), agreed);
    assert_eq!(validate_market_info(&market, &info(&["b", "a", "b"])), agreed);
    assert_eq!(
        validate_market_info(&market, &info(&["a"])),
        Err(StrategyError::TokenMappingMismatch)
    );
    let mut ticks = info(&["a", "b"]);
    ticks.tick_size = Decimal::new(10, 3);
    assert_eq!(validate_market_info(&market, &ticks), agreed);
    ticks.tick_size = Decimal::new(1, 3);
    assert_eq!(validate_market_info(&market, &ticks), Err(StrategyError::TickSizeMismatch));
    let mut closed = info(&["a", "b"]);
    closed.accepting_orders = false;
    assert_eq!(validate_market_info(&market, &closed), Err(StrategyError::NotAcceptingOrders));
    let mut fees = info(&["a", "b"]);
    fees.fee_rate = None;
    assert_eq!(validate_market_info(&market, &fees), Err(StrategyError::ClobFeeCurveMissing));
}

#[test]
fn episodes_run_until_they_are_closed() {
    let mut episodes = EpisodeTracker::default();
    let first = episodes.episode("m", Direction::BuyMerge);
    assert_eq!(first, "m:buy_merge:1");
    assert_eq!(episodes.episode("m", Direction::BuyMerge), first);
    assert_eq!(episodes.episode("m", Direction::SplitSell), "m:split_sell:2");
    episodes.close_other_directions("m", Direction::BuyMerge);
    assert_eq!(episodes.episode("m", Direction::BuyMerge), first);
    assert_eq!(episodes.episode("m", Direction::SplitSell), "m:split_sell:3");
    episodes.close_market("m");
    assert_eq!(episodes.episode("m", Direction::BuyMerge), "m:buy_merge:4");
}

fn book(updated_at_ms: i64) -> Book {
    Book {
        market_id: "market".to_owned(),
        token_id: "a".to_owned(),
        bids: Vec::new(),
        asks: Vec::new(),
        updated_at_ms,
    }
}

#[test]
fn signal_ids_are_stable_digests() {
    let opportunity = Opportunity {
        direction: Direction::BuyMerge,
        quantity: Decimal::new(250, 2),
        leg_a_gross: Decimal::zero(),
        leg_b_gross: Decimal::zero(),
        fees: Decimal::zero(),
        reserves: Decimal::zero(),
        pair_value: Decimal::zero(),
        capital: Decimal::zero(),
        net_profit: Decimal::zero(),
        return_bps: Decimal::zero(),
    };
    assert_eq!(signal_source("market", &opportunity, -5, 7), "market:buy_merge:2.50:-5:7");
    assert_eq!(signal_name(&vec![0, 15, 240, 255]), "beta:000ff0ff");
    let id = stable_signal_id(&market(), &opportunity, &book(-5), &book(7));
    // the SHA-256 of "market:buy_merge:2.50:-5:7"
    assert_eq!(
        id,
        "beta:f67c4bebec7624b11fd3007dec63c07f4777560a56e5294daebd38fcc40b22fd"
    );
    assert_eq!(stable_signal_id(&market(), &opportunity, &book(-5), &book(7)), id);
    assert_ne!(stable_signal_id(&market(), &opportunity, &book(7), &book(-5)), id);
}

#[test]
fn learned_reserves_raise_the_configured_ones() {
    let configured = ReserveConfig {
        slippage_bps: Decimal::new(10, 0),
        latency: Decimal::new(1, 2),
        orphan: Decimal::new(2, 2),
        rounding_scale: 6,
    };
    let unchanged = effective_reserves(&configured, None);
    assert_eq!(unchanged.latency, Decimal::new(1, 2));
    let mut status = GateStatus::default();
    status.reserves = LearnedReserves {
        slippage_p99: Decimal::new(3, 2),
        latency_p99: Decimal::new(4, 3),
        orphan_p99: Decimal::new(1, 2),
    };
    let raised = try_effective_reserves(&configured, Some(&status)).unwrap();
    assert_eq!(raised.latency, Decimal::new(44, 3));
    assert_eq!(raised.orphan, Decimal::new(2, 2));
    status.reserves.orphan_p99 = Decimal::one();
    assert_eq!(effective_reserves(&configured, Some(&status)).orphan, Decimal::one());
}
