use moni_strategy_beta::config::{
    default_max_assets_per_connection, default_max_total_assets, default_price_band_high_min,
    default_price_band_low_max, valid_strategy_id, CalibrationConfig, ClobConfig, DiscoveryConfig,
    LinkConfig, MetricsConfig, MonitorConfig, ProfitabilityConfig, QualityConfig, RecoveryConfig,
    ReserveConfig, RiskConfig, RuntimeConfig, StateConfig, StoreConfig, DEFAULT_METRICS_BIND,
};
use moni_strategy_beta::decimal::Decimal;
use moni_strategy_beta::error::StrategyError;

fn d(value: &str) -> Decimal {
    Decimal::from_text(value).unwrap()
}

fn valid() -> RuntimeConfig {
    RuntimeConfig {
        link: LinkConfig {
            endpoint: "http://127.0.0.1:50053".to_owned(),
            strategy_id: "strategy-beta".to_owned(),
            source: "moni-strategy-beta".to_owned(),
        },
        monitor: MonitorConfig {
            endpoint: "http://127.0.0.1:50051".to_owned(),
            tenant_id: "tenant-strategy-beta".to_owned(),
            api_key_env: "MONI_BETA_MONITOR_KEY".to_owned(),
            poll_interval_ms: 1_000,
        },
        store: StoreConfig {
            endpoint: "http://127.0.0.1:50054".to_owned(),
            snapshot_max_age_ms: 60_000,
            assumed_taker_fee_rate: d("0.07"),
        },
        discovery: DiscoveryConfig {
            gamma_endpoint: "https://gamma-api.polymarket.com/events".to_owned(),
            page_limit: 100,
            max_pages: 30,
            max_horizon_ms: 86_400_000,
            refresh_interval_secs: 30,
        },
        clob: ClobConfig {
            ws_endpoint: "wss://ws-subscriptions-clob.polymarket.com/ws/market".to_owned(),
            rest_endpoint: "https://clob.polymarket.com/books".to_owned(),
            market_info_endpoint: "https://clob.polymarket.com".to_owned(),
            max_assets_per_connection: 500,
            max_total_assets: 10_000,
        },
        quality: QualityConfig {
            max_book_age_ms: 750,
            max_token_skew_ms: 250,
            max_tick_disagreement: 1,
            rest_timeout_ms: 500,
            max_rest_round_trip_ms: 500,
        },
        profitability: ProfitabilityConfig {
            price_band_enabled: true,
            minimum_profit: d("0.10"),
            minimum_return_bps: d("200"),
            depth_fraction: d("0.25"),
            price_band_low_max: d("0.15"),
            price_band_high_min: d("0.85"),
        },
        reserves: ReserveConfig {
            slippage_bps: d("10"),
            latency: d("0.01"),
            orphan: d("0.02"),
            rounding_scale: 6,
        },
        risk: RiskConfig {
            max_per_cycle: d("5"),
            max_per_market: d("8"),
            max_per_underlying: d("10"),
            max_aggregate: d("20"),
            max_orphan_loss: d("0.50"),
            max_unmatched_inventory: d("5"),
            daily_loss_limit: d("10"),
            signals_per_minute: 10,
        },
        calibration: CalibrationConfig {
            minimum_age_hours: 24,
            minimum_cycles: 100,
            minimum_coverage: d("0.99"),
        },
        state: StateConfig {
            decision_db_path: "/var/lib/moni-strategy-beta/decisions.sqlite3".to_owned(),
            calibration_log_path: "/var/lib/moni-strategy-beta/calibration.jsonl".to_owned(),
            gate_state_path: "/var/lib/moni-strategy-beta/gates.json".to_owned(),
        },
        recovery: RecoveryConfig { enabled: false, close_lead_ms: 0 },
        metrics: MetricsConfig { bind: DEFAULT_METRICS_BIND.to_owned() },
    }
}

#[test]
fn valid_config_parses() {
    let config = valid();
    assert_eq!(config.validate(), Ok(()));
    assert_eq!(config.discovery.max_pages, 30);
    assert_eq!(config.risk.max_per_cycle, Decimal::from_u64(5));
}

#[test]
fn price_band_defaults_for_existing_configs() {
    let mut config = valid();
    config.profitability.price_band_low_max = default_price_band_low_max();
    config.profitability.price_band_high_min = default_price_band_high_min();
    assert!(config.validate().is_ok());

    assert_eq!(config.profitability.price_band_low_max, Decimal::new(15, 2));
    assert_eq!(config.profitability.price_band_high_min, Decimal::new(85, 2));
}

#[test]
fn rejects_inverted_price_band() {
    let mut config = valid();
    config.profitability.price_band_low_max = d("0.90");
    assert!(config.validate().is_err());
}

#[test]
fn clob_shard_limits_default_for_existing_configs() {
    let mut config = valid();
    config.clob.max_assets_per_connection = default_max_assets_per_connection();
    config.clob.max_total_assets = default_max_total_assets();
    assert!(config.validate().is_ok());

    assert_eq!(config.clob.max_assets_per_connection, 200);
    assert_eq!(config.clob.max_total_assets, 10_000);
}

#[test]
fn rejects_subscription_baseline_drift() {
    let mut config = valid();
    config.discovery.max_pages = 0;
    assert!(config.validate().is_err());
}

#[test]
fn rejects_empty_decision_database_path() {
    let mut config = valid();
    config.state.decision_db_path = String::new();
    assert!(config.validate().is_err());
}

#[test]
fn strategy_ids_are_short_and_plain() {
    assert!(valid_strategy_id("strategy-beta_9"));
    assert!(!valid_strategy_id(""));
    assert!(!valid_strategy_id("Strategy"));
    assert!(!valid_strategy_id("stratégie"));
    assert!(valid_strategy_id(&"a".repeat(64)));
    assert!(!valid_strategy_id(&"a".repeat(65)));
}

fn broken(change: fn(&mut RuntimeConfig)) -> StrategyError {
    let mut config = valid();
    change(&mut config);
    config.validate().unwrap_err()
}

#[test]
fn every_problem_is_named() {
    assert_eq!(broken(|c| c.link.source = " \t".to_owned()), StrategyError::LinkIncomplete);
    assert_eq!(
        broken(|c| c.link.strategy_id = "A".to_owned()),
        StrategyError::StrategyIdInvalid
    );
    assert_eq!(
        broken(|c| c.monitor.api_key_env = "\u{3000}".to_owned()),
        StrategyError::MonitorIncomplete
    );
    assert_eq!(
        broken(|c| c.discovery.refresh_interval_secs = 0),
        StrategyError::DiscoveryIncomplete
    );
    assert_eq!(broken(|c| c.discovery.page_limit = 101), StrategyError::PageLimitTooLarge);
    assert_eq!(
        broken(|c| c.clob.rest_endpoint = String::new()),
        StrategyError::ClobIncomplete
    );
    assert_eq!(broken(|c| c.clob.max_total_assets = 499), StrategyError::ShardLimitsInvalid);
    assert_eq!(
        broken(|c| c.quality.max_token_skew_ms = 0),
        StrategyError::QualityLimitsInvalid
    );
    assert_eq!(
        broken(|c| c.profitability.minimum_profit = Decimal::zero()),
        StrategyError::ThresholdsNotPositive
    );
    assert_eq!(
        broken(|c| c.profitability.depth_fraction = d("1.01")),
        StrategyError::DepthFractionInvalid
    );
    assert_eq!(
        broken(|c| c.profitability.price_band_high_min = Decimal::one()),
        StrategyError::PriceBandInvalid
    );
    assert_eq!(
        broken(|c| c.risk.max_unmatched_inventory = d("-1")),
        StrategyError::RiskLimitsNotPositive
    );
    assert_eq!(
        broken(|c| c.risk.signals_per_minute = 0),
        StrategyError::SignalRateNotPositive
    );
    assert_eq!(
        broken(|c| c.calibration.minimum_age_hours = 23),
        StrategyError::CalibrationInvalid
    );
    assert_eq!(
        broken(|c| c.state.gate_state_path = "".to_owned()).message(),
        "all state paths are required"
    );
}
