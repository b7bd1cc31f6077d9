use moni_strategy_beta::cli::{
    argument_value, command, config_path, count_subscribable, manual_market, Command,
};
use moni_strategy_beta::decimal::Decimal;
use moni_strategy_beta::error::StrategyError;
use moni_strategy_beta::gamma::{BinaryCryptoMarket, OutcomeToken};

fn args(line: &str) -> Vec<String> {
    line.split(' ').map(str::to_owned).collect()
}

#[test]
fn commands_are_told_by_the_first_argument() {
    assert_eq!(command(&args("beta serve")), Command::Serve { observe_only: false });
    assert_eq!(
        command(&args("beta serve --config x --dry-run")),
        Command::Serve { observe_only: true }
    );
    assert_eq!(command(&args("beta --discover-only")), Command::DiscoverOnly);
    assert_eq!(command(&args("beta discover-only")), Command::DiscoverOnly);
    assert_eq!(command(&args("beta calibration-summary")), Command::CalibrationSummary);
    assert_eq!(command(&args("beta execution-summary")), Command::ExecutionSummary);
    assert_eq!(
        command(&args("beta store-calibration-summary")),
        Command::StoreCalibrationSummary
    );
    assert_eq!(command(&args("beta manual-signal m")), Command::ManualSignal);
    assert_eq!(command(&args("beta --dry-run serve")), Command::Help);
    assert_eq!(command(&args("beta")), Command::Help);
    assert_eq!(command(&Vec::new()), Command::Help);
}

#[test]
fn a_value_stands_behind_the_first_of_its_name() {
    let line = args("beta serve --config a --config b --config");
    assert_eq!(argument_value(&line, "--config"), Some("a"));
    assert_eq!(argument_value(&line, "--confirm"), None);
    assert_eq!(argument_value(&args("beta --config"), "--config"), None);
    assert_eq!(config_path(&line), "a");
    assert_eq!(config_path(&args("beta serve")), "/etc/moni-strategy-beta/config.toml");
}

#[test]
fn a_manual_signal_must_be_confirmed() {
    assert_eq!(
        manual_market(&args("beta manual-signal")),
        Err(StrategyError::MarketArgumentMissing)
    );
    assert_eq!(
        manual_market(&args("beta manual-signal m")),
        Err(StrategyError::ConfirmationMissing)
    );
    assert_eq!(
        manual_market(&args("beta manual-signal m --confirm yes")),
        Err(StrategyError::ConfirmationMissing)
    );
    assert_eq!(
        manual_market(&args("beta manual-signal m --confirm MANUAL_DIAGNOSTIC_ONLY")),
        Ok("m")
    );
    assert_eq!(
        StrategyError::MarketArgumentMissing.message(),
        "manual-signal requires MARKET_ID"
    );
    assert_eq!(
        StrategyError::ConfirmationMissing.message(),
        "manual diagnostic requires --confirm MANUAL_DIAGNOSTIC_ONLY and still enforces every data, risk, and maturity gate"
    );
}

#[test]
fn only_open_markets_are_followed() {
    let market = |end_time_ms: i64, active: bool| BinaryCryptoMarket {
        market_id: "m".to_owned(),
        condition_id: "c".to_owned(),
        question: "q".to_owned(),
        rules: "r".to_owned(),
        underlying: "BTC".to_owned(),
        outcomes: [
            OutcomeToken { label: "Yes".to_owned(), token_id: "a".to_owned() },
            OutcomeToken { label: "No".to_owned(), token_id: "b".to_owned() },
        ],
        start_time_ms: None,
        end_time_ms,
        tick_size: Decimal::new(1, 2),
        min_order_size: Decimal::one(),
        neg_risk: false,
        gamma_fee_rate: None,
        gamma_fee_exponent: None,
        gamma_fee_taker_only: None,
        active,
        accepting_orders: true,
    };
    let markets = vec![market(10, true), market(10, false), market(5, true), market(106, true)];
    assert_eq!(count_subscribable(&markets, 5, 100), 1);
    assert_eq!(count_subscribable(&markets, 5, 101), 2);
}
