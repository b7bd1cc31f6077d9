use moni_strategy_beta::collections::StringMap;
use moni_strategy_beta::config::{
    CalibrationConfig, ClobConfig, DiscoveryConfig, LinkConfig, MetricsConfig, MonitorConfig,
    ProfitabilityConfig, QualityConfig, RecoveryConfig, ReserveConfig, RiskConfig, RuntimeConfig,
    StateConfig, StoreConfig,
};
use moni_strategy_beta::decimal::Decimal;
use moni_strategy_beta::decision_store::CalibrationRow;
use moni_strategy_beta::pricing::{Book, Direction, FeeSchedule, Level};
use moni_strategy_beta::snapshots::{
    group_snapshots, preceding_snapshot, snapshot_window, BookLevel, BookSnapshot,
};
use moni_strategy_beta::store_calibration::summarize;
use moni_strategy_beta::store_replay::{
    episode_slice, funnel, select_candidate, to_book, try_episode_slice, Funnel, Hit, Observation,
    Replay,
};

fn d(value: &str) -> Decimal {
    Decimal::from_text(value).unwrap()
}

fn decision(observed_at_ms: i64) -> CalibrationRow {
    CalibrationRow {
        observed_at_ms,
        condition_id: Some("condition".to_owned()),
        token_id_a: Some("a".to_owned()),
        token_id_b: Some("b".to_owned()),
    }
}

fn book_level(price: &str, size: &str) -> BookLevel {
    BookLevel { price: price.to_owned(), size: size.to_owned() }
}

fn snapshot(token_id: &str, sampled_at_ms: i64) -> BookSnapshot {
    BookSnapshot {
        sampled_at_ms,
        market_id: "condition".to_owned(),
        token_id: token_id.to_owned(),
        book_updated_at_ms: sampled_at_ms,
        bids: vec![book_level("0.40", "10")],
        asks: vec![book_level("0.45", "10")],
    }
}

#[test]
fn joins_both_legs_to_the_nearest_preceding_snapshot() {
    let mut snapshots = StringMap::new();
    snapshots.insert("a".to_owned(), vec![snapshot("a", 900)]);
    snapshots.insert("b".to_owned(), vec![snapshot("b", 950)]);
    let summary = summarize(&vec![decision(1_000)], &snapshots, 100);
    assert_eq!(summary.both_legs_covered, 1);
    assert_eq!(summary.median_snapshot_age_ms, Some(100));
}

#[test]
fn coverage_counts_each_decision_once() {
    let snapshots = group_snapshots(vec![snapshot("a", 900), snapshot("b", 950), snapshot("a", 990)]);
    let mut legacy = decision(1_000);
    legacy.token_id_b = None;
    let rows = vec![legacy, decision(1_000), decision(940), decision(2_000)];
    let summary = summarize(&rows, &snapshots, 100);
    assert_eq!(summary.decisions, 4);
    assert_eq!(summary.legacy_decisions, 1);
    assert_eq!(summary.eligible_decisions, 3);
    assert_eq!(summary.both_legs_covered, 1);
    assert_eq!(summary.one_leg_covered, 1);
    assert_eq!(summary.no_legs_covered, 1);
    // ages 10 and 50, then 40
    assert_eq!(summary.median_snapshot_age_ms, Some(40));
    assert_eq!(summarize(&Vec::new(), &snapshots, 100).median_snapshot_age_ms, None);
}

#[test]
fn the_latest_of_the_preceding_snapshots_counts() {
    let snapshots = vec![snapshot("a", 990), snapshot("a", 900), snapshot("a", 1_001)];
    let found = preceding_snapshot(Some(&snapshots), 1_000, 100).unwrap();
    assert_eq!(found.sampled_at_ms, 990);
    assert!(preceding_snapshot(Some(&snapshots), 1_000, 9).is_none());
    assert!(preceding_snapshot(Some(&snapshots), 899, 100).is_none());
    assert!(preceding_snapshot(None, 1_000, 100).is_none());
}

#[test]
fn the_window_spans_the_decisions() {
    let mut other = decision(5_000);
    other.token_id_a = Some("c".to_owned());
    other.token_id_b = None;
    let window = snapshot_window(&vec![other, decision(3_000)], 100);
    assert_eq!(window.token_ids, vec!["a", "b", "c"]);
    assert_eq!((window.from_ms, window.to_ms), (2_900, 5_000));
    let empty = snapshot_window(&Vec::new(), 100);
    assert_eq!((empty.token_ids.len(), empty.from_ms, empty.to_ms), (0, 0, 0));
}

fn hit(condition: &str, at: i64, direction: Direction, profit: &str) -> Hit {
    Hit {
        condition_id: condition.to_owned(),
        observed_at_ms: at,
        direction,
        profit: d(profit),
    }
}

#[test]
fn stable_episode_requires_two_close_observations() {
    let hits = vec![
        hit("a", 1_000, Direction::BuyMerge, "0.05"),
        hit("a", 31_000, Direction::BuyMerge, "0.04"),
        hit("b", 1_000, Direction::BuyMerge, "0.09"),
    ];
    let slice = episode_slice(hits);
    assert_eq!(slice.stable_episodes, 1);
    assert_eq!(slice.distinct_markets, 1);
    assert_eq!(slice.total_profit, Decimal::new(4, 2));
}

#[test]
fn episodes_break_at_gaps_and_directions() {
    let hits = vec![
        hit("b", 500_000, Direction::BuyMerge, "0.01"),
        hit("a", 90_000, Direction::BuyMerge, "0.07"),
        hit("a", 0, Direction::BuyMerge, "0.05"),
        hit("a", 45_000, Direction::BuyMerge, "0.06"),
        hit("a", 135_001, Direction::BuyMerge, "0.02"),
        hit("a", 140_000, Direction::SplitSell, "0.03"),
        hit("a", 140_001, Direction::BuyMerge, "0.02"),
        hit("b", 500_000, Direction::BuyMerge, "0.03"),
    ];
    let slice = try_episode_slice(hits).unwrap();
    // a: 0..90 s, then 135 s; b: twice at one moment
    assert_eq!(slice.stable_episodes, 3);
    assert_eq!(slice.distinct_markets, 2);
    assert_eq!(slice.total_profit, d("0.08"));
    let none = episode_slice(vec![
        hit("a", 0, Direction::BuyMerge, "0.05"),
        hit("a", 45_001, Direction::BuyMerge, "0.05"),
        hit("a", 45_001, Direction::SplitSell, "0.05"),
    ]);
    assert_eq!((none.stable_episodes, none.distinct_markets), (0, 0));
    assert_eq!(none.total_profit, Decimal::zero());
}

#[test]
fn a_total_beyond_decimals_is_refused() {
    let huge = "79228162514264337593543950335";
    let hits = vec![
        hit("a", 0, Direction::BuyMerge, huge),
        hit("a", 1, Direction::BuyMerge, huge),
        hit("b", 0, Direction::BuyMerge, huge),
        hit("b", 1, Direction::BuyMerge, huge),
    ];
    assert!(try_episode_slice(hits).is_none());
}

#[test]
fn snapshots_become_ordered_books() {
    let mut raw = snapshot("a", 900);
    raw.bids = vec![book_level("0.1", "1"), book_level("0.3", "2")];
    raw.asks = vec![book_level("0.6", "1"), book_level("0.5", "2")];
    let book = to_book(&raw).unwrap();
    assert_eq!(book.bids[0].price, d("0.3"));
    assert_eq!(book.asks[0].price, d("0.5"));
    assert_eq!(book.updated_at_ms, 900);
    raw.asks = vec![book_level("dear", "1")];
    assert!(to_book(&raw).is_none());
    raw.asks = vec![book_level("-0.5", "1")];
    assert!(to_book(&raw).is_none());
}

fn config() -> RuntimeConfig {
    RuntimeConfig {
        link: LinkConfig {
            endpoint: "http://127.0.0.1:50053".to_owned(),
            strategy_id: "strategy-beta".to_owned(),
            source: "moni-strategy-beta".to_owned(),
        },
        monitor: MonitorConfig {
            endpoint: "http://127.0.0.1:50051".to_owned(),
            tenant_id: "tenant".to_owned(),
            api_key_env: "KEY".to_owned(),
            poll_interval_ms: 1_000,
        },
        store: StoreConfig {
            endpoint: "http://127.0.0.1:50054".to_owned(),
            snapshot_max_age_ms: 60_000,
            assumed_taker_fee_rate: d("0.07"),
        },
        discovery: DiscoveryConfig {
            gamma_endpoint: "https://gamma".to_owned(),
            page_limit: 100,
            max_pages: 30,
            max_horizon_ms: 86_400_000,
            refresh_interval_secs: 30,
        },
        clob: ClobConfig {
            ws_endpoint: "wss://clob".to_owned(),
            rest_endpoint: "https://clob/books".to_owned(),
            market_info_endpoint: "https://clob".to_owned(),
            max_assets_per_connection: 500,
            max_total_assets: 10_000,
        },
        quality: QualityConfig {
            max_book_age_ms: 750,
            max_token_skew_ms: 250,
            max_tick_disagreement: 1,
            rest_timeout_ms: 500,
            max_rest_round_trip_ms: 500,
        },
        profitability: ProfitabilityConfig {
            price_band_enabled: true,
            minimum_profit: d("0.10"),
            minimum_return_bps: d("200"),
            depth_fraction: d("0.25"),
            price_band_low_max: d("0.15"),
            price_band_high_min: d("0.85"),
        },
        reserves: ReserveConfig {
            slippage_bps: d("10"),
            latency: d("0.01"),
            orphan: d("0.02"),
            rounding_scale: 6,
        },
        risk: RiskConfig {
            max_per_cycle: d("50"),
            max_per_market: d("8"),
            max_per_underlying: d("10"),
            max_aggregate: d("20"),
            max_orphan_loss: d("0.50"),
            max_unmatched_inventory: d("5"),
            daily_loss_limit: d("10"),
            signals_per_minute: 10,
        },
        calibration: CalibrationConfig {
            minimum_age_hours: 24,
            minimum_cycles: 100,
            minimum_coverage: d("0.99"),
        },
        state: StateConfig {
            decision_db_path: "decisions".to_owned(),
            calibration_log_path: "calibration".to_owned(),
            gate_state_path: "gates".to_owned(),
        },
        recovery: RecoveryConfig { enabled: true, close_lead_ms: 30_000 },
        metrics: MetricsConfig { bind: "127.0.0.1:9465".to_owned() },
    }
}

fn book(token: &str, ask: &str) -> Book {
    Book {
        market_id: "condition".to_owned(),
        token_id: token.to_owned(),
        bids: vec![Level { price: d("0.01"), size: d("20") }],
        asks: vec![Level { price: d(ask), size: d("20") }],
        updated_at_ms: 1,
    }
}

fn observation(condition: &str, at: i64, ask_a: &str, ask_b: &str) -> Observation {
    Observation {
        condition_id: condition.to_owned(),
        observed_at_ms: at,
        book_a: book("a", ask_a),
        book_b: book("b", ask_b),
    }
}

#[test]
fn the_funnel_narrows_as_frictions_are_added() {
    let observations = vec![
        // costs 1.00: nothing to gain, and nothing to lose before fees
        observation("c", 0, "0.50", "0.50"),
        // gains 0.01 a pair, less than the fees take
        observation("c", 1, "0.50", "0.49"),
        // gains 0.05 a pair, fees take about 0.035
        observation("c", 2, "0.50", "0.45"),
        // gains 0.20 a pair, between the bands
        observation("c", 3, "0.40", "0.40"),
        // gains 0.20 a pair, beyond the bands
        observation("c", 4, "0.10", "0.70"),
    ];
    let fee = FeeSchedule { rate: d("0.07") };
    assert_eq!(
        funnel(&observations, &config(), &fee),
        Some(Funnel {
            paired_observations: 5,
            frictionless: 5,
            fee_positive: 3,
            reserve_positive: 3,
            configured: 1,
        })
    );
}

// twelve markets, each seen twice in a row in every hundredth of the time
fn busy_observations() -> Vec<Observation> {
    let mut observations = Vec::new();
    for round in 0..20_i64 {
        for market in 0..12_i64 {
            let condition = format!("market-{market:02}");
            let at = round * 1_000_000 + market;
            observations.push(observation(&condition, at, "0.10", "0.70"));
            observations.push(observation(&condition, at + 30_000, "0.10", "0.70"));
        }
    }
    observations.sort_by_key(|observation| observation.observed_at_ms);
    observations
}

#[test]
fn settings_are_selected_where_enough_was_seen() {
    let observations = busy_observations();
    let fee = FeeSchedule { rate: d("0.07") };
    let selected = select_candidate(&observations, &config(), &fee, 9_500).unwrap().unwrap();
    // 20 rounds over a span of 19030011 ms: 12, 4 and 4 of them in the parts
    assert_eq!(selected.train.stable_episodes, 144);
    assert_eq!(selected.train.distinct_markets, 12);
    assert_eq!(selected.validation.stable_episodes, 48);
    assert_eq!(selected.holdout.stable_episodes, 48);
    assert!(selected.holdout_pass);
    // taking half of the depth gains most; of equally good settings the last is kept
    assert_eq!(selected.depth_fraction, d("0.50"));
    assert_eq!(selected.price_band, "disabled");
    assert_eq!(selected.minimum_profit, d("0.10"));
    assert_eq!(selected.minimum_return_bps, d("100"));

    assert_eq!(select_candidate(&observations, &config(), &fee, 9_499), Some(None));
    assert_eq!(select_candidate(&Vec::new(), &config(), &fee, 10_000), Some(None));
    let few: Vec<Observation> = busy_observations().into_iter().take(24).collect();
    assert_eq!(select_candidate(&few, &config(), &fee, 10_000), Some(None));
}

#[test]
fn a_replay_counts_coverage_and_sees_each_sample_once() {
    let config = config();
    let mut b = snapshot("b", 960);
    b.asks = vec![book_level("0.35", "10")];
    let snapshots = group_snapshots(vec![snapshot("a", 900), b]);
    let mut replay = Replay::new();
    let mut nameless = decision(1_000);
    nameless.condition_id = None;
    let mut other = decision(1_000);
    other.condition_id = Some("elsewhere".to_owned());
    for row in [nameless, decision(1_000), decision(990), other, decision(9_000)] {
        replay.observe(&row, &snapshots, 100, 250);
    }
    let report = replay.report(&config).unwrap();
    assert_eq!(report.eligible_decisions, 4);
    assert_eq!(report.both_legs_covered, 3);
    assert_eq!(report.coverage_bps, 7_500);
    assert_eq!(report.assumed_taker_fee_rate, d("0.07"));
    // one sample of the condition; the books of the other one are not its own
    assert_eq!(report.funnel.paired_observations, 1);
    assert_eq!(report.funnel.frictionless, 1);
    assert!(report.selected.is_none());
    let empty = Replay::new().report(&config).unwrap();
    assert_eq!((empty.eligible_decisions, empty.coverage_bps), (0, 0));
}

#[test]
fn samples_too_far_apart_are_no_observation() {
    let snapshots = group_snapshots(vec![snapshot("a", 900), snapshot("b", 960)]);
    let mut replay = Replay::new();
    replay.observe(&decision(1_000), &snapshots, 100, 59);
    let report = replay.report(&config()).unwrap();
    assert_eq!((report.both_legs_covered, report.funnel.paired_observations), (1, 0));
    assert_eq!(report.coverage_bps, 10_000);
}
