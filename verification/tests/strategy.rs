use moni_strategy_beta::clob::MarketInfo;
use moni_strategy_beta::collections::{StringMap, StringSet};
use moni_strategy_beta::config::{
    CalibrationConfig, ClobConfig, DiscoveryConfig, LinkConfig, MetricsConfig, MonitorConfig,
    ProfitabilityConfig, QualityConfig, RecoveryConfig, ReserveConfig, RiskConfig, RuntimeConfig,
    StateConfig, StoreConfig,
};
use moni_strategy_beta::decimal::Decimal;
use moni_strategy_beta::error::StrategyError;
use moni_strategy_beta::gamma::{BinaryCryptoMarket, OutcomeToken};
use moni_strategy_beta::gate::{DurationBucket, GateKey, GateState};
use moni_strategy_beta::link::SubmitOutcome;
use moni_strategy_beta::pricing::{best_for_direction, Book, Direction, FeeSchedule, Level, Opportunity};
use moni_strategy_beta::service::stable_signal_id;
use moni_strategy_beta::strategy::{
    execution_counts, is_terminal, market_step, Candidate, CompleteSetExecution, MarketStep, Next,
    Observed, Screening, StrategyState, Submission,
};

const NOW: i64 = 1_000_000_000;

fn d(value: &str) -> Decimal {
    Decimal::from_text(value).unwrap()
}

fn config() -> RuntimeConfig {
    RuntimeConfig {
        link: LinkConfig {
            endpoint: "http://127.0.0.1:50053".to_owned(),
            strategy_id: "strategy-beta".to_owned(),
            source: "moni-strategy-beta".to_owned(),
        },
        monitor: MonitorConfig {
            endpoint: "http://127.0.0.1:50051".to_owned(),
            tenant_id: "tenant".to_owned(),
            api_key_env: "KEY".to_owned(),
            poll_interval_ms: 1_000,
        },
        store: StoreConfig {
            endpoint: "http://127.0.0.1:50054".to_owned(),
            snapshot_max_age_ms: 60_000,
            assumed_taker_fee_rate: d("0.07"),
        },
        discovery: DiscoveryConfig {
            gamma_endpoint: "https://gamma".to_owned(),
            page_limit: 100,
            max_pages: 30,
            max_horizon_ms: 86_400_000,
            refresh_interval_secs: 30,
        },
        clob: ClobConfig {
            ws_endpoint: "wss://clob".to_owned(),
            rest_endpoint: "https://clob/books".to_owned(),
            market_info_endpoint: "https://clob".to_owned(),
            max_assets_per_connection: 500,
            max_total_assets: 10_000,
        },
        quality: QualityConfig {
            max_book_age_ms: 750,
            max_token_skew_ms: 250,
            max_tick_disagreement: 1,
            rest_timeout_ms: 500,
            max_rest_round_trip_ms: 500,
        },
        profitability: ProfitabilityConfig {
            price_band_enabled: true,
            minimum_profit: d("0.10"),
            minimum_return_bps: d("200"),
            depth_fraction: d("0.25"),
            price_band_low_max: d("0.15"),
            price_band_high_min: d("0.85"),
        },
        reserves: ReserveConfig {
            slippage_bps: d("10"),
            latency: d("0.01"),
            orphan: d("0.02"),
            rounding_scale: 6,
        },
        risk: RiskConfig {
            max_per_cycle: d("5"),
            max_per_market: d("8"),
            max_per_underlying: d("10"),
            max_aggregate: d("20"),
            max_orphan_loss: d("0.50"),
            max_unmatched_inventory: d("5"),
            daily_loss_limit: d("10"),
            signals_per_minute: 10,
        },
        calibration: CalibrationConfig {
            minimum_age_hours: 0,
            minimum_cycles: 1,
            minimum_coverage: d("0.99"),
        },
        state: StateConfig {
            decision_db_path: "decisions".to_owned(),
            calibration_log_path: "calibration".to_owned(),
            gate_state_path: "gates".to_owned(),
        },
        recovery: RecoveryConfig { enabled: true, close_lead_ms: 30_000 },
        metrics: MetricsConfig { bind: "127.0.0.1:9465".to_owned() },
    }
}

fn market(id: &str) -> BinaryCryptoMarket {
    BinaryCryptoMarket {
        market_id: id.to_owned(),
        condition_id: format!("condition-{id}"),
        question: "question".to_owned(),
        rules: "rules".to_owned(),
        underlying: "BTC".to_owned(),
        outcomes: [
            OutcomeToken { label: "Yes".to_owned(), token_id: format!("{id}-yes") },
            OutcomeToken { label: "No".to_owned(), token_id: format!("{id}-no") },
        ],
        start_time_ms: None,
        end_time_ms: NOW + 600_000,
        tick_size: d("0.01"),
        min_order_size: Decimal::one(),
        neg_risk: false,
        gamma_fee_rate: Some(d("0.07")),
        gamma_fee_exponent: Some(1),
        gamma_fee_taker_only: Some(true),
        active: true,
        accepting_orders: true,
    }
}

fn info(id: &str) -> MarketInfo {
    MarketInfo {
        condition_id: format!("condition-{id}"),
        token_ids: vec![format!("{id}-yes"), format!("{id}-no")],
        fee_rate: Some(d("0.07")),
        fee_exponent: Some(1),
        fee_taker_only: Some(true),
        tick_size: d("0.01"),
        accepting_orders: true,
    }
}

fn level(price: &str, size: &str) -> Level {
    Level { price: d(price), size: d(size) }
}

fn book(token: &str, bid: &str, ask: &str) -> Book {
    Book {
        market_id: "condition-m".to_owned(),
        token_id: token.to_owned(),
        bids: vec![level(bid, "20")],
        asks: vec![level(ask, "20")],
        updated_at_ms: NOW - 10,
    }
}

// buying both outcomes costs 0.80
fn cheap_books() -> StringMap<Book> {
    let mut books = StringMap::new();
    books.insert("m-yes".to_owned(), book("m-yes", "0.05", "0.10"));
    books.insert("m-no".to_owned(), book("m-no", "0.65", "0.70"));
    books
}

fn state() -> StrategyState {
    StrategyState::new(GateState::default())
}

fn opportunity(direction: Direction, capital: &str, profit: &str) -> Opportunity {
    Opportunity {
        direction,
        quantity: d("4"),
        leg_a_gross: d("0.4"),
        leg_b_gross: d("2.8"),
        fees: d("0.1"),
        reserves: d("0.1"),
        pair_value: d("0.8"),
        capital: d(capital),
        net_profit: d(profit),
        return_bps: d("500"),
    }
}

fn execution(signal: &str, market: &str, state: &str, profit: &str, at: i64) -> CompleteSetExecution {
    CompleteSetExecution {
        signal_id: signal.to_owned(),
        market_id: market.to_owned(),
        state: state.to_owned(),
        recovery_action: String::new(),
        close_recovery_state: String::new(),
        realized_profit: profit.to_owned(),
        completed_at_ms: at,
    }
}

fn submission(market: &str, underlying: &str, capital: &str) -> Submission {
    Submission {
        market_id: market.to_owned(),
        direction: Direction::BuyMerge,
        capital: d(capital),
        underlying: underlying.to_owned(),
    }
}

fn gate_key(direction: Direction) -> GateKey {
    GateKey { direction, bucket: DurationBucket::Under15m }
}

#[test]
fn executions_end_in_one_of_three_states() {
    let executions = vec![
        execution("a", "m", "completed", "0", 0),
        execution("b", "m", "failed", "0", 0),
        execution("c", "m", "risk_rejected", "0", 0),
        execution("d", "m", "running", "0", 0),
    ];
    assert!(is_terminal(&executions[0]));
    assert!(!is_terminal(&executions[3]));
    assert_eq!(execution_counts(&executions), (3, 4));
}

#[test]
fn reconciliation_frees_ended_cycles_and_blocks_troubled_markets() {
    let mut state = state();
    state.circuits.started("m".to_owned(), Direction::BuyMerge, NOW);
    state.submitted.insert("s1".to_owned(), submission("m", "BTC", "3"));
    state.submitted.insert("s2".to_owned(), submission("n", "BTC", "3"));
    state.blocked_markets.insert("gone".to_owned());
    let mut halted = execution("s4", "h", "running", "", NOW);
    halted.recovery_action = "halted".to_owned();
    let mut held = execution("s5", "r", "running", "", NOW);
    held.close_recovery_state = "held_to_resolution".to_owned();
    let executions = vec![
        execution("s1", "m", "completed", "-3", NOW),
        execution("s2", "n", "running", "unreadable", NOW),
        execution("s3", "x", "recovering", "-9", NOW - 86_400_001),
        halted,
        held,
    ];
    assert!(state.reconcile(&executions, NOW, d("10")));
    assert!(!state.submitted.contains_key("s1"));
    assert!(state.submitted.contains_key("s2"));
    assert_eq!(state.circuits.can_start("m", Direction::BuyMerge, NOW, 10), Ok(()));
    assert_eq!(state.blocked_markets.to_vec(), vec!["h", "r", "x"]);
    assert!(!state.daily_loss_halted);
}

#[test]
fn a_daily_loss_at_the_limit_halts_and_locks() {
    let mut state = state();
    let key = gate_key(Direction::BuyMerge);
    state.gates.relock(key, "invalid_data");
    let executions = vec![
        execution("a", "m", "completed", "-6", NOW),
        execution("b", "m", "completed", "-4", NOW - 86_400_000),
    ];
    assert!(state.reconcile(&executions, NOW, d("10")));
    assert!(state.daily_loss_halted);
    assert_eq!(
        state.gates.status(key).unwrap().relock_reason.as_deref(),
        Some("daily_loss_limit")
    );
    assert!(state.reconcile(&executions, NOW, d("10.01")));
    assert!(!state.daily_loss_halted);
}

#[test]
fn screening_needs_both_books_and_a_duration() {
    let config = config();
    let mut state = state();
    let mut books = StringMap::new();
    assert_eq!(
        state.screen(&config, &market("m"), &info("m"), &books, NOW).unwrap_err(),
        StrategyError::TokenABookMissing
    );
    books.insert("m-yes".to_owned(), book("m-yes", "0.05", "0.10"));
    assert_eq!(
        state.screen(&config, &market("m"), &info("m"), &books, NOW).unwrap_err(),
        StrategyError::TokenBBookMissing
    );
    let mut late = market("m");
    late.end_time_ms = NOW;
    assert_eq!(
        state.screen(&config, &late, &info("m"), &cheap_books(), NOW).unwrap_err(),
        StrategyError::DurationOutsideBuckets
    );
    assert_eq!(
        state.screen(&config, &market("m"), &info("other"), &cheap_books(), NOW).unwrap_err(),
        StrategyError::TokenMappingMismatch
    );
}

fn candidate(state: &mut StrategyState, config: &RuntimeConfig) -> Candidate {
    match state.screen(config, &market("m"), &info("m"), &cheap_books(), NOW).unwrap() {
        Screening::Candidate(candidate) => candidate,
        Screening::Nothing(reason) => panic!("nothing: {reason}"),
    }
}

#[test]
fn screening_finds_what_pricing_finds() {
    let config = config();
    let mut state = state();
    let found = candidate(&mut state, &config);
    let books = cheap_books();
    let priced = best_for_direction(
        books.get("m-yes").unwrap(),
        books.get("m-no").unwrap(),
        &FeeSchedule { rate: d("0.07") },
        Direction::BuyMerge,
        &config.profitability,
        &config.reserves,
        &config.risk,
    )
    .unwrap();
    assert_eq!(found.opportunity, priced);
    assert_eq!(found.bucket, DurationBucket::Under15m);
    assert_eq!(found.ws_a.token_id, "m-yes");
    assert_eq!(found.ws_b.token_id, "m-no");
}

#[test]
fn screening_says_why_nothing_is_found() {
    let config = config();
    let mut state = state();
    state.episodes.episode("m", Direction::BuyMerge);
    let mut books = StringMap::new();
    books.insert("m-yes".to_owned(), book("m-yes", "0.49", "0.50"));
    books.insert("m-no".to_owned(), book("m-no", "0.29", "0.30"));
    match state.screen(&config, &market("m"), &info("m"), &books, NOW).unwrap() {
        Screening::Nothing(reason) => assert_eq!(reason, "outside_price_band"),
        Screening::Candidate(_) => panic!("found something"),
    }
    // the episode of the market is closed
    assert_eq!(state.episodes.episode("m", Direction::BuyMerge), "m:buy_merge:2");

    books.insert("m-yes".to_owned(), book("m-yes", "0.09", "0.10"));
    books.insert("m-no".to_owned(), book("m-no", "0.88", "0.90"));
    match state.screen(&config, &market("m"), &info("m"), &books, NOW).unwrap() {
        Screening::Nothing(reason) => assert_eq!(reason, "no_profitable_depth"),
        Screening::Candidate(_) => panic!("found something"),
    }
}

fn fetched() -> Vec<Book> {
    vec![book("m-yes", "0.05", "0.10"), book("m-no", "0.65", "0.70")]
}

fn observe<'a>(
    state: &mut StrategyState,
    config: &RuntimeConfig,
    market: &'a BinaryCryptoMarket,
    books: &'a Vec<Book>,
) -> Result<Observed<'a>, StrategyError> {
    let found = candidate(state, config);
    state.observe(config, market, &info("m"), &found, books, 500, NOW)
}

#[test]
fn nothing_is_observed_in_books_that_do_not_confirm() {
    let config = config();
    let mut state = state();
    let found = candidate(&mut state, &config);
    let yes = || book("m-yes", "0.05", "0.10");
    let no = || book("m-no", "0.65", "0.70");
    let mut refused = |books: Vec<Book>, round_trip: u64| {
        state
            .observe(&config, &market("m"), &info("m"), &found, &books, round_trip, NOW)
            .err()
            .unwrap()
    };
    assert_eq!(refused(vec![no()], 500), StrategyError::TokenARestBookMissing);
    assert_eq!(refused(vec![yes()], 500), StrategyError::TokenBRestBookMissing);
    assert_eq!(refused(vec![yes(), no()], 501), StrategyError::RestRefreshTooSlow);
    let mut stale = yes();
    stale.updated_at_ms = NOW - 751;
    assert_eq!(refused(vec![stale, no()], 500), StrategyError::BookStale);
    let mut skewed = yes();
    skewed.updated_at_ms = NOW - 261;
    assert_eq!(refused(vec![skewed, no()], 500), StrategyError::BooksSkewed);
    let dear = book("m-no", "0.65", "0.72");
    assert_eq!(refused(vec![yes(), dear], 500), StrategyError::DepthDisagrees);
    // nothing was noted of it
    assert_eq!(state.episodes.episode("m", Direction::BuyMerge), "m:buy_merge:1");
}

#[test]
fn nothing_is_observed_in_market_info_that_has_changed() {
    let config = config();
    let mut state = state();
    let found = candidate(&mut state, &config);
    let mut closed = info("m");
    closed.accepting_orders = false;
    let (market, books) = (market("m"), fetched());
    let refused = state.observe(&config, &market, &closed, &found, &books, 500, NOW);
    assert_eq!(refused.err(), Some(StrategyError::NotAcceptingOrders));
    assert_eq!(state.refresh_info(&market, closed), Err(StrategyError::NotAcceptingOrders));
    let mut other_fees = info("m");
    other_fees.fee_rate = Some(d("0.08"));
    let refused = state.observe(&config, &market, &other_fees, &found, &books, 500, NOW);
    assert_eq!(refused.err(), Some(StrategyError::FeeCurvesContradictory));
    assert_eq!(
        state.refresh_info(&market, other_fees),
        Err(StrategyError::FeeCurvesContradictory)
    );
    assert_eq!(state.market_info.len(), 0);
    assert_eq!(state.refresh_info(&market, info("m")), Ok(()));
    assert!(state.market_info.contains_key("condition-m"));
}

#[test]
fn an_opportunity_may_be_gone_when_it_is_refreshed() {
    let mut config = config();
    config.quality.max_tick_disagreement = 100;
    let books = vec![book("m-yes", "0.05", "0.10"), book("m-no", "0.65", "0.90")];
    assert_eq!(
        observe(&mut state(), &config, &market("m"), &books).err(),
        Some(StrategyError::OpportunityDisappeared)
    );
}

#[test]
fn every_risk_limit_counts() {
    let config = config();
    let mut state = state();
    let buy = |capital: &str| opportunity(Direction::BuyMerge, capital, "0.5");
    let check = |state: &StrategyState, capital: &str| {
        state.try_check_risk(&config, &market("m"), &buy(capital)).unwrap()
    };
    assert_eq!(check(&state, "5"), Ok(()));
    assert_eq!(state.check_risk(&config, &market("m"), &buy("5")), Ok(()));
    // per cycle
    assert_eq!(check(&state, "5.01"), Err(StrategyError::RiskLimit));
    // per market
    state.submitted.insert("s1".to_owned(), submission("m", "ETH", "4"));
    assert_eq!(check(&state, "4"), Ok(()));
    assert_eq!(check(&state, "4.01"), Err(StrategyError::RiskLimit));
    // per underlying
    state.submitted.insert("s2".to_owned(), submission("n", "BTC", "7"));
    assert_eq!(check(&state, "3"), Ok(()));
    assert_eq!(check(&state, "3.01"), Err(StrategyError::RiskLimit));
    // in all
    state.submitted.insert("s3".to_owned(), submission("o", "SOL", "8"));
    assert_eq!(check(&state, "1"), Ok(()));
    assert_eq!(check(&state, "1.01"), Err(StrategyError::RiskLimit));
    // what an orphan may cost
    let mut orphans = self::config();
    orphans.reserves.orphan = d("0.51");
    assert_eq!(
        state.try_check_risk(&orphans, &market("m"), &buy("1")),
        Some(Err(StrategyError::RiskLimit))
    );
    state.daily_loss_halted = true;
    assert_eq!(check(&state, "1"), Err(StrategyError::DailyLossHalted));
}

#[test]
fn an_episode_is_sampled_once() {
    let config = config();
    let mut state = state();
    let found = candidate(&mut state, &config);
    // a tick dearer than the streamed book
    let books = vec![book("m-no", "0.65", "0.71"), book("m-yes", "0.05", "0.10")];
    let market = market("m");
    let priced = best_for_direction(
        &books[1],
        &books[0],
        &FeeSchedule { rate: d("0.07") },
        Direction::BuyMerge,
        &config.profitability,
        &config.reserves,
        &config.risk,
    )
    .unwrap();
    let observed = observe(&mut state, &config, &market, &books).unwrap();
    assert_eq!(*observed.opportunity(), priced);
    let sample = observed.sample().unwrap();
    assert_eq!(sample.episode_id, "m:buy_merge:1");
    assert_eq!(sample.observed_at_ms, NOW);
    assert!(sample.terminal && sample.valid_data && !sample.unresolved_orphan);
    assert_eq!(sample.net_profit, priced.net_profit);
    // five pairs, each a cent dearer, and a little less in fees
    assert!(found.opportunity.net_profit > priced.net_profit);
    assert!(sample.slippage > d("0.04") && sample.slippage < d("0.06"));
    assert_eq!(sample.latency_cost, d("0.01"));
    assert_eq!(sample.orphan_loss, Decimal::zero());
    let again = observe(&mut state, &config, &market, &books).unwrap();
    assert!(again.sample().is_none());

    // the other direction is another episode, and a gain is no slippage
    let mut dear = StringMap::new();
    dear.insert("m-yes".to_owned(), book("m-yes", "0.10", "0.12"));
    dear.insert("m-no".to_owned(), book("m-no", "0.96", "0.97"));
    let sold = match state.screen(&config, &market, &info("m"), &dear, NOW).unwrap() {
        Screening::Candidate(candidate) => candidate,
        Screening::Nothing(reason) => panic!("nothing: {reason}"),
    };
    assert_eq!(sold.opportunity.direction, Direction::SplitSell);
    let dearer = vec![book("m-yes", "0.10", "0.12"), book("m-no", "0.97", "0.98")];
    let observed =
        state.observe(&config, &market, &info("m"), &sold, &dearer, 500, NOW).unwrap();
    let sample = observed.sample().unwrap();
    assert_eq!(sample.episode_id, "m:split_sell:2");
    assert!(observed.opportunity().net_profit > sold.opportunity.net_profit);
    assert_eq!(sample.slippage, Decimal::zero());
}

fn next(
    state: &mut StrategyState,
    config: &RuntimeConfig,
    observe_only: bool,
) -> Result<Next, StrategyError> {
    let (market, books) = (market("m"), fetched());
    let observed = observe(state, config, &market, &books).unwrap();
    state.decide(config, observe_only, &observed)
}

fn held(next: Result<Next, StrategyError>) -> &'static str {
    match next.unwrap() {
        Next::Hold(reason) => reason,
        Next::Submit(_) => panic!("submitted"),
    }
}

#[test]
fn a_signal_passes_every_check_before_it_goes_out() {
    let mut strict = config();
    strict.calibration.minimum_cycles = 2;
    assert_eq!(held(next(&mut state(), &strict, false)), "calibration_gate_locked");
    let config = config();
    let mut state = state();
    assert_eq!(held(next(&mut state, &config, true)), "forced_observe_only");
    assert_eq!(state.unlocked_gates(), 1);
    state.blocked_markets.insert("m".to_owned());
    assert_eq!(held(next(&mut state, &config, false)), "market_close_recovery_blocked");
    state.blocked_markets = StringSet::new();
    state.daily_loss_halted = true;
    assert_eq!(next(&mut state, &config, false).unwrap_err(), StrategyError::DailyLossHalted);
    state.daily_loss_halted = false;
    state.circuits.started("m".to_owned(), Direction::BuyMerge, NOW);
    assert_eq!(next(&mut state, &config, false).unwrap_err(), StrategyError::CycleActive);
    state.circuits.terminal("m", Direction::BuyMerge);
    let mut books = fetched();
    books[0].updated_at_ms = NOW - 7;
    books[1].updated_at_ms = NOW - 5;
    let market = market("m");
    let observed = observe(&mut state, &config, &market, &books).unwrap();
    let request = match state.decide(&config, false, &observed).unwrap() {
        Next::Submit(request) => request,
        Next::Hold(reason) => panic!("held: {reason}"),
    };
    let confirmed = observed.opportunity();
    assert!(confirmed.net_profit > Decimal::zero());
    assert!(confirmed.pair_value < confirmed.quantity);
    assert_eq!(request.market_id, "m");
    assert_eq!(request.condition_id, "condition-m");
    assert_eq!(request.token_a_id, "m-yes");
    assert_eq!(request.token_b_id, "m-no");
    assert_eq!(request.strategy_id, "strategy-beta");
    assert_eq!(request.source, "moni-strategy-beta");
    assert_eq!(request.direction, Direction::BuyMerge);
    assert_eq!(request.quantity, confirmed.quantity.text());
    assert_eq!(request.max_pair_cost, confirmed.pair_value.text());
    assert_eq!(request.min_pair_proceeds, "");
    // when the fetched books were taken, not the streamed ones
    assert_eq!(request.token_a_book_observed_at_ms, NOW - 7);
    assert_eq!(request.token_b_book_observed_at_ms, NOW - 5);
    assert_eq!(
        request.signal_id,
        stable_signal_id(&market, confirmed, &books[0], &books[1])
    );
    assert_eq!(request.observed_at_ms, NOW);
    let recovery = request.close_recovery.unwrap();
    assert_eq!((recovery.lead_time_ms, recovery.max_loss.as_str()), (30_000, "0.50"));
}

#[test]
fn an_offer_is_noted_before_anything_is_decided_on_it() {
    let config = config();
    let mut state = state();
    let (market, books) = (market("m"), fetched());
    let observed = observe(&mut state, &config, &market, &books).unwrap();
    assert!(observed.sample().is_some());
    // its gate was not assessed yet
    assert_eq!(state.unlocked_gates(), 0);
    assert_eq!(state.gates.summaries().len(), 0);
    assert!(state.decide(&config, true, &observed).is_ok());
    assert_eq!(state.unlocked_gates(), 1);
    assert_eq!(state.gates.summaries().len(), 1);
}

#[test]
fn only_accepted_signals_occupy_the_market() {
    let mut state = state();
    let found = opportunity(Direction::BuyMerge, "3", "0.5");
    let refused = state.record_outcome(
        "s".to_owned(),
        &market("m"),
        &found,
        SubmitOutcome::Rejected("no balance".to_owned()),
        NOW,
    );
    assert_eq!(refused, (false, "no balance".to_owned()));
    assert_eq!(state.submitted.len(), 0);
    assert_eq!(state.circuits.can_start("m", Direction::BuyMerge, NOW, 1), Ok(()));
    let later = state.record_outcome(
        "s".to_owned(),
        &market("m"),
        &found,
        SubmitOutcome::Retriable("Unavailable: offline".to_owned()),
        NOW,
    );
    assert_eq!(later, (false, "Unavailable: offline".to_owned()));
    let accepted =
        state.record_outcome("s".to_owned(), &market("m"), &found, SubmitOutcome::Accepted, NOW);
    assert_eq!(accepted, (true, "submitted".to_owned()));
    assert_eq!(state.submitted.get("s"), Some(&submission("m", "BTC", "3")));
    assert_eq!(
        state.circuits.can_start("m", Direction::BuyMerge, NOW, 10),
        Err(StrategyError::CycleActive)
    );
    let twice =
        state.record_outcome("t".to_owned(), &market("n"), &found, SubmitOutcome::Duplicate, NOW);
    assert_eq!(twice, (true, "submitted".to_owned()));
    assert_eq!(state.submitted.len(), 2);
    assert_eq!(
        state.circuits.can_start("o", Direction::BuyMerge, NOW, 2),
        Err(StrategyError::RateLimited)
    );
}

#[test]
fn bad_data_locks_the_gates_of_a_market() {
    let mut state = state();
    assert_eq!(held(next(&mut state, &config(), true)), "forced_observe_only");
    let reason = state.fail_market(&market("m"), NOW, "book is stale or future-dated");
    assert_eq!(reason, "rejected:book is stale or future-dated");
    for direction in [Direction::BuyMerge, Direction::SplitSell] {
        let status = state.gates.status(gate_key(direction)).unwrap();
        assert!(!status.unlocked);
        assert_eq!(status.relock_reason.as_deref(), Some("invalid_data"));
    }
    assert_eq!(state.unlocked_gates(), 0);
    assert_eq!(state.episodes.episode("m", Direction::BuyMerge), "m:buy_merge:2");
}

#[test]
fn decisions_say_what_was_decided() {
    let mut state = state();
    assert_eq!(held(next(&mut state, &config(), true)), "forced_observe_only");
    let found = opportunity(Direction::BuyMerge, "3", "0.5");
    let decision = state
        .log_decision(&market("m"), Some(&found), true, "submitted", None, Some(true), NOW)
        .unwrap();
    assert_eq!(decision.observed_at_ms, NOW);
    assert_eq!(decision.market_id, "m");
    assert_eq!(decision.condition_id.as_deref(), Some("condition-m"));
    assert_eq!(decision.token_id_a.as_deref(), Some("m-yes"));
    assert_eq!(decision.token_id_b.as_deref(), Some("m-no"));
    assert_eq!(decision.direction, Some(Direction::BuyMerge));
    assert_eq!(decision.quantity, Some(d("4")));
    assert_eq!(decision.expected_profit, Some(d("0.5")));
    assert!(decision.gate_unlocked);
    assert!(decision.submitted);
    assert_eq!(decision.reason, "submitted");
    assert_eq!((decision.store_coverage_a, decision.store_coverage_b), (None, Some(true)));

    let plain = state
        .log_decision(&market("m"), None, false, "market_not_subscribable", None, None, NOW)
        .unwrap();
    assert!(!plain.gate_unlocked && plain.direction.is_none());
    let again =
        state.log_decision(&market("m"), None, false, "market_not_subscribable", None, None, NOW);
    assert!(again.is_none());
    // reasons that name an error are always recorded
    for _ in 0..2 {
        assert!(state
            .log_decision(&market("m"), None, false, "rejected:x", None, None, NOW)
            .is_some());
    }
    state.decision_written();
    state.decision_written();
    assert_eq!(state.cycle_decisions_written, 2);
}

#[test]
fn a_cycle_forgets_markets_that_are_gone() {
    let mut state = state();
    state.cycle_decisions_written = 7;
    state.market_info.insert("condition-m".to_owned(), info("m"));
    state.market_info.insert("condition-gone".to_owned(), info("gone"));
    state.rejection_heartbeats.insert("m".to_owned(), ("reason".to_owned(), 1));
    state.rejection_heartbeats.insert("gone".to_owned(), ("reason".to_owned(), 1));
    let mut closed = market("n");
    closed.accepting_orders = false;
    let plan = state.begin_cycle(&vec![market("m"), closed, market("o")], NOW, 86_400_000);
    assert_eq!(plan.subscribable, 2);
    assert_eq!(plan.targets, vec!["m-yes", "m-no", "o-yes", "o-no"]);
    assert_eq!(state.market_info.len(), 1);
    assert!(state.market_info.contains_key("condition-m"));
    assert_eq!(state.rejection_heartbeats.len(), 1);
    assert!(state.rejection_heartbeats.contains_key("m"));
    assert_eq!(state.cycle_decisions_written, 0);
}

#[test]
fn a_cycle_keeps_to_the_market_that_is_asked_for() {
    let open = market("m");
    assert_eq!(market_step(&open, None, NOW, 600_000), MarketStep::Evaluate);
    assert_eq!(market_step(&open, Some("m"), NOW, 600_000), MarketStep::Evaluate);
    assert_eq!(market_step(&open, Some("n"), NOW, 600_000), MarketStep::Skip);
    assert_eq!(market_step(&open, Some("m"), NOW, 599_999), MarketStep::NotSubscribable);
}
