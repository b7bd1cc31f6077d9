use moni_strategy_beta::config::{ProfitabilityConfig, QualityConfig, ReserveConfig, RiskConfig};
use moni_strategy_beta::decimal::Decimal;
use moni_strategy_beta::error::StrategyError;
use moni_strategy_beta::pricing::{
    best_for_direction, direction_label, evaluate, select_best, try_best_for_direction,
    try_evaluate, try_select_best, try_validate_final_books, validate_fee_metadata,
    validate_final_books, Book, Direction, FeeSchedule, Level, Rejection,
};

fn d(value: &str) -> Decimal {
    Decimal::from_text(value).unwrap()
}

fn book(token: &str, bids: &[(&str, &str)], asks: &[(&str, &str)], ts: i64) -> Book {
    let levels = |values: &[(&str, &str)]| {
        values
            .iter()
            .map(|(price, size)| Level { price: d(price), size: d(size) })
            .collect()
    };
    Book {
        market_id: "m".to_owned(),
        token_id: token.to_owned(),
        bids: levels(bids),
        asks: levels(asks),
        updated_at_ms: ts,
    }
}

fn reserves() -> ReserveConfig {
    ReserveConfig {
        slippage_bps: Decimal::zero(),
        latency: Decimal::zero(),
        orphan: Decimal::zero(),
        rounding_scale: 6,
    }
}

fn profitability() -> ProfitabilityConfig {
    ProfitabilityConfig {
        price_band_enabled: true,
        minimum_profit: Decimal::zero(),
        minimum_return_bps: Decimal::zero(),
        depth_fraction: Decimal::one(),
        price_band_low_max: d("0.25"),
        price_band_high_min: d("0.75"),
    }
}

fn risk() -> RiskConfig {
    RiskConfig {
        max_per_cycle: d("1000"),
        max_per_market: d("1000"),
        max_per_underlying: d("1000"),
        max_aggregate: d("1000"),
        max_orphan_loss: d("1000"),
        max_unmatched_inventory: d("1000"),
        daily_loss_limit: d("1000"),
        signals_per_minute: 100,
    }
}

fn no_fee() -> FeeSchedule {
    FeeSchedule { rate: Decimal::zero() }
}

#[test]
fn price_band_skips_coinflip_prices_but_allows_extremes() {
    let fees = no_fee();
    let in_band_a = book("a", &[], &[("0.48", "10")], 100);
    let in_band_b = book("b", &[], &[("0.48", "10")], 100);
    assert_eq!(
        best_for_direction(
            &in_band_a,
            &in_band_b,
            &fees,
            Direction::BuyMerge,
            &profitability(),
            &reserves(),
            &risk(),
        ),
        Err(Rejection::OutsidePriceBand)
    );

    let extreme_a = book("a", &[], &[("0.20", "10")], 100);
    let extreme_b = book("b", &[], &[("0.20", "10")], 100);
    assert!(best_for_direction(
        &extreme_a,
        &extreme_b,
        &fees,
        Direction::BuyMerge,
        &profitability(),
        &reserves(),
        &risk(),
    )
    .is_ok());
}

#[test]
fn prices_buy_across_multiple_levels_with_per_level_fees() {
    let a = book("a", &[], &[("0.40", "2"), ("0.42", "3")], 100);
    let b = book("b", &[], &[("0.45", "5")], 100);
    let result = evaluate(
        &a,
        &b,
        &FeeSchedule { rate: d("0.07") },
        Direction::BuyMerge,
        d("4"),
        &reserves(),
    )
    .unwrap();
    assert_eq!(result.leg_a_gross, d("1.64"));
    assert_eq!(result.leg_b_gross, d("1.80"));
    assert!(result.fees > Decimal::zero());
    assert!(result.net_profit > Decimal::zero());
}

#[test]
fn fees_are_charged_level_by_level_and_rounded_up() {
    let a = book("a", &[], &[("0.40", "2"), ("0.42", "3")], 100);
    let b = book("b", &[], &[("0.45", "5")], 100);
    let result = evaluate(
        &a,
        &b,
        &FeeSchedule { rate: d("0.07") },
        Direction::BuyMerge,
        d("4"),
        &reserves(),
    )
    .unwrap();
    // 2 * 0.07 * 0.40 * 0.60 + 2 * 0.07 * 0.42 * 0.58 + 4 * 0.07 * 0.45 * 0.55
    // = 0.0336 + 0.034104 + 0.0693
    assert_eq!(result.fees, d("0.137004"));
    assert_eq!(result.pair_value, d("3.577004"));
    assert_eq!(result.net_profit, d("0.422996"));
    assert_eq!(result.capital, result.pair_value);
}

#[test]
fn prices_split_sell_and_rounds_proceeds_down() {
    let a = book("a", &[("0.60", "5")], &[], 100);
    let b = book("b", &[("0.55", "5")], &[], 100);
    let result = evaluate(
        &a,
        &b,
        &FeeSchedule { rate: d("0.07") },
        Direction::SplitSell,
        d("2"),
        &reserves(),
    )
    .unwrap();
    assert!(result.pair_value > d("2"));
    assert_eq!(result.capital, d("2"));
}

#[test]
fn rounding_goes_against_the_strategy() {
    let mut coarse = reserves();
    coarse.rounding_scale = 1;
    let a = book("a", &[("0.61", "5")], &[("0.11", "5")], 100);
    let b = book("b", &[("0.52", "5")], &[("0.12", "5")], 100);
    let bought =
        evaluate(&a, &b, &no_fee(), Direction::BuyMerge, d("1"), &coarse).unwrap();
    assert_eq!(bought.pair_value, d("0.3"));
    assert_eq!(bought.net_profit, d("0.7"));
    let sold = evaluate(&a, &b, &no_fee(), Direction::SplitSell, d("1"), &coarse).unwrap();
    assert_eq!(sold.pair_value, d("1.1"));
    assert_eq!(sold.net_profit, d("0.1"));
    assert_eq!(sold.return_bps, d("1000"));
}

#[test]
fn reserves_are_held_back() {
    let held = ReserveConfig {
        slippage_bps: d("100"),
        latency: d("0.01"),
        orphan: d("0.02"),
        rounding_scale: 6,
    };
    let a = book("a", &[], &[("0.20", "10")], 100);
    let b = book("b", &[], &[("0.30", "10")], 100);
    let result = evaluate(&a, &b, &no_fee(), Direction::BuyMerge, d("10"), &held).unwrap();
    // 1% of 5, and 0.03
    assert_eq!(result.reserves, d("0.08"));
    assert_eq!(result.pair_value, d("5.08"));
}

#[test]
fn quantities_beyond_the_depth_or_not_positive_are_refused() {
    let a = book("a", &[], &[("0.20", "10")], 100);
    let b = book("b", &[], &[("0.30", "4")], 100);
    assert_eq!(
        evaluate(&a, &b, &no_fee(), Direction::BuyMerge, d("5"), &reserves()),
        Err(StrategyError::InsufficientDepth)
    );
    assert_eq!(
        evaluate(&a, &b, &no_fee(), Direction::BuyMerge, d("0"), &reserves()),
        Err(StrategyError::QuantityNotPositive)
    );
    assert!(evaluate(&a, &b, &no_fee(), Direction::BuyMerge, d("4"), &reserves()).is_ok());
}

#[test]
fn numbers_beyond_the_range_of_decimals_are_told_apart() {
    let huge = "79228162514264337593543950335";
    let a = book("a", &[], &[("0.20", huge), ("0.21", huge)], 100);
    let b = book("b", &[], &[("0.30", huge), ("0.31", huge)], 100);
    assert_eq!(
        try_best_for_direction(
            &a,
            &b,
            &no_fee(),
            Direction::BuyMerge,
            &profitability(),
            &reserves(),
            &risk(),
        ),
        None
    );
    assert_eq!(
        try_select_best(&a, &b, &no_fee(), &profitability(), &reserves(), &risk()),
        None
    );
    let priced = try_evaluate(&a, &b, &no_fee(), Direction::BuyMerge, d("1"), &reserves());
    assert_eq!(priced.unwrap().unwrap().pair_value, d("0.5"));
}

#[test]
fn the_best_quantity_stops_where_the_next_level_loses() {
    let a = book("a", &[], &[("0.20", "10"), ("0.60", "10")], 100);
    let b = book("b", &[], &[("0.30", "15"), ("0.70", "10")], 100);
    let best = best_for_direction(
        &a,
        &b,
        &no_fee(),
        Direction::BuyMerge,
        &profitability(),
        &reserves(),
        &risk(),
    )
    .unwrap();
    // up to 10 a pair costs 0.5; from there on 0.9 up to 15, and 1.3 beyond
    assert_eq!(best.quantity, d("15"));
    assert_eq!(best.net_profit, d("5.5"));
}

#[test]
fn participation_and_capital_limits_cap_the_quantity() {
    let a = book("a", &[], &[("0.20", "10")], 100);
    let b = book("b", &[], &[("0.30", "20")], 100);
    let mut partial = profitability();
    partial.depth_fraction = d("0.25");
    let best = best_for_direction(
        &a,
        &b,
        &no_fee(),
        Direction::BuyMerge,
        &partial,
        &reserves(),
        &risk(),
    )
    .unwrap();
    assert_eq!(best.quantity, d("2.5"));
    let mut small = risk();
    small.max_per_cycle = d("1");
    assert_eq!(
        best_for_direction(
            &a,
            &b,
            &no_fee(),
            Direction::BuyMerge,
            &partial,
            &reserves(),
            &small,
        ),
        Err(Rejection::NoProfitableDepth)
    );
}

#[test]
fn thresholds_reject_small_profits() {
    let a = book("a", &[], &[("0.20", "10")], 100);
    let b = book("b", &[], &[("0.79", "10")], 100);
    let mut demanding = profitability();
    demanding.minimum_profit = d("0.10");
    demanding.minimum_return_bps = d("200");
    assert_eq!(
        best_for_direction(
            &a,
            &b,
            &no_fee(),
            Direction::BuyMerge,
            &demanding,
            &reserves(),
            &risk(),
        ),
        Err(Rejection::NoProfitableDepth)
    );
    demanding.minimum_return_bps = d("100");
    let best = best_for_direction(
        &a,
        &b,
        &no_fee(),
        Direction::BuyMerge,
        &demanding,
        &reserves(),
        &risk(),
    )
    .unwrap();
    assert_eq!(best.net_profit, d("0.1"));
    assert!(best.pair_value < best.quantity);
}

#[test]
fn sums_and_products_keep_their_decimal_places() {
    let a = book("a", &[], &[("0.20", "10")], 100);
    let b = book("b", &[], &[("0.790", "10")], 100);
    let priced =
        evaluate(&a, &b, &no_fee(), Direction::BuyMerge, d("10"), &reserves()).unwrap();
    assert_eq!(priced.leg_a_gross.text(), "2.00");
    assert_eq!(priced.leg_b_gross.text(), "7.900");
    assert_eq!(priced.fees.text(), "0");
    assert_eq!(priced.pair_value.text(), "9.900");
    assert_eq!(priced.net_profit.text(), "0.100");
}

#[test]
fn an_empty_side_offers_nothing() {
    let a = book("a", &[], &[], 100);
    let b = book("b", &[], &[("0.79", "10")], 100);
    for (x, y) in [(&a, &b), (&b, &a)] {
        assert_eq!(
            best_for_direction(
                x,
                y,
                &no_fee(),
                Direction::BuyMerge,
                &profitability(),
                &reserves(),
                &risk(),
            ),
            Err(Rejection::NoProfitableDepth)
        );
    }
}

#[test]
fn the_better_direction_wins_and_ties_go_to_selling() {
    let a = book("a", &[("0.80", "10")], &[("0.20", "10")], 100);
    let b = book("b", &[("0.70", "10")], &[("0.30", "10")], 100);
    let best =
        select_best(&a, &b, &no_fee(), &profitability(), &reserves(), &risk()).unwrap();
    // both lock 5 on 10, but buying takes 5 of capital and selling 10
    assert_eq!(best.direction, Direction::BuyMerge);
    let c = book("c", &[("0.90", "10")], &[("0.20", "10")], 100);
    let best =
        select_best(&c, &b, &no_fee(), &profitability(), &reserves(), &risk()).unwrap();
    assert_eq!(best.direction, Direction::SplitSell);
    assert_eq!(best.net_profit, d("6"));
}

#[test]
fn rejects_missing_or_contradictory_fee_curves() {
    assert!(validate_fee_metadata(
        None,
        Some(1),
        Some(true),
        Some(d("0.07")),
        Some(1),
        Some(true)
    )
    .is_err());
    assert!(validate_fee_metadata(
        Some(d("0.07")),
        Some(1),
        Some(true),
        Some(d("0.05")),
        Some(1),
        Some(true),
    )
    .is_err());
    assert!(validate_fee_metadata(
        Some(d("0.07")),
        Some(1),
        Some(true),
        Some(d("0.07")),
        Some(2),
        Some(true),
    )
    .is_err());
}

#[test]
fn each_missing_part_of_the_fee_metadata_is_named() {
    let rate = Some(d("0.07"));
    let check = |gr, ge, gt, cr, ce, ct| validate_fee_metadata(gr, ge, gt, cr, ce, ct);
    assert_eq!(
        check(None, Some(1), Some(true), rate, Some(1), Some(true)),
        Err(StrategyError::GammaFeeCurveMissing)
    );
    assert_eq!(
        check(rate, None, Some(true), rate, Some(1), Some(true)),
        Err(StrategyError::GammaFeeExponentMissing)
    );
    assert_eq!(
        check(rate, Some(1), Some(true), None, Some(1), Some(true)),
        Err(StrategyError::ClobFeeCurveMissing)
    );
    assert_eq!(
        check(rate, Some(1), Some(true), rate, None, Some(true)),
        Err(StrategyError::ClobFeeExponentMissing)
    );
    assert_eq!(
        check(rate, Some(1), None, rate, Some(1), Some(true)),
        Err(StrategyError::GammaFeeApplicabilityMissing)
    );
    assert_eq!(
        check(rate, Some(1), Some(true), rate, Some(1), None),
        Err(StrategyError::ClobFeeApplicabilityMissing)
    );
    assert_eq!(
        check(rate, Some(1), Some(true), rate, Some(1), Some(false)),
        Err(StrategyError::FeeCurvesContradictory)
    );
    assert_eq!(
        check(rate, Some(1), Some(true), Some(d("0.070")), Some(1), Some(true)),
        Ok(FeeSchedule { rate: d("0.07") })
    );
    assert!(check(Some(d("1.01")), Some(1), Some(true), Some(d("1.01")), Some(1), Some(true))
        .is_err());
}

fn quality() -> QualityConfig {
    QualityConfig {
        max_book_age_ms: 750,
        max_token_skew_ms: 250,
        max_tick_disagreement: 1,
        rest_timeout_ms: 500,
        max_rest_round_trip_ms: 500,
    }
}

#[test]
fn final_cross_check_rejects_stale_skewed_and_mismatched_books() {
    let quality = quality();
    let a = book("a", &[], &[("0.40", "5")], 900);
    let b = book("b", &[], &[("0.45", "5")], 900);
    assert!(validate_final_books(
        &a,
        &b,
        &a,
        &b,
        d("1"),
        Direction::BuyMerge,
        d("0.01"),
        1_000,
        100,
        &quality
    )
    .is_ok());
    let stale = book("a", &[], &[("0.40", "5")], 0);
    assert!(validate_final_books(
        &stale,
        &b,
        &stale,
        &b,
        d("1"),
        Direction::BuyMerge,
        d("0.01"),
        1_000,
        100,
        &quality
    )
    .is_err());
    let mismatch = book("a", &[], &[("0.45", "5")], 900);
    assert!(validate_final_books(
        &a,
        &b,
        &mismatch,
        &b,
        d("1"),
        Direction::BuyMerge,
        d("0.01"),
        1_000,
        100,
        &quality
    )
    .is_err());
}

#[test]
fn final_cross_check_names_what_is_wrong() {
    let quality = quality();
    let a = book("a", &[], &[("0.40", "5")], 900);
    let b = book("b", &[], &[("0.45", "5")], 900);
    let check = |ws_a: &Book, ws_b: &Book, rest_a: &Book, rest_b: &Book, quantity: &str, trip| {
        try_validate_final_books(
            ws_a,
            ws_b,
            rest_a,
            rest_b,
            d(quantity),
            Direction::BuyMerge,
            d("0.01"),
            1_000,
            trip,
            &quality,
        )
        .unwrap()
    };
    assert_eq!(check(&a, &b, &a, &b, "1", 501), Err(StrategyError::RestRefreshTooSlow));
    assert_eq!(
        check(&a, &b, &b, &a, "1", 100),
        Err(StrategyError::BooksIdentifyDifferently)
    );
    let future = book("a", &[], &[("0.40", "5")], 1_001);
    assert_eq!(check(&future, &b, &a, &b, "1", 100), Err(StrategyError::BookStale));
    let older = book("b", &[], &[("0.45", "5")], 649);
    assert_eq!(check(&a, &older, &a, &older, "1", 100), Err(StrategyError::BooksSkewed));
    assert_eq!(check(&a, &b, &a, &b, "6", 100), Err(StrategyError::InsufficientDepth));
    let near = book("a", &[], &[("0.41", "5")], 900);
    assert_eq!(check(&a, &b, &near, &b, "5", 500), Ok(()));
    let far = book("a", &[], &[("0.42", "5")], 900);
    assert_eq!(check(&a, &b, &far, &b, "5", 500), Err(StrategyError::DepthDisagrees));
}

#[test]
fn normalizing_sorts_both_sides_and_refuses_invalid_levels() {
    let mut ragged = book(
        "a",
        &[("0.4", "1"), ("0.50", "2"), ("0.5", "3")],
        &[("0.7", "1"), ("0.6", "2")],
        1,
    );
    assert_eq!(ragged.normalize(), Ok(()));
    assert_eq!(ragged.bids[0].size, d("2"));
    assert_eq!(ragged.bids[1].size, d("3"));
    assert_eq!(ragged.bids[2].price, d("0.4"));
    assert_eq!(ragged.asks[0].price, d("0.6"));
    let again = ragged.clone();
    assert_eq!(ragged.normalize(), Ok(()));
    assert_eq!(ragged, again);
    for (price, size) in [("0", "1"), ("1", "1"), ("0.5", "0"), ("0.5", "-1")] {
        let mut broken = book("a", &[("0.1", "1"), ("0.2", "1")], &[(price, size)], 1);
        let before = broken.clone();
        assert_eq!(broken.normalize(), Err(StrategyError::InvalidLevel));
        assert_eq!(broken, before);
    }
}

#[test]
fn directions_have_labels() {
    assert_eq!(direction_label(Direction::BuyMerge), "buy_merge");
    assert_eq!(direction_label(Direction::SplitSell), "split_sell");
}
