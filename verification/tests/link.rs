use moni_strategy_beta::decimal::Decimal;
use moni_strategy_beta::gamma::{BinaryCryptoMarket, OutcomeToken};
use moni_strategy_beta::link::{
    failure_outcome, reply_outcome, request, supports_automatic_submission, unsupported_outcome,
    FailureCode, SignalReply, SubmitOutcome,
};
use moni_strategy_beta::metrics::{decision_reason, submission_label};
use moni_strategy_beta::pricing::{Direction, Opportunity};

#[test]
fn automatic_submission_requires_both_engine_capabilities() {
    assert!(!supports_automatic_submission(&vec![]));
    assert!(!supports_automatic_submission(&vec!["close_recovery_v1".to_owned()]));
    assert!(supports_automatic_submission(&vec![
        "complete_set_reconciliation_v1".to_owned(),
        "close_recovery_v1".to_owned(),
    ]));
}

fn market() -> BinaryCryptoMarket {
    BinaryCryptoMarket {
        market_id: "m".to_owned(),
        condition_id: "c".to_owned(),
        question: "q".to_owned(),
        rules: "r".to_owned(),
        underlying: "BTC".to_owned(),
        outcomes: [
            OutcomeToken { label: "Yes".to_owned(), token_id: "a".to_owned() },
            OutcomeToken { label: "No".to_owned(), token_id: "b".to_owned() },
        ],
        start_time_ms: None,
        end_time_ms: 2,
        tick_size: Decimal::new(1, 2),
        min_order_size: Decimal::one(),
        neg_risk: false,
        gamma_fee_rate: Some(Decimal::new(7, 2)),
        gamma_fee_exponent: Some(1),
        gamma_fee_taker_only: Some(true),
        active: true,
        accepting_orders: true,
    }
}

fn opportunity(direction: Direction) -> Opportunity {
    Opportunity {
        direction,
        quantity: Decimal::one(),
        leg_a_gross: Decimal::new(4, 1),
        leg_b_gross: Decimal::new(4, 1),
        fees: Decimal::zero(),
        reserves: Decimal::zero(),
        pair_value: Decimal::new(8, 1),
        capital: Decimal::new(8, 1),
        net_profit: Decimal::new(2, 1),
        return_bps: Decimal::from_u64(2_500),
    }
}

#[test]
fn request_is_tenant_agnostic_and_direction_specific() {
    let request = request(
        "id".to_owned(),
        "strategy-beta",
        "beta",
        &market(),
        &opportunity(Direction::BuyMerge),
        1,
        1,
        1,
        true,
        30_000,
        Decimal::new(50, 2),
    );
    assert_eq!(request.max_pair_cost, "0.8");
    assert!(request.min_pair_proceeds.is_empty());
    assert_eq!(request.close_recovery.unwrap().lead_time_ms, 30_000);
}

#[test]
fn sold_pairs_bound_their_proceeds() {
    let request = request(
        "id".to_owned(),
        "strategy-beta",
        "beta",
        &market(),
        &opportunity(Direction::SplitSell),
        1,
        2,
        3,
        false,
        30_000,
        Decimal::new(50, 2),
    );
    assert!(request.max_pair_cost.is_empty());
    assert_eq!(request.min_pair_proceeds, "0.8");
    assert_eq!(request.close_recovery, None);
    assert_eq!(request.token_a_id, "a");
    assert_eq!(request.token_b_id, "b");
    assert_eq!(request.expected_profit, "0.2");
    assert_eq!(request.expected_return_bps, "2500");
    assert_eq!(request.token_b_book_observed_at_ms, 2);
    assert_eq!(request.observed_at_ms, 3);
}

#[test]
fn replies_and_failures_become_outcomes() {
    let reply = |accepted, duplicate| SignalReply {
        accepted,
        duplicate,
        reason: "limit".to_owned(),
    };
    assert_eq!(reply_outcome(reply(true, true)), SubmitOutcome::Duplicate);
    assert_eq!(reply_outcome(reply(true, false)), SubmitOutcome::Accepted);
    assert_eq!(
        reply_outcome(reply(false, false)),
        SubmitOutcome::Rejected("limit".to_owned())
    );
    assert_eq!(
        failure_outcome(FailureCode::Unavailable, "engine offline"),
        Some(SubmitOutcome::Retriable("Unavailable: engine offline".to_owned()))
    );
    assert_eq!(
        failure_outcome(FailureCode::ResourceExhausted, "slow down"),
        Some(SubmitOutcome::Retriable("ResourceExhausted: slow down".to_owned()))
    );
    assert_eq!(failure_outcome(FailureCode::Other, "x"), None);
    assert_eq!(submission_label(&unsupported_outcome()), "rejected");
    assert_eq!(submission_label(&SubmitOutcome::Accepted), "accepted");
}

#[test]
fn decision_reasons_have_bounded_categories() {
    assert_eq!(decision_reason("rejected:Gamma/CLOB tick size mismatch"), "invalid_data");
    assert_eq!(decision_reason("Unavailable: engine offline"), "engine_or_risk_rejected");
    assert_eq!(decision_reason("outside_price_band"), "outside_price_band");
}
