use moni_strategy_beta::decision_store::{direction_as_str, direction_from_str};
use moni_strategy_beta::error::StrategyError;
use moni_strategy_beta::pricing::Direction;

/// The schema's constraint and the serialized form both spell the directions
/// out, so the stored texts must stay exactly these.
#[test]
fn direction_matches_serde_representation() {
    for (direction, serde_form) in
        [(Direction::BuyMerge, "buy_merge"), (Direction::SplitSell, "split_sell")]
    {
        assert_eq!(direction_as_str(direction), serde_form);
        assert_eq!(direction_from_str(serde_form).unwrap(), direction);
    }
    assert_eq!(direction_from_str("buy"), Err(StrategyError::UnknownDirection));
}
