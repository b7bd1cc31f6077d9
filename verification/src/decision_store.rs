//! What is recorded of every decision.

use crate::decimal::Decimal;
use crate::error::StrategyError;
use crate::pricing::direction_label;
use crate::pricing::direction_text;
use crate::pricing::Direction;
use crate::text::same_text;
use vstd::prelude::*;

verus! {

/// What was decided about a market.
#[derive(Debug, PartialEq, Eq)]
pub struct Decision {
    pub observed_at_ms: i64,
    pub market_id: String,
    pub condition_id: Option<String>,
    pub token_id_a: Option<String>,
    pub token_id_b: Option<String>,
    pub direction: Option<Direction>,
    pub quantity: Option<Decimal>,
    pub expected_profit: Option<Decimal>,
    pub gate_unlocked: bool,
    pub submitted: bool,
    pub reason: String,
    pub store_coverage_a: Option<bool>,
    pub store_coverage_b: Option<bool>,
}

/// What calibration reads of a decision.
#[derive(Debug, PartialEq, Eq)]
pub struct CalibrationRow {
    pub observed_at_ms: i64,
    pub condition_id: Option<String>,
    pub token_id_a: Option<String>,
    pub token_id_b: Option<String>,
}

/// The text of a direction in the store.
pub fn direction_as_str(direction: Direction) -> (r: &'static str)
    ensures
        r@ == direction_text(direction),
{
    direction_label(direction)
}

/// The direction that a text in the store stands for.
pub fn direction_from_str(raw: &str) -> (r: Result<Direction, StrategyError>)
    ensures
        match r {
            Ok(direction) => raw@ == direction_text(direction),
            Err(e) => raw@ != direction_text(Direction::BuyMerge) && raw@ != direction_text(
                Direction::SplitSell,
            ) && e == StrategyError::UnknownDirection,
        },
        forall|direction: Direction|
            raw@ == #[trigger] direction_text(direction) ==> r == Ok::<Direction, StrategyError>(
                direction,
            ),
{
    proof {
        reveal_strlit("buy_merge");
        reveal_strlit("split_sell");
        assert(direction_text(Direction::BuyMerge).len() != direction_text(
            Direction::SplitSell,
        ).len());
    }
    if same_text(raw, direction_label(Direction::BuyMerge)) {
        Ok(Direction::BuyMerge)
    } else if same_text(raw, direction_label(Direction::SplitSell)) {
        Ok(Direction::SplitSell)
    } else {
        Err(StrategyError::UnknownDirection)
    }
}

} // verus!
