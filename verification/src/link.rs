//! Signals to the engine and its replies.

use crate::decimal::decimal_text;
use crate::decimal::Decimal;
use crate::gamma::BinaryCryptoMarket;
use crate::gamma::MarketView;
use crate::pricing::Direction;
use crate::pricing::Opportunity;
use crate::text::join3;
use crate::text::same_text;
use vstd::prelude::*;

verus! {

/// What became of a signal.
#[derive(Debug, PartialEq, Eq)]
pub enum SubmitOutcome {
    Accepted,
    Duplicate,
    Rejected(String),
    Retriable(String),
}

/// The content of a [`SubmitOutcome`].
pub enum SubmitOutcomeView {
    Accepted,
    Duplicate,
    Rejected(Seq<char>),
    Retriable(Seq<char>),
}

impl View for SubmitOutcome {
    type V = SubmitOutcomeView;

    open spec fn view(&self) -> SubmitOutcomeView {
        match self {
            SubmitOutcome::Accepted => SubmitOutcomeView::Accepted,
            SubmitOutcome::Duplicate => SubmitOutcomeView::Duplicate,
            SubmitOutcome::Rejected(reason) => SubmitOutcomeView::Rejected(reason@),
            SubmitOutcome::Retriable(reason) => SubmitOutcomeView::Retriable(reason@),
        }
    }
}

/// What the engine answers to a signal.
#[derive(Debug, PartialEq, Eq)]
pub struct SignalReply {
    pub accepted: bool,
    pub duplicate: bool,
    pub reason: String,
}

/// How a call to the engine fails.
#[derive(Clone, Copy, Debug, PartialEq, Eq, Structural)]
pub enum FailureCode {
    Unavailable,
    ResourceExhausted,
    Other,
}

/// How to unwind a position before its market closes.
#[derive(Debug, PartialEq, Eq)]
pub struct CloseRecoveryPolicy {
    pub lead_time_ms: i64,
    pub max_loss: String,
}

/// A signal to trade a complete set. It names no tenant.
#[derive(Debug, PartialEq, Eq)]
pub struct SubmitCompleteSetSignalRequest {
    pub signal_id: String,
    pub strategy_id: String,
    pub source: String,
    pub market_id: String,
    pub condition_id: String,
    pub token_a_id: String,
    pub token_b_id: String,
    pub direction: Direction,
    pub quantity: String,
    pub max_pair_cost: String,
    pub min_pair_proceeds: String,
    pub expected_profit: String,
    pub expected_return_bps: String,
    pub token_a_book_observed_at_ms: i64,
    pub token_b_book_observed_at_ms: i64,
    pub observed_at_ms: i64,
    pub close_recovery: Option<CloseRecoveryPolicy>,
}

/// The content of a [`SubmitCompleteSetSignalRequest`].
pub struct RequestView {
    pub signal_id: Seq<char>,
    pub strategy_id: Seq<char>,
    pub source: Seq<char>,
    pub market_id: Seq<char>,
    pub condition_id: Seq<char>,
    pub token_a_id: Seq<char>,
    pub token_b_id: Seq<char>,
    pub direction: Direction,
    pub quantity: Seq<char>,
    pub max_pair_cost: Seq<char>,
    pub min_pair_proceeds: Seq<char>,
    pub expected_profit: Seq<char>,
    pub expected_return_bps: Seq<char>,
    pub token_a_book_observed_at_ms: i64,
    pub token_b_book_observed_at_ms: i64,
    pub observed_at_ms: i64,
    pub close_recovery: Option<(i64, Seq<char>)>,
}

impl View for SubmitCompleteSetSignalRequest {
    type V = RequestView;

    open spec fn view(&self) -> RequestView {
        RequestView {
            signal_id: self.signal_id@,
            strategy_id: self.strategy_id@,
            source: self.source@,
            market_id: self.market_id@,
            condition_id: self.condition_id@,
            token_a_id: self.token_a_id@,
            token_b_id: self.token_b_id@,
            direction: self.direction,
            quantity: self.quantity@,
            max_pair_cost: self.max_pair_cost@,
            min_pair_proceeds: self.min_pair_proceeds@,
            expected_profit: self.expected_profit@,
            expected_return_bps: self.expected_return_bps@,
            token_a_book_observed_at_ms: self.token_a_book_observed_at_ms,
            token_b_book_observed_at_ms: self.token_b_book_observed_at_ms,
            observed_at_ms: self.observed_at_ms,
            close_recovery: match self.close_recovery {
                Some(policy) => Some((policy.lead_time_ms, policy.max_loss@)),
                None => None,
            },
        }
    }
}

/// The signal for an opportunity in a market: a pair is bought for at most its
/// value, or sold for at least its value.
pub open spec fn request_for(
    signal_id: Seq<char>,
    strategy_id: Seq<char>,
    source: Seq<char>,
    market: MarketView,
    opportunity: Opportunity,
    token_a_book_observed_at_ms: i64,
    token_b_book_observed_at_ms: i64,
    observed_at_ms: i64,
    recovery_enabled: bool,
    close_lead_ms: i64,
    max_loss: Decimal,
) -> RequestView {
    RequestView {
        signal_id,
        strategy_id,
        source,
        market_id: market.market_id,
        condition_id: market.condition_id,
        token_a_id: market.token_a,
        token_b_id: market.token_b,
        direction: opportunity.direction,
        quantity: decimal_text(opportunity.quantity),
        max_pair_cost: match opportunity.direction {
            Direction::BuyMerge => decimal_text(opportunity.pair_value),
            Direction::SplitSell => Seq::empty(),
        },
        min_pair_proceeds: match opportunity.direction {
            Direction::BuyMerge => Seq::empty(),
            Direction::SplitSell => decimal_text(opportunity.pair_value),
        },
        expected_profit: decimal_text(opportunity.net_profit),
        expected_return_bps: decimal_text(opportunity.return_bps),
        token_a_book_observed_at_ms,
        token_b_book_observed_at_ms,
        observed_at_ms,
        close_recovery: if recovery_enabled {
            Some((close_lead_ms, decimal_text(max_loss)))
        } else {
            None
        },
    }
}

/// The signal for an opportunity in a market.
pub fn request(
    signal_id: String,
    strategy_id: &str,
    source: &str,
    market: &BinaryCryptoMarket,
    opportunity: &Opportunity,
    token_a_book_observed_at_ms: i64,
    token_b_book_observed_at_ms: i64,
    observed_at_ms: i64,
    recovery_enabled: bool,
    close_lead_ms: i64,
    max_loss: Decimal,
) -> (r: SubmitCompleteSetSignalRequest)
    ensures
        r@ == request_for(
            signal_id@,
            strategy_id@,
            source@,
            market@,
            *opportunity,
            token_a_book_observed_at_ms,
            token_b_book_observed_at_ms,
            observed_at_ms,
            recovery_enabled,
            close_lead_ms,
            max_loss,
        ),
{
    let (max_pair_cost, min_pair_proceeds) = match opportunity.direction {
        Direction::BuyMerge => (opportunity.pair_value.text(), String::new()),
        Direction::SplitSell => (String::new(), opportunity.pair_value.text()),
    };
    let close_recovery = if recovery_enabled {
        Some(CloseRecoveryPolicy { lead_time_ms: close_lead_ms, max_loss: max_loss.text() })
    } else {
        None
    };
    SubmitCompleteSetSignalRequest {
        signal_id,
        strategy_id: strategy_id.to_owned(),
        source: source.to_owned(),
        market_id: market.market_id.clone(),
        condition_id: market.condition_id.clone(),
        token_a_id: market.outcomes[0].token_id.clone(),
        token_b_id: market.outcomes[1].token_id.clone(),
        direction: opportunity.direction,
        quantity: opportunity.quantity.text(),
        max_pair_cost,
        min_pair_proceeds,
        expected_profit: opportunity.net_profit.text(),
        expected_return_bps: opportunity.return_bps.text(),
        token_a_book_observed_at_ms,
        token_b_book_observed_at_ms,
        observed_at_ms,
        close_recovery,
    }
}

/// Whether a list holds a text.
pub open spec fn lists(list: Seq<String>, text: Seq<char>) -> bool {
    exists|i: int| 0 <= i < list.len() && (#[trigger] list[i])@ == text
}

fn holds(list: &Vec<String>, text: &str) -> (r: bool)
    ensures
        r == lists(list@, text@),
{
    let mut i: usize = 0;
    while i < list.len()
        invariant
            i <= list@.len(),
            forall|j: int| 0 <= j < i ==> (#[trigger] list@[j])@ != text@,
        decreases list@.len() - i,
    {
        if same_text(list[i].as_str(), text) {
            return true;
        }
        i += 1;
    }
    false
}

/// Whether an engine can recover and reconcile what is submitted automatically.
pub fn supports_automatic_submission(capabilities: &Vec<String>) -> (r: bool)
    ensures
        r == (lists(capabilities@, "close_recovery_v1"@) && lists(
            capabilities@,
            "complete_set_reconciliation_v1"@,
        )),
{
    holds(capabilities, "close_recovery_v1") && holds(
        capabilities,
        "complete_set_reconciliation_v1",
    )
}

/// What became of a signal that is not sent: the engine lacks what it takes.
pub fn unsupported_outcome() -> (r: SubmitOutcome)
    ensures
        r@ == SubmitOutcomeView::Rejected(
            "engine lacks close-recovery/reconciliation capabilities"@,
        ),
{
    SubmitOutcome::Rejected("engine lacks close-recovery/reconciliation capabilities".to_owned())
}

/// What became of a signal that the engine answered.
pub fn reply_outcome(reply: SignalReply) -> (r: SubmitOutcome)
    ensures
        r@ == (if reply.duplicate {
            SubmitOutcomeView::Duplicate
        } else if reply.accepted {
            SubmitOutcomeView::Accepted
        } else {
            SubmitOutcomeView::Rejected(reply.reason@)
        }),
{
    if reply.duplicate {
        SubmitOutcome::Duplicate
    } else if reply.accepted {
        SubmitOutcome::Accepted
    } else {
        SubmitOutcome::Rejected(reply.reason)
    }
}

/// What became of a signal of which the call failed; `None` where the failure is
/// an error of the call itself.
pub fn failure_outcome(code: FailureCode, message: &str) -> (r: Option<SubmitOutcome>)
    ensures
        match r {
            Some(outcome) => code != FailureCode::Other && outcome@ == SubmitOutcomeView::Retriable(
                (if code == FailureCode::Unavailable {
                    "Unavailable"@
                } else {
                    "ResourceExhausted"@
                }) + ": "@ + message@,
            ),
            None => code == FailureCode::Other,
        },
{
    match code {
        FailureCode::Unavailable => Some(
            SubmitOutcome::Retriable(join3("Unavailable", ": ", message)),
        ),
        FailureCode::ResourceExhausted => Some(
            SubmitOutcome::Retriable(join3("ResourceExhausted", ": ", message)),
        ),
        FailureCode::Other => None,
    }
}

/// A signal for a bought pair bounds its cost and leaves its proceeds open, and
/// one for a sold pair the other way round.
pub proof fn law_signals_bound_one_side(
    signal_id: Seq<char>,
    strategy_id: Seq<char>,
    source: Seq<char>,
    market: MarketView,
    opportunity: Opportunity,
    token_a_book_observed_at_ms: i64,
    token_b_book_observed_at_ms: i64,
    observed_at_ms: i64,
    recovery_enabled: bool,
    close_lead_ms: i64,
    max_loss: Decimal,
)
    ensures
        ({
            let signal = request_for(
                signal_id,
                strategy_id,
                source,
                market,
                opportunity,
                token_a_book_observed_at_ms,
                token_b_book_observed_at_ms,
                observed_at_ms,
                recovery_enabled,
                close_lead_ms,
                max_loss,
            );
            match opportunity.direction {
                Direction::BuyMerge => signal.max_pair_cost == decimal_text(opportunity.pair_value)
                    && signal.min_pair_proceeds.len() == 0,
                Direction::SplitSell => signal.min_pair_proceeds == decimal_text(
                    opportunity.pair_value,
                ) && signal.max_pair_cost.len() == 0,
            }
        }),
{
}

/// A signal names the market, its condition and its two tokens in their order, and
/// says the direction, the quantity, what is expected, when each book was taken and
/// when it was observed; it can be unwound before the close exactly when recovery is
/// on, within the loss that is allowed.
pub proof fn law_what_a_signal_says(
    signal_id: Seq<char>,
    strategy_id: Seq<char>,
    source: Seq<char>,
    market: MarketView,
    opportunity: Opportunity,
    a_ms: i64,
    b_ms: i64,
    now_ms: i64,
    recovery_enabled: bool,
    close_lead_ms: i64,
    max_loss: Decimal,
)
    ensures
        ({
            let signal = request_for(
                signal_id,
                strategy_id,
                source,
                market,
                opportunity,
                a_ms,
                b_ms,
                now_ms,
                recovery_enabled,
                close_lead_ms,
                max_loss,
            );
            &&& signal.signal_id == signal_id
            &&& signal.strategy_id == strategy_id
            &&& signal.source == source
            &&& signal.market_id == market.market_id
            &&& signal.condition_id == market.condition_id
            &&& signal.token_a_id == market.token_a
            &&& signal.token_b_id == market.token_b
            &&& signal.direction == opportunity.direction
            &&& signal.quantity == decimal_text(opportunity.quantity)
            &&& signal.expected_profit == decimal_text(opportunity.net_profit)
            &&& signal.expected_return_bps == decimal_text(opportunity.return_bps)
            &&& signal.token_a_book_observed_at_ms == a_ms
            &&& signal.token_b_book_observed_at_ms == b_ms
            &&& signal.observed_at_ms == now_ms
            &&& !recovery_enabled ==> signal.close_recovery is None
            &&& recovery_enabled ==> signal.close_recovery == Some(
                (close_lead_ms, decimal_text(max_loss)),
            )
        }),
{
}

} // verus!
