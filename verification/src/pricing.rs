//! Pricing of complete sets.
//!
//! One share of each of two complementary outcomes is worth one unit of
//! collateral. Buying both for less and merging them, or splitting collateral
//! and selling both for more, locks a profit whatever the outcome is. This
//! module walks the depth of both books, charges fees and reserves, rounds
//! against the strategy, and picks the quantity that locks the most.

use crate::config::ProfitabilityConfig;
use crate::config::QualityConfig;
use crate::config::ReserveConfig;
use crate::config::RiskConfig;
use crate::decimal::checked_sub;
use crate::decimal::decimal_of;
use crate::decimal::difference;
use crate::decimal::difference_of;
use crate::decimal::down;
use crate::decimal::down_of;
use crate::decimal::is_next_above;
use crate::decimal::is_next_below;
use crate::decimal::law_rounding_is_tight;
use crate::decimal::le;
use crate::decimal::lemma_common_scale_orders;
use crate::decimal::lemma_le_transitive;
use crate::decimal::lemma_lt_asymmetric;
use crate::decimal::lemma_lt_le_transitive;
use crate::decimal::less;
use crate::decimal::lesser;
use crate::decimal::lt;
use crate::decimal::magnitude;
use crate::decimal::minus;
use crate::decimal::one;
use crate::decimal::over;
use crate::decimal::plus;
use crate::decimal::product;
use crate::decimal::product_of;
use crate::decimal::quotient_of;
use crate::decimal::same;
use crate::decimal::sum;
use crate::decimal::sum_of;
use crate::decimal::times;
use crate::decimal::up;
use crate::decimal::up_of;
use crate::decimal::zero;
use crate::decimal::Decimal;
use crate::decimal::LeastFirst;
use crate::error::StrategyError;
use crate::ints::clamped_difference;
use crate::ints::distance;
use crate::ints::gap;
use crate::ints::saturating_difference;
use crate::sorting::in_order;
use crate::sorting::law_sorted_is_an_ordered_rearrangement;
use crate::sorting::law_sorting_what_is_in_order_changes_nothing;
use crate::sorting::sorted;
use crate::sorting::stable_sort;
use crate::sorting::SortOrder;
use crate::text::same_text;
use vstd::prelude::*;

verus! {

/// So many shares offered or wanted at a price.
#[derive(Clone, Copy, Debug, PartialEq, Eq)]
pub struct Level {
    pub price: Decimal,
    pub size: Decimal,
}

/// The order book of one outcome token.
#[derive(Debug, PartialEq, Eq)]
pub struct Book {
    pub market_id: String,
    pub token_id: String,
    pub bids: Vec<Level>,
    pub asks: Vec<Level>,
    pub updated_at_ms: i64,
}

/// The content of a [`Book`].
#[verifier::ext_equal]
pub struct BookView {
    pub market_id: Seq<char>,
    pub token_id: Seq<char>,
    pub bids: Seq<Level>,
    pub asks: Seq<Level>,
    pub updated_at_ms: i64,
}

impl View for Book {
    type V = BookView;

    open spec fn view(&self) -> BookView {
        BookView {
            market_id: self.market_id@,
            token_id: self.token_id@,
            bids: self.bids@,
            asks: self.asks@,
            updated_at_ms: self.updated_at_ms,
        }
    }
}

/// The two ways to turn a mispriced pair into a locked profit.
#[derive(Clone, Copy, Debug, PartialEq, Eq, PartialOrd, Ord, Structural)]
pub enum Direction {
    BuyMerge,
    SplitSell,
}

/// The label of a direction.
pub open spec fn direction_text(direction: Direction) -> Seq<char> {
    match direction {
        Direction::BuyMerge => "buy_merge"@,
        Direction::SplitSell => "split_sell"@,
    }
}

/// The label of a direction.
pub fn direction_label(direction: Direction) -> (r: &'static str)
    ensures
        r@ == direction_text(direction),
{
    match direction {
        Direction::BuyMerge => "buy_merge",
        Direction::SplitSell => "split_sell",
    }
}

/// The taker fee of a market.
#[derive(Clone, Copy, Debug, PartialEq, Eq)]
pub struct FeeSchedule {
    pub rate: Decimal,
}

/// Why a direction offers nothing.
#[derive(Clone, Copy, Debug, PartialEq, Eq, Structural)]
pub enum Rejection {
    OutsidePriceBand,
    NoProfitableDepth,
}

/// A priced quantity of complete sets.
#[derive(Clone, Copy, Debug, PartialEq, Eq)]
pub struct Opportunity {
    pub direction: Direction,
    pub quantity: Decimal,
    pub leg_a_gross: Decimal,
    pub leg_b_gross: Decimal,
    pub fees: Decimal,
    pub reserves: Decimal,
    pub pair_value: Decimal,
    pub capital: Decimal,
    pub net_profit: Decimal,
    pub return_bps: Decimal,
}

// ---------------------------------------------------------------------------
// Books
// ---------------------------------------------------------------------------

/// A price strictly between zero and one, and a positive size.
pub open spec fn is_valid_level(level: Level) -> bool {
    &&& level.price.m() > 0
    &&& lt(level.price, one())
    &&& level.size.m() > 0
}

/// Whether every level is valid.
pub open spec fn are_valid_levels(levels: Seq<Level>) -> bool {
    forall|i: int| 0 <= i < levels.len() ==> is_valid_level(#[trigger] levels[i])
}

/// Levels from the lowest price to the highest.
pub struct CheapestFirst;

/// Levels from the highest price to the lowest.
pub struct DearestFirst;

impl SortOrder<Level> for CheapestFirst {
    open spec fn before(a: Level, b: Level) -> bool {
        lt(a.price, b.price)
    }

    proof fn is_weak_order(a: Level, b: Level, c: Level) {
        lemma_lt_asymmetric(a.price, b.price);
        if !lt(a.price, b.price) && !lt(b.price, c.price) {
            lemma_le_transitive(c.price, b.price, a.price);
        }
    }

    fn goes_before(a: &Level, b: &Level) -> (r: bool) {
        less(a.price, b.price)
    }
}

impl SortOrder<Level> for DearestFirst {
    open spec fn before(a: Level, b: Level) -> bool {
        lt(b.price, a.price)
    }

    proof fn is_weak_order(a: Level, b: Level, c: Level) {
        lemma_lt_asymmetric(b.price, a.price);
        if !lt(b.price, a.price) && !lt(c.price, b.price) {
            lemma_le_transitive(a.price, b.price, c.price);
        }
    }

    fn goes_before(a: &Level, b: &Level) -> (r: bool) {
        less(b.price, a.price)
    }
}

/// Whether every level is valid.
fn validate_levels(levels: &Vec<Level>) -> (r: bool)
    ensures
        r == are_valid_levels(levels@),
{
    let mut i: usize = 0;
    while i < levels.len()
        invariant
            i <= levels@.len(),
            forall|j: int| 0 <= j < i ==> is_valid_level(#[trigger] levels@[j]),
        decreases levels@.len() - i,
    {
        let level = levels[i];
        if !level.price.is_positive() || !less(level.price, Decimal::one())
            || !level.size.is_positive() {
            assert(!is_valid_level(levels@[i as int]));
            return false;
        }
        i += 1;
    }
    true
}

impl Book {
    /// Puts the best bid and the best ask first, or refuses an invalid level
    /// and leaves the book as it is. Levels of one price stay in their order.
    pub fn normalize(&mut self) -> (r: Result<(), StrategyError>)
        ensures
            r is Ok <==> are_valid_levels(old(self).bids@) && are_valid_levels(old(self).asks@),
            r is Ok ==> final(self).bids@ == sorted::<Level, DearestFirst>(old(self).bids@)
                && final(self).asks@ == sorted::<Level, CheapestFirst>(old(self).asks@),
            r matches Err(e) ==> e == StrategyError::InvalidLevel && *final(self) == *old(self),
            final(self).market_id == old(self).market_id,
            final(self).token_id == old(self).token_id,
            final(self).updated_at_ms == old(self).updated_at_ms,
    {
        if !validate_levels(&self.bids) || !validate_levels(&self.asks) {
            return Err(StrategyError::InvalidLevel);
        }
        let mut bids: Vec<Level> = Vec::new();
        std::mem::swap(&mut bids, &mut self.bids);
        self.bids = stable_sort::<Level, DearestFirst>(bids);
        let mut asks: Vec<Level> = Vec::new();
        std::mem::swap(&mut asks, &mut self.asks);
        self.asks = stable_sort::<Level, CheapestFirst>(asks);
        Ok(())
    }
}

impl Clone for Book {
    fn clone(&self) -> (r: Book)
        ensures
            r@ == self@,
    {
        let mut bids: Vec<Level> = Vec::new();
        let mut i: usize = 0;
        while i < self.bids.len()
            invariant
                i <= self.bids@.len(),
                bids@ == self.bids@.take(i as int),
            decreases self.bids@.len() - i,
        {
            bids.push(self.bids[i]);
            assert(self.bids@.take(i + 1) =~= self.bids@.take(i as int).push(self.bids@[i as int]));
            i += 1;
        }
        let mut asks: Vec<Level> = Vec::new();
        let mut j: usize = 0;
        while j < self.asks.len()
            invariant
                j <= self.asks@.len(),
                asks@ == self.asks@.take(j as int),
            decreases self.asks@.len() - j,
        {
            asks.push(self.asks[j]);
            assert(self.asks@.take(j + 1) =~= self.asks@.take(j as int).push(self.asks@[j as int]));
            j += 1;
        }
        assert(self.bids@.take(i as int) =~= self.bids@);
        assert(self.asks@.take(j as int) =~= self.asks@);
        Book {
            market_id: self.market_id.clone(),
            token_id: self.token_id.clone(),
            bids,
            asks,
            updated_at_ms: self.updated_at_ms,
        }
    }
}

/// The levels that a direction trades against: it buys what is asked and sells
/// into what is bid.
pub open spec fn levels_for(book: Book, direction: Direction) -> Seq<Level> {
    match direction {
        Direction::BuyMerge => book.asks@,
        Direction::SplitSell => book.bids@,
    }
}

fn levels(book: &Book, direction: Direction) -> (r: &Vec<Level>)
    ensures
        r@ == levels_for(*book, direction),
{
    match direction {
        Direction::BuyMerge => &book.asks,
        Direction::SplitSell => &book.bids,
    }
}

// ---------------------------------------------------------------------------
// Fees
// ---------------------------------------------------------------------------

/// What is wrong with the fee metadata of a market, if anything is.
pub open spec fn fee_problem(
    gamma_rate: Option<Decimal>,
    gamma_exponent: Option<i64>,
    gamma_taker_only: Option<bool>,
    clob_rate: Option<Decimal>,
    clob_exponent: Option<i64>,
    clob_taker_only: Option<bool>,
) -> Option<StrategyError> {
    if gamma_rate is None {
        Some(StrategyError::GammaFeeCurveMissing)
    } else if gamma_exponent is None {
        Some(StrategyError::GammaFeeExponentMissing)
    } else if clob_rate is None {
        Some(StrategyError::ClobFeeCurveMissing)
    } else if clob_exponent is None {
        Some(StrategyError::ClobFeeExponentMissing)
    } else if gamma_taker_only is None {
        Some(StrategyError::GammaFeeApplicabilityMissing)
    } else if clob_taker_only is None {
        Some(StrategyError::ClobFeeApplicabilityMissing)
    } else if gamma_rate->0.m() <= 0 || lt(one(), gamma_rate->0) || !same(
        gamma_rate->0,
        clob_rate->0,
    ) || gamma_exponent->0 <= 0 || gamma_exponent != clob_exponent || gamma_taker_only
        != clob_taker_only {
        Some(StrategyError::FeeCurvesContradictory)
    } else {
        None
    }
}

/// The fee schedule that both metadata sources agree on: a rate in `(0, 1]`,
/// the same positive exponent and the same applicability.
pub fn validate_fee_metadata(
    gamma_rate: Option<Decimal>,
    gamma_exponent: Option<i64>,
    gamma_taker_only: Option<bool>,
    clob_rate: Option<Decimal>,
    clob_exponent: Option<i64>,
    clob_taker_only: Option<bool>,
) -> (r: Result<FeeSchedule, StrategyError>)
    ensures
        match r {
            Ok(fees) => fee_problem(
                gamma_rate,
                gamma_exponent,
                gamma_taker_only,
                clob_rate,
                clob_exponent,
                clob_taker_only,
            ) is None && gamma_rate == Some(fees.rate),
            Err(e) => fee_problem(
                gamma_rate,
                gamma_exponent,
                gamma_taker_only,
                clob_rate,
                clob_exponent,
                clob_taker_only,
            ) == Some(e),
        },
{
    let gamma = match gamma_rate {
        Some(rate) => rate,
        None => return Err(StrategyError::GammaFeeCurveMissing),
    };
    let gamma_power: i64 = match gamma_exponent {
        Some(exponent) => exponent,
        None => return Err(StrategyError::GammaFeeExponentMissing),
    };
    let clob = match clob_rate {
        Some(rate) => rate,
        None => return Err(StrategyError::ClobFeeCurveMissing),
    };
    let clob_power: i64 = match clob_exponent {
        Some(exponent) => exponent,
        None => return Err(StrategyError::ClobFeeExponentMissing),
    };
    let gamma_taker = match gamma_taker_only {
        Some(taker_only) => taker_only,
        None => return Err(StrategyError::GammaFeeApplicabilityMissing),
    };
    let clob_taker = match clob_taker_only {
        Some(taker_only) => taker_only,
        None => return Err(StrategyError::ClobFeeApplicabilityMissing),
    };
    if !gamma.is_positive() || less(Decimal::one(), gamma) || gamma != clob || gamma_power <= 0
        || gamma_power != clob_power || gamma_taker != clob_taker {
        return Err(StrategyError::FeeCurvesContradictory);
    }
    Ok(FeeSchedule { rate: gamma })
}

// ---------------------------------------------------------------------------
// Walking the depth of a book
// ---------------------------------------------------------------------------

/// What filling a quantity has come to.
pub struct Fill {
    pub remaining: Decimal,
    pub gross: Decimal,
    pub fee: Decimal,
}

/// The taker fee on `filled` shares at a price: `filled * rate * price * (1 - price)`.
pub open spec fn level_fee(filled: Decimal, rate: Decimal, price: Decimal) -> Option<Decimal> {
    times(
        times(times(Some(filled), Some(rate)), Some(price)),
        minus(Some(one()), Some(price)),
    )
}

/// One level further: as much as the level has, or as is still wanted.
pub open spec fn filled_at(fill: Fill, level: Level, rate: Decimal) -> Option<Fill> {
    let filled = lesser(fill.remaining, level.size);
    let gross = plus(Some(fill.gross), times(Some(filled), Some(level.price)));
    let fee = plus(Some(fill.fee), level_fee(filled, rate, level.price));
    let remaining = minus(Some(fill.remaining), Some(filled));
    match (gross, fee, remaining) {
        (Some(gross), Some(fee), Some(remaining)) => Some(Fill { remaining, gross, fee }),
        _ => None,
    }
}

/// Level by level from the first on, until nothing is wanted any more; `None`
/// where a number leaves the range of decimals.
pub open spec fn walked(levels: Seq<Level>, fill: Fill, rate: Decimal) -> Option<Fill>
    decreases levels.len(),
{
    if levels.len() == 0 || fill.remaining.m() <= 0 {
        Some(fill)
    } else {
        match filled_at(fill, levels[0], rate) {
            Some(next) => walked(levels.drop_first(), next, rate),
            None => None,
        }
    }
}

/// Gross value and fee of executing a quantity against the levels, or that they
/// are too few; `None` where a number leaves the range of decimals.
pub open spec fn executed(levels: Seq<Level>, quantity: Decimal, rate: Decimal) -> Option<
    Result<(Decimal, Decimal), StrategyError>,
> {
    match walked(levels, Fill { remaining: quantity, gross: zero(), fee: zero() }, rate) {
        Some(fill) => if fill.remaining.m() > 0 {
            Some(Err(StrategyError::InsufficientDepth))
        } else {
            Some(Ok((fill.gross, fill.fee)))
        },
        None => None,
    }
}

/// Gross value and fee of executing a quantity against the levels.
pub(crate) fn executable_with_fee(levels: &Vec<Level>, quantity: Decimal, rate: Decimal) -> (r: Option<
    Result<(Decimal, Decimal), StrategyError>,
>)
    ensures
        r == executed(levels@, quantity, rate),
{
    let mut remaining = quantity;
    let mut gross = Decimal::zero();
    let mut fee = Decimal::zero();
    let mut i: usize = 0;
    let ghost start = Fill { remaining: quantity, gross: zero(), fee: zero() };
    assert(levels@.skip(0) =~= levels@);
    while i < levels.len() && remaining.is_positive()
        invariant
            i <= levels@.len(),
            start == (Fill { remaining: quantity, gross: zero(), fee: zero() }),
            walked(levels@, start, rate) == walked(
                levels@.skip(i as int),
                Fill { remaining, gross, fee },
                rate,
            ),
        decreases levels@.len() - i,
    {
        let level = levels[i];
        let ghost rest = levels@.skip(i as int);
        assert(rest.drop_first() =~= levels@.skip(i + 1));
        let filled = remaining.min(level.size);
        let next_gross = sum_of(Some(gross), product_of(Some(filled), Some(level.price)));
        let next_fee = sum_of(
            Some(fee),
            product_of(
                product_of(product_of(Some(filled), Some(rate)), Some(level.price)),
                difference_of(Some(Decimal::one()), Some(level.price)),
            ),
        );
        let next_remaining = difference_of(Some(remaining), Some(filled));
        match (next_gross, next_fee, next_remaining) {
            (Some(g), Some(f), Some(left)) => {
                gross = g;
                fee = f;
                remaining = left;
            },
            _ => {
                return None;
            },
        }
        i += 1;
    }
    if remaining.is_positive() {
        Some(Err(StrategyError::InsufficientDepth))
    } else {
        Some(Ok((gross, fee)))
    }
}

// ---------------------------------------------------------------------------
// Pricing one quantity
// ---------------------------------------------------------------------------

/// What is held back on a gross value: slippage in basis points, latency and
/// orphan reserves, rounded up.
pub open spec fn reserve_on(gross: Option<Decimal>, reserves: ReserveConfig) -> Option<Decimal> {
    up(
        plus(
            plus(
                over(times(gross, Some(reserves.slippage_bps)), Some(decimal_of(10_000, 0))),
                Some(reserves.latency),
            ),
            Some(reserves.orphan),
        ),
        reserves.rounding_scale as nat,
    )
}

/// Profit on capital in basis points; zero without capital.
pub open spec fn return_on(net_profit: Decimal, capital: Decimal) -> Option<Decimal> {
    if capital.m() > 0 {
        over(times(Some(net_profit), Some(decimal_of(10_000, 0))), Some(capital))
    } else {
        Some(zero())
    }
}

/// The value of the pair after fees and reserves: a cost, rounded up, when
/// buying, and proceeds, rounded down, when selling.
pub open spec fn pair_value_of(
    direction: Direction,
    gross: Option<Decimal>,
    fees: Option<Decimal>,
    reserve: Option<Decimal>,
    places: nat,
) -> Option<Decimal> {
    match direction {
        Direction::BuyMerge => up(plus(plus(gross, fees), reserve), places),
        Direction::SplitSell => down(minus(minus(gross, fees), reserve), places),
    }
}

/// The opportunity that two executed legs come to.
pub open spec fn priced(
    direction: Direction,
    quantity: Decimal,
    leg_a: (Decimal, Decimal),
    leg_b: (Decimal, Decimal),
    reserves: ReserveConfig,
) -> Option<Opportunity> {
    let places = reserves.rounding_scale as nat;
    let gross = plus(Some(leg_a.0), Some(leg_b.0));
    let fees = up(plus(Some(leg_a.1), Some(leg_b.1)), places);
    let reserve = reserve_on(gross, reserves);
    match (fees, reserve, pair_value_of(direction, gross, fees, reserve, places)) {
        (Some(fees), Some(reserve), Some(pair_value)) => {
            let (capital, net_profit) = match direction {
                Direction::BuyMerge => (pair_value, difference(quantity, pair_value)),
                Direction::SplitSell => (quantity, difference(pair_value, quantity)),
            };
            match net_profit {
                Some(net_profit) => match return_on(net_profit, capital) {
                    Some(return_bps) => Some(
                        Opportunity {
                            direction,
                            quantity,
                            leg_a_gross: leg_a.0,
                            leg_b_gross: leg_b.0,
                            fees,
                            reserves: reserve,
                            pair_value,
                            capital,
                            net_profit,
                            return_bps,
                        },
                    ),
                    None => None,
                },
                None => None,
            }
        },
        _ => None,
    }
}

/// A quantity priced against both books, or why it cannot be; `None` where a
/// number leaves the range of decimals.
pub open spec fn evaluated(
    levels_a: Seq<Level>,
    levels_b: Seq<Level>,
    rate: Decimal,
    direction: Direction,
    quantity: Decimal,
    reserves: ReserveConfig,
) -> Option<Result<Opportunity, StrategyError>> {
    if quantity.m() <= 0 {
        Some(Err(StrategyError::QuantityNotPositive))
    } else {
        match executed(levels_a, quantity, rate) {
            Some(Ok(leg_a)) => match executed(levels_b, quantity, rate) {
                Some(Ok(leg_b)) => match priced(direction, quantity, leg_a, leg_b, reserves) {
                    Some(opportunity) => Some(Ok(opportunity)),
                    None => None,
                },
                Some(Err(e)) => Some(Err(e)),
                None => None,
            },
            Some(Err(e)) => Some(Err(e)),
            None => None,
        }
    }
}

/// The profit is positive exactly when the trade locks one: a pair bought for
/// less than the collateral that it merges into, or sold for more than the
/// collateral that it is split from.
pub open spec fn locks_its_profit(opportunity: Opportunity) -> bool {
    match opportunity.direction {
        Direction::BuyMerge => opportunity.net_profit.m() > 0 <==> lt(
            opportunity.pair_value,
            opportunity.quantity,
        ),
        Direction::SplitSell => opportunity.net_profit.m() > 0 <==> lt(
            opportunity.quantity,
            opportunity.pair_value,
        ),
    }
}

/// Nothing is understated: a pair bought costs at least its legs, fees and
/// reserves, and a pair sold brings at most its legs less fees and reserves.
pub open spec fn covers_its_costs(opportunity: Opportunity) -> bool {
    let gross = plus(Some(opportunity.leg_a_gross), Some(opportunity.leg_b_gross));
    let fees = Some(opportunity.fees);
    let reserves = Some(opportunity.reserves);
    match opportunity.direction {
        Direction::BuyMerge => plus(plus(gross, fees), reserves) matches Some(cost) && le(
            cost,
            opportunity.pair_value,
        ),
        Direction::SplitSell => minus(minus(gross, fees), reserves) matches Some(proceeds) && le(
            opportunity.pair_value,
            proceeds,
        ),
    }
}

/// The fees are the taker fees of both legs, whatever the direction, rounded up by
/// less than a unit of the rounding scale.
pub open spec fn charges_both_legs(
    opportunity: Opportunity,
    levels_a: Seq<Level>,
    levels_b: Seq<Level>,
    rate: Decimal,
    reserves: ReserveConfig,
) -> bool {
    exists|fills_a: Seq<Decimal>, fills_b: Seq<Decimal>|
        {
            &&& #[trigger] fills_all(levels_a, opportunity.quantity, fills_a)
            &&& #[trigger] fills_all(levels_b, opportunity.quantity, fills_b)
            &&& plus(
                taker_fees_of(levels_a, fills_a, rate),
                taker_fees_of(levels_b, fills_b, rate),
            ) matches Some(charged) && is_next_above(
                opportunity.fees,
                charged,
                reserves.rounding_scale as nat,
            )
        }
}

fn checked_price(
    direction: Direction,
    quantity: Decimal,
    leg_a: (Decimal, Decimal),
    leg_b: (Decimal, Decimal),
    reserves: &ReserveConfig,
) -> (r: Option<Opportunity>)
    ensures
        r == priced(direction, quantity, leg_a, leg_b, *reserves),
        r matches Some(opportunity) ==> locks_its_profit(opportunity) && covers_its_costs(
            opportunity,
        ),
        r matches Some(opportunity) ==> sum(leg_a.1, leg_b.1) matches Some(charged)
            && is_next_above(opportunity.fees, charged, reserves.rounding_scale as nat),
{
    let places: u32 = reserves.rounding_scale;
    let gross = sum_of(Some(leg_a.0), Some(leg_b.0));
    let fees = up_of(sum_of(Some(leg_a.1), Some(leg_b.1)), places);
    let reserve = up_of(
        sum_of(
            sum_of(
                quotient_of(
                    product_of(gross, Some(reserves.slippage_bps)),
                    Some(Decimal::new(10_000, 0)),
                ),
                Some(reserves.latency),
            ),
            Some(reserves.orphan),
        ),
        places,
    );
    let value = match direction {
        Direction::BuyMerge => up_of(sum_of(sum_of(gross, fees), reserve), places),
        Direction::SplitSell => down_of(difference_of(difference_of(gross, fees), reserve), places),
    };
    let (fees, reserve, pair_value) = match (fees, reserve, value) {
        (Some(f), Some(s), Some(v)) => (f, s, v),
        _ => return None,
    };
    let (capital, profit) = match direction {
        Direction::BuyMerge => (pair_value, checked_sub(quantity, pair_value)),
        Direction::SplitSell => (quantity, checked_sub(pair_value, quantity)),
    };
    proof {
        lemma_common_scale_orders(pair_value, quantity);
        lemma_common_scale_orders(quantity, pair_value);
    }
    let net_profit = match profit {
        Some(n) => n,
        None => return None,
    };
    let earned = if capital.is_positive() {
        quotient_of(
            product_of(Some(net_profit), Some(Decimal::new(10_000, 0))),
            Some(capital),
        )
    } else {
        Some(Decimal::zero())
    };
    match earned {
        Some(return_bps) => Some(
            Opportunity {
                direction,
                quantity,
                leg_a_gross: leg_a.0,
                leg_b_gross: leg_b.0,
                fees,
                reserves: reserve,
                pair_value,
                capital,
                net_profit,
                return_bps,
            },
        ),
        None => None,
    }
}

pub(crate) fn checked_evaluate(
    book_a: &Book,
    book_b: &Book,
    fees: &FeeSchedule,
    direction: Direction,
    quantity: Decimal,
    reserves: &ReserveConfig,
) -> (r: Option<Result<Opportunity, StrategyError>>)
    ensures
        r == evaluated(
            levels_for(*book_a, direction),
            levels_for(*book_b, direction),
            fees.rate,
            direction,
            quantity,
            *reserves,
        ),
        r matches Some(Ok(opportunity)) ==> locks_its_profit(opportunity) && covers_its_costs(
            opportunity,
        ),
        r matches Some(Ok(opportunity)) ==> charges_both_legs(
            opportunity,
            levels_for(*book_a, direction),
            levels_for(*book_b, direction),
            fees.rate,
            *reserves,
        ),
{
    if !quantity.is_positive() {
        return Some(Err(StrategyError::QuantityNotPositive));
    }
    let leg_a = match executable_with_fee(levels(book_a, direction), quantity, fees.rate) {
        Some(Ok(leg)) => leg,
        Some(Err(e)) => return Some(Err(e)),
        None => return None,
    };
    let leg_b = match executable_with_fee(levels(book_b, direction), quantity, fees.rate) {
        Some(Ok(leg)) => leg,
        Some(Err(e)) => return Some(Err(e)),
        None => return None,
    };
    match checked_price(direction, quantity, leg_a, leg_b, reserves) {
        Some(opportunity) => {
            proof {
                let a = levels_for(*book_a, direction);
                let b = levels_for(*book_b, direction);
                law_execution_takes_level_by_level(a, quantity, fees.rate);
                law_execution_takes_level_by_level(b, quantity, fees.rate);
                let fills_a = choose|fills: Seq<Decimal>| #[trigger]
                    fills_all(a, quantity, fills) && value_of(a, fills) == Some(leg_a.0)
                        && taker_fees_of(a, fills, fees.rate) == Some(leg_a.1);
                let fills_b = choose|fills: Seq<Decimal>| #[trigger]
                    fills_all(b, quantity, fills) && value_of(b, fills) == Some(leg_b.0)
                        && taker_fees_of(b, fills, fees.rate) == Some(leg_b.1);
                assert(fills_all(a, opportunity.quantity, fills_a));
                assert(fills_all(b, opportunity.quantity, fills_b));
            }
            Some(Ok(opportunity))
        },
        None => None,
    }
}

/// Prices a quantity against the full depth that it needs on both books.
pub fn evaluate(
    book_a: &Book,
    book_b: &Book,
    fees: &FeeSchedule,
    direction: Direction,
    quantity: Decimal,
    reserves: &ReserveConfig,
) -> (r: Result<Opportunity, StrategyError>)
    requires
        evaluated(
            levels_for(*book_a, direction),
            levels_for(*book_b, direction),
            fees.rate,
            direction,
            quantity,
            *reserves,
        ) is Some,
    ensures
        Some(r) == evaluated(
            levels_for(*book_a, direction),
            levels_for(*book_b, direction),
            fees.rate,
            direction,
            quantity,
            *reserves,
        ),
        r matches Ok(opportunity) ==> locks_its_profit(opportunity) && covers_its_costs(
            opportunity,
        ),
        r matches Ok(opportunity) ==> charges_both_legs(
            opportunity,
            levels_for(*book_a, direction),
            levels_for(*book_b, direction),
            fees.rate,
            *reserves,
        ),
{
    checked_evaluate(book_a, book_b, fees, direction, quantity, reserves).unwrap()
}

/// [`evaluate`], where every number stays in the range of decimals.
pub fn try_evaluate(
    book_a: &Book,
    book_b: &Book,
    fees: &FeeSchedule,
    direction: Direction,
    quantity: Decimal,
    reserves: &ReserveConfig,
) -> (r: Option<Result<Opportunity, StrategyError>>)
    ensures
        r == evaluated(
            levels_for(*book_a, direction),
            levels_for(*book_b, direction),
            fees.rate,
            direction,
            quantity,
            *reserves,
        ),
        r matches Some(Ok(opportunity)) ==> locks_its_profit(opportunity) && covers_its_costs(
            opportunity,
        ),
        r matches Some(Ok(opportunity)) ==> charges_both_legs(
            opportunity,
            levels_for(*book_a, direction),
            levels_for(*book_b, direction),
            fees.rate,
            *reserves,
        ),
{
    match checked_evaluate(book_a, book_b, fees, direction, quantity, reserves) {
        Some(_) => Some(evaluate(book_a, book_b, fees, direction, quantity, reserves)),
        None => None,
    }
}

// ---------------------------------------------------------------------------
// Cross-checking the books
// ---------------------------------------------------------------------------

/// Not in the future, and not older than the limit.
pub open spec fn is_fresh(timestamp_ms: i64, now_ms: i64, max_age_ms: u64) -> bool {
    &&& timestamp_ms <= now_ms
    &&& clamped_difference(now_ms, timestamp_ms) <= max_age_ms
}

fn validate_freshness(timestamp_ms: i64, now_ms: i64, max_age_ms: u64) -> (r: bool)
    ensures
        r == is_fresh(timestamp_ms, now_ms, max_age_ms),
{
    timestamp_ms <= now_ms && saturating_difference(now_ms, timestamp_ms) as u64 <= max_age_ms
}

/// What is wrong with a streamed book and the fetched book of the same token.
pub open spec fn token_problem(ws: Book, rest: Book, now_ms: i64, max_age_ms: u64) -> Option<
    StrategyError,
> {
    if ws.token_id@ != rest.token_id@ || ws.market_id@ != rest.market_id@ {
        Some(StrategyError::BooksIdentifyDifferently)
    } else if !is_fresh(ws.updated_at_ms, now_ms, max_age_ms) || !is_fresh(
        rest.updated_at_ms,
        now_ms,
        max_age_ms,
    ) {
        Some(StrategyError::BookStale)
    } else {
        None
    }
}

fn check_token(ws: &Book, rest: &Book, now_ms: i64, max_age_ms: u64) -> (r: Option<StrategyError>)
    ensures
        r == token_problem(*ws, *rest, now_ms, max_age_ms),
{
    if !same_text(ws.token_id.as_str(), rest.token_id.as_str()) || !same_text(
        ws.market_id.as_str(),
        rest.market_id.as_str(),
    ) {
        Some(StrategyError::BooksIdentifyDifferently)
    } else if !validate_freshness(ws.updated_at_ms, now_ms, max_age_ms) || !validate_freshness(
        rest.updated_at_ms,
        now_ms,
        max_age_ms,
    ) {
        Some(StrategyError::BookStale)
    } else {
        None
    }
}

/// Whether executing a quantity against the streamed and the fetched levels
/// comes to the same, up to a tolerance.
pub open spec fn depth_verdict(
    ws: Seq<Level>,
    rest: Seq<Level>,
    quantity: Decimal,
    tolerance: Decimal,
) -> Option<Result<(), StrategyError>> {
    match executed(ws, quantity, zero()) {
        Some(Ok(streamed)) => match executed(rest, quantity, zero()) {
            Some(Ok(fetched)) => match difference(streamed.0, fetched.0) {
                Some(d) => if lt(tolerance, magnitude(d)) {
                    Some(Err(StrategyError::DepthDisagrees))
                } else {
                    Some(Ok(()))
                },
                None => None,
            },
            Some(Err(e)) => Some(Err(e)),
            None => None,
        },
        Some(Err(e)) => Some(Err(e)),
        None => None,
    }
}

fn check_depth(ws: &Vec<Level>, rest: &Vec<Level>, quantity: Decimal, tolerance: Decimal) -> (r:
    Option<Result<(), StrategyError>>)
    ensures
        r == depth_verdict(ws@, rest@, quantity, tolerance),
{
    let streamed = match executable_with_fee(ws, quantity, Decimal::zero()) {
        Some(Ok(leg)) => leg,
        Some(Err(e)) => return Some(Err(e)),
        None => return None,
    };
    let fetched = match executable_with_fee(rest, quantity, Decimal::zero()) {
        Some(Ok(leg)) => leg,
        Some(Err(e)) => return Some(Err(e)),
        None => return None,
    };
    match checked_sub(streamed.0, fetched.0) {
        Some(d) => if less(tolerance, d.abs()) {
            Some(Err(StrategyError::DepthDisagrees))
        } else {
            Some(Ok(()))
        },
        None => None,
    }
}

/// How far the two executed totals may lie apart: so many ticks on every share.
pub open spec fn tolerance_for(tick_size: Decimal, quantity: Decimal, ticks: u32) -> Option<
    Decimal,
> {
    times(times(Some(tick_size), Some(quantity)), Some(decimal_of(ticks as int, 0)))
}

/// The verdict of the final cross-check of streamed and fetched books; `None`
/// where a number leaves the range of decimals.
pub open spec fn final_books_verdict(
    ws_a: Book,
    ws_b: Book,
    rest_a: Book,
    rest_b: Book,
    quantity: Decimal,
    direction: Direction,
    tick_size: Decimal,
    now_ms: i64,
    rest_round_trip_ms: u64,
    quality: QualityConfig,
) -> Option<Result<(), StrategyError>> {
    let problem_a = token_problem(ws_a, rest_a, now_ms, quality.max_book_age_ms);
    let problem_b = token_problem(ws_b, rest_b, now_ms, quality.max_book_age_ms);
    if rest_round_trip_ms > quality.max_rest_round_trip_ms {
        Some(Err(StrategyError::RestRefreshTooSlow))
    } else if problem_a is Some {
        Some(Err(problem_a->0))
    } else if problem_b is Some {
        Some(Err(problem_b->0))
    } else if gap(ws_a.updated_at_ms, ws_b.updated_at_ms) > quality.max_token_skew_ms || gap(
        rest_a.updated_at_ms,
        rest_b.updated_at_ms,
    ) > quality.max_token_skew_ms {
        Some(Err(StrategyError::BooksSkewed))
    } else {
        match tolerance_for(tick_size, quantity, quality.max_tick_disagreement) {
            Some(tolerance) => match depth_verdict(
                levels_for(ws_a, direction),
                levels_for(rest_a, direction),
                quantity,
                tolerance,
            ) {
                Some(Ok(_)) => depth_verdict(
                    levels_for(ws_b, direction),
                    levels_for(rest_b, direction),
                    quantity,
                    tolerance,
                ),
                refused => refused,
            },
            None => None,
        }
    }
}

pub(crate) fn checked_final_books(
    ws_a: &Book,
    ws_b: &Book,
    rest_a: &Book,
    rest_b: &Book,
    quantity: Decimal,
    direction: Direction,
    tick_size: Decimal,
    now_ms: i64,
    rest_round_trip_ms: u64,
    quality: &QualityConfig,
) -> (r: Option<Result<(), StrategyError>>)
    ensures
        r == final_books_verdict(
            *ws_a,
            *ws_b,
            *rest_a,
            *rest_b,
            quantity,
            direction,
            tick_size,
            now_ms,
            rest_round_trip_ms,
            *quality,
        ),
{
    if rest_round_trip_ms > quality.max_rest_round_trip_ms {
        return Some(Err(StrategyError::RestRefreshTooSlow));
    }
    if let Some(e) = check_token(ws_a, rest_a, now_ms, quality.max_book_age_ms) {
        return Some(Err(e));
    }
    if let Some(e) = check_token(ws_b, rest_b, now_ms, quality.max_book_age_ms) {
        return Some(Err(e));
    }
    if distance(ws_a.updated_at_ms, ws_b.updated_at_ms) > quality.max_token_skew_ms || distance(
        rest_a.updated_at_ms,
        rest_b.updated_at_ms,
    ) > quality.max_token_skew_ms {
        return Some(Err(StrategyError::BooksSkewed));
    }
    let allowed = product_of(
        product_of(Some(tick_size), Some(quantity)),
        Some(Decimal::from_u64(quality.max_tick_disagreement as u64)),
    );
    let tolerance = match allowed {
        Some(t) => t,
        None => return None,
    };
    match check_depth(levels(ws_a, direction), levels(rest_a, direction), quantity, tolerance) {
        Some(Ok(_)) => check_depth(
            levels(ws_b, direction),
            levels(rest_b, direction),
            quantity,
            tolerance,
        ),
        refused => refused,
    }
}

/// Cross-checks the streamed books against the freshly fetched ones: identity,
/// freshness, skew, and agreement on what the quantity comes to.
pub fn validate_final_books(
    ws_a: &Book,
    ws_b: &Book,
    rest_a: &Book,
    rest_b: &Book,
    quantity: Decimal,
    direction: Direction,
    tick_size: Decimal,
    now_ms: i64,
    rest_round_trip_ms: u64,
    quality: &QualityConfig,
) -> (r: Result<(), StrategyError>)
    requires
        final_books_verdict(
            *ws_a,
            *ws_b,
            *rest_a,
            *rest_b,
            quantity,
            direction,
            tick_size,
            now_ms,
            rest_round_trip_ms,
            *quality,
        ) is Some,
    ensures
        Some(r) == final_books_verdict(
            *ws_a,
            *ws_b,
            *rest_a,
            *rest_b,
            quantity,
            direction,
            tick_size,
            now_ms,
            rest_round_trip_ms,
            *quality,
        ),
{
    checked_final_books(
        ws_a,
        ws_b,
        rest_a,
        rest_b,
        quantity,
        direction,
        tick_size,
        now_ms,
        rest_round_trip_ms,
        quality,
    ).unwrap()
}

/// [`validate_final_books`], where every number stays in the range of decimals.
pub fn try_validate_final_books(
    ws_a: &Book,
    ws_b: &Book,
    rest_a: &Book,
    rest_b: &Book,
    quantity: Decimal,
    direction: Direction,
    tick_size: Decimal,
    now_ms: i64,
    rest_round_trip_ms: u64,
    quality: &QualityConfig,
) -> (r: Option<Result<(), StrategyError>>)
    ensures
        r == final_books_verdict(
            *ws_a,
            *ws_b,
            *rest_a,
            *rest_b,
            quantity,
            direction,
            tick_size,
            now_ms,
            rest_round_trip_ms,
            *quality,
        ),
{
    let verdict = checked_final_books(
        ws_a,
        ws_b,
        rest_a,
        rest_b,
        quantity,
        direction,
        tick_size,
        now_ms,
        rest_round_trip_ms,
        quality,
    );
    match verdict {
        Some(_) => Some(
            validate_final_books(
                ws_a,
                ws_b,
                rest_a,
                rest_b,
                quantity,
                direction,
                tick_size,
                now_ms,
                rest_round_trip_ms,
                quality,
            ),
        ),
        None => None,
    }
}

// ---------------------------------------------------------------------------
// Choosing a quantity
// ---------------------------------------------------------------------------

/// The size of all levels together.
pub open spec fn depth(levels: Seq<Level>) -> Option<Decimal>
    decreases levels.len(),
{
    if levels.len() == 0 {
        Some(zero())
    } else {
        plus(depth(levels.drop_last()), Some(levels.last().size))
    }
}

/// The depth down to each level.
pub open spec fn running_depths(levels: Seq<Level>) -> Seq<Decimal> {
    Seq::new(levels.len(), |i: int| depth(levels.take(i + 1))->0)
}

/// The total depth, and the depth down to each level.
fn cumulative_breakpoints(levels: &Vec<Level>) -> (r: Option<(Decimal, Vec<Decimal>)>)
    ensures
        match r {
            Some((whole, points)) => depth(levels@) == Some(whole) && points@ == running_depths(
                levels@,
            ),
            None => depth(levels@) is None,
        },
{
    let mut whole = Decimal::zero();
    let mut points: Vec<Decimal> = Vec::new();
    let mut i: usize = 0;
    while i < levels.len()
        invariant
            i <= levels@.len(),
            depth(levels@.take(i as int)) == Some(whole),
            points@ == running_depths(levels@.take(i as int)),
        decreases levels@.len() - i,
    {
        let ghost before = levels@.take(i as int);
        let ghost after = levels@.take(i + 1);
        assert(after.drop_last() =~= before);
        match sum_of(Some(whole), Some(levels[i].size)) {
            Some(t) => {
                whole = t;
                points.push(t);
                proof {
                    assert forall|k: int| 0 <= k <= i implies #[trigger] running_depths(after)[k]
                        == points@[k] by {
                        if k < i {
                            assert(after.take(k + 1) =~= before.take(k + 1));
                            assert(points@[k] == running_depths(before)[k]);
                        } else {
                            assert(after.take(k + 1) =~= after);
                        }
                    }
                    assert(points@ =~= running_depths(after));
                }
            },
            None => {
                proof {
                    lemma_depth_of_prefix(levels@, i + 1);
                }
                return None;
            },
        }
        i += 1;
    }
    assert(levels@.take(i as int) =~= levels@);
    Some((whole, points))
}

proof fn lemma_depth_of_prefix(levels: Seq<Level>, n: int)
    requires
        0 <= n <= levels.len(),
        depth(levels.take(n)) is None,
    ensures
        depth(levels) is None,
    decreases levels.len() - n,
{
    if n == levels.len() {
        assert(levels.take(n) =~= levels);
    } else {
        assert(levels.take(n + 1).drop_last() =~= levels.take(n));
        lemma_depth_of_prefix(levels, n + 1);
    }
}

/// The sequence without the elements equal to the one kept before them.
pub open spec fn deduped(items: Seq<Decimal>) -> Seq<Decimal>
    decreases items.len(),
{
    if items.len() <= 1 {
        items
    } else {
        let kept = deduped(items.drop_last());
        if same(items.last(), kept.last()) {
            kept
        } else {
            kept.push(items.last())
        }
    }
}

fn dedup(items: &Vec<Decimal>) -> (r: Vec<Decimal>)
    ensures
        r@ == deduped(items@),
{
    let mut r: Vec<Decimal> = Vec::new();
    let mut i: usize = 0;
    while i < items.len()
        invariant
            i <= items@.len(),
            r@ == deduped(items@.take(i as int)),
            i > 0 ==> r@.len() > 0,
        decreases items@.len() - i,
    {
        let ghost after = items@.take(i + 1);
        assert(after.drop_last() =~= items@.take(i as int));
        let item = items[i];
        if r.len() == 0 {
            r.push(item);
            assert(r@ =~= after);
        } else if item != r[r.len() - 1] {
            r.push(item);
        }
        i += 1;
    }
    assert(items@.take(i as int) =~= items@);
    r
}

/// The quantities to price: every depth at which a level of either book is used
/// up, and the most that may be taken, in ascending order and each once.
pub open spec fn candidate_quantities(
    levels_a: Seq<Level>,
    levels_b: Seq<Level>,
    cap: Decimal,
) -> Seq<Decimal> {
    deduped(
        sorted::<Decimal, LeastFirst>(
            (running_depths(levels_a) + running_depths(levels_b)).push(cap),
        ),
    )
}

/// The most that may be taken: a fraction of the depth that both books have.
pub open spec fn participation_cap(
    levels_a: Seq<Level>,
    levels_b: Seq<Level>,
    fraction: Decimal,
) -> Option<Decimal> {
    match (depth(levels_a), depth(levels_b)) {
        (Some(a), Some(b)) => times(Some(lesser(a, b)), Some(fraction)),
        _ => None,
    }
}

/// Within the limit on capital, and earning at least both thresholds.
pub open spec fn is_acceptable(
    opportunity: Opportunity,
    profitability: ProfitabilityConfig,
    risk: RiskConfig,
) -> bool {
    &&& le(opportunity.capital, risk.max_per_cycle)
    &&& le(profitability.minimum_profit, opportunity.net_profit)
    &&& le(profitability.minimum_return_bps, opportunity.return_bps)
}

/// The acceptable opportunities among the quantities in `(0, cap]`, in their
/// order; `None` where a number leaves the range of decimals.
pub open spec fn accepted(
    levels_a: Seq<Level>,
    levels_b: Seq<Level>,
    rate: Decimal,
    direction: Direction,
    quantities: Seq<Decimal>,
    cap: Decimal,
    profitability: ProfitabilityConfig,
    reserves: ReserveConfig,
    risk: RiskConfig,
) -> Option<Seq<Opportunity>>
    decreases quantities.len(),
{
    if quantities.len() == 0 {
        Some(Seq::empty())
    } else {
        let quantity = quantities.last();
        match accepted(
            levels_a,
            levels_b,
            rate,
            direction,
            quantities.drop_last(),
            cap,
            profitability,
            reserves,
            risk,
        ) {
            Some(found) => if quantity.m() <= 0 || lt(cap, quantity) {
                Some(found)
            } else {
                match evaluated(levels_a, levels_b, rate, direction, quantity, reserves) {
                    Some(Ok(o)) => if is_acceptable(o, profitability, risk) {
                        Some(found.push(o))
                    } else {
                        Some(found)
                    },
                    Some(Err(_)) => Some(found),
                    None => None,
                }
            },
            None => None,
        }
    }
}

/// Whether `a` is strictly better than `b`: more profit, or the same profit on
/// less capital.
pub open spec fn outranks(a: Opportunity, b: Opportunity) -> bool {
    lt(b.net_profit, a.net_profit) || (same(a.net_profit, b.net_profit) && lt(
        a.capital,
        b.capital,
    ))
}

/// The best opportunity; the last of equally good ones.
pub open spec fn best_of(opportunities: Seq<Opportunity>) -> Option<Opportunity>
    decreases opportunities.len(),
{
    if opportunities.len() == 0 {
        None
    } else {
        match best_of(opportunities.drop_last()) {
            Some(best) => if outranks(best, opportunities.last()) {
                Some(best)
            } else {
                Some(opportunities.last())
            },
            None => Some(opportunities.last()),
        }
    }
}

/// Whether a price lies strictly inside the band that is skipped.
pub open spec fn is_in_skipped_band(price: Decimal, profitability: ProfitabilityConfig) -> bool {
    &&& profitability.price_band_enabled
    &&& lt(profitability.price_band_low_max, price)
    &&& lt(price, profitability.price_band_high_min)
}

/// The best acceptable opportunity of one direction, or why there is none;
/// `None` where a number leaves the range of decimals.
pub open spec fn best_found(
    levels_a: Seq<Level>,
    levels_b: Seq<Level>,
    rate: Decimal,
    direction: Direction,
    profitability: ProfitabilityConfig,
    reserves: ReserveConfig,
    risk: RiskConfig,
) -> Option<Result<Opportunity, Rejection>> {
    if levels_a.len() == 0 {
        Some(Err(Rejection::NoProfitableDepth))
    } else if is_in_skipped_band(levels_a[0].price, profitability) {
        Some(Err(Rejection::OutsidePriceBand))
    } else {
        match participation_cap(levels_a, levels_b, profitability.depth_fraction) {
            Some(cap) => if cap.m() <= 0 {
                Some(Err(Rejection::NoProfitableDepth))
            } else {
                match accepted(
                    levels_a,
                    levels_b,
                    rate,
                    direction,
                    candidate_quantities(levels_a, levels_b, cap),
                    cap,
                    profitability,
                    reserves,
                    risk,
                ) {
                    Some(found) => match best_of(found) {
                        Some(best) => Some(Ok(best)),
                        None => Some(Err(Rejection::NoProfitableDepth)),
                    },
                    None => None,
                }
            },
            None => None,
        }
    }
}

fn is_better(a: &Opportunity, b: &Opportunity) -> (r: bool)
    ensures
        r == outranks(*a, *b),
{
    less(b.net_profit, a.net_profit) || (a.net_profit == b.net_profit && less(
        a.capital,
        b.capital,
    ))
}

/// A strictly positive profit, locked after every cost: a pair bought below the
/// collateral that it merges into, or sold above the collateral that it is split
/// from.
pub open spec fn locks_a_profit(opportunity: Opportunity) -> bool {
    &&& opportunity.net_profit.m() > 0
    &&& covers_its_costs(opportunity)
    &&& match opportunity.direction {
        Direction::BuyMerge => lt(opportunity.pair_value, opportunity.quantity),
        Direction::SplitSell => lt(opportunity.quantity, opportunity.pair_value),
    }
}

proof fn lemma_threshold_locks(
    opportunity: Opportunity,
    profitability: ProfitabilityConfig,
    risk: RiskConfig,
)
    requires
        is_acceptable(opportunity, profitability, risk),
        locks_its_profit(opportunity),
        covers_its_costs(opportunity),
        profitability.minimum_profit.m() > 0,
    ensures
        locks_a_profit(opportunity),
{
    crate::decimal::lemma_positive_above_zero(profitability.minimum_profit);
    crate::decimal::lemma_positive_above_zero(opportunity.net_profit);
    lemma_lt_asymmetric(zero(), profitability.minimum_profit);
    lemma_lt_le_transitive(zero(), profitability.minimum_profit, opportunity.net_profit);
}

pub(crate) fn checked_best_for_direction(
    book_a: &Book,
    book_b: &Book,
    fees: &FeeSchedule,
    direction: Direction,
    profitability: &ProfitabilityConfig,
    reserves: &ReserveConfig,
    risk: &RiskConfig,
) -> (r: Option<Result<Opportunity, Rejection>>)
    ensures
        r == best_found(
            levels_for(*book_a, direction),
            levels_for(*book_b, direction),
            fees.rate,
            direction,
            *profitability,
            *reserves,
            *risk,
        ),
        r matches Some(Ok(o)) ==> (profitability.minimum_profit.m() > 0 ==> locks_a_profit(o)),
{
    let levels_a = levels(book_a, direction);
    let levels_b = levels(book_b, direction);
    if levels_a.len() == 0 {
        return Some(Err(Rejection::NoProfitableDepth));
    }
    let top_price = levels_a[0].price;
    if profitability.price_band_enabled && less(profitability.price_band_low_max, top_price)
        && less(top_price, profitability.price_band_high_min) {
        return Some(Err(Rejection::OutsidePriceBand));
    }
    let (depth_a, mut points) = match cumulative_breakpoints(levels_a) {
        Some(found) => found,
        None => return None,
    };
    let (depth_b, mut points_b) = match cumulative_breakpoints(levels_b) {
        Some(found) => found,
        None => return None,
    };
    let cap = match product_of(Some(depth_a.min(depth_b)), Some(profitability.depth_fraction)) {
        Some(cap) => cap,
        None => return None,
    };
    if !cap.is_positive() {
        return Some(Err(Rejection::NoProfitableDepth));
    }
    points.append(&mut points_b);
    points.push(cap);
    let sorted_points = stable_sort::<Decimal, LeastFirst>(points);
    let quantities = dedup(&sorted_points);
    let ghost a = levels_a@;
    let ghost b = levels_b@;
    assert(quantities@ == candidate_quantities(a, b, cap));
    let mut best: Option<Opportunity> = None;
    let ghost mut found: Seq<Opportunity> = Seq::empty();
    let mut i: usize = 0;
    while i < quantities.len()
        invariant
            i <= quantities@.len(),
            a == levels_for(*book_a, direction),
            b == levels_for(*book_b, direction),
            accepted(
                a,
                b,
                fees.rate,
                direction,
                quantities@.take(i as int),
                cap,
                *profitability,
                *reserves,
                *risk,
            ) == Some(found),
            best == best_of(found),
            best matches Some(o) ==> (profitability.minimum_profit.m() > 0 ==> locks_a_profit(o)),
            best_found(a, b, fees.rate, direction, *profitability, *reserves, *risk)
                == (match accepted(
                a,
                b,
                fees.rate,
                direction,
                quantities@,
                cap,
                *profitability,
                *reserves,
                *risk,
            ) {
                Some(found) => match best_of(found) {
                    Some(best) => Some(Ok::<Opportunity, Rejection>(best)),
                    None => Some(Err(Rejection::NoProfitableDepth)),
                },
                None => None,
            }),
        decreases quantities@.len() - i,
    {
        let quantity = quantities[i];
        assert(quantities@.take(i + 1).drop_last() =~= quantities@.take(i as int));
        if quantity.is_positive() && !less(cap, quantity) {
            match checked_evaluate(book_a, book_b, fees, direction, quantity, reserves) {
                Some(Ok(o)) => {
                    if !less(risk.max_per_cycle, o.capital) && !less(
                        o.net_profit,
                        profitability.minimum_profit,
                    ) && !less(o.return_bps, profitability.minimum_return_bps) {
                        proof {
                            if profitability.minimum_profit.m() > 0 {
                                lemma_threshold_locks(o, *profitability, *risk);
                            }
                            assert(found.push(o).drop_last() =~= found);
                            found = found.push(o);
                        }
                        best = match best {
                            Some(held) => if is_better(&held, &o) {
                                Some(held)
                            } else {
                                Some(o)
                            },
                            None => Some(o),
                        };
                    }
                },
                Some(Err(_)) => {},
                None => {
                    proof {
                        lemma_accepted_prefix(
                            a,
                            b,
                            fees.rate,
                            direction,
                            quantities@,
                            i + 1,
                            cap,
                            *profitability,
                            *reserves,
                            *risk,
                        );
                    }
                    return None;
                },
            }
        }
        i += 1;
    }
    assert(quantities@.take(i as int) =~= quantities@);
    match best {
        Some(o) => Some(Ok(o)),
        None => Some(Err(Rejection::NoProfitableDepth)),
    }
}

proof fn lemma_accepted_prefix(
    levels_a: Seq<Level>,
    levels_b: Seq<Level>,
    rate: Decimal,
    direction: Direction,
    quantities: Seq<Decimal>,
    n: int,
    cap: Decimal,
    profitability: ProfitabilityConfig,
    reserves: ReserveConfig,
    risk: RiskConfig,
)
    requires
        0 <= n <= quantities.len(),
        accepted(
            levels_a,
            levels_b,
            rate,
            direction,
            quantities.take(n),
            cap,
            profitability,
            reserves,
            risk,
        ) is None,
    ensures
        accepted(
            levels_a,
            levels_b,
            rate,
            direction,
            quantities,
            cap,
            profitability,
            reserves,
            risk,
        ) is None,
    decreases quantities.len() - n,
{
    if n == quantities.len() {
        assert(quantities.take(n) =~= quantities);
    } else {
        assert(quantities.take(n + 1).drop_last() =~= quantities.take(n));
        lemma_accepted_prefix(
            levels_a,
            levels_b,
            rate,
            direction,
            quantities,
            n + 1,
            cap,
            profitability,
            reserves,
            risk,
        );
    }
}

/// The best acceptable opportunity of one direction: among the quantities up to
/// the participation cap, the one that locks the most, on the least capital.
pub fn best_for_direction(
    book_a: &Book,
    book_b: &Book,
    fees: &FeeSchedule,
    direction: Direction,
    profitability: &ProfitabilityConfig,
    reserves: &ReserveConfig,
    risk: &RiskConfig,
) -> (r: Result<Opportunity, Rejection>)
    requires
        best_found(
            levels_for(*book_a, direction),
            levels_for(*book_b, direction),
            fees.rate,
            direction,
            *profitability,
            *reserves,
            *risk,
        ) is Some,
    ensures
        Some(r) == best_found(
            levels_for(*book_a, direction),
            levels_for(*book_b, direction),
            fees.rate,
            direction,
            *profitability,
            *reserves,
            *risk,
        ),
        r matches Ok(o) ==> (profitability.minimum_profit.m() > 0 ==> locks_a_profit(o)),
{
    checked_best_for_direction(book_a, book_b, fees, direction, profitability, reserves, risk).unwrap()
}

/// [`best_for_direction`], where every number stays in the range of decimals.
pub fn try_best_for_direction(
    book_a: &Book,
    book_b: &Book,
    fees: &FeeSchedule,
    direction: Direction,
    profitability: &ProfitabilityConfig,
    reserves: &ReserveConfig,
    risk: &RiskConfig,
) -> (r: Option<Result<Opportunity, Rejection>>)
    ensures
        r == best_found(
            levels_for(*book_a, direction),
            levels_for(*book_b, direction),
            fees.rate,
            direction,
            *profitability,
            *reserves,
            *risk,
        ),
        r matches Some(Ok(o)) ==> (profitability.minimum_profit.m() > 0 ==> locks_a_profit(o)),
{
    match checked_best_for_direction(
        book_a,
        book_b,
        fees,
        direction,
        profitability,
        reserves,
        risk,
    ) {
        Some(_) => Some(
            best_for_direction(book_a, book_b, fees, direction, profitability, reserves, risk),
        ),
        None => None,
    }
}

/// The better of what the two directions offer; the second of equally good ones.
pub open spec fn better_of(
    first: Result<Opportunity, Rejection>,
    second: Result<Opportunity, Rejection>,
) -> Option<Opportunity> {
    match (first, second) {
        (Ok(a), Ok(b)) => if outranks(a, b) {
            Some(a)
        } else {
            Some(b)
        },
        (Ok(a), Err(_)) => Some(a),
        (Err(_), Ok(b)) => Some(b),
        (Err(_), Err(_)) => None,
    }
}

/// The best acceptable opportunity of both directions, if there is one; the
/// outer `None` where a number leaves the range of decimals.
pub open spec fn best_selected(
    book_a: Book,
    book_b: Book,
    rate: Decimal,
    profitability: ProfitabilityConfig,
    reserves: ReserveConfig,
    risk: RiskConfig,
) -> Option<Option<Opportunity>> {
    let bought = best_found(
        book_a.asks@,
        book_b.asks@,
        rate,
        Direction::BuyMerge,
        profitability,
        reserves,
        risk,
    );
    let sold = best_found(
        book_a.bids@,
        book_b.bids@,
        rate,
        Direction::SplitSell,
        profitability,
        reserves,
        risk,
    );
    match (bought, sold) {
        (Some(first), Some(second)) => Some(better_of(first, second)),
        _ => None,
    }
}

pub(crate) fn checked_select_best(
    book_a: &Book,
    book_b: &Book,
    fees: &FeeSchedule,
    profitability: &ProfitabilityConfig,
    reserves: &ReserveConfig,
    risk: &RiskConfig,
) -> (r: Option<Option<Opportunity>>)
    ensures
        r == best_selected(*book_a, *book_b, fees.rate, *profitability, *reserves, *risk),
        r matches Some(Some(o)) ==> (profitability.minimum_profit.m() > 0 ==> locks_a_profit(o)),
{
    let bought = checked_best_for_direction(
        book_a,
        book_b,
        fees,
        Direction::BuyMerge,
        profitability,
        reserves,
        risk,
    );
    let sold = checked_best_for_direction(
        book_a,
        book_b,
        fees,
        Direction::SplitSell,
        profitability,
        reserves,
        risk,
    );
    match (bought, sold) {
        (Some(Ok(a)), Some(Ok(b))) => if is_better(&a, &b) {
            Some(Some(a))
        } else {
            Some(Some(b))
        },
        (Some(Ok(a)), Some(Err(_))) => Some(Some(a)),
        (Some(Err(_)), Some(Ok(b))) => Some(Some(b)),
        (Some(Err(_)), Some(Err(_))) => Some(None),
        _ => None,
    }
}

/// The best acceptable opportunity of both directions.
pub fn select_best(
    book_a: &Book,
    book_b: &Book,
    fees: &FeeSchedule,
    profitability: &ProfitabilityConfig,
    reserves: &ReserveConfig,
    risk: &RiskConfig,
) -> (r: Option<Opportunity>)
    requires
        best_selected(*book_a, *book_b, fees.rate, *profitability, *reserves, *risk) is Some,
    ensures
        Some(r) == best_selected(*book_a, *book_b, fees.rate, *profitability, *reserves, *risk),
        r matches Some(o) ==> (profitability.minimum_profit.m() > 0 ==> locks_a_profit(o)),
{
    checked_select_best(book_a, book_b, fees, profitability, reserves, risk).unwrap()
}

/// [`select_best`], where every number stays in the range of decimals.
pub fn try_select_best(
    book_a: &Book,
    book_b: &Book,
    fees: &FeeSchedule,
    profitability: &ProfitabilityConfig,
    reserves: &ReserveConfig,
    risk: &RiskConfig,
) -> (r: Option<Option<Opportunity>>)
    ensures
        r == best_selected(*book_a, *book_b, fees.rate, *profitability, *reserves, *risk),
        r matches Some(Some(o)) ==> (profitability.minimum_profit.m() > 0 ==> locks_a_profit(o)),
{
    match checked_select_best(book_a, book_b, fees, profitability, reserves, risk) {
        Some(_) => Some(select_best(book_a, book_b, fees, profitability, reserves, risk)),
        None => None,
    }
}

// ---------------------------------------------------------------------------
// Laws
// ---------------------------------------------------------------------------

/// A normalized side runs from its best price on, with exactly the levels that
/// it had, and normalizing it again changes nothing.
pub proof fn law_normalized_sides_are_ordered(bids: Seq<Level>, asks: Seq<Level>)
    ensures
        in_order::<Level, DearestFirst>(sorted::<Level, DearestFirst>(bids)),
        in_order::<Level, CheapestFirst>(sorted::<Level, CheapestFirst>(asks)),
        sorted::<Level, DearestFirst>(bids).to_multiset() == bids.to_multiset(),
        sorted::<Level, CheapestFirst>(asks).to_multiset() == asks.to_multiset(),
        sorted::<Level, DearestFirst>(sorted::<Level, DearestFirst>(bids)) == sorted::<
            Level,
            DearestFirst,
        >(bids),
        sorted::<Level, CheapestFirst>(sorted::<Level, CheapestFirst>(asks)) == sorted::<
            Level,
            CheapestFirst,
        >(asks),
{
    law_sorted_is_an_ordered_rearrangement::<Level, DearestFirst>(bids);
    law_sorted_is_an_ordered_rearrangement::<Level, CheapestFirst>(asks);
    law_sorting_what_is_in_order_changes_nothing::<Level, DearestFirst>(
        sorted::<Level, DearestFirst>(bids),
    );
    law_sorting_what_is_in_order_changes_nothing::<Level, CheapestFirst>(
        sorted::<Level, CheapestFirst>(asks),
    );
}

proof fn lemma_not_outranked_chain(a: Opportunity, b: Opportunity, c: Opportunity)
    requires
        !outranks(a, b),
        !outranks(b, c),
    ensures
        !outranks(a, c),
{
    lemma_le_transitive(a.net_profit, b.net_profit, c.net_profit);
    if same(a.net_profit, c.net_profit) {
        lemma_le_transitive(b.net_profit, c.net_profit, a.net_profit);
        lemma_le_transitive(c.net_profit, a.net_profit, b.net_profit);
        lemma_le_transitive(c.capital, b.capital, a.capital);
    }
}

/// The best of several opportunities is one of them, and none outranks it.
pub proof fn law_best_is_unsurpassed(opportunities: Seq<Opportunity>)
    ensures
        best_of(opportunities) is None <==> opportunities.len() == 0,
        best_of(opportunities) matches Some(best) ==> opportunities.contains(best),
        best_of(opportunities) matches Some(best) ==> forall|i: int|
            0 <= i < opportunities.len() ==> !outranks(#[trigger] opportunities[i], best),
    decreases opportunities.len(),
{
    if opportunities.len() > 0 {
        let before = opportunities.drop_last();
        let last = opportunities.last();
        law_best_is_unsurpassed(before);
        lemma_lt_asymmetric(last.net_profit, last.net_profit);
        lemma_lt_asymmetric(last.capital, last.capital);
        assert(opportunities[opportunities.len() - 1] == last);
        if before.len() > 0 {
            let held = best_of(before)->0;
            let at = choose|i: int| 0 <= i < before.len() && before[i] == held;
            assert(opportunities[at] == held);
            let best = best_of(opportunities)->0;
            if outranks(held, last) {
                lemma_lt_asymmetric(held.net_profit, last.net_profit);
                lemma_lt_asymmetric(held.capital, last.capital);
            }
            assert forall|i: int| 0 <= i < opportunities.len() implies !outranks(
                #[trigger] opportunities[i],
                best,
            ) by {
                if i < before.len() {
                    assert(before[i] == opportunities[i]);
                    if best == last {
                        lemma_not_outranked_chain(opportunities[i], held, last);
                    }
                }
            }
        }
    }
}

/// Whether a quantity prices to an acceptable opportunity within the cap.
pub open spec fn is_offer(
    opportunity: Opportunity,
    levels_a: Seq<Level>,
    levels_b: Seq<Level>,
    rate: Decimal,
    direction: Direction,
    quantity: Decimal,
    cap: Decimal,
    profitability: ProfitabilityConfig,
    reserves: ReserveConfig,
    risk: RiskConfig,
) -> bool {
    &&& quantity.m() > 0
    &&& le(quantity, cap)
    &&& evaluated(levels_a, levels_b, rate, direction, quantity, reserves) == Some(
        Ok::<Opportunity, StrategyError>(opportunity),
    )
    &&& is_acceptable(opportunity, profitability, risk)
}

proof fn lemma_accepted_are_the_offers(
    levels_a: Seq<Level>,
    levels_b: Seq<Level>,
    rate: Decimal,
    direction: Direction,
    quantities: Seq<Decimal>,
    cap: Decimal,
    profitability: ProfitabilityConfig,
    reserves: ReserveConfig,
    risk: RiskConfig,
    found: Seq<Opportunity>,
)
    requires
        accepted(
            levels_a,
            levels_b,
            rate,
            direction,
            quantities,
            cap,
            profitability,
            reserves,
            risk,
        ) == Some(found),
    ensures
        forall|i: int|
            0 <= i < found.len() ==> is_offer(
                #[trigger] found[i],
                levels_a,
                levels_b,
                rate,
                direction,
                found[i].quantity,
                cap,
                profitability,
                reserves,
                risk,
            ) && quantities.contains(found[i].quantity) && found[i].direction == direction,
        forall|o: Opportunity, k: int|
            0 <= k < quantities.len() && #[trigger] is_offer(
                o,
                levels_a,
                levels_b,
                rate,
                direction,
                #[trigger] quantities[k],
                cap,
                profitability,
                reserves,
                risk,
            ) ==> found.contains(o),
    decreases quantities.len(),
{
    if quantities.len() > 0 {
        let before = quantities.drop_last();
        let last = quantities.last();
        let held = accepted(
            levels_a,
            levels_b,
            rate,
            direction,
            before,
            cap,
            profitability,
            reserves,
            risk,
        )->0;
        lemma_accepted_are_the_offers(
            levels_a,
            levels_b,
            rate,
            direction,
            before,
            cap,
            profitability,
            reserves,
            risk,
            held,
        );
        assert(quantities[quantities.len() - 1] == last);
        assert forall|i: int| 0 <= i < found.len() implies is_offer(
            #[trigger] found[i],
            levels_a,
            levels_b,
            rate,
            direction,
            found[i].quantity,
            cap,
            profitability,
            reserves,
            risk,
        ) && quantities.contains(found[i].quantity) && found[i].direction == direction by {
            if i < held.len() {
                assert(found[i] == held[i]);
                let k = choose|k: int| 0 <= k < before.len() && before[k] == held[i].quantity;
                assert(quantities[k] == held[i].quantity);
            }
        }
        assert forall|o: Opportunity, k: int|
            0 <= k < quantities.len() && #[trigger] is_offer(
                o,
                levels_a,
                levels_b,
                rate,
                direction,
                #[trigger] quantities[k],
                cap,
                profitability,
                reserves,
                risk,
            ) implies found.contains(o) by {
            if k < before.len() {
                assert(before[k] == quantities[k]);
                assert(held.contains(o));
                let j = choose|j: int| 0 <= j < held.len() && held[j] == o;
                assert(found[j] == o);
            } else {
                assert(found[found.len() - 1] == o);
            }
        }
    }
}

/// What a direction offers is priced from its own quantity, which is positive
/// and within the participation cap; it keeps to the limit on capital and earns
/// both thresholds; and no candidate quantity within the cap that does so
/// outranks it.
pub proof fn law_best_offer(
    levels_a: Seq<Level>,
    levels_b: Seq<Level>,
    rate: Decimal,
    direction: Direction,
    profitability: ProfitabilityConfig,
    reserves: ReserveConfig,
    risk: RiskConfig,
    best: Opportunity,
)
    requires
        best_found(levels_a, levels_b, rate, direction, profitability, reserves, risk) == Some(
            Ok::<Opportunity, Rejection>(best),
        ),
    ensures
        participation_cap(levels_a, levels_b, profitability.depth_fraction) matches Some(cap)
            && is_offer(
            best,
            levels_a,
            levels_b,
            rate,
            direction,
            best.quantity,
            cap,
            profitability,
            reserves,
            risk,
        ) && best.direction == direction && candidate_quantities(levels_a, levels_b, cap).contains(
            best.quantity,
        ),
        ({
            let cap = participation_cap(levels_a, levels_b, profitability.depth_fraction)->0;
            let quantities = candidate_quantities(levels_a, levels_b, cap);
            forall|o: Opportunity, k: int|
                0 <= k < quantities.len() && #[trigger] is_offer(
                    o,
                    levels_a,
                    levels_b,
                    rate,
                    direction,
                    #[trigger] quantities[k],
                    cap,
                    profitability,
                    reserves,
                    risk,
                ) ==> !outranks(o, best)
        }),
{
    let cap = participation_cap(levels_a, levels_b, profitability.depth_fraction)->0;
    let quantities = candidate_quantities(levels_a, levels_b, cap);
    let found = accepted(
        levels_a,
        levels_b,
        rate,
        direction,
        quantities,
        cap,
        profitability,
        reserves,
        risk,
    )->0;
    lemma_accepted_are_the_offers(
        levels_a,
        levels_b,
        rate,
        direction,
        quantities,
        cap,
        profitability,
        reserves,
        risk,
        found,
    );
    law_best_is_unsurpassed(found);
    let at = choose|i: int| 0 <= i < found.len() && found[i] == best;
    assert(found[at] == best);
    assert forall|o: Opportunity, k: int|
        0 <= k < quantities.len() && #[trigger] is_offer(
            o,
            levels_a,
            levels_b,
            rate,
            direction,
            #[trigger] quantities[k],
            cap,
            profitability,
            reserves,
            risk,
        ) implies !outranks(o, best) by {
        let j = choose|j: int| 0 <= j < found.len() && found[j] == o;
        assert(found[j] == o);
    }
}

/// Outside the skipped price band, and with a positive cap, a direction is refused
/// exactly when no candidate quantity within the cap is acceptable, and then for
/// want of profitable depth.
pub proof fn law_refused_exactly_when_nothing_is_acceptable(
    levels_a: Seq<Level>,
    levels_b: Seq<Level>,
    rate: Decimal,
    direction: Direction,
    profitability: ProfitabilityConfig,
    reserves: ReserveConfig,
    risk: RiskConfig,
    cap: Decimal,
)
    requires
        levels_a.len() > 0,
        !is_in_skipped_band(levels_a[0].price, profitability),
        participation_cap(levels_a, levels_b, profitability.depth_fraction) == Some(cap),
        cap.m() > 0,
    ensures
        best_found(
            levels_a,
            levels_b,
            rate,
            direction,
            profitability,
            reserves,
            risk,
        ) matches Some(found) ==> {
            let quantities = candidate_quantities(levels_a, levels_b, cap);
            &&& found == Err::<Opportunity, Rejection>(Rejection::NoProfitableDepth) <==> (forall|
                o: Opportunity,
                k: int,
            |
                0 <= k < quantities.len() ==> !(#[trigger] is_offer(
                    o,
                    levels_a,
                    levels_b,
                    rate,
                    direction,
                    #[trigger] quantities[k],
                    cap,
                    profitability,
                    reserves,
                    risk,
                )))
            &&& found != Err::<Opportunity, Rejection>(Rejection::OutsidePriceBand)
        },
{
    let quantities = candidate_quantities(levels_a, levels_b, cap);
    match accepted(
        levels_a,
        levels_b,
        rate,
        direction,
        quantities,
        cap,
        profitability,
        reserves,
        risk,
    ) {
        Some(found) => {
            lemma_accepted_are_the_offers(
                levels_a,
                levels_b,
                rate,
                direction,
                quantities,
                cap,
                profitability,
                reserves,
                risk,
                found,
            );
            law_best_is_unsurpassed(found);
            if found.len() > 0 {
                let k = choose|k: int|
                    0 <= k < quantities.len() && quantities[k] == found[0].quantity;
                assert(is_offer(
                    found[0],
                    levels_a,
                    levels_b,
                    rate,
                    direction,
                    quantities[k],
                    cap,
                    profitability,
                    reserves,
                    risk,
                ));
            }
        },
        None => {},
    }
}

/// Nothing is offered inside the skipped price band.
pub proof fn law_skipped_band_offers_nothing(
    levels_a: Seq<Level>,
    levels_b: Seq<Level>,
    rate: Decimal,
    direction: Direction,
    profitability: ProfitabilityConfig,
    reserves: ReserveConfig,
    risk: RiskConfig,
)
    requires
        levels_a.len() > 0,
        is_in_skipped_band(levels_a[0].price, profitability),
    ensures
        best_found(levels_a, levels_b, rate, direction, profitability, reserves, risk) == Some(
            Err::<Opportunity, Rejection>(Rejection::OutsidePriceBand),
        ),
{
}

// ---------------------------------------------------------------------------
// What executing a quantity comes to
// ---------------------------------------------------------------------------

/// What is still wanted of a quantity once so much of it was filled.
pub open spec fn left_after(quantity: Decimal, fills: Seq<Decimal>) -> Option<Decimal>
    decreases fills.len(),
{
    if fills.len() == 0 {
        Some(quantity)
    } else {
        minus(left_after(quantity, fills.drop_last()), Some(fills.last()))
    }
}

/// What the filled shares come to at the prices of their levels.
pub open spec fn value_of(levels: Seq<Level>, fills: Seq<Decimal>) -> Option<Decimal>
    decreases fills.len(),
{
    if fills.len() == 0 {
        Some(zero())
    } else {
        plus(
            value_of(levels, fills.drop_last()),
            product(fills.last(), levels[fills.len() - 1].price),
        )
    }
}

/// The taker fees on the filled shares: on each level `filled * rate * price * (1 - price)`.
pub open spec fn taker_fees_of(levels: Seq<Level>, fills: Seq<Decimal>, rate: Decimal) -> Option<
    Decimal,
>
    decreases fills.len(),
{
    if fills.len() == 0 {
        Some(zero())
    } else {
        let price = levels[fills.len() - 1].price;
        plus(
            taker_fees_of(levels, fills.drop_last(), rate),
            times(times(product(fills.last(), rate), Some(price)), difference(one(), price)),
        )
    }
}

/// Whether as many shares are taken from a level as it has, or as are still wanted.
pub open spec fn is_next_fill(left: Option<Decimal>, level: Level, filled: Decimal) -> bool {
    left matches Some(wanted) && wanted.m() > 0 && filled == if lt(level.size, wanted) {
        level.size
    } else {
        wanted
    }
}

/// Whether shares are taken from the first level on, at each as many as it has or
/// as are still wanted, and at none once nothing is wanted.
pub open spec fn is_greedy(levels: Seq<Level>, quantity: Decimal, fills: Seq<Decimal>) -> bool {
    &&& fills.len() <= levels.len()
    &&& forall|i: int|
        0 <= i < fills.len() ==> is_next_fill(
            left_after(quantity, fills.take(i)),
            levels[i],
            #[trigger] fills[i],
        )
}

/// Whether shares are taken so, and nothing is wanted any more.
pub open spec fn fills_all(levels: Seq<Level>, quantity: Decimal, fills: Seq<Decimal>) -> bool {
    &&& is_greedy(levels, quantity, fills)
    &&& left_after(quantity, fills) matches Some(left) && left.m() <= 0
}

/// Whether shares are taken so from every level, and more are wanted.
pub open spec fn falls_short(levels: Seq<Level>, quantity: Decimal, fills: Seq<Decimal>) -> bool {
    &&& is_greedy(levels, quantity, fills)
    &&& fills.len() == levels.len()
    &&& left_after(quantity, fills) matches Some(left) && left.m() > 0
}

/// What the fills so far have come to.
spec fn fill_after(
    levels: Seq<Level>,
    quantity: Decimal,
    fills: Seq<Decimal>,
    rate: Decimal,
) -> Option<Fill> {
    match (
        left_after(quantity, fills),
        value_of(levels, fills),
        taker_fees_of(levels, fills, rate),
    ) {
        (Some(remaining), Some(gross), Some(fee)) => Some(Fill { remaining, gross, fee }),
        _ => None,
    }
}

proof fn lemma_greedy_prefix(levels: Seq<Level>, quantity: Decimal, fills: Seq<Decimal>)
    requires
        fills.len() > 0,
        is_greedy(levels, quantity, fills),
    ensures
        is_greedy(levels, quantity, fills.drop_last()),
        left_after(quantity, fills.drop_last()) matches Some(left) && left.m() > 0 && fills.last()
            == lesser(left, levels[fills.len() - 1].size),
{
    let before = fills.drop_last();
    assert forall|i: int| 0 <= i < before.len() implies is_next_fill(
            left_after(quantity, before.take(i)),
            levels[i],
            #[trigger] before[i],
        ) by {
        assert(before.take(i) =~= fills.take(i));
        assert(before[i] == fills[i]);
    }
    assert(fills.take(fills.len() - 1) =~= before);
    assert(fills[fills.len() - 1] == fills.last());
}

proof fn lemma_next_fill(
    levels: Seq<Level>,
    quantity: Decimal,
    fills: Seq<Decimal>,
    filled: Decimal,
    rate: Decimal,
)
    requires
        fills.len() < levels.len(),
        fill_after(levels, quantity, fills, rate) matches Some(fill) && filled == lesser(
            fill.remaining,
            levels[fills.len() as int].size,
        ),
    ensures
        fill_after(levels, quantity, fills.push(filled), rate) == filled_at(
            fill_after(levels, quantity, fills, rate)->0,
            levels[fills.len() as int],
            rate,
        ),
{
    assert(fills.push(filled).drop_last() =~= fills);
}

proof fn lemma_some_before(levels: Seq<Level>, quantity: Decimal, fills: Seq<Decimal>, rate: Decimal)
    requires
        fills.len() > 0,
        fill_after(levels, quantity, fills, rate) is Some,
    ensures
        fill_after(levels, quantity, fills.drop_last(), rate) is Some,
{
}

proof fn lemma_walk_step(levels: Seq<Level>, n: int, fill: Fill, next: Fill, rate: Decimal)
    requires
        0 <= n < levels.len(),
        fill.remaining.m() > 0,
        filled_at(fill, levels[n], rate) == Some(next),
    ensures
        walked(levels.skip(n), fill, rate) == walked(levels.skip(n + 1), next, rate),
{
    let rest = levels.skip(n);
    assert(rest[0] == levels[n]);
    assert(rest.drop_first() =~= levels.skip(n + 1));
}

proof fn lemma_walk_follows_fills(
    levels: Seq<Level>,
    quantity: Decimal,
    fills: Seq<Decimal>,
    rate: Decimal,
)
    requires
        is_greedy(levels, quantity, fills),
        fill_after(levels, quantity, fills, rate) is Some,
    ensures
        walked(levels, Fill { remaining: quantity, gross: zero(), fee: zero() }, rate) == walked(
            levels.skip(fills.len() as int),
            fill_after(levels, quantity, fills, rate)->0,
            rate,
        ),
    decreases fills.len(),
{
    if fills.len() == 0 {
        assert(levels.skip(0) =~= levels);
    } else {
        let before = fills.drop_last();
        let n = before.len() as int;
        lemma_greedy_prefix(levels, quantity, fills);
        lemma_some_before(levels, quantity, fills, rate);
        lemma_walk_follows_fills(levels, quantity, before, rate);
        assert(before.push(fills.last()) =~= fills);
        lemma_next_fill(levels, quantity, before, fills.last(), rate);
        lemma_walk_step(
            levels,
            n,
            fill_after(levels, quantity, before, rate)->0,
            fill_after(levels, quantity, fills, rate)->0,
            rate,
        );
    }
}

proof fn lemma_walk_has_fills(
    levels: Seq<Level>,
    quantity: Decimal,
    fills: Seq<Decimal>,
    rate: Decimal,
    end: Fill,
) -> (all: Seq<Decimal>)
    requires
        is_greedy(levels, quantity, fills),
        fill_after(levels, quantity, fills, rate) is Some,
        walked(
            levels.skip(fills.len() as int),
            fill_after(levels, quantity, fills, rate)->0,
            rate,
        ) == Some(end),
    ensures
        is_greedy(levels, quantity, all),
        fill_after(levels, quantity, all, rate) == Some(end),
        all.len() == levels.len() || end.remaining.m() <= 0,
    decreases levels.len() - fills.len(),
{
    let now = fill_after(levels, quantity, fills, rate)->0;
    let n = fills.len() as int;
    if n == levels.len() || now.remaining.m() <= 0 {
        fills
    } else {
        let filled = lesser(now.remaining, levels[n].size);
        let next = fills.push(filled);
        let rest = levels.skip(n);
        assert(rest[0] == levels[n]);
        lemma_next_fill(levels, quantity, fills, filled, rate);
        lemma_walk_step(levels, n, now, filled_at(now, levels[n], rate)->0, rate);
        assert forall|i: int| 0 <= i < next.len() implies is_next_fill(
            left_after(quantity, next.take(i)),
            levels[i],
            #[trigger] next[i],
        ) by {
            assert(next.take(i) =~= fills.take(i));
            if i < n {
                assert(next[i] == fills[i]);
            } else {
                assert(fills.take(i) =~= fills);
            }
        }
        lemma_walk_has_fills(levels, quantity, next, rate, end)
    }
}

/// Executing a quantity takes the levels from the best on, each as far as it goes,
/// until nothing is wanted: it comes to the sum of the filled shares at the prices
/// of their levels, and the fee is the sum of the taker fees on them. It fails
/// exactly when every level was taken and more is wanted.
pub proof fn law_execution_takes_level_by_level(
    levels: Seq<Level>,
    quantity: Decimal,
    rate: Decimal,
)
    ensures
        executed(levels, quantity, rate) matches Some(Ok((gross, fee))) ==> exists|
            fills: Seq<Decimal>,
        | #[trigger]
            fills_all(levels, quantity, fills) && value_of(levels, fills) == Some(gross)
                && taker_fees_of(levels, fills, rate) == Some(fee),
        executed(levels, quantity, rate) matches Some(Err(e)) ==> e
            == StrategyError::InsufficientDepth && exists|fills: Seq<Decimal>| #[trigger]
            falls_short(levels, quantity, fills),
        forall|fills: Seq<Decimal>| #[trigger]
            fills_all(levels, quantity, fills) && value_of(levels, fills) is Some && taker_fees_of(
                levels,
                fills,
                rate,
            ) is Some ==> executed(levels, quantity, rate) == Some(
                Ok::<(Decimal, Decimal), StrategyError>(
                    (value_of(levels, fills)->0, taker_fees_of(levels, fills, rate)->0),
                ),
            ),
        forall|fills: Seq<Decimal>| #[trigger]
            falls_short(levels, quantity, fills) && value_of(levels, fills) is Some
                && taker_fees_of(levels, fills, rate) is Some ==> executed(levels, quantity, rate)
                == Some(Err::<(Decimal, Decimal), StrategyError>(StrategyError::InsufficientDepth)),
{
    let start = Fill { remaining: quantity, gross: zero(), fee: zero() };
    match walked(levels, start, rate) {
        Some(end) => {
            let none = Seq::<Decimal>::empty();
            assert(levels.skip(0) =~= levels);
            let fills = lemma_walk_has_fills(levels, quantity, none, rate, end);
            if end.remaining.m() <= 0 {
                assert(fills_all(levels, quantity, fills));
            } else {
                assert(falls_short(levels, quantity, fills));
            }
        },
        None => {},
    }
    assert forall|fills: Seq<Decimal>| #[trigger]
        fills_all(levels, quantity, fills) && value_of(levels, fills) is Some && taker_fees_of(
            levels,
            fills,
            rate,
        ) is Some implies executed(levels, quantity, rate) == Some(
        Ok::<(Decimal, Decimal), StrategyError>(
            (value_of(levels, fills)->0, taker_fees_of(levels, fills, rate)->0),
        ),
    ) by {
        lemma_walk_follows_fills(levels, quantity, fills, rate);
    }
    assert forall|fills: Seq<Decimal>| #[trigger]
        falls_short(levels, quantity, fills) && value_of(levels, fills) is Some && taker_fees_of(
            levels,
            fills,
            rate,
        ) is Some implies executed(levels, quantity, rate) == Some(
        Err::<(Decimal, Decimal), StrategyError>(StrategyError::InsufficientDepth),
    ) by {
        lemma_walk_follows_fills(levels, quantity, fills, rate);
    }
}

/// Whether an opportunity is what shares filled on both books come to. The fees
/// are those of both legs, and the reserves are on the value of both, each rounded
/// up by less than a unit. A pair that is bought costs all of it, rounded up, and
/// one that is sold brings its legs less the rest, rounded down.
pub open spec fn is_priced_from(
    o: Opportunity,
    levels_a: Seq<Level>,
    fills_a: Seq<Decimal>,
    levels_b: Seq<Level>,
    fills_b: Seq<Decimal>,
    rate: Decimal,
    reserves: ReserveConfig,
) -> bool {
    let places = reserves.rounding_scale as nat;
    let legs = sum(o.leg_a_gross, o.leg_b_gross);
    let slippage = over(times(legs, Some(reserves.slippage_bps)), Some(decimal_of(10_000, 0)));
    &&& value_of(levels_a, fills_a) == Some(o.leg_a_gross)
    &&& value_of(levels_b, fills_b) == Some(o.leg_b_gross)
    &&& plus(
        taker_fees_of(levels_a, fills_a, rate),
        taker_fees_of(levels_b, fills_b, rate),
    ) matches Some(charged) && (charged.is_representable() ==> is_next_above(
        o.fees,
        charged,
        places,
    ))
    &&& plus(plus(slippage, Some(reserves.latency)), Some(reserves.orphan)) matches Some(held) && (
    held.is_representable() ==> is_next_above(o.reserves, held, places))
    &&& match o.direction {
        Direction::BuyMerge => {
            &&& plus(plus(legs, Some(o.fees)), Some(o.reserves)) matches Some(cost) && (
            cost.is_representable() ==> is_next_above(o.pair_value, cost, places))
            &&& o.capital == o.pair_value
            &&& difference(o.quantity, o.pair_value) == Some(o.net_profit)
        },
        Direction::SplitSell => {
            &&& minus(minus(legs, Some(o.fees)), Some(o.reserves)) matches Some(proceeds) && (
            proceeds.is_representable() ==> is_next_below(o.pair_value, proceeds, places))
            &&& o.capital == o.quantity
            &&& difference(o.pair_value, o.quantity) == Some(o.net_profit)
        },
    }
    &&& o.capital.m() > 0 ==> over(
        product(o.net_profit, decimal_of(10_000, 0)),
        Some(o.capital),
    ) == Some(o.return_bps)
    &&& o.capital.m() <= 0 ==> o.return_bps == zero()
}

/// A positive quantity is priced from what it fills on both books: both legs are
/// counted, charged and reserved for, in either direction. It is refused exactly
/// when it is not positive, or one of the books falls short of it.
pub proof fn law_prices_come_from_both_books(
    levels_a: Seq<Level>,
    levels_b: Seq<Level>,
    rate: Decimal,
    direction: Direction,
    quantity: Decimal,
    reserves: ReserveConfig,
)
    ensures
        evaluated(levels_a, levels_b, rate, direction, quantity, reserves) matches Some(Ok(o))
            ==> {
            &&& quantity.m() > 0
            &&& o.quantity == quantity
            &&& o.direction == direction
            &&& exists|fills_a: Seq<Decimal>, fills_b: Seq<Decimal>| #[trigger]
                fills_all(levels_a, quantity, fills_a) && #[trigger] fills_all(
                    levels_b,
                    quantity,
                    fills_b,
                ) && is_priced_from(o, levels_a, fills_a, levels_b, fills_b, rate, reserves)
        },
        evaluated(levels_a, levels_b, rate, direction, quantity, reserves) matches Some(Err(e))
            ==> {
            ||| e == StrategyError::QuantityNotPositive && quantity.m() <= 0
            ||| e == StrategyError::InsufficientDepth && quantity.m() > 0 && exists|
                fills: Seq<Decimal>,
            |
                #![trigger falls_short(levels_a, quantity, fills)]
                #![trigger falls_short(levels_b, quantity, fills)]
                falls_short(levels_a, quantity, fills) || falls_short(levels_b, quantity, fills)
        },
        forall|fills_a: Seq<Decimal>, fills_b: Seq<Decimal>|
            quantity.m() > 0 && #[trigger] fills_all(levels_a, quantity, fills_a)
                && #[trigger] fills_all(levels_b, quantity, fills_b) && value_of(
                levels_a,
                fills_a,
            ) is Some && value_of(levels_b, fills_b) is Some && taker_fees_of(
                levels_a,
                fills_a,
                rate,
            ) is Some && taker_fees_of(levels_b, fills_b, rate) is Some ==> !(evaluated(
                levels_a,
                levels_b,
                rate,
                direction,
                quantity,
                reserves,
            ) matches Some(Err(_))),
{
    law_execution_takes_level_by_level(levels_a, quantity, rate);
    law_execution_takes_level_by_level(levels_b, quantity, rate);
    match evaluated(levels_a, levels_b, rate, direction, quantity, reserves) {
        Some(Ok(o)) => {
            let leg_a = executed(levels_a, quantity, rate)->0->Ok_0;
            let leg_b = executed(levels_b, quantity, rate)->0->Ok_0;
            let fills_a = choose|fills: Seq<Decimal>| #[trigger]
                fills_all(levels_a, quantity, fills) && value_of(levels_a, fills) == Some(leg_a.0)
                    && taker_fees_of(levels_a, fills, rate) == Some(leg_a.1);
            let fills_b = choose|fills: Seq<Decimal>| #[trigger]
                fills_all(levels_b, quantity, fills) && value_of(levels_b, fills) == Some(leg_b.0)
                    && taker_fees_of(levels_b, fills, rate) == Some(leg_b.1);
            let places = reserves.rounding_scale as nat;
            let legs = sum(leg_a.0, leg_b.0);
            let charged = sum(leg_a.1, leg_b.1)->0;
            let slippage = over(
                times(legs, Some(reserves.slippage_bps)),
                Some(decimal_of(10_000, 0)),
            );
            let held = plus(plus(slippage, Some(reserves.latency)), Some(reserves.orphan))->0;
            let cost = plus(plus(legs, Some(o.fees)), Some(o.reserves))->0;
            let proceeds = minus(minus(legs, Some(o.fees)), Some(o.reserves))->0;
            if charged.is_representable() {
                law_rounding_is_tight(charged, places);
            }
            if held.is_representable() {
                law_rounding_is_tight(held, places);
            }
            if cost.is_representable() {
                law_rounding_is_tight(cost, places);
            }
            if proceeds.is_representable() {
                law_rounding_is_tight(proceeds, places);
            }
            assert(is_priced_from(o, levels_a, fills_a, levels_b, fills_b, rate, reserves));
        },
        _ => {},
    }
}

// ---------------------------------------------------------------------------
// What the cross-check stands for
// ---------------------------------------------------------------------------

/// Whether a time is not in the future and not longer ago than the limit, where a
/// time can be told to be longer ago at all.
pub open spec fn is_recent(at_ms: i64, now_ms: i64, max_age_ms: u64) -> bool {
    &&& at_ms <= now_ms
    &&& now_ms - at_ms <= max_age_ms || max_age_ms >= i64::MAX
}

/// Whether two times are at most so far apart.
pub open spec fn are_within(a_ms: i64, b_ms: i64, max_ms: u64) -> bool {
    &&& a_ms - b_ms <= max_ms
    &&& b_ms - a_ms <= max_ms
}

/// What a direction takes from a book: asks to buy, bids to sell.
pub open spec fn traded_side(book: Book, direction: Direction) -> Seq<Level> {
    if direction == Direction::BuyMerge {
        book.asks@
    } else {
        book.bids@
    }
}

/// Whether the shares filled on two lists of levels come to values that lie at most
/// so many ticks on every share apart.
pub open spec fn values_agree(
    ws: Seq<Level>,
    ws_fills: Seq<Decimal>,
    rest: Seq<Level>,
    rest_fills: Seq<Decimal>,
    quantity: Decimal,
    tick_size: Decimal,
    ticks: u32,
) -> bool {
    &&& times(product(tick_size, quantity), Some(decimal_of(ticks as int, 0))) matches Some(allowed)
        && minus(value_of(ws, ws_fills), value_of(rest, rest_fills)) matches Some(apart) && le(
        magnitude(apart),
        allowed,
    )
}

/// Whether a quantity can be filled on both lists of levels, and comes to the same
/// on both, up to the ticks.
pub open spec fn depths_agree(
    ws: Seq<Level>,
    rest: Seq<Level>,
    quantity: Decimal,
    tick_size: Decimal,
    ticks: u32,
) -> bool {
    exists|ws_fills: Seq<Decimal>, rest_fills: Seq<Decimal>| #[trigger]
        fills_all(ws, quantity, ws_fills) && #[trigger] fills_all(rest, quantity, rest_fills)
            && values_agree(ws, ws_fills, rest, rest_fills, quantity, tick_size, ticks)
}

/// Whether a quantity can be filled on both lists of levels, and comes to values
/// that lie further apart.
pub open spec fn depths_disagree(
    ws: Seq<Level>,
    rest: Seq<Level>,
    quantity: Decimal,
    tick_size: Decimal,
    ticks: u32,
) -> bool {
    exists|ws_fills: Seq<Decimal>, rest_fills: Seq<Decimal>| #[trigger]
        fills_all(ws, quantity, ws_fills) && #[trigger] fills_all(rest, quantity, rest_fills)
            && !values_agree(ws, ws_fills, rest, rest_fills, quantity, tick_size, ticks)
}

/// Whether one of two lists of levels falls short of a quantity.
pub open spec fn either_falls_short(ws: Seq<Level>, rest: Seq<Level>, quantity: Decimal) -> bool {
    exists|fills: Seq<Decimal>|
        #![trigger falls_short(ws, quantity, fills)]
        #![trigger falls_short(rest, quantity, fills)]
        falls_short(ws, quantity, fills) || falls_short(rest, quantity, fills)
}

proof fn lemma_depth_verdict(
    ws: Seq<Level>,
    rest: Seq<Level>,
    quantity: Decimal,
    tick_size: Decimal,
    ticks: u32,
    tolerance: Decimal,
)
    requires
        times(product(tick_size, quantity), Some(decimal_of(ticks as int, 0))) == Some(tolerance),
    ensures
        match depth_verdict(ws, rest, quantity, tolerance) {
            Some(Ok(_)) => depths_agree(ws, rest, quantity, tick_size, ticks),
            Some(Err(StrategyError::DepthDisagrees)) => depths_disagree(
                ws,
                rest,
                quantity,
                tick_size,
                ticks,
            ) && !depths_agree(ws, rest, quantity, tick_size, ticks),
            Some(Err(e)) => e == StrategyError::InsufficientDepth && either_falls_short(
                ws,
                rest,
                quantity,
            ),
            None => true,
        },
{
    law_execution_takes_level_by_level(ws, quantity, zero());
    law_execution_takes_level_by_level(rest, quantity, zero());
    match (executed(ws, quantity, zero()), executed(rest, quantity, zero())) {
        (Some(Ok(streamed)), Some(Ok(fetched))) => {
            let ws_fills = choose|fills: Seq<Decimal>| #[trigger]
                fills_all(ws, quantity, fills) && value_of(ws, fills) == Some(streamed.0)
                    && taker_fees_of(ws, fills, zero()) == Some(streamed.1);
            let rest_fills = choose|fills: Seq<Decimal>| #[trigger]
                fills_all(rest, quantity, fills) && value_of(rest, fills) == Some(fetched.0)
                    && taker_fees_of(rest, fills, zero()) == Some(fetched.1);
            assert(fills_all(ws, quantity, ws_fills) && fills_all(rest, quantity, rest_fills));
            if depths_agree(ws, rest, quantity, tick_size, ticks) {
                let (f, g) = choose|f: Seq<Decimal>, g: Seq<Decimal>| #[trigger]
                    fills_all(ws, quantity, f) && #[trigger] fills_all(rest, quantity, g)
                        && values_agree(ws, f, rest, g, quantity, tick_size, ticks);
                lemma_one_way_to_fill(ws, quantity, f, ws_fills);
                lemma_one_way_to_fill(rest, quantity, g, rest_fills);
            }
        },
        _ => {},
    }
}

/// There is one way to fill a quantity.
proof fn lemma_one_way_to_fill(
    levels: Seq<Level>,
    quantity: Decimal,
    a: Seq<Decimal>,
    b: Seq<Decimal>,
)
    requires
        fills_all(levels, quantity, a),
        fills_all(levels, quantity, b),
    ensures
        a == b,
{
    lemma_same_fills(levels, quantity, a, b, if a.len() < b.len() {
        a.len() as int
    } else {
        b.len() as int
    });
    assert(a.take(a.len() as int) =~= a);
    assert(b.take(b.len() as int) =~= b);
    if a.len() < b.len() {
        assert(is_next_fill(left_after(quantity, b.take(a.len() as int)), levels[a.len() as int], b[a.len() as int]));
    } else if b.len() < a.len() {
        assert(is_next_fill(left_after(quantity, a.take(b.len() as int)), levels[b.len() as int], a[b.len() as int]));
    }
}

proof fn lemma_same_fills(
    levels: Seq<Level>,
    quantity: Decimal,
    a: Seq<Decimal>,
    b: Seq<Decimal>,
    n: int,
)
    requires
        is_greedy(levels, quantity, a),
        is_greedy(levels, quantity, b),
        0 <= n <= a.len(),
        n <= b.len(),
    ensures
        a.take(n) == b.take(n),
    decreases n,
{
    if n > 0 {
        lemma_same_fills(levels, quantity, a, b, n - 1);
        assert(is_next_fill(left_after(quantity, a.take(n - 1)), levels[n - 1], a[n - 1]));
        assert(is_next_fill(left_after(quantity, b.take(n - 1)), levels[n - 1], b[n - 1]));
        assert(a.take(n) =~= a.take(n - 1).push(a[n - 1]));
        assert(b.take(n) =~= b.take(n - 1).push(b[n - 1]));
    } else {
        assert(a.take(0) =~= b.take(0));
    }
}

/// The cross-check passes exactly when the refresh was quick, the streamed and the
/// fetched book of each token are of the same token and market, all four are recent
/// and the two of a kind close in time, and for each token the quantity comes to
/// the same on the levels that the direction trades against, up to the ticks.
pub proof fn law_cross_check_passes_when_the_books_agree(
    ws_a: Book,
    ws_b: Book,
    rest_a: Book,
    rest_b: Book,
    quantity: Decimal,
    direction: Direction,
    tick_size: Decimal,
    now_ms: i64,
    rest_round_trip_ms: u64,
    quality: QualityConfig,
)
    ensures
        ({
            let verdict = final_books_verdict(
                ws_a,
                ws_b,
                rest_a,
                rest_b,
                quantity,
                direction,
                tick_size,
                now_ms,
                rest_round_trip_ms,
                quality,
            );
            let ticks = quality.max_tick_disagreement;
            let quick = rest_round_trip_ms <= quality.max_rest_round_trip_ms;
            let identified = ws_a.token_id@ == rest_a.token_id@ && ws_a.market_id@
                == rest_a.market_id@ && ws_b.token_id@ == rest_b.token_id@ && ws_b.market_id@
                == rest_b.market_id@;
            let recent = is_recent(ws_a.updated_at_ms, now_ms, quality.max_book_age_ms)
                && is_recent(rest_a.updated_at_ms, now_ms, quality.max_book_age_ms) && is_recent(
                ws_b.updated_at_ms,
                now_ms,
                quality.max_book_age_ms,
            ) && is_recent(rest_b.updated_at_ms, now_ms, quality.max_book_age_ms);
            let close = are_within(
                ws_a.updated_at_ms,
                ws_b.updated_at_ms,
                quality.max_token_skew_ms,
            ) && are_within(
                rest_a.updated_at_ms,
                rest_b.updated_at_ms,
                quality.max_token_skew_ms,
            );
            let wa = traded_side(ws_a, direction);
            let ra = traded_side(rest_a, direction);
            let wb = traded_side(ws_b, direction);
            let rb = traded_side(rest_b, direction);
            let agreed = depths_agree(wa, ra, quantity, tick_size, ticks) && depths_agree(
                wb,
                rb,
                quantity,
                tick_size,
                ticks,
            );
            match verdict {
                Some(Ok(_)) => quick && identified && recent && close && agreed,
                Some(Err(e)) => match e {
                    StrategyError::RestRefreshTooSlow => !quick,
                    StrategyError::BooksIdentifyDifferently => quick && !identified,
                    StrategyError::BookStale => quick && !recent,
                    StrategyError::BooksSkewed => quick && identified && recent && !close,
                    StrategyError::DepthDisagrees => {
                        &&& quick && identified && recent && close && !agreed
                        &&& depths_disagree(wa, ra, quantity, tick_size, ticks) || depths_disagree(
                            wb,
                            rb,
                            quantity,
                            tick_size,
                            ticks,
                        )
                    },
                    StrategyError::InsufficientDepth => {
                        &&& quick && identified && recent && close
                        &&& either_falls_short(wa, ra, quantity) || either_falls_short(
                            wb,
                            rb,
                            quantity,
                        )
                    },
                    _ => false,
                },
                None => quick && identified && recent && close,
            }
        }),
{
    let ticks = quality.max_tick_disagreement;
    match times(product(tick_size, quantity), Some(decimal_of(ticks as int, 0))) {
        Some(tolerance) => {
            lemma_depth_verdict(
                traded_side(ws_a, direction),
                traded_side(rest_a, direction),
                quantity,
                tick_size,
                ticks,
                tolerance,
            );
            lemma_depth_verdict(
                traded_side(ws_b, direction),
                traded_side(rest_b, direction),
                quantity,
                tick_size,
                ticks,
                tolerance,
            );
        },
        None => {},
    }
}

// ---------------------------------------------------------------------------
// What a direction offers
// ---------------------------------------------------------------------------

/// The size of the first levels together.
pub open spec fn size_of_first(levels: Seq<Level>, n: int) -> Option<Decimal>
    decreases n,
{
    if n <= 0 {
        Some(zero())
    } else {
        plus(size_of_first(levels, n - 1), Some(levels[n - 1].size))
    }
}

/// Whether a quantity uses up a level: it is the size of the first levels together.
pub open spec fn uses_up_a_level(levels: Seq<Level>, quantity: Decimal) -> bool {
    exists|n: int|
        0 < n <= levels.len() && #[trigger] size_of_first(levels, n) == Some(quantity)
}

/// Whether a quantity is worth pricing: it uses up a level of either book, or it is
/// the most that may be taken.
pub open spec fn is_turning_point(
    levels_a: Seq<Level>,
    levels_b: Seq<Level>,
    cap: Decimal,
    quantity: Decimal,
) -> bool {
    uses_up_a_level(levels_a, quantity) || uses_up_a_level(levels_b, quantity) || quantity == cap
}

/// Whether a positive quantity within the cap prices to an opportunity that keeps
/// to the limit on capital and earns both thresholds.
pub open spec fn is_takeable(
    o: Opportunity,
    levels_a: Seq<Level>,
    levels_b: Seq<Level>,
    rate: Decimal,
    direction: Direction,
    quantity: Decimal,
    cap: Decimal,
    profitability: ProfitabilityConfig,
    reserves: ReserveConfig,
    risk: RiskConfig,
) -> bool {
    &&& quantity.m() > 0
    &&& !lt(cap, quantity)
    &&& evaluated(levels_a, levels_b, rate, direction, quantity, reserves) == Some(
        Ok::<Opportunity, StrategyError>(o),
    )
    &&& !lt(risk.max_per_cycle, o.capital)
    &&& !lt(o.net_profit, profitability.minimum_profit)
    &&& !lt(o.return_bps, profitability.minimum_return_bps)
}

/// Whether what was found is at least as good as an opportunity: it earns more, or
/// as much on no more capital.
pub open spec fn is_matched(found: Result<Opportunity, Rejection>, o: Opportunity) -> bool {
    found matches Ok(best) && (lt(o.net_profit, best.net_profit) || (same(
        o.net_profit,
        best.net_profit,
    ) && !lt(o.capital, best.capital)))
}

/// Whether what was found is at least as good as whatever can be taken at a quantity.
pub open spec fn is_unsurpassed_at(
    found: Result<Opportunity, Rejection>,
    levels_a: Seq<Level>,
    levels_b: Seq<Level>,
    rate: Decimal,
    direction: Direction,
    quantity: Decimal,
    cap: Decimal,
    profitability: ProfitabilityConfig,
    reserves: ReserveConfig,
    risk: RiskConfig,
) -> bool {
    forall|o: Opportunity| #[trigger]
        is_takeable(
            o,
            levels_a,
            levels_b,
            rate,
            direction,
            quantity,
            cap,
            profitability,
            reserves,
            risk,
        ) ==> is_matched(found, o)
}

proof fn lemma_size_of_first(levels: Seq<Level>, n: int)
    requires
        0 <= n <= levels.len(),
    ensures
        size_of_first(levels, n) == depth(levels.take(n)),
    decreases n,
{
    if n > 0 {
        lemma_size_of_first(levels, n - 1);
        assert(levels.take(n).drop_last() =~= levels.take(n - 1));
    }
}

proof fn lemma_depths_use_up_levels(levels: Seq<Level>, quantity: Decimal)
    requires
        depth(levels) is Some,
    ensures
        running_depths(levels).contains(quantity) <==> uses_up_a_level(levels, quantity),
{
    let depths = running_depths(levels);
    assert forall|i: int| 0 <= i < depths.len() implies size_of_first(levels, i + 1) == Some(
        #[trigger] depths[i],
    ) by {
        lemma_size_of_first(levels, i + 1);
        if depth(levels.take(i + 1)) is None {
            lemma_depth_of_prefix(levels, i + 1);
        }
    }
    if depths.contains(quantity) {
        let i = choose|i: int| 0 <= i < depths.len() && depths[i] == quantity;
        assert(size_of_first(levels, i + 1) == Some(quantity));
    }
    if uses_up_a_level(levels, quantity) {
        let n = choose|n: int|
            0 < n <= levels.len() && #[trigger] size_of_first(levels, n) == Some(quantity);
        assert(depths[n - 1] == quantity);
    }
}

proof fn lemma_deduped_keeps_every_number(items: Seq<Decimal>)
    ensures
        items.len() > 0 ==> deduped(items).len() > 0,
        forall|k: int| 0 <= k < deduped(items).len() ==> items.contains(#[trigger] deduped(items)[k]),
        forall|i: int|
            0 <= i < items.len() ==> exists|k: int|
                0 <= k < deduped(items).len() && same(deduped(items)[k], #[trigger] items[i]),
    decreases items.len(),
{
    let all = deduped(items);
    if items.len() == 1 {
        lemma_lt_asymmetric(items[0], items[0]);
        assert(all[0] == items[0]);
    } else if items.len() > 1 {
        let before = items.drop_last();
        let kept = deduped(before);
        lemma_deduped_keeps_every_number(before);
        lemma_lt_asymmetric(items.last(), items.last());
        assert forall|k: int| 0 <= k < all.len() implies items.contains(#[trigger] all[k]) by {
            if k < kept.len() {
                assert(all[k] == kept[k]);
                assert(before.contains(kept[k]));
                let j = choose|j: int| 0 <= j < before.len() && before[j] == kept[k];
                assert(items[j] == all[k]);
            } else {
                assert(items[items.len() - 1] == all[k]);
            }
        }
        assert forall|i: int| 0 <= i < items.len() implies exists|k: int|
            0 <= k < all.len() && same(all[k], #[trigger] items[i]) by {
            if i < before.len() {
                assert(before[i] == items[i]);
                let k = choose|k: int| 0 <= k < kept.len() && same(kept[k], before[i]);
                assert(all[k] == kept[k]);
            } else if same(items.last(), kept.last()) {
                assert(all[kept.len() - 1] == kept.last());
            } else {
                assert(all[kept.len() as int] == items[i]);
            }
        }
    }
}

proof fn lemma_candidates_are_turning_points(
    levels_a: Seq<Level>,
    levels_b: Seq<Level>,
    cap: Decimal,
)
    requires
        depth(levels_a) is Some,
        depth(levels_b) is Some,
    ensures
        forall|k: int|
            0 <= k < candidate_quantities(levels_a, levels_b, cap).len() ==> is_turning_point(
                levels_a,
                levels_b,
                cap,
                #[trigger] candidate_quantities(levels_a, levels_b, cap)[k],
            ),
        forall|quantity: Decimal| #[trigger]
            is_turning_point(levels_a, levels_b, cap, quantity) ==> exists|k: int|
                0 <= k < candidate_quantities(levels_a, levels_b, cap).len() && same(
                    #[trigger] candidate_quantities(levels_a, levels_b, cap)[k],
                    quantity,
                ),
{
    broadcast use vstd::seq_lib::group_to_multiset_ensures;

    let quantities = candidate_quantities(levels_a, levels_b, cap);
    let of_a = running_depths(levels_a);
    let of_b = running_depths(levels_b);
    let points = (of_a + of_b).push(cap);
    let ascending = sorted::<Decimal, LeastFirst>(points);
    assert(quantities == deduped(ascending));
    law_sorted_is_an_ordered_rearrangement::<Decimal, LeastFirst>(points);
    lemma_deduped_keeps_every_number(ascending);
    assert forall|q: Decimal| points.contains(q) <==> #[trigger] is_turning_point(
        levels_a,
        levels_b,
        cap,
        q,
    ) by {
        lemma_depths_use_up_levels(levels_a, q);
        lemma_depths_use_up_levels(levels_b, q);
        if points.contains(q) {
            let i = choose|i: int| 0 <= i < points.len() && points[i] == q;
            if i < of_a.len() {
                assert(of_a[i] == q);
            } else if i < of_a.len() + of_b.len() {
                assert(of_b[i - of_a.len()] == q);
            }
        }
        if of_a.contains(q) {
            let i = choose|i: int| 0 <= i < of_a.len() && of_a[i] == q;
            assert(points[i] == q);
        }
        if of_b.contains(q) {
            let i = choose|i: int| 0 <= i < of_b.len() && of_b[i] == q;
            assert(points[of_a.len() + i] == q);
        }
        assert(points[points.len() - 1] == cap);
    }
    assert forall|k: int| 0 <= k < quantities.len() implies is_turning_point(
        levels_a,
        levels_b,
        cap,
        #[trigger] quantities[k],
    ) by {
        assert(ascending.contains(quantities[k]));
        assert(ascending.to_multiset().count(quantities[k]) > 0);
        assert(points.contains(quantities[k]));
    }
    assert forall|quantity: Decimal| #[trigger]
        is_turning_point(levels_a, levels_b, cap, quantity) implies exists|k: int|
        0 <= k < quantities.len() && same(#[trigger] quantities[k], quantity) by {
        assert(points.contains(quantity));
        assert(points.to_multiset().count(quantity) > 0);
        assert(ascending.contains(quantity));
        let i = choose|i: int| 0 <= i < ascending.len() && ascending[i] == quantity;
        let k = choose|k: int| 0 <= k < quantities.len() && same(quantities[k], ascending[i]);
        assert(same(quantities[k], quantity));
    }
}

proof fn lemma_found_among(
    levels_a: Seq<Level>,
    levels_b: Seq<Level>,
    rate: Decimal,
    direction: Direction,
    profitability: ProfitabilityConfig,
    reserves: ReserveConfig,
    risk: RiskConfig,
    cap: Decimal,
    found: Result<Opportunity, Rejection>,
) -> (offers: Seq<Opportunity>)
    requires
        best_found(levels_a, levels_b, rate, direction, profitability, reserves, risk) == Some(
            found,
        ),
        levels_a.len() > 0,
        !is_in_skipped_band(levels_a[0].price, profitability),
        participation_cap(levels_a, levels_b, profitability.depth_fraction) == Some(cap),
        cap.m() > 0,
    ensures
        accepted(
            levels_a,
            levels_b,
            rate,
            direction,
            candidate_quantities(levels_a, levels_b, cap),
            cap,
            profitability,
            reserves,
            risk,
        ) == Some(offers),
        found matches Ok(best) ==> best_of(offers) == Some(best),
        found matches Err(e) ==> best_of(offers) is None && e == Rejection::NoProfitableDepth,
{
    accepted(
        levels_a,
        levels_b,
        rate,
        direction,
        candidate_quantities(levels_a, levels_b, cap),
        cap,
        profitability,
        reserves,
        risk,
    )->0
}

proof fn lemma_found_is_matched(
    offers: Seq<Opportunity>,
    found: Result<Opportunity, Rejection>,
    o: Opportunity,
)
    requires
        found matches Ok(best) ==> best_of(offers) == Some(best),
        found is Err ==> best_of(offers) is None,
        offers.contains(o),
    ensures
        is_matched(found, o),
{
    law_best_is_unsurpassed(offers);
    let i = choose|i: int| 0 <= i < offers.len() && offers[i] == o;
    assert(!outranks(offers[i], best_of(offers)->0));
}

proof fn lemma_takeable_is_offered(
    o: Opportunity,
    levels_a: Seq<Level>,
    levels_b: Seq<Level>,
    rate: Decimal,
    direction: Direction,
    quantity: Decimal,
    cap: Decimal,
    profitability: ProfitabilityConfig,
    reserves: ReserveConfig,
    risk: RiskConfig,
)
    ensures
        is_takeable(
            o,
            levels_a,
            levels_b,
            rate,
            direction,
            quantity,
            cap,
            profitability,
            reserves,
            risk,
        ) <==> is_offer(
            o,
            levels_a,
            levels_b,
            rate,
            direction,
            quantity,
            cap,
            profitability,
            reserves,
            risk,
        ),
{
}

proof fn lemma_unsurpassed_at(
    levels_a: Seq<Level>,
    levels_b: Seq<Level>,
    rate: Decimal,
    direction: Direction,
    quantities: Seq<Decimal>,
    cap: Decimal,
    profitability: ProfitabilityConfig,
    reserves: ReserveConfig,
    risk: RiskConfig,
    offers: Seq<Opportunity>,
    found: Result<Opportunity, Rejection>,
)
    requires
        accepted(
            levels_a,
            levels_b,
            rate,
            direction,
            quantities,
            cap,
            profitability,
            reserves,
            risk,
        ) == Some(offers),
        found matches Ok(best) ==> best_of(offers) == Some(best),
        found is Err ==> best_of(offers) is None,
    ensures
        found matches Ok(best) ==> quantities.contains(best.quantity) && is_takeable(
            best,
            levels_a,
            levels_b,
            rate,
            direction,
            best.quantity,
            cap,
            profitability,
            reserves,
            risk,
        ),
        forall|k: int|
            0 <= k < quantities.len() ==> is_unsurpassed_at(
                found,
                levels_a,
                levels_b,
                rate,
                direction,
                #[trigger] quantities[k],
                cap,
                profitability,
                reserves,
                risk,
            ),
{
    lemma_accepted_are_the_offers(
        levels_a,
        levels_b,
        rate,
        direction,
        quantities,
        cap,
        profitability,
        reserves,
        risk,
        offers,
    );
    match found {
        Ok(best) => {
            law_best_is_unsurpassed(offers);
            let i = choose|i: int| 0 <= i < offers.len() && offers[i] == best;
            assert(offers[i] == best);
            lemma_takeable_is_offered(
                best,
                levels_a,
                levels_b,
                rate,
                direction,
                best.quantity,
                cap,
                profitability,
                reserves,
                risk,
            );
        },
        Err(_) => {},
    }
    assert forall|k: int| 0 <= k < quantities.len() implies is_unsurpassed_at(
        found,
        levels_a,
        levels_b,
        rate,
        direction,
        #[trigger] quantities[k],
        cap,
        profitability,
        reserves,
        risk,
    ) by {
        assert forall|o: Opportunity| #[trigger]
            is_takeable(
                o,
                levels_a,
                levels_b,
                rate,
                direction,
                quantities[k],
                cap,
                profitability,
                reserves,
                risk,
            ) implies is_matched(found, o) by {
            lemma_takeable_is_offered(
                o,
                levels_a,
                levels_b,
                rate,
                direction,
                quantities[k],
                cap,
                profitability,
                reserves,
                risk,
            );
            assert(offers.contains(o));
            lemma_found_is_matched(offers, found, o);
        }
    }
}

/// Outside the skipped price band, and with a positive cap, what a direction offers
/// is taken at a quantity within the cap that uses up a level of either book or is
/// the cap; and it is at least as good as what can be taken at every such number.
/// Nothing is offered exactly when nothing can be taken at any.
pub proof fn law_offers_are_the_best_of_every_depth(
    levels_a: Seq<Level>,
    levels_b: Seq<Level>,
    rate: Decimal,
    direction: Direction,
    profitability: ProfitabilityConfig,
    reserves: ReserveConfig,
    risk: RiskConfig,
    depth_a: Decimal,
    depth_b: Decimal,
    cap: Decimal,
    found: Result<Opportunity, Rejection>,
)
    requires
        best_found(levels_a, levels_b, rate, direction, profitability, reserves, risk) == Some(
            found,
        ),
        levels_a.len() > 0,
        !(profitability.price_band_enabled && lt(
            profitability.price_band_low_max,
            levels_a[0].price,
        ) && lt(levels_a[0].price, profitability.price_band_high_min)),
        size_of_first(levels_a, levels_a.len() as int) == Some(depth_a),
        size_of_first(levels_b, levels_b.len() as int) == Some(depth_b),
        product(
            if lt(depth_b, depth_a) {
                depth_b
            } else {
                depth_a
            },
            profitability.depth_fraction,
        ) == Some(cap),
        cap.m() > 0,
    ensures
        found matches Ok(best) ==> {
            &&& is_turning_point(levels_a, levels_b, cap, best.quantity)
            &&& is_takeable(
                best,
                levels_a,
                levels_b,
                rate,
                direction,
                best.quantity,
                cap,
                profitability,
                reserves,
                risk,
            )
        },
        found matches Err(e) ==> e == Rejection::NoProfitableDepth,
        forall|quantity: Decimal| #[trigger]
            is_turning_point(levels_a, levels_b, cap, quantity) ==> exists|q: Decimal| #[trigger]
                is_turning_point(levels_a, levels_b, cap, q) && same(q, quantity)
                    && is_unsurpassed_at(
                    found,
                    levels_a,
                    levels_b,
                    rate,
                    direction,
                    q,
                    cap,
                    profitability,
                    reserves,
                    risk,
                ),
{
    assert(levels_a.take(levels_a.len() as int) =~= levels_a);
    assert(levels_b.take(levels_b.len() as int) =~= levels_b);
    lemma_size_of_first(levels_a, levels_a.len() as int);
    lemma_size_of_first(levels_b, levels_b.len() as int);
    lemma_candidates_are_turning_points(levels_a, levels_b, cap);
    let quantities = candidate_quantities(levels_a, levels_b, cap);
    let offers = lemma_found_among(
        levels_a,
        levels_b,
        rate,
        direction,
        profitability,
        reserves,
        risk,
        cap,
        found,
    );
    lemma_unsurpassed_at(
        levels_a,
        levels_b,
        rate,
        direction,
        quantities,
        cap,
        profitability,
        reserves,
        risk,
        offers,
        found,
    );
    match found {
        Ok(best) => {
            let k = choose|k: int| 0 <= k < quantities.len() && quantities[k] == best.quantity;
            assert(is_turning_point(levels_a, levels_b, cap, quantities[k]));
        },
        Err(_) => {},
    }
    assert forall|quantity: Decimal| #[trigger]
        is_turning_point(levels_a, levels_b, cap, quantity) implies exists|q: Decimal| #[trigger]
        is_turning_point(levels_a, levels_b, cap, q) && same(q, quantity) && is_unsurpassed_at(
            found,
            levels_a,
            levels_b,
            rate,
            direction,
            q,
            cap,
            profitability,
            reserves,
            risk,
        ) by {
        let k = choose|k: int|
            0 <= k < quantities.len() && same(#[trigger] quantities[k], quantity);
        assert(is_turning_point(levels_a, levels_b, cap, quantities[k]));
    }
}

/// A direction is refused for its price exactly when the first price of the first
/// book lies strictly inside the skipped band; without levels there, or with no
/// positive cap, it is refused for want of profitable depth.
pub proof fn law_directions_are_refused_for_price_or_depth(
    levels_a: Seq<Level>,
    levels_b: Seq<Level>,
    rate: Decimal,
    direction: Direction,
    profitability: ProfitabilityConfig,
    reserves: ReserveConfig,
    risk: RiskConfig,
)
    ensures
        ({
            let found = best_found(
                levels_a,
                levels_b,
                rate,
                direction,
                profitability,
                reserves,
                risk,
            );
            let no_depth = Some(Err::<Opportunity, Rejection>(Rejection::NoProfitableDepth));
            let off_band = Some(Err::<Opportunity, Rejection>(Rejection::OutsidePriceBand));
            &&& found == off_band <==> {
                &&& levels_a.len() > 0
                &&& profitability.price_band_enabled
                &&& lt(profitability.price_band_low_max, levels_a[0].price)
                &&& lt(levels_a[0].price, profitability.price_band_high_min)
            }
            &&& levels_a.len() == 0 ==> found == no_depth
            &&& found != off_band && levels_a.len() > 0 && (size_of_first(
                levels_a,
                levels_a.len() as int,
            ) matches Some(a) && size_of_first(
                levels_b,
                levels_b.len() as int,
            ) matches Some(b) && product(
                if lt(b, a) {
                    b
                } else {
                    a
                },
                profitability.depth_fraction,
            ) matches Some(cap) && cap.m() <= 0) ==> found == no_depth
        }),
{
    assert(levels_a.take(levels_a.len() as int) =~= levels_a);
    assert(levels_b.take(levels_b.len() as int) =~= levels_b);
    lemma_size_of_first(levels_a, levels_a.len() as int);
    lemma_size_of_first(levels_b, levels_b.len() as int);
}

/// The best of both directions is what one of them offers, and at least as good as
/// what the other does: buying takes the asks of both books, selling their bids.
/// There is none exactly when neither offers anything.
pub proof fn law_selected_is_the_better_direction(
    book_a: Book,
    book_b: Book,
    rate: Decimal,
    profitability: ProfitabilityConfig,
    reserves: ReserveConfig,
    risk: RiskConfig,
    bought: Result<Opportunity, Rejection>,
    sold: Result<Opportunity, Rejection>,
)
    requires
        best_found(
            traded_side(book_a, Direction::BuyMerge),
            traded_side(book_b, Direction::BuyMerge),
            rate,
            Direction::BuyMerge,
            profitability,
            reserves,
            risk,
        ) == Some(bought),
        best_found(
            traded_side(book_a, Direction::SplitSell),
            traded_side(book_b, Direction::SplitSell),
            rate,
            Direction::SplitSell,
            profitability,
            reserves,
            risk,
        ) == Some(sold),
    ensures
        best_selected(book_a, book_b, rate, profitability, reserves, risk) matches Some(selected)
            && match selected {
            Some(best) => {
                let found = Ok::<Opportunity, Rejection>(best);
                &&& bought == found || sold == found
                &&& bought matches Ok(o) ==> is_matched(found, o)
                &&& sold matches Ok(o) ==> is_matched(found, o)
            },
            None => bought is Err && sold is Err,
        },
{
    match (bought, sold) {
        (Ok(a), Ok(b)) => {
            lemma_lt_asymmetric(a.net_profit, b.net_profit);
            lemma_lt_asymmetric(a.capital, b.capital);
            lemma_lt_asymmetric(b.net_profit, b.net_profit);
            lemma_lt_asymmetric(b.capital, b.capital);
        },
        (Ok(a), _) => {
            lemma_lt_asymmetric(a.net_profit, a.net_profit);
            lemma_lt_asymmetric(a.capital, a.capital);
        },
        (_, Ok(b)) => {
            lemma_lt_asymmetric(b.net_profit, b.net_profit);
            lemma_lt_asymmetric(b.capital, b.capital);
        },
        _ => {},
    }
}

/// Two fee curves agree exactly when all six parts are there, the rate is positive
/// and at most one, the exponent is positive, and each part is the same in both; the
/// first part that is missing is the problem otherwise, or the contradiction.
pub proof fn law_when_fees_agree(
    gamma_rate: Option<Decimal>,
    gamma_exponent: Option<i64>,
    gamma_taker_only: Option<bool>,
    clob_rate: Option<Decimal>,
    clob_exponent: Option<i64>,
    clob_taker_only: Option<bool>,
)
    ensures
        ({
            let problem = fee_problem(
                gamma_rate,
                gamma_exponent,
                gamma_taker_only,
                clob_rate,
                clob_exponent,
                clob_taker_only,
            );
            let complete = gamma_rate is Some && gamma_exponent is Some && gamma_taker_only is Some
                && clob_rate is Some && clob_exponent is Some && clob_taker_only is Some;
            let agree = {
                &&& gamma_rate->0.m() > 0
                &&& !lt(one(), gamma_rate->0)
                &&& !lt(gamma_rate->0, clob_rate->0)
                &&& !lt(clob_rate->0, gamma_rate->0)
                &&& gamma_exponent->0 >= 1
                &&& gamma_exponent->0 == clob_exponent->0
                &&& gamma_taker_only->0 == clob_taker_only->0
            };
            match problem {
                None => complete && agree,
                Some(StrategyError::FeeCurvesContradictory) => complete && !agree,
                Some(StrategyError::GammaFeeCurveMissing) => gamma_rate is None,
                Some(StrategyError::GammaFeeExponentMissing) => gamma_exponent is None,
                Some(StrategyError::ClobFeeCurveMissing) => clob_rate is None,
                Some(StrategyError::ClobFeeExponentMissing) => clob_exponent is None,
                Some(StrategyError::GammaFeeApplicabilityMissing) => gamma_taker_only is None,
                Some(StrategyError::ClobFeeApplicabilityMissing) => clob_taker_only is None,
                Some(_) => false,
            }
        }),
{
}

} // verus!
