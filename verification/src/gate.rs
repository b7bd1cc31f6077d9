//! Calibration gates and circuit breakers.
//!
//! A gate stands for one direction and one range of remaining market duration.
//! It collects samples of independent episodes and unlocks once they are
//! mature, well covered and profitable; bad data, an orphaned leg or a loss
//! locks it again.

use crate::collections::StringSet;
use crate::decimal::checked_total;
use crate::decimal::decimal_of;
use crate::decimal::lemma_decimal_of;
use crate::decimal::le;
use crate::decimal::less;
use crate::decimal::over;
use crate::decimal::plus;
use crate::decimal::quotient_of;
use crate::decimal::sum_of;
use crate::decimal::total;
use crate::decimal::zero;
use crate::decimal::Decimal;
use crate::decimal::LeastFirst;
use crate::error::StrategyError;
use crate::ints::clamped_difference;
use crate::ints::saturating_difference;
use crate::ints::wrap_to_i64;
use crate::ints::wrapped_to_i64;
use crate::pricing::direction_label;
use crate::pricing::direction_text;
use crate::pricing::Direction;
use crate::sorting::law_sorted_is_an_ordered_rearrangement;
use crate::sorting::sorted;
use crate::sorting::stable_sort;
use crate::text::join3;
use crate::text::same_text;
use std::collections::VecDeque;
use crate::decimal::lt;
use crate::decimal::quotient;
use crate::decimal::sum;
use vstd::prelude::*;
use vstd::string::StrSliceExecFns;

verus! {

/// A range of remaining market duration.
#[derive(Clone, Copy, Debug, PartialEq, Eq, PartialOrd, Ord, Structural)]
pub enum DurationBucket {
    Under15m,
    From15mTo1h,
    From1hTo6h,
    From6hTo24h,
}

/// The range that a remaining duration falls into: up to 24 hours, and not
/// over yet.
pub open spec fn bucket_of(remaining_ms: int) -> Option<DurationBucket> {
    if remaining_ms <= 0 || remaining_ms > 86_400_000 {
        None
    } else if remaining_ms < 900_000 {
        Some(DurationBucket::Under15m)
    } else if remaining_ms < 3_600_000 {
        Some(DurationBucket::From15mTo1h)
    } else if remaining_ms < 21_600_000 {
        Some(DurationBucket::From1hTo6h)
    } else {
        Some(DurationBucket::From6hTo24h)
    }
}

/// The label of a duration range.
pub open spec fn bucket_text(bucket: DurationBucket) -> Seq<char> {
    match bucket {
        DurationBucket::Under15m => "under_15m"@,
        DurationBucket::From15mTo1h => "15m_to_1h"@,
        DurationBucket::From1hTo6h => "1h_to_6h"@,
        DurationBucket::From6hTo24h => "6h_to_24h"@,
    }
}

/// The label of a duration range.
pub fn duration_label(bucket: DurationBucket) -> (r: &'static str)
    ensures
        r@ == bucket_text(bucket),
{
    match bucket {
        DurationBucket::Under15m => "under_15m",
        DurationBucket::From15mTo1h => "15m_to_1h",
        DurationBucket::From1hTo6h => "1h_to_6h",
        DurationBucket::From6hTo24h => "6h_to_24h",
    }
}

impl DurationBucket {
    /// The range that a remaining duration falls into.
    pub fn from_remaining_ms(value: i64) -> (r: Option<DurationBucket>)
        ensures
            r == bucket_of(value as int),
    {
        if value <= 0 || value > 86_400_000 {
            None
        } else if value < 900_000 {
            Some(DurationBucket::Under15m)
        } else if value < 3_600_000 {
            Some(DurationBucket::From15mTo1h)
        } else if value < 21_600_000 {
            Some(DurationBucket::From1hTo6h)
        } else {
            Some(DurationBucket::From6hTo24h)
        }
    }
}

/// What a gate stands for.
#[derive(Clone, Copy, Debug, PartialEq, Eq, PartialOrd, Ord, Structural)]
pub struct GateKey {
    pub direction: Direction,
    pub bucket: DurationBucket,
}

/// The text of a key: `direction:bucket`.
pub open spec fn key_text(key: GateKey) -> Seq<char> {
    direction_text(key.direction) + ":"@ + bucket_text(key.bucket)
}

/// The position of the first colon.
pub open spec fn first_colon(text: Seq<char>) -> Option<int>
    decreases text.len(),
{
    if text.len() == 0 {
        None
    } else if text[0] == ':' {
        Some(0)
    } else {
        match first_colon(text.drop_first()) {
            Some(i) => Some(i + 1),
            None => None,
        }
    }
}

/// The direction with a label.
pub open spec fn labelled_direction(label: Seq<char>) -> Option<Direction> {
    if label == direction_text(Direction::BuyMerge) {
        Some(Direction::BuyMerge)
    } else if label == direction_text(Direction::SplitSell) {
        Some(Direction::SplitSell)
    } else {
        None
    }
}

/// The duration range with a label.
pub open spec fn labelled_bucket(label: Seq<char>) -> Option<DurationBucket> {
    if label == bucket_text(DurationBucket::Under15m) {
        Some(DurationBucket::Under15m)
    } else if label == bucket_text(DurationBucket::From15mTo1h) {
        Some(DurationBucket::From15mTo1h)
    } else if label == bucket_text(DurationBucket::From1hTo6h) {
        Some(DurationBucket::From1hTo6h)
    } else if label == bucket_text(DurationBucket::From6hTo24h) {
        Some(DurationBucket::From6hTo24h)
    } else {
        None
    }
}

/// The key that a text stands for, or what is wrong with the text.
pub open spec fn parsed_key(text: Seq<char>) -> Result<GateKey, StrategyError> {
    match first_colon(text) {
        None => Err(StrategyError::InvalidGateKey),
        Some(i) => match labelled_direction(text.take(i)) {
            None => Err(StrategyError::InvalidGateDirection),
            Some(direction) => match labelled_bucket(text.skip(i + 1)) {
                None => Err(StrategyError::InvalidGateBucket),
                Some(bucket) => Ok(GateKey { direction, bucket }),
            },
        },
    }
}

proof fn lemma_first_colon(text: Seq<char>, i: int)
    requires
        0 <= i <= text.len(),
        forall|j: int| 0 <= j < i ==> #[trigger] text[j] != ':',
    ensures
        i == text.len() ==> first_colon(text) is None,
        i < text.len() && text[i] == ':' ==> first_colon(text) == Some(i),
    decreases i,
{
    if i > 0 {
        let rest = text.drop_first();
        assert forall|j: int| 0 <= j < i - 1 implies #[trigger] rest[j] != ':' by {
            assert(rest[j] == text[j + 1]);
        }
        lemma_first_colon(rest, i - 1);
    }
}

/// Every key is read back from its own text.
pub proof fn law_gate_keys_round_trip(key: GateKey)
    ensures
        parsed_key(key_text(key)) == Ok::<GateKey, StrategyError>(key),
{
    reveal_strlit("buy_merge");
    reveal_strlit("split_sell");
    reveal_strlit(":");
    reveal_strlit("under_15m");
    reveal_strlit("15m_to_1h");
    reveal_strlit("1h_to_6h");
    reveal_strlit("6h_to_24h");
    let text = key_text(key);
    let label = direction_text(key.direction);
    let i = label.len() as int;
    assert forall|j: int| 0 <= j < i implies #[trigger] text[j] != ':' by {
        assert(text[j] == label[j]);
    }
    assert(text[i] == ':');
    lemma_first_colon(text, i);
    assert(text.take(i) =~= label);
    assert(text.skip(i + 1) =~= bucket_text(key.bucket));
    assert(direction_text(Direction::BuyMerge).len() != direction_text(Direction::SplitSell).len());
    let a = bucket_text(DurationBucket::Under15m);
    let b = bucket_text(DurationBucket::From15mTo1h);
    let c = bucket_text(DurationBucket::From1hTo6h);
    let d = bucket_text(DurationBucket::From6hTo24h);
    assert(a[0] != b[0]);
    assert(a.len() != c.len());
    assert(b.len() != c.len());
    assert(d[0] != a[0] && d[0] != b[0] && d[0] != c[0]);
}

fn direction_with_label(label: &str) -> (r: Option<Direction>)
    ensures
        r == labelled_direction(label@),
{
    if same_text(label, direction_label(Direction::BuyMerge)) {
        Some(Direction::BuyMerge)
    } else if same_text(label, direction_label(Direction::SplitSell)) {
        Some(Direction::SplitSell)
    } else {
        None
    }
}

fn bucket_with_label(label: &str) -> (r: Option<DurationBucket>)
    ensures
        r == labelled_bucket(label@),
{
    if same_text(label, duration_label(DurationBucket::Under15m)) {
        Some(DurationBucket::Under15m)
    } else if same_text(label, duration_label(DurationBucket::From15mTo1h)) {
        Some(DurationBucket::From15mTo1h)
    } else if same_text(label, duration_label(DurationBucket::From1hTo6h)) {
        Some(DurationBucket::From1hTo6h)
    } else if same_text(label, duration_label(DurationBucket::From6hTo24h)) {
        Some(DurationBucket::From6hTo24h)
    } else {
        None
    }
}

impl GateKey {
    /// The text of the key: `direction:bucket`.
    pub fn to_text(&self) -> (r: String)
        ensures
            r@ == key_text(*self),
    {
        join3(direction_label(self.direction), ":", duration_label(self.bucket))
    }

    /// The key that a text stands for.
    pub fn from_text(text: &str) -> (r: Result<GateKey, StrategyError>)
        ensures
            r == parsed_key(text@),
    {
        let length: usize = text.unicode_len();
        let mut i: usize = 0;
        while i < length && text.get_char(i) != ':'
            invariant
                i <= length,
                length == text@.len(),
                forall|j: int| 0 <= j < i ==> #[trigger] text@[j] != ':',
            decreases length - i,
        {
            i += 1;
        }
        proof {
            lemma_first_colon(text@, i as int);
        }
        if i == length {
            return Err(StrategyError::InvalidGateKey);
        }
        let label = text.substring_char(0, i);
        let rest = text.substring_char(i + 1, length);
        proof {
            assert(label@ =~= text@.take(i as int));
            assert(rest@ =~= text@.skip(i + 1));
        }
        let direction = match direction_with_label(label) {
            Some(d) => d,
            None => return Err(StrategyError::InvalidGateDirection),
        };
        match bucket_with_label(rest) {
            Some(bucket) => Ok(GateKey { direction, bucket }),
            None => Err(StrategyError::InvalidGateBucket),
        }
    }
}

// ---------------------------------------------------------------------------
// Samples
// ---------------------------------------------------------------------------

/// What was learned from one episode.
#[derive(Debug, PartialEq, Eq)]
pub struct CalibrationSample {
    pub episode_id: String,
    pub observed_at_ms: i64,
    pub terminal: bool,
    pub valid_data: bool,
    pub unresolved_orphan: bool,
    pub net_profit: Decimal,
    pub slippage: Decimal,
    pub latency_cost: Decimal,
    pub orphan_loss: Decimal,
}

impl Clone for CalibrationSample {
    fn clone(&self) -> (r: Self)
        ensures
            r == *self,
    {
        CalibrationSample {
            episode_id: self.episode_id.clone(),
            observed_at_ms: self.observed_at_ms,
            terminal: self.terminal,
            valid_data: self.valid_data,
            unresolved_orphan: self.unresolved_orphan,
            net_profit: self.net_profit,
            slippage: self.slippage,
            latency_cost: self.latency_cost,
            orphan_loss: self.orphan_loss,
        }
    }
}

/// High percentiles of what episodes cost.
#[derive(Clone, Copy, Debug, PartialEq, Eq)]
pub struct LearnedReserves {
    pub slippage_p99: Decimal,
    pub latency_p99: Decimal,
    pub orphan_p99: Decimal,
}

/// Nothing learned yet.
pub open spec fn no_reserves() -> LearnedReserves {
    LearnedReserves { slippage_p99: zero(), latency_p99: zero(), orphan_p99: zero() }
}

impl Default for LearnedReserves {
    fn default() -> (r: Self)
        ensures
            r == no_reserves(),
    {
        LearnedReserves {
            slippage_p99: Decimal::zero(),
            latency_p99: Decimal::zero(),
            orphan_p99: Decimal::zero(),
        }
    }
}

/// Where a gate stands.
#[derive(Debug, PartialEq, Eq)]
pub struct GateStatus {
    pub unlocked: bool,
    pub first_observed_at_ms: i64,
    pub independent_cycles: usize,
    pub valid_coverage: Decimal,
    pub aggregate_profit: Decimal,
    pub median_profit: Decimal,
    pub reserves: LearnedReserves,
    pub relock_reason: Option<String>,
}

/// The content of a [`GateStatus`].
pub struct GateStatusView {
    pub unlocked: bool,
    pub first_observed_at_ms: i64,
    pub independent_cycles: nat,
    pub valid_coverage: Decimal,
    pub aggregate_profit: Decimal,
    pub median_profit: Decimal,
    pub reserves: LearnedReserves,
    pub relock_reason: Option<Seq<char>>,
}

impl View for GateStatus {
    type V = GateStatusView;

    open spec fn view(&self) -> GateStatusView {
        GateStatusView {
            unlocked: self.unlocked,
            first_observed_at_ms: self.first_observed_at_ms,
            independent_cycles: self.independent_cycles as nat,
            valid_coverage: self.valid_coverage,
            aggregate_profit: self.aggregate_profit,
            median_profit: self.median_profit,
            reserves: self.reserves,
            relock_reason: match self.relock_reason {
                Some(reason) => Some(reason@),
                None => None,
            },
        }
    }
}

/// The status of a gate of which nothing is known.
pub open spec fn initial_status() -> GateStatusView {
    GateStatusView {
        unlocked: false,
        first_observed_at_ms: 0,
        independent_cycles: 0,
        valid_coverage: zero(),
        aggregate_profit: zero(),
        median_profit: zero(),
        reserves: no_reserves(),
        relock_reason: None,
    }
}

impl Default for GateStatus {
    fn default() -> (r: Self)
        ensures
            r@ == initial_status(),
    {
        GateStatus {
            unlocked: false,
            first_observed_at_ms: 0,
            independent_cycles: 0,
            valid_coverage: Decimal::zero(),
            aggregate_profit: Decimal::zero(),
            median_profit: Decimal::zero(),
            reserves: LearnedReserves::default(),
            relock_reason: None,
        }
    }
}

impl Clone for GateStatus {
    fn clone(&self) -> (r: Self)
        ensures
            r == *self,
    {
        GateStatus {
            unlocked: self.unlocked,
            first_observed_at_ms: self.first_observed_at_ms,
            independent_cycles: self.independent_cycles,
            valid_coverage: self.valid_coverage,
            aggregate_profit: self.aggregate_profit,
            median_profit: self.median_profit,
            reserves: self.reserves,
            relock_reason: match &self.relock_reason {
                Some(reason) => Some(reason.clone()),
                None => None,
            },
        }
    }
}

// ---------------------------------------------------------------------------
// Assessing a gate
// ---------------------------------------------------------------------------

/// The samples of finished episodes.
pub open spec fn terminal_samples(samples: Seq<CalibrationSample>) -> Seq<CalibrationSample>
    decreases samples.len(),
{
    if samples.len() == 0 {
        samples
    } else if samples.last().terminal {
        terminal_samples(samples.drop_last()).push(samples.last())
    } else {
        terminal_samples(samples.drop_last())
    }
}

/// The profits of finished episodes with valid data.
pub open spec fn valid_profits(samples: Seq<CalibrationSample>) -> Seq<Decimal>
    decreases samples.len(),
{
    if samples.len() == 0 {
        Seq::empty()
    } else if samples.last().terminal && samples.last().valid_data {
        valid_profits(samples.drop_last()).push(samples.last().net_profit)
    } else {
        valid_profits(samples.drop_last())
    }
}

/// The slippage of each sample.
pub open spec fn slippages(samples: Seq<CalibrationSample>) -> Seq<Decimal> {
    samples.map_values(|sample: CalibrationSample| sample.slippage)
}

/// The latency cost of each sample.
pub open spec fn latency_costs(samples: Seq<CalibrationSample>) -> Seq<Decimal> {
    samples.map_values(|sample: CalibrationSample| sample.latency_cost)
}

/// The orphan loss of each sample.
pub open spec fn orphan_losses(samples: Seq<CalibrationSample>) -> Seq<Decimal> {
    samples.map_values(|sample: CalibrationSample| sample.orphan_loss)
}

/// The middle of an ascending sequence; the mean of the middle two; zero
/// without any.
pub open spec fn middle(ascending: Seq<Decimal>) -> Option<Decimal> {
    let n = ascending.len() as int;
    if n == 0 {
        Some(zero())
    } else if n % 2 == 1 {
        Some(ascending[n / 2])
    } else {
        over(
            plus(Some(ascending[n / 2 - 1]), Some(ascending[n / 2])),
            Some(decimal_of(2, 0)),
        )
    }
}

/// The least value that at least 99 of 100 values do not exceed; zero without
/// any.
pub open spec fn percentile_99(values: Seq<Decimal>) -> Decimal {
    if values.len() == 0 {
        zero()
    } else {
        sorted::<Decimal, LeastFirst>(values)[(values.len() * 99 + 99) / 100 - 1]
    }
}

/// The share of finished episodes that had valid data; zero without any.
pub open spec fn coverage(samples: Seq<CalibrationSample>) -> Option<Decimal> {
    if terminal_samples(samples).len() == 0 {
        Some(zero())
    } else {
        over(
            Some(decimal_of(valid_profits(samples).len() as int, 0)),
            Some(decimal_of(terminal_samples(samples).len() as int, 0)),
        )
    }
}

/// The percentiles over finished episodes.
pub open spec fn learned(samples: Seq<CalibrationSample>) -> LearnedReserves {
    let finished = terminal_samples(samples);
    LearnedReserves {
        slippage_p99: percentile_99(slippages(finished)),
        latency_p99: percentile_99(latency_costs(finished)),
        orphan_p99: percentile_99(orphan_losses(finished)),
    }
}

/// Why a gate must be locked, if it must.
pub open spec fn relock_cause(
    samples: Seq<CalibrationSample>,
    minimum_cycles: usize,
    aggregate_profit: Decimal,
) -> Option<Seq<char>> {
    if samples.len() > 0 && !samples.last().valid_data {
        Some("invalid_data"@)
    } else if samples.len() > 0 && samples.last().unresolved_orphan {
        Some("unresolved_orphan"@)
    } else if terminal_samples(samples).len() >= minimum_cycles && aggregate_profit.m() <= 0 {
        Some("non_positive_aggregate_profit"@)
    } else {
        None
    }
}

/// Since when a gate has been observed.
pub open spec fn observed_since(
    status: GateStatusView,
    samples: Seq<CalibrationSample>,
    now_ms: i64,
) -> i64 {
    if status.first_observed_at_ms != 0 {
        status.first_observed_at_ms
    } else if samples.len() > 0 {
        samples[0].observed_at_ms
    } else {
        now_ms
    }
}

/// So many hours in milliseconds, as a signed count, where they can be counted.
pub open spec fn hours_in_ms(hours: u64) -> Option<int> {
    if hours * 3_600_000 <= u64::MAX {
        Some(wrapped_to_i64((hours * 3_600_000) as u64))
    } else {
        None
    }
}

/// Old enough, enough finished episodes, enough of them valid, and profitable
/// both in sum and in the middle.
pub open spec fn is_mature(
    status: GateStatusView,
    now_ms: i64,
    minimum_age_ms: int,
    minimum_cycles: usize,
    minimum_coverage: Decimal,
) -> bool {
    &&& clamped_difference(now_ms, status.first_observed_at_ms) >= minimum_age_ms
    &&& status.independent_cycles >= minimum_cycles
    &&& le(minimum_coverage, status.valid_coverage)
    &&& status.aggregate_profit.m() > 0
    &&& status.median_profit.m() > 0
}

/// Where a gate stands, given where it stood and its samples; `None` where a
/// number leaves its range.
pub open spec fn assessed(
    status: GateStatusView,
    samples: Seq<CalibrationSample>,
    now_ms: i64,
    minimum_age_hours: u64,
    minimum_cycles: usize,
    minimum_coverage: Decimal,
) -> Option<GateStatusView> {
    let profits = sorted::<Decimal, LeastFirst>(valid_profits(samples));
    match (coverage(samples), total(profits), middle(profits)) {
        (Some(valid_coverage), Some(aggregate_profit), Some(median_profit)) => {
            let measured = GateStatusView {
                unlocked: false,
                first_observed_at_ms: observed_since(status, samples, now_ms),
                independent_cycles: terminal_samples(samples).len(),
                valid_coverage,
                aggregate_profit,
                median_profit,
                reserves: learned(samples),
                relock_reason: None,
            };
            match relock_cause(samples, minimum_cycles, aggregate_profit) {
                Some(reason) => Some(GateStatusView { relock_reason: Some(reason), ..measured }),
                None => match hours_in_ms(minimum_age_hours) {
                    Some(minimum_age_ms) => Some(
                        GateStatusView {
                            unlocked: is_mature(
                                measured,
                                now_ms,
                                minimum_age_ms,
                                minimum_cycles,
                                minimum_coverage,
                            ),
                            ..measured
                        },
                    ),
                    None => None,
                },
            }
        },
        _ => None,
    }
}

fn median(values: &Vec<Decimal>) -> (r: Option<Decimal>)
    ensures
        r == middle(values@),
{
    let length: usize = values.len();
    if length == 0 {
        Some(Decimal::zero())
    } else if length % 2 == 1 {
        Some(values[length / 2])
    } else {
        quotient_of(
            sum_of(Some(values[length / 2 - 1]), Some(values[length / 2])),
            Some(Decimal::new(2, 0)),
        )
    }
}

fn p99(values: Vec<Decimal>) -> (r: Decimal)
    ensures
        r == percentile_99(values@),
{
    let length: usize = values.len();
    if length == 0 {
        return Decimal::zero();
    }
    let ghost given = values@;
    let ascending = stable_sort::<Decimal, LeastFirst>(values);
    proof {
        law_sorted_is_an_ordered_rearrangement::<Decimal, LeastFirst>(given);
    }
    let index: usize = ((length as u128 * 99 + 99) / 100 - 1) as usize;
    ascending[index]
}

/// What [`assessed`] needs of the samples.
struct Measures {
    terminal: usize,
    valid: usize,
    profits: Vec<Decimal>,
    slippages: Vec<Decimal>,
    latency_costs: Vec<Decimal>,
    orphan_losses: Vec<Decimal>,
}

fn measure(samples: &Vec<CalibrationSample>) -> (r: Measures)
    ensures
        r.terminal == terminal_samples(samples@).len(),
        r.valid == valid_profits(samples@).len(),
        r.profits@ == valid_profits(samples@),
        r.slippages@ == slippages(terminal_samples(samples@)),
        r.latency_costs@ == latency_costs(terminal_samples(samples@)),
        r.orphan_losses@ == orphan_losses(terminal_samples(samples@)),
{
    let mut r = Measures {
        terminal: 0,
        valid: 0,
        profits: Vec::new(),
        slippages: Vec::new(),
        latency_costs: Vec::new(),
        orphan_losses: Vec::new(),
    };
    let mut i: usize = 0;
    assert(slippages(terminal_samples(samples@.take(0))) =~= Seq::<Decimal>::empty());
    assert(latency_costs(terminal_samples(samples@.take(0))) =~= Seq::<Decimal>::empty());
    assert(orphan_losses(terminal_samples(samples@.take(0))) =~= Seq::<Decimal>::empty());
    while i < samples.len()
        invariant
            i <= samples@.len(),
            r.terminal == terminal_samples(samples@.take(i as int)).len(),
            r.valid == valid_profits(samples@.take(i as int)).len(),
            r.terminal <= i,
            r.valid <= i,
            r.profits@ == valid_profits(samples@.take(i as int)),
            r.slippages@ == slippages(terminal_samples(samples@.take(i as int))),
            r.latency_costs@ == latency_costs(terminal_samples(samples@.take(i as int))),
            r.orphan_losses@ == orphan_losses(terminal_samples(samples@.take(i as int))),
        decreases samples@.len() - i,
    {
        let sample = &samples[i];
        let ghost before = terminal_samples(samples@.take(i as int));
        assert(samples@.take(i + 1).drop_last() =~= samples@.take(i as int));
        if sample.terminal {
            r.terminal += 1;
            r.slippages.push(sample.slippage);
            r.latency_costs.push(sample.latency_cost);
            r.orphan_losses.push(sample.orphan_loss);
            proof {
                let after = before.push(*sample);
                assert(slippages(after) =~= slippages(before).push(sample.slippage));
                assert(latency_costs(after) =~= latency_costs(before).push(sample.latency_cost));
                assert(orphan_losses(after) =~= orphan_losses(before).push(sample.orphan_loss));
            }
            if sample.valid_data {
                r.valid += 1;
                r.profits.push(sample.net_profit);
            }
        }
        i += 1;
    }
    assert(samples@.take(i as int) =~= samples@);
    r
}

fn assess(
    status: &GateStatus,
    samples: &Vec<CalibrationSample>,
    now_ms: i64,
    minimum_age_hours: u64,
    minimum_cycles: usize,
    minimum_coverage: Decimal,
) -> (r: Option<GateStatus>)
    ensures
        match r {
            Some(s) => assessed(
                status@,
                samples@,
                now_ms,
                minimum_age_hours,
                minimum_cycles,
                minimum_coverage,
            ) == Some(s@),
            None => assessed(
                status@,
                samples@,
                now_ms,
                minimum_age_hours,
                minimum_cycles,
                minimum_coverage,
            ) is None,
        },
{
    let first_observed_at_ms: i64 = if status.first_observed_at_ms != 0 {
        status.first_observed_at_ms
    } else if samples.len() > 0 {
        samples[0].observed_at_ms
    } else {
        now_ms
    };
    let measures = measure(samples);
    let covered = if measures.terminal == 0 {
        Some(Decimal::zero())
    } else {
        quotient_of(
            Some(Decimal::from_u64(measures.valid as u64)),
            Some(Decimal::from_u64(measures.terminal as u64)),
        )
    };
    let profits = stable_sort::<Decimal, LeastFirst>(measures.profits);
    let (valid_coverage, aggregate_profit, median_profit) = match (
        covered,
        checked_total(&profits),
        median(&profits),
    ) {
        (Some(c), Some(a), Some(m)) => (c, a, m),
        _ => return None,
    };
    let reserves = LearnedReserves {
        slippage_p99: p99(measures.slippages),
        latency_p99: p99(measures.latency_costs),
        orphan_p99: p99(measures.orphan_losses),
    };
    let length: usize = samples.len();
    let cause = if length > 0 && !samples[length - 1].valid_data {
        Some("invalid_data")
    } else if length > 0 && samples[length - 1].unresolved_orphan {
        Some("unresolved_orphan")
    } else if measures.terminal >= minimum_cycles && !aggregate_profit.is_positive() {
        Some("non_positive_aggregate_profit")
    } else {
        None
    };
    let mut measured = GateStatus {
        unlocked: false,
        first_observed_at_ms,
        independent_cycles: measures.terminal,
        valid_coverage,
        aggregate_profit,
        median_profit,
        reserves,
        relock_reason: None,
    };
    if let Some(reason) = cause {
        measured.relock_reason = Some(reason.to_owned());
        return Some(measured);
    }
    let minimum_age_ms: i64 = match minimum_age_hours.checked_mul(3_600_000) {
        Some(ms) => wrap_to_i64(ms),
        None => return None,
    };
    measured.unlocked = saturating_difference(now_ms, first_observed_at_ms) >= minimum_age_ms
        && measures.terminal >= minimum_cycles && !less(valid_coverage, minimum_coverage)
        && aggregate_profit.is_positive() && median_profit.is_positive();
    Some(measured)
}

/// A gate is unlocked exactly when it is old enough, has enough finished
/// episodes with enough valid data, is profitable in sum and in the middle, and
/// its latest sample has valid data and no unresolved orphan. It is old enough
/// when it has been observed for that many hours, as far as a signed count of
/// milliseconds goes.
pub proof fn law_unlocked_exactly_when_mature(
    status: GateStatusView,
    samples: Seq<CalibrationSample>,
    now_ms: i64,
    minimum_age_hours: u64,
    minimum_cycles: usize,
    minimum_coverage: Decimal,
)
    requires
        hours_in_ms(minimum_age_hours) is Some,
    ensures
        assessed(
            status,
            samples,
            now_ms,
            minimum_age_hours,
            minimum_cycles,
            minimum_coverage,
        ) matches Some(s) ==> {
            let profits = sorted::<Decimal, LeastFirst>(valid_profits(samples));
            let age = clamped_difference(now_ms, observed_since(status, samples, now_ms));
            &&& s.unlocked <==> {
                &&& age >= hours_in_ms(minimum_age_hours)->0
                &&& terminal_samples(samples).len() >= minimum_cycles
                &&& coverage(samples) matches Some(share) && le(minimum_coverage, share)
                &&& total(profits) matches Some(aggregate) && aggregate.m() > 0
                &&& middle(profits) matches Some(median) && median.m() > 0
                &&& samples.len() > 0
                &&& samples.last().valid_data
                &&& !samples.last().unresolved_orphan
            }
            &&& minimum_age_hours * 3_600_000 <= i64::MAX ==> (age >= hours_in_ms(
                minimum_age_hours,
            )->0 <==> now_ms - observed_since(status, samples, now_ms) >= minimum_age_hours
                * 3_600_000)
        },
{
    if samples.len() == 0 {
        lemma_decimal_of(0, 0);
        assert(sorted::<Decimal, LeastFirst>(valid_profits(samples)).len() == 0);
    }
}

// ---------------------------------------------------------------------------
// The gates
// ---------------------------------------------------------------------------

/// What is kept of one gate.
#[derive(Debug)]
pub struct Gate {
    pub status: Option<GateStatus>,
    pub samples: Vec<CalibrationSample>,
    pub episodes: StringSet,
}

impl Gate {
    /// A gate that nothing was recorded of.
    pub fn new() -> (r: Gate)
        ensures
            r.is_new(),
    {
        Gate { status: None, samples: Vec::new(), episodes: StringSet::new() }
    }

    /// Whether nothing was recorded yet.
    pub open spec fn is_new(self) -> bool {
        &&& self.status is None
        &&& self.samples@ == Seq::<CalibrationSample>::empty()
        &&& self.episodes@ == Set::<Seq<char>>::empty()
    }

    /// The status, or the one of a gate of which nothing is known.
    pub open spec fn status_or_initial(self) -> GateStatusView {
        match self.status {
            Some(status) => status@,
            None => initial_status(),
        }
    }
}

#[derive(Debug)]
struct DirectionGates {
    under_15m: Gate,
    from_15m_to_1h: Gate,
    from_1h_to_6h: Gate,
    from_6h_to_24h: Gate,
}

impl DirectionGates {
    spec fn at(self, bucket: DurationBucket) -> Gate {
        match bucket {
            DurationBucket::Under15m => self.under_15m,
            DurationBucket::From15mTo1h => self.from_15m_to_1h,
            DurationBucket::From1hTo6h => self.from_1h_to_6h,
            DurationBucket::From6hTo24h => self.from_6h_to_24h,
        }
    }

    fn new() -> (r: Self)
        ensures
            forall|bucket: DurationBucket| (#[trigger] r.at(bucket)).is_new(),
    {
        DirectionGates {
            under_15m: Gate::new(),
            from_15m_to_1h: Gate::new(),
            from_1h_to_6h: Gate::new(),
            from_6h_to_24h: Gate::new(),
        }
    }

    fn get(&self, bucket: DurationBucket) -> (r: &Gate)
        ensures
            *r == self.at(bucket),
    {
        match bucket {
            DurationBucket::Under15m => &self.under_15m,
            DurationBucket::From15mTo1h => &self.from_15m_to_1h,
            DurationBucket::From1hTo6h => &self.from_1h_to_6h,
            DurationBucket::From6hTo24h => &self.from_6h_to_24h,
        }
    }

    fn get_mut(&mut self, bucket: DurationBucket) -> (r: &mut Gate)
        ensures
            *r == old(self).at(bucket),
            final(self).at(bucket) == *final(r),
            forall|other: DurationBucket|
                other != bucket ==> #[trigger] final(self).at(other) == old(self).at(other),
    {
        match bucket {
            DurationBucket::Under15m => &mut self.under_15m,
            DurationBucket::From15mTo1h => &mut self.from_15m_to_1h,
            DurationBucket::From1hTo6h => &mut self.from_1h_to_6h,
            DurationBucket::From6hTo24h => &mut self.from_6h_to_24h,
        }
    }
}

/// All gates.
#[derive(Debug)]
pub struct GateState {
    buy_merge: DirectionGates,
    split_sell: DirectionGates,
}

/// The key at a position of the order of all keys.
pub open spec fn key_at(position: int) -> GateKey {
    GateKey {
        direction: if position < 4 {
            Direction::BuyMerge
        } else {
            Direction::SplitSell
        },
        bucket: if position % 4 == 0 {
            DurationBucket::Under15m
        } else if position % 4 == 1 {
            DurationBucket::From15mTo1h
        } else if position % 4 == 2 {
            DurationBucket::From1hTo6h
        } else {
            DurationBucket::From6hTo24h
        },
    }
}

/// All keys, in their order.
pub fn all_keys() -> (r: Vec<GateKey>)
    ensures
        r@ == Seq::new(8, |i: int| key_at(i)),
{
    let mut r: Vec<GateKey> = Vec::new();
    r.push(GateKey { direction: Direction::BuyMerge, bucket: DurationBucket::Under15m });
    r.push(GateKey { direction: Direction::BuyMerge, bucket: DurationBucket::From15mTo1h });
    r.push(GateKey { direction: Direction::BuyMerge, bucket: DurationBucket::From1hTo6h });
    r.push(GateKey { direction: Direction::BuyMerge, bucket: DurationBucket::From6hTo24h });
    r.push(GateKey { direction: Direction::SplitSell, bucket: DurationBucket::Under15m });
    r.push(GateKey { direction: Direction::SplitSell, bucket: DurationBucket::From15mTo1h });
    r.push(GateKey { direction: Direction::SplitSell, bucket: DurationBucket::From1hTo6h });
    r.push(GateKey { direction: Direction::SplitSell, bucket: DurationBucket::From6hTo24h });
    assert(r@ =~= Seq::new(8, |i: int| key_at(i)));
    r
}

/// Every key has a position in the order of all keys.
pub proof fn lemma_every_key_has_a_position(key: GateKey)
    ensures
        exists|i: int| 0 <= i < 8 && #[trigger] key_at(i) == key,
{
    assert(forall|i: int| 0 <= i < 8 ==> #[trigger] key_at(i).direction == if i < 4 {
        Direction::BuyMerge
    } else {
        Direction::SplitSell
    });
    let k: int = match key.bucket {
        DurationBucket::Under15m => 0,
        DurationBucket::From15mTo1h => 1,
        DurationBucket::From1hTo6h => 2,
        DurationBucket::From6hTo24h => 3,
    };
    let i = match key.direction {
        Direction::BuyMerge => k,
        Direction::SplitSell => k + 4,
    };
    assert(key_at(i) == key);
}

/// The gates, in the order of their keys, that have a status.
pub open spec fn summarized(gates: spec_fn(GateKey) -> Gate, count: int) -> Seq<(GateKey, GateStatus)>
    decreases count,
{
    if count <= 0 {
        Seq::empty()
    } else {
        match gates(key_at(count - 1)).status {
            Some(status) => summarized(gates, count - 1).push((key_at(count - 1), status)),
            None => summarized(gates, count - 1),
        }
    }
}

/// A locked status with a reason; the rest as it was.
pub open spec fn locked(status: GateStatusView, reason: Seq<char>) -> GateStatusView {
    GateStatusView { unlocked: false, relock_reason: Some(reason), ..status }
}

impl Default for GateState {
    fn default() -> (r: Self)
        ensures
            forall|key: GateKey| (#[trigger] r.gate(key)).is_new(),
    {
        GateState { buy_merge: DirectionGates::new(), split_sell: DirectionGates::new() }
    }
}

impl GateState {
    /// What is kept under a key.
    pub closed spec fn gate(self, key: GateKey) -> Gate {
        match key.direction {
            Direction::BuyMerge => self.buy_merge.at(key.bucket),
            Direction::SplitSell => self.split_sell.at(key.bucket),
        }
    }

    /// Whether all gates but one are as before.
    pub open spec fn differs_only_at(self, before: GateState, key: GateKey) -> bool {
        forall|other: GateKey| other != key ==> #[trigger] self.gate(other) == before.gate(other)
    }

    /// What is kept under a key.
    pub fn get(&self, key: GateKey) -> (r: &Gate)
        ensures
            *r == self.gate(key),
    {
        match key.direction {
            Direction::BuyMerge => self.buy_merge.get(key.bucket),
            Direction::SplitSell => self.split_sell.get(key.bucket),
        }
    }

    fn get_mut(&mut self, key: GateKey) -> (r: &mut Gate)
        ensures
            *r == old(self).gate(key),
            final(self).gate(key) == *final(r),
            final(self).differs_only_at(*old(self), key),
    {
        match key.direction {
            Direction::BuyMerge => self.buy_merge.get_mut(key.bucket),
            Direction::SplitSell => self.split_sell.get_mut(key.bucket),
        }
    }

    /// Puts a gate in the place of the one under a key.
    pub fn restore(&mut self, key: GateKey, gate: Gate)
        ensures
            final(self).gate(key) == gate,
            final(self).differs_only_at(*old(self), key),
    {
        *self.get_mut(key) = gate;
    }

    /// Records a sample, unless one of the same episode is there already.
    pub fn record(&mut self, key: GateKey, sample: CalibrationSample) -> (r: bool)
        ensures
            r == !old(self).gate(key).episodes@.contains(sample.episode_id@),
            final(self).gate(key).status == old(self).gate(key).status,
            final(self).gate(key).episodes@ == old(self).gate(key).episodes@.insert(
                sample.episode_id@,
            ),
            final(self).gate(key).samples@ == if r {
                old(self).gate(key).samples@.push(sample)
            } else {
                old(self).gate(key).samples@
            },
            final(self).differs_only_at(*old(self), key),
    {
        let gate = self.get_mut(key);
        if !gate.episodes.insert(sample.episode_id.clone()) {
            return false;
        }
        gate.samples.push(sample);
        true
    }

    fn checked_assess(
        &self,
        key: GateKey,
        now_ms: i64,
        minimum_age_hours: u64,
        minimum_cycles: usize,
        minimum_coverage: Decimal,
    ) -> (r: Option<GateStatus>)
        ensures
            match r {
                Some(s) => assessed(
                    self.gate(key).status_or_initial(),
                    self.gate(key).samples@,
                    now_ms,
                    minimum_age_hours,
                    minimum_cycles,
                    minimum_coverage,
                ) == Some(s@),
                None => assessed(
                    self.gate(key).status_or_initial(),
                    self.gate(key).samples@,
                    now_ms,
                    minimum_age_hours,
                    minimum_cycles,
                    minimum_coverage,
                ) is None,
            },
    {
        let gate = self.get(key);
        match &gate.status {
            Some(status) => assess(
                status,
                &gate.samples,
                now_ms,
                minimum_age_hours,
                minimum_cycles,
                minimum_coverage,
            ),
            None => assess(
                &GateStatus::default(),
                &gate.samples,
                now_ms,
                minimum_age_hours,
                minimum_cycles,
                minimum_coverage,
            ),
        }
    }

    /// Assesses a gate by its samples, and gives where it stands.
    pub fn evaluate(
        &mut self,
        key: GateKey,
        now_ms: i64,
        minimum_age_hours: u64,
        minimum_cycles: usize,
        minimum_coverage: Decimal,
    ) -> (r: &GateStatus)
        requires
            assessed(
                old(self).gate(key).status_or_initial(),
                old(self).gate(key).samples@,
                now_ms,
                minimum_age_hours,
                minimum_cycles,
                minimum_coverage,
            ) is Some,
        ensures
            assessed(
                old(self).gate(key).status_or_initial(),
                old(self).gate(key).samples@,
                now_ms,
                minimum_age_hours,
                minimum_cycles,
                minimum_coverage,
            ) == Some(r@),
            final(self).gate(key).status == Some(*r),
            final(self).gate(key).samples == old(self).gate(key).samples,
            final(self).gate(key).episodes == old(self).gate(key).episodes,
            final(self).differs_only_at(*old(self), key),
    {
        let status = self.checked_assess(
            key,
            now_ms,
            minimum_age_hours,
            minimum_cycles,
            minimum_coverage,
        ).unwrap();
        let gate = self.get_mut(key);
        gate.status = Some(status);
        self.get(key).status.as_ref().unwrap()
    }

    /// [`GateState::evaluate`], where every number stays in its range; the
    /// gates stay as they are where one does not.
    pub fn try_evaluate(
        &mut self,
        key: GateKey,
        now_ms: i64,
        minimum_age_hours: u64,
        minimum_cycles: usize,
        minimum_coverage: Decimal,
    ) -> (r: Option<GateStatus>)
        ensures
            match r {
                Some(s) => {
                    &&& assessed(
                        old(self).gate(key).status_or_initial(),
                        old(self).gate(key).samples@,
                        now_ms,
                        minimum_age_hours,
                        minimum_cycles,
                        minimum_coverage,
                    ) == Some(s@)
                    &&& final(self).gate(key).status == Some(s)
                    &&& final(self).gate(key).samples == old(self).gate(key).samples
                    &&& final(self).gate(key).episodes == old(self).gate(key).episodes
                    &&& final(self).differs_only_at(*old(self), key)
                },
                None => {
                    &&& assessed(
                        old(self).gate(key).status_or_initial(),
                        old(self).gate(key).samples@,
                        now_ms,
                        minimum_age_hours,
                        minimum_cycles,
                        minimum_coverage,
                    ) is None
                    &&& *final(self) == *old(self)
                },
            },
    {
        match self.checked_assess(key, now_ms, minimum_age_hours, minimum_cycles, minimum_coverage) {
            Some(_) => Some(
                self.evaluate(key, now_ms, minimum_age_hours, minimum_cycles, minimum_coverage).clone(),
            ),
            None => None,
        }
    }

    /// The status of a gate.
    pub fn status(&self, key: GateKey) -> (r: Option<&GateStatus>)
        ensures
            match r {
                Some(s) => self.gate(key).status == Some(*s),
                None => self.gate(key).status is None,
            },
    {
        match &self.get(key).status {
            Some(s) => Some(s),
            None => None,
        }
    }

    /// Every status, in the order of the keys.
    pub fn summaries(&self) -> (r: Vec<(GateKey, GateStatus)>)
        ensures
            r@ == summarized(|key: GateKey| self.gate(key), 8),
    {
        let keys = all_keys();
        let ghost gates = |key: GateKey| self.gate(key);
        let mut r: Vec<(GateKey, GateStatus)> = Vec::new();
        let mut i: usize = 0;
        while i < keys.len()
            invariant
                i <= 8,
                keys@ == Seq::new(8, |i: int| key_at(i)),
                gates == (|key: GateKey| self.gate(key)),
                r@ == summarized(gates, i as int),
            decreases 8 - i,
        {
            let key = keys[i];
            match self.status(key) {
                Some(s) => {
                    r.push((key, s.clone()));
                },
                None => {},
            }
            i += 1;
        }
        r
    }

    /// Locks a gate, with a reason.
    pub fn relock(&mut self, key: GateKey, reason: &str)
        ensures
            final(self).gate(key).status matches Some(s) && s@ == locked(
                old(self).gate(key).status_or_initial(),
                reason@,
            ),
            final(self).gate(key).samples == old(self).gate(key).samples,
            final(self).gate(key).episodes == old(self).gate(key).episodes,
            final(self).differs_only_at(*old(self), key),
    {
        let gate = self.get_mut(key);
        let mut status = match &gate.status {
            Some(s) => s.clone(),
            None => GateStatus::default(),
        };
        status.unlocked = false;
        status.relock_reason = Some(reason.to_owned());
        gate.status = Some(status);
    }

    /// Locks every gate that has a status, with a reason.
    pub fn relock_all(&mut self, reason: &str)
        ensures
            forall|key: GateKey|
                is_relocked(#[trigger] final(self).gate(key), old(self).gate(key), reason@),
    {
        let keys = all_keys();
        let mut i: usize = 0;
        while i < keys.len()
            invariant
                i <= 8,
                keys@ == Seq::new(8, |i: int| key_at(i)),
                forall|j: int|
                    0 <= j < i ==> is_relocked(
                        self.gate(#[trigger] key_at(j)),
                        old(self).gate(key_at(j)),
                        reason@,
                    ),
                forall|j: int|
                    i <= j < 8 ==> self.gate(#[trigger] key_at(j)) == old(self).gate(key_at(j)),
            decreases 8 - i,
        {
            let key = keys[i];
            if self.status(key).is_some() {
                self.relock(key, reason);
            }
            i += 1;
        }
        proof {
            assert forall|key: GateKey| is_relocked(
                #[trigger] self.gate(key),
                old(self).gate(key),
                reason@,
            ) by {
                lemma_every_key_has_a_position(key);
            }
        }
    }
}

/// The same gate, locked with a reason where it had a status.
pub open spec fn is_relocked(after: Gate, before: Gate, reason: Seq<char>) -> bool {
    &&& after.samples == before.samples
    &&& after.episodes == before.episodes
    &&& match before.status {
        Some(status) => after.status matches Some(s) && s@ == locked(status@, reason),
        None => after.status is None,
    }
}

// ---------------------------------------------------------------------------
// Circuit breakers
// ---------------------------------------------------------------------------

/// What keeps new cycles from starting.
#[derive(Debug)]
pub struct CircuitState {
    active_buys: StringSet,
    active_sells: StringSet,
    unresolved_orphan: bool,
    recent_signals_ms: VecDeque<i64>,
}

/// The signals behind the leading ones that are a minute old.
pub open spec fn unexpired(signals: Seq<i64>, now_ms: i64) -> Seq<i64>
    decreases signals.len(),
{
    if signals.len() > 0 && clamped_difference(now_ms, signals[0]) >= 60_000 {
        unexpired(signals.drop_first(), now_ms)
    } else {
        signals
    }
}

/// Whether a cycle may start.
pub open spec fn start_verdict(
    unresolved_orphan: bool,
    active: Set<Seq<char>>,
    signals: Seq<i64>,
    market_id: Seq<char>,
    now_ms: i64,
    rate: usize,
) -> Result<(), StrategyError> {
    if unresolved_orphan {
        Err(StrategyError::UnresolvedOrphan)
    } else if active.contains(market_id) {
        Err(StrategyError::CycleActive)
    } else if unexpired(signals, now_ms).len() >= rate {
        Err(StrategyError::RateLimited)
    } else {
        Ok(())
    }
}

impl Default for CircuitState {
    fn default() -> (r: Self)
        ensures
            forall|direction: Direction| #[trigger] r.active(direction) == Set::<Seq<char>>::empty(),
            !r.orphaned(),
            r.signals() == Seq::<i64>::empty(),
    {
        CircuitState {
            active_buys: StringSet::new(),
            active_sells: StringSet::new(),
            unresolved_orphan: false,
            recent_signals_ms: VecDeque::new(),
        }
    }
}

impl CircuitState {
    /// The markets with a running cycle in a direction.
    pub closed spec fn active(self, direction: Direction) -> Set<Seq<char>> {
        match direction {
            Direction::BuyMerge => self.active_buys@,
            Direction::SplitSell => self.active_sells@,
        }
    }

    /// Whether an orphaned leg is unresolved.
    pub closed spec fn orphaned(self) -> bool {
        self.unresolved_orphan
    }

    /// When the recent signals were sent.
    pub closed spec fn signals(self) -> Seq<i64> {
        self.recent_signals_ms@
    }

    /// Whether a cycle may start. Forgets the leading signals that are a minute
    /// old.
    pub fn can_start(&mut self, market_id: &str, direction: Direction, now_ms: i64, rate: usize) -> (r:
        Result<(), StrategyError>)
        ensures
            r == start_verdict(
                old(self).orphaned(),
                old(self).active(direction),
                old(self).signals(),
                market_id@,
                now_ms,
                rate,
            ),
            final(self).signals() == unexpired(old(self).signals(), now_ms),
            final(self).orphaned() == old(self).orphaned(),
            forall|d: Direction| #[trigger] final(self).active(d) == old(self).active(d),
    {
        let ghost signals = self.recent_signals_ms@;
        while self.recent_signals_ms.len() > 0 && saturating_difference(
            now_ms,
            self.recent_signals_ms[0],
        ) >= 60_000
            invariant
                unexpired(signals, now_ms) == unexpired(self.recent_signals_ms@, now_ms),
                self.unresolved_orphan == old(self).unresolved_orphan,
                self.active_buys == old(self).active_buys,
                self.active_sells == old(self).active_sells,
            decreases self.recent_signals_ms@.len(),
        {
            let ghost held = self.recent_signals_ms@;
            self.recent_signals_ms.pop_front();
            assert(self.recent_signals_ms@ =~= held.drop_first());
        }
        if self.unresolved_orphan {
            return Err(StrategyError::UnresolvedOrphan);
        }
        let running = match direction {
            Direction::BuyMerge => self.active_buys.contains(market_id),
            Direction::SplitSell => self.active_sells.contains(market_id),
        };
        if running {
            return Err(StrategyError::CycleActive);
        }
        if self.recent_signals_ms.len() >= rate {
            return Err(StrategyError::RateLimited);
        }
        Ok(())
    }

    /// Notes that a cycle has started.
    pub fn started(&mut self, market_id: String, direction: Direction, now_ms: i64)
        ensures
            final(self).active(direction) == old(self).active(direction).insert(market_id@),
            forall|d: Direction|
                d != direction ==> #[trigger] final(self).active(d) == old(self).active(d),
            final(self).signals() == old(self).signals().push(now_ms),
            final(self).orphaned() == old(self).orphaned(),
    {
        match direction {
            Direction::BuyMerge => {
                self.active_buys.insert(market_id);
            },
            Direction::SplitSell => {
                self.active_sells.insert(market_id);
            },
        }
        self.recent_signals_ms.push_back(now_ms);
    }

    /// Notes that a cycle has ended.
    pub fn terminal(&mut self, market_id: &str, direction: Direction)
        ensures
            final(self).active(direction) == old(self).active(direction).remove(market_id@),
            forall|d: Direction|
                d != direction ==> #[trigger] final(self).active(d) == old(self).active(d),
            final(self).signals() == old(self).signals(),
            final(self).orphaned() == old(self).orphaned(),
    {
        match direction {
            Direction::BuyMerge => {
                self.active_buys.remove(market_id);
            },
            Direction::SplitSell => {
                self.active_sells.remove(market_id);
            },
        }
    }

    /// Notes whether an orphaned leg is unresolved.
    pub fn set_unresolved_orphan(&mut self, unresolved: bool)
        ensures
            final(self).orphaned() == unresolved,
            final(self).signals() == old(self).signals(),
            forall|d: Direction| #[trigger] final(self).active(d) == old(self).active(d),
    {
        self.unresolved_orphan = unresolved;
    }
}

/// A cycle that has started keeps another of its market and direction from
/// starting, at any later time and rate.
pub proof fn law_started_cycle_blocks_another(
    unresolved_orphan: bool,
    active: Set<Seq<char>>,
    signals: Seq<i64>,
    market_id: Seq<char>,
    now_ms: i64,
    rate: usize,
)
    ensures
        start_verdict(
            unresolved_orphan,
            active.insert(market_id),
            signals,
            market_id,
            now_ms,
            rate,
        ) is Err,
{
}

/// The signals that are dropped are the leading ones, each a minute old; the
/// rest stays, and the first of the rest is younger.
pub proof fn law_only_expired_signals_are_forgotten(signals: Seq<i64>, now_ms: i64)
    ensures
        unexpired(signals, now_ms).len() <= signals.len(),
        unexpired(signals, now_ms) == signals.skip(signals.len() - unexpired(signals, now_ms).len()),
        forall|i: int|
            0 <= i < signals.len() - unexpired(signals, now_ms).len() ==> clamped_difference(
                now_ms,
                #[trigger] signals[i],
            ) >= 60_000,
        unexpired(signals, now_ms).len() > 0 ==> clamped_difference(
            now_ms,
            unexpired(signals, now_ms)[0],
        ) < 60_000,
    decreases signals.len(),
{
    if signals.len() > 0 && clamped_difference(now_ms, signals[0]) >= 60_000 {
        let rest = signals.drop_first();
        law_only_expired_signals_are_forgotten(rest, now_ms);
        let kept = unexpired(signals, now_ms);
        assert(rest.skip(rest.len() - kept.len()) =~= signals.skip(signals.len() - kept.len()));
        assert forall|i: int| 0 <= i < signals.len() - kept.len() implies clamped_difference(
            now_ms,
            #[trigger] signals[i],
        ) >= 60_000 by {
            if i > 0 {
                assert(rest[i - 1] == signals[i]);
            }
        }
    } else {
        assert(signals.skip(0) =~= signals);
    }
}

/// A cycle may start only where fewer signals than the rate are a minute young,
/// counting those behind the first of them.
pub proof fn law_rate_limit(
    unresolved_orphan: bool,
    active: Set<Seq<char>>,
    signals: Seq<i64>,
    market_id: Seq<char>,
    now_ms: i64,
    rate: usize,
    first_young: int,
)
    requires
        0 <= first_young < signals.len(),
        clamped_difference(now_ms, signals[first_young]) < 60_000,
        signals.len() - first_young >= rate,
    ensures
        start_verdict(unresolved_orphan, active, signals, market_id, now_ms, rate) is Err,
{
    law_only_expired_signals_are_forgotten(signals, now_ms);
}

// ---------------------------------------------------------------------------
// Laws of the measures
// ---------------------------------------------------------------------------

/// A market falls into a range by its remaining minutes: under fifteen, under an
/// hour, under six hours, up to a day; into none when it is over or more remains.
pub proof fn law_duration_ranges(remaining_ms: int)
    ensures
        ({
            let minute = 60_000int;
            match bucket_of(remaining_ms) {
                Some(DurationBucket::Under15m) => 0 < remaining_ms < 15 * minute,
                Some(DurationBucket::From15mTo1h) => 15 * minute <= remaining_ms < 60 * minute,
                Some(DurationBucket::From1hTo6h) => 60 * minute <= remaining_ms < 360 * minute,
                Some(DurationBucket::From6hTo24h) => 360 * minute <= remaining_ms <= 1_440 * minute,
                None => remaining_ms <= 0 || remaining_ms > 1_440 * minute,
            }
        }),
{
}

/// Finished episodes, and the profits of those with valid data, are those of the
/// samples that say so, in their order.
pub proof fn law_what_is_measured(samples: Seq<CalibrationSample>)
    ensures
        terminal_samples(samples) == samples.filter(|s: CalibrationSample| s.terminal),
        valid_profits(samples) == samples.filter(
            |s: CalibrationSample| s.terminal && s.valid_data,
        ).map_values(|s: CalibrationSample| s.net_profit),
    decreases samples.len(),
{
    reveal(Seq::filter);
    let ended = |s: CalibrationSample| s.terminal;
    let valid = |s: CalibrationSample| s.terminal && s.valid_data;
    let profit = |s: CalibrationSample| s.net_profit;
    if samples.len() > 0 {
        let before = samples.drop_last();
        law_what_is_measured(before);
        let kept = before.filter(valid);
        if valid(samples.last()) {
            assert(samples.filter(valid) =~= kept.push(samples.last()));
            assert(samples.filter(valid).map_values(profit) =~= kept.map_values(profit).push(
                samples.last().net_profit,
            ));
        } else {
            assert(samples.filter(valid) =~= kept);
        }
    } else {
        assert(samples.filter(ended) =~= samples);
        assert(samples.filter(valid).map_values(profit) =~= Seq::<Decimal>::empty());
    }
}

/// Whether a sequence is another one in ascending order.
pub open spec fn is_ascending(ascending: Seq<Decimal>, values: Seq<Decimal>) -> bool {
    &&& ascending.to_multiset() == values.to_multiset()
    &&& ascending.len() == values.len()
    &&& forall|i: int, j: int|
        0 <= i < j < ascending.len() ==> !lt(#[trigger] ascending[j], #[trigger] ascending[i])
}

proof fn lemma_sorted_ascends(values: Seq<Decimal>)
    ensures
        is_ascending(sorted::<Decimal, LeastFirst>(values), values),
{
    law_sorted_is_an_ordered_rearrangement::<Decimal, LeastFirst>(values);
}

/// The learned percentile is one of the values in ascending order: it and those
/// before it are at least 99 of 100, and those before it are fewer.
pub proof fn law_the_percentile(values: Seq<Decimal>)
    ensures
        values.len() == 0 ==> percentile_99(values) == zero(),
        values.len() > 0 ==> exists|ascending: Seq<Decimal>, i: int| #[trigger]
            is_ascending(ascending, values) && 0 <= i < values.len() && #[trigger] ascending[i]
                == percentile_99(values) && 100 * (i + 1) >= 99 * values.len() && 100 * i < 99
                * values.len(),
{
    lemma_sorted_ascends(values);
    if values.len() > 0 {
        let ascending = sorted::<Decimal, LeastFirst>(values);
        let i = (values.len() * 99 + 99) / 100 - 1;
        assert(is_ascending(ascending, values) && ascending[i] == percentile_99(values));
    }
}

/// The middle of ascending values has as many below it as above it; of an even
/// number it is the mean of the two in the middle.
pub proof fn law_the_middle(ascending: Seq<Decimal>, half: int)
    requires
        half >= 0,
    ensures
        ascending.len() == 0 ==> middle(ascending) == Some(zero()),
        ascending.len() == 2 * half + 1 ==> middle(ascending) == Some(ascending[half]),
        ascending.len() == 2 * half && half > 0 ==> middle(ascending) == over(
            sum(ascending[half - 1], ascending[half]),
            Some(decimal_of(2, 0)),
        ),
{
}

/// An assessed gate counts its finished episodes and the share of them with valid
/// data, adds up and halves their profits, and learns the percentiles of slippage,
/// latency cost and orphan loss of all finished ones. It keeps when it was first
/// observed, and takes it from its first sample otherwise.
pub proof fn law_what_an_assessment_says(
    status: GateStatusView,
    samples: Seq<CalibrationSample>,
    now_ms: i64,
    minimum_age_hours: u64,
    minimum_cycles: usize,
    minimum_coverage: Decimal,
)
    ensures
        assessed(
            status,
            samples,
            now_ms,
            minimum_age_hours,
            minimum_cycles,
            minimum_coverage,
        ) matches Some(s) ==> {
            let finished = samples.filter(|s: CalibrationSample| s.terminal);
            let profits = samples.filter(
                |s: CalibrationSample| s.terminal && s.valid_data,
            ).map_values(|s: CalibrationSample| s.net_profit);
            &&& s.independent_cycles == finished.len()
            &&& finished.len() == 0 ==> s.valid_coverage == zero()
            &&& finished.len() > 0 ==> quotient(
                decimal_of(profits.len() as int, 0),
                decimal_of(finished.len() as int, 0),
            ) == Some(s.valid_coverage)
            &&& exists|ascending: Seq<Decimal>| #[trigger]
                is_ascending(ascending, profits) && total(ascending) == Some(s.aggregate_profit)
                    && middle(ascending) == Some(s.median_profit)
            &&& s.reserves.slippage_p99 == percentile_99(
                finished.map_values(|s: CalibrationSample| s.slippage),
            )
            &&& s.reserves.latency_p99 == percentile_99(
                finished.map_values(|s: CalibrationSample| s.latency_cost),
            )
            &&& s.reserves.orphan_p99 == percentile_99(
                finished.map_values(|s: CalibrationSample| s.orphan_loss),
            )
            &&& status.first_observed_at_ms != 0 ==> s.first_observed_at_ms
                == status.first_observed_at_ms
            &&& status.first_observed_at_ms == 0 && samples.len() > 0 ==> s.first_observed_at_ms
                == samples[0].observed_at_ms
            &&& status.first_observed_at_ms == 0 && samples.len() == 0 ==> s.first_observed_at_ms
                == now_ms
        },
{
    law_what_is_measured(samples);
    lemma_sorted_ascends(valid_profits(samples));
}

/// A gate is locked for the invalid data of its latest sample, for the unresolved
/// orphan of it, or, with enough finished episodes, for an aggregate that is not
/// positive, in this order; it gives no reason otherwise.
pub proof fn law_why_a_gate_is_locked(
    status: GateStatusView,
    samples: Seq<CalibrationSample>,
    now_ms: i64,
    minimum_age_hours: u64,
    minimum_cycles: usize,
    minimum_coverage: Decimal,
)
    ensures
        assessed(
            status,
            samples,
            now_ms,
            minimum_age_hours,
            minimum_cycles,
            minimum_coverage,
        ) matches Some(s) ==> {
            let invalid = samples.len() > 0 && !samples.last().valid_data;
            let orphaned = samples.len() > 0 && samples.last().unresolved_orphan;
            let unprofitable = s.independent_cycles >= minimum_cycles && s.aggregate_profit.m()
                <= 0;
            &&& invalid ==> s.relock_reason == Some("invalid_data"@)
            &&& !invalid && orphaned ==> s.relock_reason == Some("unresolved_orphan"@)
            &&& !invalid && !orphaned && unprofitable ==> s.relock_reason == Some(
                "non_positive_aggregate_profit"@,
            )
            &&& !invalid && !orphaned && !unprofitable ==> s.relock_reason is None
            &&& s.relock_reason is Some ==> !s.unlocked
        },
{
}

/// Locking a gate gives it the reason and changes nothing else.
pub proof fn law_locking_keeps_the_measures(status: GateStatusView, reason: Seq<char>)
    ensures
        ({
            let after = locked(status, reason);
            &&& !after.unlocked
            &&& after.relock_reason == Some(reason)
            &&& after.first_observed_at_ms == status.first_observed_at_ms
            &&& after.independent_cycles == status.independent_cycles
            &&& after.valid_coverage == status.valid_coverage
            &&& after.aggregate_profit == status.aggregate_profit
            &&& after.median_profit == status.median_profit
            &&& after.reserves == status.reserves
        }),
{
}

/// A cycle may start exactly when no orphan is unresolved, none of its market and
/// direction is active, and fewer signals than the rate are kept; each has its own
/// error, in this order.
pub proof fn law_when_a_cycle_may_start(
    unresolved_orphan: bool,
    active: Set<Seq<char>>,
    signals: Seq<i64>,
    market_id: Seq<char>,
    now_ms: i64,
    rate: usize,
)
    ensures
        match start_verdict(unresolved_orphan, active, signals, market_id, now_ms, rate) {
            Ok(_) => !unresolved_orphan && !active.contains(market_id) && unexpired(
                signals,
                now_ms,
            ).len() < rate,
            Err(StrategyError::UnresolvedOrphan) => unresolved_orphan,
            Err(StrategyError::CycleActive) => !unresolved_orphan && active.contains(market_id),
            Err(StrategyError::RateLimited) => !unresolved_orphan && !active.contains(market_id)
                && unexpired(signals, now_ms).len() >= rate,
            Err(_) => false,
        },
{
}

/// Every gate with a status is summarized, under its own key, and no other.
pub proof fn law_every_status_is_summarized(gates: spec_fn(GateKey) -> Gate, n: int)
    requires
        0 <= n < 8,
    ensures
        summarized(gates, 0).len() == 0,
        gates(key_at(n)).status matches Some(status) ==> summarized(gates, n + 1) == summarized(
            gates,
            n,
        ).push((key_at(n), status)),
        gates(key_at(n)).status is None ==> summarized(gates, n + 1) == summarized(gates, n),
{
}

} // verus!
