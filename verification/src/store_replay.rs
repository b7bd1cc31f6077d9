//! Replaying recorded snapshots under other profitability settings.

use crate::collections::StringMap;
use crate::collections::StringSet;
use crate::config::ProfitabilityConfig;
use crate::config::ReserveConfig;
use crate::config::RiskConfig;
use crate::config::RuntimeConfig;
use crate::clob::ordered_book;
use crate::decimal::decimal_of;
use crate::decimal::lemma_le_transitive;
use crate::decimal::lemma_lt_asymmetric;
use crate::decimal::lesser;
use crate::decimal::less;
use crate::decimal::lt;
use crate::decimal::one;
use crate::decimal::parsed_decimal;
use crate::decimal::plus;
use crate::decimal::same;
use crate::decimal::sum_of;
use crate::decimal::zero;
use crate::decimal::Decimal;
use crate::decision_store::CalibrationRow;
use crate::ints::clamped_difference;
use crate::ints::distance;
use crate::ints::gap;
use crate::ints::saturating_difference;
use crate::pricing::are_valid_levels;
use crate::pricing::best_found;
use crate::pricing::better_of;
use crate::pricing::checked_select_best;
use crate::pricing::Book;
use crate::pricing::BookView;
use crate::pricing::Direction;
use crate::pricing::FeeSchedule;
use crate::pricing::Level;
use crate::pricing::Opportunity;
use crate::service::next_sequence;
use crate::snapshots::preceding;
use crate::snapshots::preceding_of;
use crate::snapshots::BookLevel;
use crate::snapshots::BookSnapshot;
use crate::sorting::inserted;
use crate::sorting::sorted;
use crate::sorting::law_sorted_is_an_ordered_rearrangement;
use crate::sorting::lemma_sorted_views;
use crate::sorting::sorted_by;
use crate::sorting::stable_sort;
use crate::sorting::SortOrder;
use crate::text::lemma_text_order_total;
use crate::text::lemma_text_order_transitive;
use crate::text::same_text;
use crate::text::sorts_before;
use crate::text::text_before;
use crate::clob::is_sound;
use crate::clob::lemma_ordered_book;
use crate::clob::runs_from_the_best;
use crate::decimal::sum;
use crate::pricing::is_matched;
use crate::pricing::Rejection;
use vstd::prelude::*;

verus! {

// ---------------------------------------------------------------------------
// Recorded books
// ---------------------------------------------------------------------------

/// The levels that recorded ones stand for; `None` where a number is unreadable.
pub open spec fn levels_of(levels: Seq<BookLevel>) -> Option<Seq<Level>>
    decreases levels.len(),
{
    if levels.len() == 0 {
        Some(Seq::empty())
    } else {
        match (
            levels_of(levels.drop_last()),
            parsed_decimal(levels.last().price@),
            parsed_decimal(levels.last().size@),
        ) {
            (Some(before), Some(price), Some(size)) => Some(before.push(Level { price, size })),
            _ => None,
        }
    }
}

proof fn lemma_levels_prefix(levels: Seq<BookLevel>, n: int)
    requires
        0 <= n <= levels.len(),
        levels_of(levels.take(n)) is None,
    ensures
        levels_of(levels) is None,
    decreases levels.len() - n,
{
    if n == levels.len() {
        assert(levels.take(n) =~= levels);
    } else {
        assert(levels.take(n + 1).drop_last() =~= levels.take(n));
        lemma_levels_prefix(levels, n + 1);
    }
}

fn read_levels(levels: &Vec<BookLevel>) -> (r: Option<Vec<Level>>)
    ensures
        match r {
            Some(read) => levels_of(levels@) == Some(read@),
            None => levels_of(levels@) is None,
        },
{
    let mut read: Vec<Level> = Vec::new();
    let mut i: usize = 0;
    while i < levels.len()
        invariant
            i <= levels@.len(),
            levels_of(levels@.take(i as int)) == Some(read@),
        decreases levels@.len() - i,
    {
        proof {
            assert(levels@.take(i + 1).drop_last() =~= levels@.take(i as int));
            if levels_of(levels@.take(i + 1)) is None {
                lemma_levels_prefix(levels@, i + 1);
            }
        }
        let price = match Decimal::from_text(levels[i].price.as_str()) {
            Some(d) => d,
            None => return None,
        };
        let size = match Decimal::from_text(levels[i].size.as_str()) {
            Some(d) => d,
            None => return None,
        };
        read.push(Level { price, size });
        i += 1;
    }
    assert(levels@.take(i as int) =~= levels@);
    Some(read)
}

/// The book that a snapshot stands for, where it is readable and valid.
pub open spec fn book_of(snapshot: BookSnapshot) -> Option<BookView> {
    match (levels_of(snapshot.bids@), levels_of(snapshot.asks@)) {
        (Some(bids), Some(asks)) => if are_valid_levels(bids) && are_valid_levels(asks) {
            Some(
                ordered_book(
                    BookView {
                        market_id: snapshot.market_id@,
                        token_id: snapshot.token_id@,
                        bids,
                        asks,
                        updated_at_ms: snapshot.book_updated_at_ms,
                    },
                ),
            )
        } else {
            None
        },
        _ => None,
    }
}

/// The book that a snapshot stands for.
pub fn to_book(snapshot: &BookSnapshot) -> (r: Option<Book>)
    ensures
        match r {
            Some(book) => book_of(*snapshot) == Some(book@),
            None => book_of(*snapshot) is None,
        },
{
    let bids = match read_levels(&snapshot.bids) {
        Some(levels) => levels,
        None => return None,
    };
    let asks = match read_levels(&snapshot.asks) {
        Some(levels) => levels,
        None => return None,
    };
    let mut book = Book {
        market_id: snapshot.market_id.clone(),
        token_id: snapshot.token_id.clone(),
        bids,
        asks,
        updated_at_ms: snapshot.book_updated_at_ms,
    };
    match book.normalize() {
        Ok(_) => Some(book),
        Err(_) => None,
    }
}

// ---------------------------------------------------------------------------
// Observations
// ---------------------------------------------------------------------------

/// Both books of a market at the time of a decision.
#[derive(Debug)]
pub struct Observation {
    pub condition_id: String,
    pub observed_at_ms: i64,
    pub book_a: Book,
    pub book_b: Book,
}

/// The content of an [`Observation`].
#[verifier::ext_equal]
pub struct ObservationView {
    pub condition_id: Seq<char>,
    pub observed_at_ms: i64,
    pub book_a: BookView,
    pub book_b: BookView,
}

impl View for Observation {
    type V = ObservationView;

    open spec fn view(&self) -> ObservationView {
        ObservationView {
            condition_id: self.condition_id@,
            observed_at_ms: self.observed_at_ms,
            book_a: self.book_a@,
            book_b: self.book_b@,
        }
    }
}

/// The content of several observations.
pub open spec fn observation_views(observations: Seq<Observation>) -> Seq<ObservationView> {
    observations.map_values(|o: Observation| o@)
}

/// A replay in the making.
#[derive(Debug)]
pub struct Replay {
    eligible: u64,
    covered: u64,
    seen: StringMap<Vec<(i64, i64)>>,
    observations: Vec<Observation>,
}

/// The content of a [`Replay`].
#[verifier::ext_equal]
pub struct ReplayView {
    pub eligible: u64,
    pub covered: u64,
    pub seen: Set<(Seq<char>, i64, i64)>,
    pub observations: Seq<ObservationView>,
}

/// What was seen, as a set.
pub open spec fn seen_set(seen: Map<Seq<char>, Vec<(i64, i64)>>) -> Set<(Seq<char>, i64, i64)> {
    Set::new(
        |key: (Seq<char>, i64, i64)|
            seen.contains_key(key.0) && seen[key.0]@.contains((key.1, key.2)),
    )
}

impl View for Replay {
    type V = ReplayView;

    closed spec fn view(&self) -> ReplayView {
        ReplayView {
            eligible: self.eligible,
            covered: self.covered,
            seen: seen_set(self.seen@),
            observations: observation_views(self.observations@),
        }
    }
}

/// The observation that two snapshots make, where both are readable, belong to
/// the condition, and are not too far apart.
pub open spec fn observation_of(
    condition_id: Seq<char>,
    observed_at_ms: i64,
    a: BookSnapshot,
    b: BookSnapshot,
    max_skew_ms: u64,
) -> Option<ObservationView> {
    match (book_of(a), book_of(b)) {
        (Some(book_a), Some(book_b)) => if book_a.market_id == condition_id && book_b.market_id
            == condition_id && gap(book_a.updated_at_ms, book_b.updated_at_ms) <= max_skew_ms {
            Some(ObservationView { condition_id, observed_at_ms, book_a, book_b })
        } else {
            None
        },
        _ => None,
    }
}

/// A replay after one more decision. One that names its condition and both
/// tokens is eligible; covered where both have a snapshot; and observed once for
/// each pair of snapshots.
pub open spec fn replayed(
    replay: ReplayView,
    row: CalibrationRow,
    snapshots: Map<Seq<char>, Vec<BookSnapshot>>,
    max_age_ms: u64,
    max_skew_ms: u64,
) -> ReplayView {
    match (row.condition_id, row.token_id_a, row.token_id_b) {
        (Some(condition), Some(token_a), Some(token_b)) => {
            let eligible = next_sequence(replay.eligible);
            match (
                preceding_of(snapshots, token_a@, row.observed_at_ms, max_age_ms),
                preceding_of(snapshots, token_b@, row.observed_at_ms, max_age_ms),
            ) {
                (Some(a), Some(b)) => {
                    let covered = next_sequence(replay.covered);
                    let key = (condition@, a.sampled_at_ms, b.sampled_at_ms);
                    if replay.seen.contains(key) {
                        ReplayView { eligible, covered, ..replay }
                    } else {
                        ReplayView {
                            eligible,
                            covered,
                            seen: replay.seen.insert(key),
                            observations: match observation_of(
                                condition@,
                                row.observed_at_ms,
                                a,
                                b,
                                max_skew_ms,
                            ) {
                                Some(observation) => replay.observations.push(observation),
                                None => replay.observations,
                            },
                        }
                    }
                },
                _ => ReplayView { eligible, ..replay },
            }
        },
        _ => replay,
    }
}

/// A decision that counts is counted once, as eligible before it is as covered;
/// what was seen stays seen, and no observation is lost.
pub proof fn law_replays_only_grow(
    replay: ReplayView,
    row: CalibrationRow,
    snapshots: Map<Seq<char>, Vec<BookSnapshot>>,
    max_age_ms: u64,
    max_skew_ms: u64,
)
    requires
        replay.covered <= replay.eligible,
        replay.observations.len() <= replay.covered,
        replay.covered < u64::MAX,
    ensures
        ({
            let after = replayed(replay, row, snapshots, max_age_ms, max_skew_ms);
            &&& after.observations.len() <= after.covered <= after.eligible
            &&& replay.seen.subset_of(after.seen)
            &&& replay.observations.is_prefix_of(after.observations)
            &&& after.observations.len() <= replay.observations.len() + 1
        }),
{
}

fn one_more(n: u64) -> (r: u64)
    ensures
        r == next_sequence(n),
{
    if n < u64::MAX {
        n + 1
    } else {
        n
    }
}

fn see(seen: &mut StringMap<Vec<(i64, i64)>>, condition: &String, a: i64, b: i64) -> (r: bool)
    ensures
        r == !seen_set(old(seen)@).contains((condition@, a, b)),
        seen_set(final(seen)@) == seen_set(old(seen)@).insert((condition@, a, b)),
{
    let ghost before = seen@;
    let mut list = match seen.remove(condition.as_str()) {
        Some(list) => list,
        None => Vec::new(),
    };
    let ghost held = list@;
    let mut known = false;
    let mut i: usize = 0;
    while i < list.len()
        invariant
            i <= list@.len(),
            known <==> exists|k: int| 0 <= k < i && #[trigger] list@[k] == (a, b),
        decreases list@.len() - i,
    {
        if list[i].0 == a && list[i].1 == b {
            known = true;
            assert(list@[i as int] == (a, b));
        }
        i += 1;
    }
    if !known {
        list.push((a, b));
    }
    seen.insert(condition.clone(), list);
    proof {
        let key = (condition@, a, b);
        assert forall|k: (Seq<char>, i64, i64)| seen_set(seen@).contains(k) <==> seen_set(
            before,
        ).insert(key).contains(k) by {
            if k.0 == condition@ {
                let pair = (k.1, k.2);
                if held.contains(pair) {
                    let j = choose|j: int| 0 <= j < held.len() && held[j] == pair;
                    assert(list@[j] == pair);
                }
                if list@.contains(pair) {
                    let j = choose|j: int| 0 <= j < list@.len() && list@[j] == pair;
                    if j < held.len() {
                        assert(held[j] == pair);
                    }
                }
                if pair == (a, b) {
                    if known {
                        let j = choose|j: int| 0 <= j < held.len() && #[trigger] held[j] == pair;
                        assert(list@[j] == pair);
                    } else {
                        assert(list@[list@.len() - 1] == pair);
                    }
                }
            }
        }
        assert(seen_set(seen@) =~= seen_set(before).insert(key));
    }
    !known
}

impl Replay {
    /// Nothing replayed yet.
    pub fn new() -> (r: Replay)
        ensures
            r@.eligible == 0,
            r@.covered == 0,
            r@.seen == Set::<(Seq<char>, i64, i64)>::empty(),
            r@.observations == Seq::<ObservationView>::empty(),
    {
        let r = Replay {
            eligible: 0,
            covered: 0,
            seen: StringMap::new(),
            observations: Vec::new(),
        };
        proof {
            assert(r@.seen =~= Set::<(Seq<char>, i64, i64)>::empty());
            assert(r@.observations =~= Seq::<ObservationView>::empty());
        }
        r
    }

    /// Takes in a decision, with the snapshots that may cover it.
    pub fn observe(
        &mut self,
        row: &CalibrationRow,
        snapshots: &StringMap<Vec<BookSnapshot>>,
        max_age_ms: u64,
        max_skew_ms: u64,
    )
        ensures
            final(self)@ == replayed(old(self)@, *row, snapshots@, max_age_ms, max_skew_ms),
    {
        let (condition, token_a, token_b) = match (
            &row.condition_id,
            &row.token_id_a,
            &row.token_id_b,
        ) {
            (Some(c), Some(a), Some(b)) => (c, a, b),
            _ => return ,
        };
        self.eligible = one_more(self.eligible);
        let a = match preceding(snapshots, token_a.as_str(), row.observed_at_ms, max_age_ms) {
            Some(snapshot) => snapshot,
            None => return ,
        };
        let b = match preceding(snapshots, token_b.as_str(), row.observed_at_ms, max_age_ms) {
            Some(snapshot) => snapshot,
            None => return ,
        };
        self.covered = one_more(self.covered);
        let ghost seen_before = seen_set(self.seen@);
        if !see(&mut self.seen, condition, a.sampled_at_ms, b.sampled_at_ms) {
            assert(seen_set(self.seen@) =~= seen_before);
            return ;
        }
        let (book_a, book_b) = match (to_book(a), to_book(b)) {
            (Some(x), Some(y)) => (x, y),
            _ => return ,
        };
        if !same_text(book_a.market_id.as_str(), condition.as_str()) || !same_text(
            book_b.market_id.as_str(),
            condition.as_str(),
        ) || distance(book_a.updated_at_ms, book_b.updated_at_ms) > max_skew_ms {
            return ;
        }
        let ghost held = self.observations@;
        let observation = Observation {
            condition_id: condition.clone(),
            observed_at_ms: row.observed_at_ms,
            book_a,
            book_b,
        };
        self.observations.push(observation);
        assert(observation_views(self.observations@) =~= observation_views(held).push(
            observation@,
        ));
    }
}

// ---------------------------------------------------------------------------
// The funnel
// ---------------------------------------------------------------------------

/// How many observations offer something under ever stricter settings.
#[derive(Clone, Copy, Debug, PartialEq, Eq)]
pub struct Funnel {
    pub paired_observations: u64,
    pub frictionless: u64,
    pub fee_positive: u64,
    pub reserve_positive: u64,
    pub configured: u64,
}

/// What an observation offers; `None` where a number leaves the range of
/// decimals.
pub open spec fn offer_on(
    observation: ObservationView,
    rate: Decimal,
    profitability: ProfitabilityConfig,
    reserves: ReserveConfig,
    risk: RiskConfig,
) -> Option<Option<Opportunity>> {
    match (
        best_found(
            observation.book_a.asks,
            observation.book_b.asks,
            rate,
            Direction::BuyMerge,
            profitability,
            reserves,
            risk,
        ),
        best_found(
            observation.book_a.bids,
            observation.book_b.bids,
            rate,
            Direction::SplitSell,
            profitability,
            reserves,
            risk,
        ),
    ) {
        (Some(bought), Some(sold)) => Some(better_of(bought, sold)),
        _ => None,
    }
}

fn checked_offer_on(
    observation: &Observation,
    fee: &FeeSchedule,
    profitability: &ProfitabilityConfig,
    reserves: &ReserveConfig,
    risk: &RiskConfig,
) -> (r: Option<Option<Opportunity>>)
    ensures
        r == offer_on(observation@, fee.rate, *profitability, *reserves, *risk),
{
    checked_select_best(
        &observation.book_a,
        &observation.book_b,
        fee,
        profitability,
        reserves,
        risk,
    )
}

/// Any profit will do, at any price, on a fraction of the depth.
pub open spec fn open_terms(profitability: ProfitabilityConfig, depth_fraction: Decimal) -> ProfitabilityConfig {
    ProfitabilityConfig {
        price_band_enabled: false,
        minimum_profit: zero(),
        minimum_return_bps: zero(),
        depth_fraction,
        ..profitability
    }
}

/// Any profit will do, at any price, on a fraction of the depth.
pub fn open_profitability(config: &RuntimeConfig, depth_fraction: Decimal) -> (r:
    ProfitabilityConfig)
    ensures
        r == open_terms(config.profitability, depth_fraction),
{
    ProfitabilityConfig {
        price_band_enabled: false,
        minimum_profit: Decimal::zero(),
        minimum_return_bps: Decimal::zero(),
        depth_fraction,
        price_band_low_max: config.profitability.price_band_low_max,
        price_band_high_min: config.profitability.price_band_high_min,
    }
}

/// No reserves, rounded as configured.
pub open spec fn zero_reserves(reserves: ReserveConfig) -> ReserveConfig {
    ReserveConfig { slippage_bps: zero(), latency: zero(), orphan: zero(), ..reserves }
}

/// How many of the observations offer something; `None` where a number leaves
/// the range of decimals.
pub open spec fn offering(
    observations: Seq<ObservationView>,
    rate: Decimal,
    profitability: ProfitabilityConfig,
    reserves: ReserveConfig,
    risk: RiskConfig,
) -> Option<nat>
    decreases observations.len(),
{
    if observations.len() == 0 {
        Some(0)
    } else {
        match (
            offering(observations.drop_last(), rate, profitability, reserves, risk),
            offer_on(observations.last(), rate, profitability, reserves, risk),
        ) {
            (Some(before), Some(offer)) => Some(
                before + if offer is Some {
                    1nat
                } else {
                    0
                },
            ),
            _ => None,
        }
    }
}

proof fn lemma_offering_prefix(
    observations: Seq<ObservationView>,
    n: int,
    rate: Decimal,
    profitability: ProfitabilityConfig,
    reserves: ReserveConfig,
    risk: RiskConfig,
)
    requires
        0 <= n <= observations.len(),
        offering(observations.take(n), rate, profitability, reserves, risk) is None,
    ensures
        offering(observations, rate, profitability, reserves, risk) is None,
    decreases observations.len() - n,
{
    if n == observations.len() {
        assert(observations.take(n) =~= observations);
    } else {
        assert(observations.take(n + 1).drop_last() =~= observations.take(n));
        lemma_offering_prefix(observations, n + 1, rate, profitability, reserves, risk);
    }
}

fn checked_offering(
    observations: &Vec<Observation>,
    fee: &FeeSchedule,
    profitability: &ProfitabilityConfig,
    reserves: &ReserveConfig,
    risk: &RiskConfig,
) -> (r: Option<u64>)
    ensures
        match r {
            Some(n) => offering(
                observation_views(observations@),
                fee.rate,
                *profitability,
                *reserves,
                *risk,
            ) == Some(n as nat),
            None => offering(
                observation_views(observations@),
                fee.rate,
                *profitability,
                *reserves,
                *risk,
            ) is None,
        },
{
    let ghost views = observation_views(observations@);
    let mut count: u64 = 0;
    let mut i: usize = 0;
    while i < observations.len()
        invariant
            i <= observations@.len(),
            count <= i,
            views == observation_views(observations@),
            offering(views.take(i as int), fee.rate, *profitability, *reserves, *risk) == Some(
                count as nat,
            ),
        decreases observations@.len() - i,
    {
        proof {
            assert(views.take(i + 1).drop_last() =~= views.take(i as int));
            assert(views.take(i + 1).last() == observations@[i as int]@);
        }
        match checked_offer_on(&observations[i], fee, profitability, reserves, risk) {
            Some(Some(_)) => {
                count += 1;
            },
            Some(None) => {},
            None => {
                proof {
                    lemma_offering_prefix(
                        views,
                        i + 1,
                        fee.rate,
                        *profitability,
                        *reserves,
                        *risk,
                    );
                }
                return None;
            },
        }
        i += 1;
    }
    assert(views.take(i as int) =~= views);
    Some(count)
}

/// The funnel of observations: without fees and reserves, with fees, with
/// reserves, and as configured; `None` where a number leaves the range of
/// decimals.
pub open spec fn funnel_of(
    observations: Seq<ObservationView>,
    config: RuntimeConfig,
    rate: Decimal,
) -> Option<(nat, nat, nat, nat)> {
    let open = open_terms(config.profitability, one());
    let reserve_open = open_terms(config.profitability, config.profitability.depth_fraction);
    let bare = zero_reserves(config.reserves);
    match (
        offering(observations, zero(), open, bare, config.risk),
        offering(observations, rate, open, bare, config.risk),
        offering(observations, rate, reserve_open, config.reserves, config.risk),
        offering(observations, rate, config.profitability, config.reserves, config.risk),
    ) {
        (Some(frictionless), Some(with_fees), Some(with_reserves), Some(configured)) => Some(
            (frictionless, with_fees, with_reserves, configured),
        ),
        _ => None,
    }
}

/// How many observations offer something as frictions are added: none, fees,
/// reserves too, and the configured thresholds; `None` where a number leaves the
/// range of decimals.
pub fn funnel(
    observations: &Vec<Observation>,
    config: &RuntimeConfig,
    fee: &FeeSchedule,
) -> (r: Option<Funnel>)
    ensures
        match r {
            Some(f) => f.paired_observations == observations@.len() && funnel_of(
                observation_views(observations@),
                *config,
                fee.rate,
            ) == Some(
                (
                    f.frictionless as nat,
                    f.fee_positive as nat,
                    f.reserve_positive as nat,
                    f.configured as nat,
                ),
            ),
            None => funnel_of(observation_views(observations@), *config, fee.rate) is None,
        },
{
    let zero_fee = FeeSchedule { rate: Decimal::zero() };
    let bare = ReserveConfig {
        slippage_bps: Decimal::zero(),
        latency: Decimal::zero(),
        orphan: Decimal::zero(),
        rounding_scale: config.reserves.rounding_scale,
    };
    let open = open_profitability(config, Decimal::one());
    let reserve_open = open_profitability(config, config.profitability.depth_fraction);
    let frictionless = checked_offering(observations, &zero_fee, &open, &bare, &config.risk);
    let fee_positive = checked_offering(observations, fee, &open, &bare, &config.risk);
    let reserve_positive = checked_offering(
        observations,
        fee,
        &reserve_open,
        &config.reserves,
        &config.risk,
    );
    let configured = checked_offering(
        observations,
        fee,
        &config.profitability,
        &config.reserves,
        &config.risk,
    );
    match (frictionless, fee_positive, reserve_positive, configured) {
        (Some(a), Some(b), Some(c), Some(d)) => Some(
            Funnel {
                paired_observations: observations.len() as u64,
                frictionless: a,
                fee_positive: b,
                reserve_positive: c,
                configured: d,
            },
        ),
        _ => None,
    }
}

// ---------------------------------------------------------------------------
// Stable episodes
// ---------------------------------------------------------------------------

/// An observation that offered something.
#[derive(Debug)]
pub struct Hit {
    pub condition_id: String,
    pub observed_at_ms: i64,
    pub direction: Direction,
    pub profit: Decimal,
}

/// The content of a [`Hit`].
pub struct HitView {
    pub condition_id: Seq<char>,
    pub observed_at_ms: i64,
    pub direction: Direction,
    pub profit: Decimal,
}

impl View for Hit {
    type V = HitView;

    open spec fn view(&self) -> HitView {
        HitView {
            condition_id: self.condition_id@,
            observed_at_ms: self.observed_at_ms,
            direction: self.direction,
            profit: self.profit,
        }
    }
}

/// The content of several hits.
pub open spec fn hit_views(hits: Seq<Hit>) -> Seq<HitView> {
    hits.map_values(|h: Hit| h@)
}

/// Whether a hit goes before another: by condition, by direction, by time.
pub open spec fn hit_before(a: HitView, b: HitView) -> bool {
    if a.condition_id != b.condition_id {
        text_before(a.condition_id, b.condition_id)
    } else if a.direction != b.direction {
        a.direction == Direction::BuyMerge
    } else {
        a.observed_at_ms < b.observed_at_ms
    }
}

/// Hits by condition, by direction, by time.
pub struct ByEpisode;

impl SortOrder<Hit> for ByEpisode {
    open spec fn before(a: Hit, b: Hit) -> bool {
        hit_before(a@, b@)
    }

    proof fn is_weak_order(a: Hit, b: Hit, c: Hit) {
        let (x, y, z) = (a.condition_id@, b.condition_id@, c.condition_id@);
        lemma_text_order_total(x, x);
        lemma_text_order_total(x, y);
        lemma_text_order_total(y, z);
        lemma_text_order_total(x, z);
        if text_before(z, y) && text_before(y, x) {
            lemma_text_order_transitive(z, y, x);
        }
    }

    fn goes_before(a: &Hit, b: &Hit) -> (r: bool) {
        if !same_text(a.condition_id.as_str(), b.condition_id.as_str()) {
            sorts_before(a.condition_id.as_str(), b.condition_id.as_str())
        } else if a.direction != b.direction {
            a.direction == Direction::BuyMerge
        } else {
            a.observed_at_ms < b.observed_at_ms
        }
    }
}

/// What stable episodes come to.
#[derive(Clone, Copy, Debug, PartialEq, Eq)]
pub struct Slice {
    pub stable_episodes: u64,
    pub distinct_markets: u64,
    pub total_profit: Decimal,
}

/// Stable episodes so far.
pub struct Tally {
    pub episodes: nat,
    pub markets: Set<Seq<char>>,
    pub total: Decimal,
}

/// Where an episode that began at `start` and has come to `i` ends: at the first
/// hit of another condition or direction, or more than 45 seconds after the last.
pub open spec fn episode_end(hits: Seq<HitView>, start: int, i: int) -> int
    decreases hits.len() - i,
{
    if 0 <= start < i < hits.len() && hits[i].condition_id == hits[start].condition_id
        && hits[i].direction == hits[start].direction && clamped_difference(
        hits[i].observed_at_ms,
        hits[i - 1].observed_at_ms,
    ) <= 45_000 {
        episode_end(hits, start, i + 1)
    } else {
        i
    }
}

/// The least profit of the hits from `start` to before `end`; the first of equal
/// ones.
pub open spec fn least_profit(hits: Seq<HitView>, start: int, end: int) -> Decimal
    decreases end - start,
{
    if end <= start + 1 {
        hits[start].profit
    } else {
        lesser(least_profit(hits, start, end - 1), hits[end - 1].profit)
    }
}

/// The tally with the episodes from `start` on: one of at least two hits is
/// stable, and counts with its least profit; `None` where the total leaves the
/// range of decimals.
pub open spec fn tallied(hits: Seq<HitView>, start: int, tally: Tally) -> Option<Tally>
    decreases hits.len() - start,
{
    if start < 0 || start >= hits.len() {
        Some(tally)
    } else {
        proof {
            lemma_episode_advances(hits, start, start + 1);
        }
        let end = episode_end(hits, start, start + 1);
        if end - start >= 2 {
            match plus(Some(tally.total), Some(least_profit(hits, start, end))) {
                Some(total) => tallied(
                    hits,
                    end,
                    Tally {
                        episodes: tally.episodes + 1,
                        markets: tally.markets.insert(hits[start].condition_id),
                        total,
                    },
                ),
                None => None,
            }
        } else {
            tallied(hits, end, tally)
        }
    }
}

/// An episode does not end before where it has come to.
pub proof fn lemma_episode_advances(hits: Seq<HitView>, start: int, i: int)
    ensures
        episode_end(hits, start, i) >= i,
        i <= hits.len() ==> episode_end(hits, start, i) <= hits.len(),
    decreases hits.len() - i,
{
    if 0 <= start < i < hits.len() && hits[i].condition_id == hits[start].condition_id
        && hits[i].direction == hits[start].direction && clamped_difference(
        hits[i].observed_at_ms,
        hits[i - 1].observed_at_ms,
    ) <= 45_000 {
        lemma_episode_advances(hits, start, i + 1);
    }
}

/// What the stable episodes among hits come to.
pub open spec fn tally_of(hits: Seq<HitView>) -> Option<Tally> {
    tallied(
        sorted_by(hits, |a: HitView, b: HitView| hit_before(a, b)),
        0,
        Tally { episodes: 0, markets: Set::empty(), total: zero() },
    )
}

/// Whether a slice says what a tally holds.
pub open spec fn is_slice_of(slice: Slice, tally: Tally) -> bool {
    &&& slice.stable_episodes == tally.episodes
    &&& slice.distinct_markets == tally.markets.len()
    &&& slice.total_profit == tally.total
}

pub(crate) fn checked_episode_slice(hits: Vec<Hit>) -> (r: Option<Slice>)
    ensures
        match r {
            Some(slice) => tally_of(hit_views(hits@)) matches Some(tally) && is_slice_of(
                slice,
                tally,
            ),
            None => tally_of(hit_views(hits@)) is None,
        },
{
    let ghost given = hits@;
    let hits = stable_sort::<Hit, ByEpisode>(hits);
    let ghost views = hit_views(hits@);
    proof {
        lemma_sorted_views::<Hit, ByEpisode, HitView>(
            given,
            |h: Hit| h@,
            |a: HitView, b: HitView| hit_before(a, b),
        );
    }
    let mut episodes: u64 = 0;
    let mut markets = StringSet::new();
    let mut total = Decimal::zero();
    let mut in_range = true;
    let mut start: usize = 0;
    while start < hits.len() && in_range
        invariant
            start <= hits@.len(),
            views == hit_views(hits@),
            episodes <= start,
            in_range ==> tally_of(hit_views(given)) == tallied(
                views,
                start as int,
                Tally { episodes: episodes as nat, markets: markets@, total },
            ),
            !in_range ==> tally_of(hit_views(given)) is None,
        decreases hits@.len() - start,
    {
        let mut least = hits[start].profit;
        let mut index: usize = start + 1;
        while index < hits.len() && same_text(
            hits[index].condition_id.as_str(),
            hits[start].condition_id.as_str(),
        ) && hits[index].direction == hits[start].direction && saturating_difference(
            hits[index].observed_at_ms,
            hits[index - 1].observed_at_ms,
        ) <= 45_000
            invariant
                start < index <= hits@.len(),
                views == hit_views(hits@),
                least == least_profit(views, start as int, index as int),
                episode_end(views, start as int, start + 1) == episode_end(
                    views,
                    start as int,
                    index as int,
                ),
            decreases hits@.len() - index,
        {
            proof {
                assert(views[index as int] == hits@[index as int]@);
                assert(views[start as int] == hits@[start as int]@);
                assert(views[index - 1] == hits@[index - 1]@);
            }
            least = least.min(hits[index].profit);
            index += 1;
        }
        proof {
            if index < hits@.len() {
                assert(views[index as int] == hits@[index as int]@);
                assert(views[start as int] == hits@[start as int]@);
                assert(views[index - 1] == hits@[index - 1]@);
            }
            assert(episode_end(views, start as int, start + 1) == index);
        }
        if index - start >= 2 {
            match sum_of(Some(total), Some(least)) {
                Some(t) => {
                    total = t;
                },
                None => {
                    in_range = false;
                },
            }
            episodes += 1;
            markets.insert(hits[start].condition_id.clone());
        }
        start = index;
    }
    if !in_range {
        return None;
    }
    Some(
        Slice { stable_episodes: episodes, distinct_markets: markets.len() as u64, total_profit: total },
    )
}

/// What the stable episodes among hits come to.
pub fn episode_slice(hits: Vec<Hit>) -> (r: Slice)
    requires
        tally_of(hit_views(hits@)) is Some,
    ensures
        tally_of(hit_views(hits@)) matches Some(tally) && is_slice_of(r, tally),
{
    checked_episode_slice(hits).unwrap()
}

/// [`episode_slice`], where the total stays in the range of decimals.
pub fn try_episode_slice(hits: Vec<Hit>) -> (r: Option<Slice>)
    ensures
        match r {
            Some(slice) => tally_of(hit_views(hits@)) matches Some(tally) && is_slice_of(
                slice,
                tally,
            ),
            None => tally_of(hit_views(hits@)) is None,
        },
{
    let copies = copy_hits(&hits);
    match checked_episode_slice(copies) {
        Some(_) => Some(episode_slice(hits)),
        None => None,
    }
}

fn copy_hits(hits: &Vec<Hit>) -> (r: Vec<Hit>)
    ensures
        hit_views(r@) == hit_views(hits@),
{
    let mut r: Vec<Hit> = Vec::new();
    let mut i: usize = 0;
    assert(hit_views(r@) =~= hit_views(hits@).take(0));
    while i < hits.len()
        invariant
            i <= hits@.len(),
            hit_views(r@) == hit_views(hits@).take(i as int),
        decreases hits@.len() - i,
    {
        let ghost before = r@;
        let hit = &hits[i];
        r.push(
            Hit {
                condition_id: hit.condition_id.clone(),
                observed_at_ms: hit.observed_at_ms,
                direction: hit.direction,
                profit: hit.profit,
            },
        );
        assert(hit_views(r@) =~= hit_views(before).push(hits@[i as int]@));
        assert(hit_views(hits@).take(i + 1) =~= hit_views(hits@).take(i as int).push(
            hits@[i as int]@,
        ));
        i += 1;
    }
    assert(hit_views(hits@).take(i as int) =~= hit_views(hits@));
    r
}

// ---------------------------------------------------------------------------
// Candidate settings
// ---------------------------------------------------------------------------

/// Settings that did well, and how they did in each part of the time.
#[derive(Debug, PartialEq, Eq)]
pub struct Candidate {
    pub price_band: String,
    pub minimum_profit: Decimal,
    pub minimum_return_bps: Decimal,
    pub depth_fraction: Decimal,
    pub train: Slice,
    pub validation: Slice,
    pub holdout: Slice,
    pub holdout_pass: bool,
}

/// The content of a [`Candidate`].
pub struct CandidateView {
    pub price_band: Seq<char>,
    pub minimum_profit: Decimal,
    pub minimum_return_bps: Decimal,
    pub depth_fraction: Decimal,
    pub train: Slice,
    pub validation: Slice,
    pub holdout: Slice,
    pub holdout_pass: bool,
}

impl View for Candidate {
    type V = CandidateView;

    open spec fn view(&self) -> CandidateView {
        CandidateView {
            price_band: self.price_band@,
            minimum_profit: self.minimum_profit,
            minimum_return_bps: self.minimum_return_bps,
            depth_fraction: self.depth_fraction,
            train: self.train,
            validation: self.validation,
            holdout: self.holdout,
            holdout_pass: self.holdout_pass,
        }
    }
}

/// How many settings are tried: five price bands, three thresholds on profit,
/// three on return, and three fractions of the depth.
pub const SETTINGS: usize = 135;

/// The label of the price band of the `c`-th settings.
pub open spec fn band_label(c: int) -> Seq<char> {
    let band = c / 27;
    if band == 0 {
        "0.15/0.85"@
    } else if band == 1 {
        "0.25/0.75"@
    } else if band == 2 {
        "0.35/0.65"@
    } else if band == 3 {
        "0.45/0.55"@
    } else {
        "disabled"@
    }
}

/// One of three values.
pub open spec fn one_of_three(i: int, a: Decimal, b: Decimal, c: Decimal) -> Decimal {
    if i == 0 {
        a
    } else if i == 1 {
        b
    } else {
        c
    }
}

/// The `c`-th settings.
pub open spec fn settings_at(c: int) -> ProfitabilityConfig {
    let band = c / 27;
    let low: int = if band == 0 {
        15
    } else if band == 2 {
        35
    } else if band == 3 {
        45
    } else {
        25
    };
    ProfitabilityConfig {
        price_band_enabled: band < 4,
        minimum_profit: one_of_three(
            c / 9 % 3,
            decimal_of(2, 2),
            decimal_of(5, 2),
            decimal_of(10, 2),
        ),
        minimum_return_bps: one_of_three(
            c / 3 % 3,
            decimal_of(30, 0),
            decimal_of(60, 0),
            decimal_of(100, 0),
        ),
        depth_fraction: one_of_three(
            c % 3,
            decimal_of(10, 2),
            decimal_of(25, 2),
            decimal_of(50, 2),
        ),
        price_band_low_max: decimal_of(low, 2),
        price_band_high_min: decimal_of(100 - low, 2),
    }
}

fn pick(i: usize, a: Decimal, b: Decimal, c: Decimal) -> (r: Decimal)
    ensures
        r == one_of_three(i as int, a, b, c),
{
    if i == 0 {
        a
    } else if i == 1 {
        b
    } else {
        c
    }
}

fn settings(c: usize) -> (r: (ProfitabilityConfig, &'static str))
    requires
        c < SETTINGS,
    ensures
        r.0 == settings_at(c as int),
        r.1@ == band_label(c as int),
{
    let band: usize = c / 27;
    let (low, label): (i64, &'static str) = if band == 0 {
        (15, "0.15/0.85")
    } else if band == 1 {
        (25, "0.25/0.75")
    } else if band == 2 {
        (35, "0.35/0.65")
    } else if band == 3 {
        (45, "0.45/0.55")
    } else {
        (25, "disabled")
    };
    let profitability = ProfitabilityConfig {
        price_band_enabled: band < 4,
        minimum_profit: pick(
            c / 9 % 3,
            Decimal::new(2, 2),
            Decimal::new(5, 2),
            Decimal::new(10, 2),
        ),
        minimum_return_bps: pick(
            c / 3 % 3,
            Decimal::new(30, 0),
            Decimal::new(60, 0),
            Decimal::new(100, 0),
        ),
        depth_fraction: pick(
            c % 3,
            Decimal::new(10, 2),
            Decimal::new(25, 2),
            Decimal::new(50, 2),
        ),
        price_band_low_max: Decimal::new(low, 2),
        price_band_high_min: Decimal::new(100 - low, 2),
    };
    (profitability, label)
}

/// The hits among observations; `None` where a number leaves the range of
/// decimals.
pub open spec fn hits_among(
    observations: Seq<ObservationView>,
    rate: Decimal,
    profitability: ProfitabilityConfig,
    reserves: ReserveConfig,
    risk: RiskConfig,
) -> Option<Seq<HitView>>
    decreases observations.len(),
{
    if observations.len() == 0 {
        Some(Seq::empty())
    } else {
        match (
            hits_among(observations.drop_last(), rate, profitability, reserves, risk),
            offer_on(observations.last(), rate, profitability, reserves, risk),
        ) {
            (Some(before), Some(Some(opportunity))) => Some(
                before.push(
                    HitView {
                        condition_id: observations.last().condition_id,
                        observed_at_ms: observations.last().observed_at_ms,
                        direction: opportunity.direction,
                        profit: opportunity.net_profit,
                    },
                ),
            ),
            (Some(before), Some(None)) => Some(before),
            _ => None,
        }
    }
}

proof fn lemma_hits_prefix(
    observations: Seq<ObservationView>,
    n: int,
    rate: Decimal,
    profitability: ProfitabilityConfig,
    reserves: ReserveConfig,
    risk: RiskConfig,
)
    requires
        0 <= n <= observations.len(),
        hits_among(observations.take(n), rate, profitability, reserves, risk) is None,
    ensures
        hits_among(observations, rate, profitability, reserves, risk) is None,
    decreases observations.len() - n,
{
    if n == observations.len() {
        assert(observations.take(n) =~= observations);
    } else {
        assert(observations.take(n + 1).drop_last() =~= observations.take(n));
        lemma_hits_prefix(observations, n + 1, rate, profitability, reserves, risk);
    }
}

/// The fifth of the time that a moment falls into, counted from zero.
pub open spec fn fifth_of(time_ms: i64, start_ms: i64, span_ms: int) -> int {
    let scaled = clamped_difference(time_ms, start_ms) * 5;
    let fifth = if scaled < 0 {
        -((-scaled) / span_ms)
    } else {
        scaled / span_ms
    };
    if fifth < 0 || fifth > 4 {
        4
    } else {
        fifth
    }
}

/// The part of the time that a moment falls into: the first three fifths to
/// train on, the fourth to validate on, the last held out.
pub open spec fn part_of(time_ms: i64, start_ms: i64, span_ms: int) -> int {
    let fifth = fifth_of(time_ms, start_ms, span_ms);
    if fifth < 3 {
        0
    } else if fifth == 3 {
        1
    } else {
        2
    }
}

/// The hits of a part of the time.
pub open spec fn hits_in_part(hits: Seq<HitView>, part: int, start_ms: i64, span_ms: int) -> Seq<
    HitView,
>
    decreases hits.len(),
{
    if hits.len() == 0 {
        hits
    } else if part_of(hits.last().observed_at_ms, start_ms, span_ms) == part {
        hits_in_part(hits.drop_last(), part, start_ms, span_ms).push(hits.last())
    } else {
        hits_in_part(hits.drop_last(), part, start_ms, span_ms)
    }
}

fn part(time_ms: i64, start_ms: i64, span_ms: i64) -> (r: usize)
    requires
        span_ms >= 1,
    ensures
        r == part_of(time_ms, start_ms, span_ms as int),
{
    let scaled: i128 = saturating_difference(time_ms, start_ms) as i128 * 5;
    let fifth: i128 = scaled / span_ms as i128;
    if fifth < 0 || fifth > 3 {
        2
    } else if fifth == 3 {
        1
    } else {
        0
    }
}

/// The hits among observations, by the part of the time.
struct Parts {
    train: Vec<Hit>,
    validation: Vec<Hit>,
    holdout: Vec<Hit>,
}

fn checked_parts(
    observations: &Vec<Observation>,
    fee: &FeeSchedule,
    profitability: &ProfitabilityConfig,
    reserves: &ReserveConfig,
    risk: &RiskConfig,
    start_ms: i64,
    span_ms: i64,
) -> (r: Option<Parts>)
    requires
        span_ms >= 1,
    ensures
        match r {
            Some(parts) => hits_among(
                observation_views(observations@),
                fee.rate,
                *profitability,
                *reserves,
                *risk,
            ) matches Some(hits) && hit_views(parts.train@) == hits_in_part(
                hits,
                0,
                start_ms,
                span_ms as int,
            ) && hit_views(parts.validation@) == hits_in_part(hits, 1, start_ms, span_ms as int)
                && hit_views(parts.holdout@) == hits_in_part(hits, 2, start_ms, span_ms as int),
            None => hits_among(
                observation_views(observations@),
                fee.rate,
                *profitability,
                *reserves,
                *risk,
            ) is None,
        },
{
    let ghost views = observation_views(observations@);
    let mut train: Vec<Hit> = Vec::new();
    let mut validation: Vec<Hit> = Vec::new();
    let mut holdout: Vec<Hit> = Vec::new();
    let ghost mut hits: Seq<HitView> = Seq::empty();
    let mut i: usize = 0;
    assert(hit_views(train@) =~= Seq::<HitView>::empty());
    assert(hit_views(validation@) =~= Seq::<HitView>::empty());
    assert(hit_views(holdout@) =~= Seq::<HitView>::empty());
    while i < observations.len()
        invariant
            i <= observations@.len(),
            span_ms >= 1,
            views == observation_views(observations@),
            hits_among(views.take(i as int), fee.rate, *profitability, *reserves, *risk) == Some(
                hits,
            ),
            hit_views(train@) == hits_in_part(hits, 0, start_ms, span_ms as int),
            hit_views(validation@) == hits_in_part(hits, 1, start_ms, span_ms as int),
            hit_views(holdout@) == hits_in_part(hits, 2, start_ms, span_ms as int),
        decreases observations@.len() - i,
    {
        let observation = &observations[i];
        proof {
            assert(views.take(i + 1).drop_last() =~= views.take(i as int));
            assert(views.take(i + 1).last() == observation@);
        }
        match checked_offer_on(observation, fee, profitability, reserves, risk) {
            Some(Some(opportunity)) => {
                let hit = Hit {
                    condition_id: observation.condition_id.clone(),
                    observed_at_ms: observation.observed_at_ms,
                    direction: opportunity.direction,
                    profit: opportunity.net_profit,
                };
                let ghost view = hit@;
                let ghost (t, v, h) = (train@, validation@, holdout@);
                proof {
                    assert(hits.push(view).drop_last() =~= hits);
                    hits = hits.push(view);
                }
                let which: usize = part(observation.observed_at_ms, start_ms, span_ms);
                if which == 0 {
                    train.push(hit);
                    assert(hit_views(train@) =~= hit_views(t).push(view));
                } else if which == 1 {
                    validation.push(hit);
                    assert(hit_views(validation@) =~= hit_views(v).push(view));
                } else {
                    holdout.push(hit);
                    assert(hit_views(holdout@) =~= hit_views(h).push(view));
                }
            },
            Some(None) => {},
            None => {
                proof {
                    lemma_hits_prefix(
                        views,
                        i + 1,
                        fee.rate,
                        *profitability,
                        *reserves,
                        *risk,
                    );
                }
                return None;
            },
        }
        i += 1;
    }
    assert(views.take(i as int) =~= views);
    Some(Parts { train, validation, holdout })
}

/// What the tally of a part comes to.
pub open spec fn slice_from(tally: Tally) -> Slice {
    Slice {
        stable_episodes: tally.episodes as u64,
        distinct_markets: tally.markets.len() as u64,
        total_profit: tally.total,
    }
}

/// Enough stable episodes in enough markets to train and to validate on.
pub open spec fn is_supported(train: Slice, validation: Slice) -> bool {
    &&& train.stable_episodes >= 20
    &&& train.distinct_markets >= 10
    &&& validation.stable_episodes >= 5
    &&& validation.distinct_markets >= 3
}

/// The candidate that the `c`-th settings make: the inner `None` where they are
/// not supported, the outer one where a number leaves the range of decimals.
#[verifier::opaque]
pub open spec fn candidate_at(
    c: int,
    observations: Seq<ObservationView>,
    rate: Decimal,
    reserves: ReserveConfig,
    risk: RiskConfig,
    start_ms: i64,
    span_ms: int,
) -> Option<Option<CandidateView>> {
    let terms = settings_at(c);
    match hits_among(observations, rate, terms, reserves, risk) {
        Some(hits) => match (
            tally_of(hits_in_part(hits, 0, start_ms, span_ms)),
            tally_of(hits_in_part(hits, 1, start_ms, span_ms)),
            tally_of(hits_in_part(hits, 2, start_ms, span_ms)),
        ) {
            (Some(train), Some(validation), Some(holdout)) => {
                let train = slice_from(train);
                let validation = slice_from(validation);
                let holdout = slice_from(holdout);
                if is_supported(train, validation) {
                    Some(
                        Some(
                            CandidateView {
                                price_band: band_label(c),
                                minimum_profit: terms.minimum_profit,
                                minimum_return_bps: terms.minimum_return_bps,
                                depth_fraction: terms.depth_fraction,
                                train,
                                validation,
                                holdout,
                                holdout_pass: holdout.stable_episodes >= 5
                                    && holdout.distinct_markets >= 3 && holdout.total_profit.m()
                                    > 0,
                            },
                        ),
                    )
                } else {
                    Some(None)
                }
            },
            _ => None,
        },
        None => None,
    }
}

/// Whether a candidate did strictly better on validation: more profit, or the
/// same in more episodes.
pub open spec fn beats(a: CandidateView, b: CandidateView) -> bool {
    lt(b.validation.total_profit, a.validation.total_profit) || (same(
        a.validation.total_profit,
        b.validation.total_profit,
    ) && b.validation.stable_episodes < a.validation.stable_episodes)
}

/// The better of two candidates; the second of equally good ones.
pub open spec fn better_candidate(
    held: Option<CandidateView>,
    next: Option<CandidateView>,
) -> Option<CandidateView> {
    match (held, next) {
        (Some(a), Some(b)) => if beats(a, b) {
            Some(a)
        } else {
            Some(b)
        },
        (None, next) => next,
        (held, None) => held,
    }
}

/// The best candidate among the first settings.
pub open spec fn best_candidate(
    count: int,
    observations: Seq<ObservationView>,
    rate: Decimal,
    reserves: ReserveConfig,
    risk: RiskConfig,
    start_ms: i64,
    span_ms: int,
) -> Option<Option<CandidateView>>
    decreases count,
{
    if count <= 0 {
        Some(None)
    } else {
        match (
            best_candidate(count - 1, observations, rate, reserves, risk, start_ms, span_ms),
            candidate_at(count - 1, observations, rate, reserves, risk, start_ms, span_ms),
        ) {
            (Some(held), Some(next)) => Some(better_candidate(held, next)),
            _ => None,
        }
    }
}

/// How long observations in the order of time span; at least a millisecond.
pub open spec fn span_of(observations: Seq<ObservationView>) -> int {
    let span = clamped_difference(
        observations.last().observed_at_ms,
        observations[0].observed_at_ms,
    );
    if span < 1 {
        1
    } else {
        span
    }
}

/// The best settings on observations in the order of time, where snapshots cover
/// at least 95 of 100 decisions: the inner `None` where no settings are
/// supported, the outer one where a number leaves the range of decimals.
pub open spec fn selection(
    observations: Seq<ObservationView>,
    config: RuntimeConfig,
    rate: Decimal,
    coverage_bps: u64,
) -> Option<Option<CandidateView>> {
    if coverage_bps < 9_500 || observations.len() == 0 {
        Some(None)
    } else {
        best_candidate(
            SETTINGS as int,
            observations,
            rate,
            config.reserves,
            config.risk,
            observations[0].observed_at_ms,
            span_of(observations),
        )
    }
}

/// The content of a candidate that may be missing.
pub open spec fn candidate_in(candidate: Option<Candidate>) -> Option<CandidateView> {
    match candidate {
        Some(c) => Some(c@),
        None => None,
    }
}

fn checked_candidate(
    c: usize,
    observations: &Vec<Observation>,
    fee: &FeeSchedule,
    reserves: &ReserveConfig,
    risk: &RiskConfig,
    start_ms: i64,
    span_ms: i64,
) -> (r: Option<Option<Candidate>>)
    requires
        c < SETTINGS,
        span_ms >= 1,
    ensures
        match r {
            Some(candidate) => candidate_at(
                c as int,
                observation_views(observations@),
                fee.rate,
                *reserves,
                *risk,
                start_ms,
                span_ms as int,
            ) == Some(candidate_in(candidate)),
            None => candidate_at(
                c as int,
                observation_views(observations@),
                fee.rate,
                *reserves,
                *risk,
                start_ms,
                span_ms as int,
            ) is None,
        },
{
    proof {
        reveal(candidate_at);
    }
    let (profitability, label) = settings(c);
    let parts = match checked_parts(
        observations,
        fee,
        &profitability,
        reserves,
        risk,
        start_ms,
        span_ms,
    ) {
        Some(parts) => parts,
        None => return None,
    };
    let (train, validation, holdout) = match (
        checked_episode_slice(parts.train),
        checked_episode_slice(parts.validation),
        checked_episode_slice(parts.holdout),
    ) {
        (Some(t), Some(v), Some(h)) => (t, v, h),
        _ => return None,
    };
    if train.stable_episodes < 20 || train.distinct_markets < 10 || validation.stable_episodes < 5
        || validation.distinct_markets < 3 {
        return Some(None);
    }
    let holdout_pass = holdout.stable_episodes >= 5 && holdout.distinct_markets >= 3
        && holdout.total_profit.is_positive();
    Some(
        Some(
            Candidate {
                price_band: label.to_owned(),
                minimum_profit: profitability.minimum_profit,
                minimum_return_bps: profitability.minimum_return_bps,
                depth_fraction: profitability.depth_fraction,
                train,
                validation,
                holdout,
                holdout_pass,
            },
        ),
    )
}

fn is_better(a: &Candidate, b: &Candidate) -> (r: bool)
    ensures
        r == beats(a@, b@),
{
    less(b.validation.total_profit, a.validation.total_profit) || (a.validation.total_profit
        == b.validation.total_profit && b.validation.stable_episodes
        < a.validation.stable_episodes)
}

/// The best settings on observations in the order of time; the outer `None` where
/// a number leaves the range of decimals.
#[verifier::spinoff_prover]
pub fn select_candidate(
    observations: &Vec<Observation>,
    config: &RuntimeConfig,
    fee: &FeeSchedule,
    coverage_bps: u64,
) -> (r: Option<Option<Candidate>>)
    ensures
        match r {
            Some(candidate) => selection(
                observation_views(observations@),
                *config,
                fee.rate,
                coverage_bps,
            ) == Some(candidate_in(candidate)),
            None => selection(
                observation_views(observations@),
                *config,
                fee.rate,
                coverage_bps,
            ) is None,
        },
{
    if coverage_bps < 9_500 || observations.len() == 0 {
        return Some(None);
    }
    let ghost views = observation_views(observations@);
    let start_ms: i64 = observations[0].observed_at_ms;
    let end_ms: i64 = observations[observations.len() - 1].observed_at_ms;
    let elapsed: i64 = saturating_difference(end_ms, start_ms);
    let span_ms: i64 = if elapsed < 1 {
        1
    } else {
        elapsed
    };
    assert(span_ms == span_of(views));
    let mut best: Option<Candidate> = None;
    let mut in_range = true;
    let mut c: usize = 0;
    while c < SETTINGS && in_range
        invariant
            c <= SETTINGS,
            span_ms >= 1,
            views == observation_views(observations@),
            in_range ==> best_candidate(
                c as int,
                views,
                fee.rate,
                config.reserves,
                config.risk,
                start_ms,
                span_ms as int,
            ) == Some(candidate_in(best)),
            !in_range ==> best_candidate(
                c as int,
                views,
                fee.rate,
                config.reserves,
                config.risk,
                start_ms,
                span_ms as int,
            ) is None,
        decreases SETTINGS - c,
    {
        match checked_candidate(
            c,
            observations,
            fee,
            &config.reserves,
            &config.risk,
            start_ms,
            span_ms,
        ) {
            Some(Some(next)) => {
                let keep = match &best {
                    Some(held) => is_better(held, &next),
                    None => false,
                };
                if !keep {
                    best = Some(next);
                }
            },
            Some(None) => {},
            None => {
                in_range = false;
            },
        }
        c += 1;
    }
    proof {
        if !in_range {
            lemma_best_prefix(
                c as int,
                SETTINGS as int,
                views,
                fee.rate,
                config.reserves,
                config.risk,
                start_ms,
                span_ms as int,
            );
        }
    }
    if in_range {
        Some(best)
    } else {
        None
    }
}

proof fn lemma_best_prefix(
    n: int,
    count: int,
    observations: Seq<ObservationView>,
    rate: Decimal,
    reserves: ReserveConfig,
    risk: RiskConfig,
    start_ms: i64,
    span_ms: int,
)
    requires
        n <= count,
        best_candidate(n, observations, rate, reserves, risk, start_ms, span_ms) is None,
    ensures
        best_candidate(count, observations, rate, reserves, risk, start_ms, span_ms) is None,
    decreases count - n,
{
    if n < count {
        lemma_best_prefix(n + 1, count, observations, rate, reserves, risk, start_ms, span_ms);
    }
}

proof fn lemma_not_beaten_chain(a: CandidateView, b: CandidateView, c: CandidateView)
    requires
        !beats(a, b),
        !beats(b, c),
    ensures
        !beats(a, c),
{
    let (x, y, z) = (
        a.validation.total_profit,
        b.validation.total_profit,
        c.validation.total_profit,
    );
    lemma_le_transitive(x, y, z);
    if same(x, z) {
        lemma_le_transitive(y, z, x);
        lemma_le_transitive(z, x, y);
    }
}

proof fn lemma_candidate_is_supported(
    c: int,
    observations: Seq<ObservationView>,
    rate: Decimal,
    reserves: ReserveConfig,
    risk: RiskConfig,
    start_ms: i64,
    span_ms: int,
)
    ensures
        candidate_at(c, observations, rate, reserves, risk, start_ms, span_ms) matches Some(
            Some(candidate),
        ) ==> is_supported(candidate.train, candidate.validation),
{
    reveal(candidate_at);
}

proof fn lemma_better_candidate(
    held: Option<CandidateView>,
    next: Option<CandidateView>,
    other: CandidateView,
)
    requires
        next == Some(other) || (held matches Some(a) && !beats(other, a)),
    ensures
        better_candidate(held, next) matches Some(best) && !beats(other, best),
{
    lemma_lt_asymmetric(other.validation.total_profit, other.validation.total_profit);
    match (held, next) {
        (Some(a), Some(b)) => {
            lemma_lt_asymmetric(a.validation.total_profit, b.validation.total_profit);
            if !beats(a, b) && next != Some(other) {
                lemma_not_beaten_chain(other, a, b);
            }
        },
        _ => {},
    }
}

proof fn lemma_best_candidate(
    c: int,
    count: int,
    observations: Seq<ObservationView>,
    rate: Decimal,
    reserves: ReserveConfig,
    risk: RiskConfig,
    start_ms: i64,
    span_ms: int,
)
    requires
        0 <= c < count,
    ensures
        match best_candidate(count, observations, rate, reserves, risk, start_ms, span_ms) {
            Some(Some(best)) => is_supported(best.train, best.validation) && (candidate_at(
                c,
                observations,
                rate,
                reserves,
                risk,
                start_ms,
                span_ms,
            ) matches Some(Some(other)) ==> !beats(other, best)),
            Some(None) => candidate_at(c, observations, rate, reserves, risk, start_ms, span_ms)
                == Some(None::<CandidateView>),
            None => true,
        },
    decreases count,
{
    let held = best_candidate(
        count - 1,
        observations,
        rate,
        reserves,
        risk,
        start_ms,
        span_ms,
    );
    let next = candidate_at(
        count - 1,
        observations,
        rate,
        reserves,
        risk,
        start_ms,
        span_ms,
    );
    lemma_candidate_is_supported(
        count - 1,
        observations,
        rate,
        reserves,
        risk,
        start_ms,
        span_ms,
    );
    if count > 1 {
        lemma_best_candidate(
            if c < count - 1 {
                c
            } else {
                0
            },
            count - 1,
            observations,
            rate,
            reserves,
            risk,
            start_ms,
            span_ms,
        );
    }
    match (
        held,
        next,
        candidate_at(c, observations, rate, reserves, risk, start_ms, span_ms),
    ) {
        (Some(held), Some(next), Some(Some(other))) => lemma_better_candidate(held, next, other),
        _ => {},
    }
}

/// A selection rests on enough coverage and enough episodes, and no settings that
/// were tried did better on validation.
pub proof fn law_selected_settings_are_unsurpassed(
    c: int,
    observations: Seq<ObservationView>,
    config: RuntimeConfig,
    rate: Decimal,
    coverage_bps: u64,
)
    requires
        0 <= c < SETTINGS,
    ensures
        selection(observations, config, rate, coverage_bps) matches Some(Some(best)) ==> {
            &&& coverage_bps >= 9_500
            &&& is_supported(best.train, best.validation)
            &&& candidate_at(
                c,
                observations,
                rate,
                config.reserves,
                config.risk,
                observations[0].observed_at_ms,
                span_of(observations),
            ) matches Some(Some(other)) ==> !beats(other, best)
        },
{
    if coverage_bps >= 9_500 && observations.len() > 0 {
        lemma_best_candidate(
            c,
            SETTINGS as int,
            observations,
            rate,
            config.reserves,
            config.risk,
            observations[0].observed_at_ms,
            span_of(observations),
        );
    }
}

/// Every hit falls into exactly one part of the time, and no part invents any.
pub proof fn law_parts_share_out_the_hits(hits: Seq<HitView>, start_ms: i64, span_ms: int)
    ensures
        hits_in_part(hits, 0, start_ms, span_ms).to_multiset().add(
            hits_in_part(hits, 1, start_ms, span_ms).to_multiset(),
        ).add(hits_in_part(hits, 2, start_ms, span_ms).to_multiset()) == hits.to_multiset(),
    decreases hits.len(),
{
    broadcast use vstd::seq_lib::group_to_multiset_ensures;

    if hits.len() > 0 {
        law_parts_share_out_the_hits(hits.drop_last(), start_ms, span_ms);
        assert(hits =~= hits.drop_last().push(hits.last()));
    }
    assert(hits_in_part(hits, 0, start_ms, span_ms).to_multiset().add(
        hits_in_part(hits, 1, start_ms, span_ms).to_multiset(),
    ).add(hits_in_part(hits, 2, start_ms, span_ms).to_multiset()) =~= hits.to_multiset());
}

/// Whether two hits are of one condition and direction, at most 45 seconds apart.
pub open spec fn are_close(a: Hit, b: Hit) -> bool {
    &&& a.condition_id@ == b.condition_id@
    &&& a.direction == b.direction
    &&& gap(a.observed_at_ms, b.observed_at_ms) <= 45_000
}

/// Whether no two hits are close.
pub open spec fn are_scattered(hits: Seq<Hit>) -> bool {
    forall|i: int, j: int|
        0 <= i < hits.len() && 0 <= j < hits.len() && i != j ==> !are_close(
            #[trigger] hits[i],
            #[trigger] hits[j],
        )
}

proof fn lemma_inserted_scattered(hits: Seq<Hit>, x: Hit)
    requires
        are_scattered(hits),
        forall|i: int| 0 <= i < hits.len() ==> !are_close(#[trigger] hits[i], x),
    ensures
        are_scattered(inserted::<Hit, ByEpisode>(hits, x)),
        forall|i: int|
            0 <= i < inserted::<Hit, ByEpisode>(hits, x).len() ==> {
                ||| #[trigger] inserted::<Hit, ByEpisode>(hits, x)[i] == x
                ||| hits.contains(inserted::<Hit, ByEpisode>(hits, x)[i])
            },
    decreases hits.len(),
{
    let r = inserted::<Hit, ByEpisode>(hits, x);
    if hits.len() > 0 && ByEpisode::before(x, hits.last()) {
        let front = hits.drop_last();
        assert forall|i: int| 0 <= i < front.len() implies !are_close(#[trigger] front[i], x) by {
            assert(front[i] == hits[i]);
        }
        lemma_inserted_scattered(front, x);
        let q = inserted::<Hit, ByEpisode>(front, x);
        assert forall|i: int| 0 <= i < q.len() implies !are_close(#[trigger] q[i], hits.last()) by {
            if q[i] != x {
                let k = choose|k: int| 0 <= k < front.len() && front[k] == q[i];
                assert(hits[k] == q[i]);
                assert(!are_close(hits[k], hits[hits.len() - 1]));
            } else {
                assert(!are_close(hits[hits.len() - 1], x));
            }
        }
        assert forall|i: int, j: int|
            0 <= i < r.len() && 0 <= j < r.len() && i != j implies !are_close(
            #[trigger] r[i],
            #[trigger] r[j],
        ) by {
            if i < q.len() && j < q.len() {
                assert(!are_close(q[i], q[j]));
            } else if i < q.len() {
                assert(!are_close(q[i], hits.last()));
            } else {
                assert(!are_close(q[j], hits.last()));
            }
        }
        assert forall|i: int| 0 <= i < r.len() implies #[trigger] r[i] == x || hits.contains(
            r[i],
        ) by {
            if i < q.len() {
                assert(q[i] == x || front.contains(q[i]));
                if q[i] != x {
                    let k = choose|k: int| 0 <= k < front.len() && front[k] == q[i];
                    assert(hits[k] == r[i]);
                }
            } else {
                assert(hits[hits.len() - 1] == r[i]);
            }
        }
    } else {
        assert forall|i: int| 0 <= i < r.len() implies #[trigger] r[i] == x || hits.contains(
            r[i],
        ) by {
            if i < hits.len() {
                assert(hits[i] == r[i]);
            }
        }
        assert forall|i: int, j: int|
            0 <= i < r.len() && 0 <= j < r.len() && i != j implies !are_close(
            #[trigger] r[i],
            #[trigger] r[j],
        ) by {
            if i < hits.len() && j < hits.len() {
                assert(!are_close(hits[i], hits[j]));
            } else if i < hits.len() {
                assert(!are_close(hits[i], x));
            } else {
                assert(!are_close(hits[j], x));
            }
        }
    }
}

proof fn lemma_sorted_scattered(hits: Seq<Hit>)
    requires
        are_scattered(hits),
    ensures
        are_scattered(sorted::<Hit, ByEpisode>(hits)),
        forall|i: int|
            0 <= i < sorted::<Hit, ByEpisode>(hits).len() ==> hits.contains(
                #[trigger] sorted::<Hit, ByEpisode>(hits)[i],
            ),
    decreases hits.len(),
{
    if hits.len() > 0 {
        let front = hits.drop_last();
        assert forall|i: int, j: int|
            0 <= i < front.len() && 0 <= j < front.len() && i != j implies !are_close(
            #[trigger] front[i],
            #[trigger] front[j],
        ) by {
            assert(!are_close(hits[i], hits[j]));
        }
        lemma_sorted_scattered(front);
        let before = sorted::<Hit, ByEpisode>(front);
        assert forall|i: int| 0 <= i < before.len() implies !are_close(
            #[trigger] before[i],
            hits.last(),
        ) by {
            assert(front.contains(before[i]));
            let k = choose|k: int| 0 <= k < front.len() && front[k] == before[i];
            assert(!are_close(hits[k], hits[hits.len() - 1]));
        }
        lemma_inserted_scattered(before, hits.last());
        let after = sorted::<Hit, ByEpisode>(hits);
        assert forall|i: int| 0 <= i < after.len() implies hits.contains(#[trigger] after[i]) by {
            if after[i] == hits.last() {
                assert(hits[hits.len() - 1] == after[i]);
            } else {
                assert(before.contains(after[i]));
                let k = choose|k: int| 0 <= k < before.len() && before[k] == after[i];
                assert(front.contains(before[k]));
                let m = choose|m: int| 0 <= m < front.len() && front[m] == before[k];
                assert(hits[m] == after[i]);
            }
        }
    }
}

proof fn lemma_nothing_to_tally(hits: Seq<HitView>, start: int, tally: Tally)
    requires
        0 <= start <= hits.len(),
        forall|i: int| 0 <= i < hits.len() ==> #[trigger] episode_end(hits, i, i + 1) == i + 1,
    ensures
        tallied(hits, start, tally) == Some(tally),
    decreases hits.len() - start,
{
    if start < hits.len() {
        assert(episode_end(hits, start, start + 1) == start + 1);
        lemma_nothing_to_tally(hits, start + 1, tally);
    }
}

/// An episode takes two close hits: where no two are close, no episode is stable,
/// no market counts and the total is zero.
pub proof fn law_stable_episodes_take_two_close_hits(hits: Seq<Hit>)
    requires
        are_scattered(hits),
    ensures
        tally_of(hit_views(hits)) == Some(
            Tally { episodes: 0, markets: Set::empty(), total: zero() },
        ),
{
    lemma_sorted_views::<Hit, ByEpisode, HitView>(
        hits,
        |h: Hit| h@,
        |a: HitView, b: HitView| hit_before(a, b),
    );
    law_sorted_is_an_ordered_rearrangement::<Hit, ByEpisode>(hits);
    lemma_sorted_scattered(hits);
    let ordered = sorted::<Hit, ByEpisode>(hits);
    let views = hit_views(ordered);
    assert forall|i: int| 0 <= i < views.len() implies #[trigger] episode_end(views, i, i + 1) == i
        + 1 by {
        if i + 1 < views.len() {
            assert(views[i] == ordered[i]@ && views[i + 1] == ordered[i + 1]@);
            assert(!are_close(ordered[i], ordered[i + 1]));
            assert(!ByEpisode::before(ordered[i + 1], ordered[i]));
        }
    }
    lemma_nothing_to_tally(views, 0, Tally { episodes: 0, markets: Set::empty(), total: zero() });
}

// ---------------------------------------------------------------------------
// The report
// ---------------------------------------------------------------------------

/// What a replay comes to.
#[derive(Debug, PartialEq, Eq)]
pub struct Report {
    pub eligible_decisions: u64,
    pub both_legs_covered: u64,
    pub coverage_bps: u64,
    pub assumed_taker_fee_rate: Decimal,
    pub funnel: Funnel,
    pub selected: Option<Candidate>,
}

/// Observations in the order of time.
pub struct ByTime;

impl SortOrder<Observation> for ByTime {
    open spec fn before(a: Observation, b: Observation) -> bool {
        a.observed_at_ms < b.observed_at_ms
    }

    proof fn is_weak_order(a: Observation, b: Observation, c: Observation) {
    }

    fn goes_before(a: &Observation, b: &Observation) -> (r: bool) {
        a.observed_at_ms < b.observed_at_ms
    }
}

/// How many of ten thousand eligible decisions are covered; `None` where that
/// cannot be counted.
pub open spec fn coverage_in_bps(eligible: u64, covered: u64) -> Option<u64> {
    if eligible == 0 {
        Some(0)
    } else if covered * 10_000 > u64::MAX {
        None
    } else {
        Some((covered * 10_000 / eligible as int) as u64)
    }
}

/// The observations of a replay, in the order of time.
pub open spec fn in_time_order(observations: Seq<ObservationView>) -> Seq<ObservationView> {
    sorted_by(
        observations,
        |a: ObservationView, b: ObservationView| a.observed_at_ms < b.observed_at_ms,
    )
}

/// Whether a report says what a replay comes to.
pub open spec fn is_report_on(report: Report, replay: ReplayView, config: RuntimeConfig) -> bool {
    let observations = in_time_order(replay.observations);
    let rate = config.store.assumed_taker_fee_rate;
    &&& report.eligible_decisions == replay.eligible
    &&& report.both_legs_covered == replay.covered
    &&& coverage_in_bps(replay.eligible, replay.covered) == Some(report.coverage_bps)
    &&& report.assumed_taker_fee_rate == rate
    &&& report.funnel.paired_observations == observations.len()
    &&& funnel_of(observations, config, rate) == Some(
        (
            report.funnel.frictionless as nat,
            report.funnel.fee_positive as nat,
            report.funnel.reserve_positive as nat,
            report.funnel.configured as nat,
        ),
    )
    &&& selection(observations, config, rate, report.coverage_bps) == Some(
        candidate_in(report.selected),
    )
}

/// Whether every number of a report stays in its range.
pub open spec fn can_report(replay: ReplayView, config: RuntimeConfig) -> bool {
    let observations = in_time_order(replay.observations);
    let rate = config.store.assumed_taker_fee_rate;
    coverage_in_bps(replay.eligible, replay.covered) matches Some(bps) && funnel_of(
        observations,
        config,
        rate,
    ) is Some && selection(observations, config, rate, bps) is Some
}

impl Replay {
    /// What the replay comes to; `None` where a number leaves its range.
    pub fn report(self, config: &RuntimeConfig) -> (r: Option<Report>)
        ensures
            match r {
                Some(report) => is_report_on(report, self@, *config),
                None => !can_report(self@, *config),
            },
    {
        let eligible: u64 = self.eligible;
        let covered: u64 = self.covered;
        let ghost given = self.observations@;
        let observations = stable_sort::<Observation, ByTime>(self.observations);
        proof {
            lemma_sorted_views::<Observation, ByTime, ObservationView>(
                given,
                |o: Observation| o@,
                |a: ObservationView, b: ObservationView| a.observed_at_ms < b.observed_at_ms,
            );
            assert(observation_views(observations@) == in_time_order(self@.observations));
        }
        let coverage_bps: u64 = if eligible == 0 {
            0
        } else {
            match covered.checked_mul(10_000) {
                Some(scaled) => scaled / eligible,
                None => return None,
            }
        };
        let fee = FeeSchedule { rate: config.store.assumed_taker_fee_rate };
        let funnel = match funnel(&observations, config, &fee) {
            Some(funnel) => funnel,
            None => return None,
        };
        let selected = match select_candidate(&observations, config, &fee, coverage_bps) {
            Some(selected) => selected,
            None => return None,
        };
        Some(
            Report {
                eligible_decisions: eligible,
                both_legs_covered: covered,
                coverage_bps,
                assumed_taker_fee_rate: fee.rate,
                funnel,
                selected,
            },
        )
    }
}

// ---------------------------------------------------------------------------
// Laws of the replay
// ---------------------------------------------------------------------------

/// Recorded levels are read level by level, each by its own price and size, and not
/// at all where one of them is unreadable.
pub proof fn law_recorded_levels_are_read(levels: Seq<BookLevel>)
    ensures
        match levels_of(levels) {
            Some(read) => read.len() == levels.len() && forall|i: int|
                0 <= i < levels.len() ==> parsed_decimal((#[trigger] levels[i]).price@) == Some(
                    read[i].price,
                ) && parsed_decimal(levels[i].size@) == Some(read[i].size),
            None => exists|i: int|
                0 <= i < levels.len() && (parsed_decimal((#[trigger] levels[i]).price@) is None
                    || parsed_decimal(levels[i].size@) is None),
        },
    decreases levels.len(),
{
    if levels.len() > 0 {
        let before = levels.drop_last();
        law_recorded_levels_are_read(before);
        assert(levels[levels.len() - 1] == levels.last());
        assert(forall|i: int| 0 <= i < before.len() ==> #[trigger] before[i] == levels[i]);
        assert(forall|i: int| 0 <= i < before.len() ==> before[i] == #[trigger] levels[i]);
        match (levels_of(before), levels_of(levels)) {
            (Some(kept), Some(read)) => {
                assert(forall|i: int| 0 <= i < before.len() ==> #[trigger] read[i] == kept[i]);
            },
            _ => {},
        }
    }
}

/// A snapshot stands for a book of its market and token, as recent as it says, with
/// the levels of its bids and of its asks, each side from the best price on.
pub proof fn law_snapshots_stand_for_their_books(snapshot: BookSnapshot)
    ensures
        book_of(snapshot) matches Some(book) ==> {
            &&& book.market_id == snapshot.market_id@
            &&& book.token_id == snapshot.token_id@
            &&& book.updated_at_ms == snapshot.book_updated_at_ms
            &&& levels_of(snapshot.bids@) matches Some(bids) && bids.to_multiset()
                == book.bids.to_multiset()
            &&& levels_of(snapshot.asks@) matches Some(asks) && asks.to_multiset()
                == book.asks.to_multiset()
            &&& runs_from_the_best(book)
        },
        book_of(snapshot) is None ==> {
            ||| levels_of(snapshot.bids@) is None
            ||| levels_of(snapshot.asks@) is None
            ||| !is_sound(levels_of(snapshot.bids@)->0)
            ||| !is_sound(levels_of(snapshot.asks@)->0)
        },
{
    match (levels_of(snapshot.bids@), levels_of(snapshot.asks@)) {
        (Some(bids), Some(asks)) => {
            lemma_ordered_book(
                BookView {
                    market_id: snapshot.market_id@,
                    token_id: snapshot.token_id@,
                    bids,
                    asks,
                    updated_at_ms: snapshot.book_updated_at_ms,
                },
            );
            if is_sound(bids) && is_sound(asks) {
                assert(are_valid_levels(bids));
                assert(are_valid_levels(asks));
            }
        },
        _ => {},
    }
}

/// Two snapshots make an observation exactly when both stand for books of the
/// condition that are at most so far apart in time; it has those books, each in its
/// place.
pub proof fn law_what_an_observation_is(
    condition_id: Seq<char>,
    observed_at_ms: i64,
    a: BookSnapshot,
    b: BookSnapshot,
    max_skew_ms: u64,
)
    ensures
        match observation_of(condition_id, observed_at_ms, a, b, max_skew_ms) {
            Some(o) => {
                &&& o.condition_id == condition_id
                &&& o.observed_at_ms == observed_at_ms
                &&& book_of(a) == Some(o.book_a)
                &&& book_of(b) == Some(o.book_b)
                &&& a.market_id@ == condition_id
                &&& b.market_id@ == condition_id
                &&& a.book_updated_at_ms - b.book_updated_at_ms <= max_skew_ms
                &&& b.book_updated_at_ms - a.book_updated_at_ms <= max_skew_ms
            },
            None => {
                ||| book_of(a) is None
                ||| book_of(b) is None
                ||| a.market_id@ != condition_id
                ||| b.market_id@ != condition_id
                ||| a.book_updated_at_ms - b.book_updated_at_ms > max_skew_ms
                ||| b.book_updated_at_ms - a.book_updated_at_ms > max_skew_ms
            },
        },
{
}

/// A decision that names its condition and both tokens is eligible; it is covered
/// when both tokens have a snapshot; and the observation that these make is taken
/// the first time that the two are seen for the condition. Any other decision
/// changes nothing.
pub proof fn law_what_a_replayed_decision_adds(
    replay: ReplayView,
    row: CalibrationRow,
    snapshots: Map<Seq<char>, Vec<BookSnapshot>>,
    max_age_ms: u64,
    max_skew_ms: u64,
)
    requires
        replay.eligible < u64::MAX,
        replay.covered < u64::MAX,
    ensures
        ({
            let after = replayed(replay, row, snapshots, max_age_ms, max_skew_ms);
            let named = row.condition_id is Some && row.token_id_a is Some && row.token_id_b is Some;
            let at = row.observed_at_ms;
            let a = preceding_of(snapshots, row.token_id_a->0@, at, max_age_ms);
            let b = preceding_of(snapshots, row.token_id_b->0@, at, max_age_ms);
            let key = (row.condition_id->0@, a->0.sampled_at_ms, b->0.sampled_at_ms);
            let made = observation_of(row.condition_id->0@, at, a->0, b->0, max_skew_ms);
            if !named {
                after == replay
            } else if a is None || b is None {
                &&& after.eligible == replay.eligible + 1
                &&& after.covered == replay.covered
                &&& after.seen == replay.seen
                &&& after.observations == replay.observations
            } else {
                &&& after.eligible == replay.eligible + 1
                &&& after.covered == replay.covered + 1
                &&& after.seen == replay.seen.insert(key)
                &&& after.observations == if !replay.seen.contains(key) && made is Some {
                    replay.observations.push(made->0)
                } else {
                    replay.observations
                }
            }
        }),
{
    let a = preceding_of(snapshots, row.token_id_a->0@, row.observed_at_ms, max_age_ms);
    let b = preceding_of(snapshots, row.token_id_b->0@, row.observed_at_ms, max_age_ms);
    let key = (row.condition_id->0@, a->0.sampled_at_ms, b->0.sampled_at_ms);
    if replay.seen.contains(key) {
        assert(replay.seen.insert(key) =~= replay.seen);
    }
}

/// What an observation offers is the better of buying its asks and selling its bids.
pub proof fn law_observations_offer_the_better_direction(
    o: ObservationView,
    rate: Decimal,
    profitability: ProfitabilityConfig,
    reserves: ReserveConfig,
    risk: RiskConfig,
    bought: Result<Opportunity, Rejection>,
    sold: Result<Opportunity, Rejection>,
)
    requires
        best_found(
            o.book_a.asks,
            o.book_b.asks,
            rate,
            Direction::BuyMerge,
            profitability,
            reserves,
            risk,
        ) == Some(bought),
        best_found(
            o.book_a.bids,
            o.book_b.bids,
            rate,
            Direction::SplitSell,
            profitability,
            reserves,
            risk,
        ) == Some(sold),
    ensures
        offer_on(o, rate, profitability, reserves, risk) matches Some(offer) && match offer {
            Some(best) => {
                let found = Ok::<Opportunity, Rejection>(best);
                &&& bought == found || sold == found
                &&& bought matches Ok(other) ==> is_matched(found, other)
                &&& sold matches Ok(other) ==> is_matched(found, other)
            },
            None => bought is Err && sold is Err,
        },
{
    match (bought, sold) {
        (Ok(a), Ok(b)) => {
            lemma_lt_asymmetric(a.net_profit, b.net_profit);
            lemma_lt_asymmetric(a.capital, b.capital);
            lemma_lt_asymmetric(b.net_profit, b.net_profit);
            lemma_lt_asymmetric(b.capital, b.capital);
        },
        (Ok(a), _) => {
            lemma_lt_asymmetric(a.net_profit, a.net_profit);
            lemma_lt_asymmetric(a.capital, a.capital);
        },
        (_, Ok(b)) => {
            lemma_lt_asymmetric(b.net_profit, b.net_profit);
            lemma_lt_asymmetric(b.capital, b.capital);
        },
        _ => {},
    }
}

/// Each step of the funnel counts the observations that offer something under its
/// terms: at any price and for any profit without fees and reserves on all of the
/// depth, then with fees, then with reserves on the configured share of the depth,
/// and then as configured.
pub proof fn law_the_steps_of_the_funnel(
    observations: Seq<ObservationView>,
    config: RuntimeConfig,
    rate: Decimal,
)
    ensures
        funnel_of(observations, config, rate) matches Some((frictionless, fees, reserves, all))
            ==> {
            let none = zero();
            let any = |share: Decimal|
                ProfitabilityConfig {
                    price_band_enabled: false,
                    minimum_profit: none,
                    minimum_return_bps: none,
                    depth_fraction: share,
                    price_band_low_max: config.profitability.price_band_low_max,
                    price_band_high_min: config.profitability.price_band_high_min,
                };
            let nothing_held = ReserveConfig {
                slippage_bps: none,
                latency: none,
                orphan: none,
                rounding_scale: config.reserves.rounding_scale,
            };
            let share = config.profitability.depth_fraction;
            &&& offering(observations, none, any(one()), nothing_held, config.risk) == Some(
                frictionless,
            )
            &&& offering(observations, rate, any(one()), nothing_held, config.risk) == Some(fees)
            &&& offering(observations, rate, any(share), config.reserves, config.risk) == Some(
                reserves,
            )
            &&& offering(
                observations,
                rate,
                config.profitability,
                config.reserves,
                config.risk,
            ) == Some(all)
        },
{
}

/// The count of observations that offer something grows by one with every one that
/// does; so do the hits, each with what was offered when.
pub proof fn law_offers_are_counted_and_hit(
    observations: Seq<ObservationView>,
    o: ObservationView,
    rate: Decimal,
    profitability: ProfitabilityConfig,
    reserves: ReserveConfig,
    risk: RiskConfig,
)
    ensures
        offering(Seq::empty(), rate, profitability, reserves, risk) == Some(0nat),
        hits_among(Seq::empty(), rate, profitability, reserves, risk) matches Some(none)
            && none.len() == 0,
        ({
            let offer = offer_on(o, rate, profitability, reserves, risk);
            let all = observations.push(o);
            let count = offering(observations, rate, profitability, reserves, risk);
            let hits = hits_among(observations, rate, profitability, reserves, risk);
            let counted = offering(all, rate, profitability, reserves, risk);
            let hit = hits_among(all, rate, profitability, reserves, risk);
            &&& offer is None ==> counted is None && hit is None
            &&& count is None ==> counted is None
            &&& hits is None ==> hit is None
            &&& offer matches Some(None) ==> counted == count && hit == hits
            &&& offer matches Some(Some(found)) ==> {
                &&& count is Some ==> counted == Some(count->0 + 1)
                &&& hits is Some ==> hit is Some && hit->0.drop_last() == hits->0 && {
                    let last = hit->0.last();
                    &&& hit->0.len() == hits->0.len() + 1
                    &&& last.condition_id == o.condition_id
                    &&& last.observed_at_ms == o.observed_at_ms
                    &&& last.direction == found.direction
                    &&& last.profit == found.net_profit
                }
            }
        }),
{
    assert(observations.push(o).drop_last() =~= observations);
    let hits = hits_among(observations, rate, profitability, reserves, risk);
    let hit = hits_among(observations.push(o), rate, profitability, reserves, risk);
    if hits is Some && (offer_on(o, rate, profitability, reserves, risk) matches Some(Some(_))) {
        assert(hit->0.drop_last() =~= hits->0);
    }
}

/// Whether a hit goes on with the episode that began at `start`: of its condition and
/// direction, and at most 45 seconds after the hit before it.
pub open spec fn goes_on(hits: Seq<HitView>, start: int, i: int) -> bool {
    &&& hits[i].condition_id == hits[start].condition_id
    &&& hits[i].direction == hits[start].direction
    &&& hits[i].observed_at_ms - hits[i - 1].observed_at_ms <= 45 * 1_000
}

/// Whether the hits from `start` to before `end` are an episode: every one goes on
/// with it, and the one behind them does not.
pub open spec fn is_episode(hits: Seq<HitView>, start: int, end: int) -> bool {
    &&& 0 <= start < end <= hits.len()
    &&& forall|i: int| start < i < end ==> #[trigger] goes_on(hits, start, i)
    &&& end < hits.len() ==> !goes_on(hits, start, end)
}

proof fn lemma_is_episode(hits: Seq<HitView>, start: int, i: int)
    requires
        0 <= start < i <= hits.len(),
        forall|k: int| start < k < i ==> #[trigger] goes_on(hits, start, k),
    ensures
        is_episode(hits, start, episode_end(hits, start, i)),
    decreases hits.len() - i,
{
    if i < hits.len() && goes_on(hits, start, i) {
        lemma_is_episode(hits, start, i + 1);
    }
}

proof fn lemma_one_end(hits: Seq<HitView>, start: int, a: int, b: int)
    requires
        is_episode(hits, start, a),
        is_episode(hits, start, b),
    ensures
        a == b,
{
    if a < b {
        assert(goes_on(hits, start, a));
    } else if b < a {
        assert(goes_on(hits, start, b));
    }
}

/// Whether a profit is the least among those of the hits from `start` to before
/// `end`.
pub open spec fn is_least_profit(hits: Seq<HitView>, start: int, end: int, least: Decimal) -> bool {
    &&& exists|i: int| start <= i < end && (#[trigger] hits[i]).profit == least
    &&& forall|i: int| start <= i < end ==> !lt((#[trigger] hits[i]).profit, least)
}

proof fn lemma_least_profit(hits: Seq<HitView>, start: int, end: int)
    requires
        0 <= start < end <= hits.len(),
    ensures
        is_least_profit(hits, start, end, least_profit(hits, start, end)),
    decreases end - start,
{
    if end > start + 1 {
        lemma_least_profit(hits, start, end - 1);
        let held = least_profit(hits, start, end - 1);
        let next = hits[end - 1].profit;
        lemma_lt_asymmetric(held, next);
        lemma_lt_asymmetric(next, next);
        let k = choose|k: int| start <= k < end - 1 && (#[trigger] hits[k]).profit == held;
        assert(hits[k].profit == held);
        assert forall|i: int| start <= i < end implies !lt(
            (#[trigger] hits[i]).profit,
            least_profit(hits, start, end),
        ) by {
            if i < end - 1 && lt(next, held) {
                lemma_le_transitive(next, held, hits[i].profit);
            }
        }
    } else {
        assert(hits[start].profit == least_profit(hits, start, end));
        lemma_lt_asymmetric(hits[start].profit, hits[start].profit);
    }
}

/// Episode by episode, one of at least two hits counts once, for its condition, with
/// its least profit; one of a single hit counts for nothing.
pub proof fn law_episodes_are_tallied(hits: Seq<HitView>, start: int, end: int, tally: Tally)
    requires
        is_episode(hits, start, end),
    ensures
        tallied(hits, hits.len() as int, tally) == Some(tally),
        end - start == 1 ==> tallied(hits, start, tally) == tallied(hits, end, tally),
        end - start > 1 ==> exists|least: Decimal| #[trigger]
            is_least_profit(hits, start, end, least) && match sum(tally.total, least) {
                Some(total) => tallied(hits, start, tally) == tallied(
                    hits,
                    end,
                    Tally {
                        episodes: tally.episodes + 1,
                        markets: tally.markets.insert(hits[start].condition_id),
                        total,
                    },
                ),
                None => tallied(hits, start, tally) is None,
            },
{
    lemma_is_episode(hits, start, start + 1);
    lemma_one_end(hits, start, end, episode_end(hits, start, start + 1));
    lemma_least_profit(hits, start, end);
}

/// Episodes are looked for in all hits, in the order of condition, direction and
/// time, starting with nothing.
pub proof fn law_where_episodes_are_looked_for(hits: Seq<Hit>)
    ensures
        exists|ordered: Seq<Hit>| #[trigger]
            ordered.to_multiset() == hits.to_multiset() && tally_of(hit_views(hits)) == tallied(
                hit_views(ordered),
                0,
                Tally { episodes: 0, markets: Set::empty(), total: zero() },
            ) && forall|i: int, j: int|
                0 <= i < j < ordered.len() ==> {
                    let (a, b) = ((#[trigger] ordered[i])@, (#[trigger] ordered[j])@);
                    &&& a.condition_id != b.condition_id ==> !text_before(
                        b.condition_id,
                        a.condition_id,
                    )
                    &&& a.condition_id == b.condition_id && a.direction != b.direction
                        ==> a.direction == Direction::BuyMerge
                    &&& a.condition_id == b.condition_id && a.direction == b.direction
                        ==> a.observed_at_ms <= b.observed_at_ms
                },
{
    let ordered = sorted::<Hit, ByEpisode>(hits);
    law_sorted_is_an_ordered_rearrangement::<Hit, ByEpisode>(hits);
    lemma_sorted_views::<Hit, ByEpisode, HitView>(
        hits,
        |h: Hit| h@,
        |a: HitView, b: HitView| hit_before(a, b),
    );
    assert(ordered.to_multiset() == hits.to_multiset());
    assert forall|i: int, j: int| 0 <= i < j < ordered.len() implies {
        let (a, b) = ((#[trigger] ordered[i])@, (#[trigger] ordered[j])@);
        &&& a.condition_id != b.condition_id ==> !text_before(b.condition_id, a.condition_id)
        &&& a.condition_id == b.condition_id && a.direction != b.direction ==> a.direction
            == Direction::BuyMerge
        &&& a.condition_id == b.condition_id && a.direction == b.direction ==> a.observed_at_ms
            <= b.observed_at_ms
    } by {
        assert(!ByEpisode::before(ordered[j], ordered[i]));
    }
}

/// The time is cut into fifths: what falls into the first three trains, into the
/// fourth validates, into the last is held out.
pub proof fn law_the_parts_of_the_time(time_ms: i64, start_ms: i64, span_ms: int)
    requires
        start_ms <= time_ms,
        time_ms - start_ms <= span_ms,
        0 < span_ms <= i64::MAX,
    ensures
        ({
            let since = time_ms - start_ms;
            part_of(time_ms, start_ms, span_ms) == if 5 * since < 3 * span_ms {
                0int
            } else if 5 * since < 4 * span_ms {
                1
            } else {
                2
            }
        }),
{
    let scaled = clamped_difference(time_ms, start_ms) * 5;
    vstd::arithmetic::div_mod::lemma_fundamental_div_mod(scaled, span_ms);
    vstd::arithmetic::div_mod::lemma_mod_bound(scaled, span_ms);
    let q = scaled / span_ms;
    assert(scaled >= 0);
    assert(q >= 0) by (nonlinear_arith)
        requires
            q == scaled / span_ms,
            scaled >= 0,
            span_ms > 0,
    ;
    assert(q < 3 ==> scaled < 3 * span_ms) by (nonlinear_arith)
        requires
            scaled == span_ms * q + scaled % span_ms,
            0 <= scaled % span_ms < span_ms,
            span_ms > 0,
    ;
    assert(q >= 3 ==> scaled >= 3 * span_ms) by (nonlinear_arith)
        requires
            scaled == span_ms * q + scaled % span_ms,
            0 <= scaled % span_ms,
            span_ms > 0,
    ;
    assert(q < 4 ==> scaled < 4 * span_ms) by (nonlinear_arith)
        requires
            scaled == span_ms * q + scaled % span_ms,
            0 <= scaled % span_ms < span_ms,
            span_ms > 0,
    ;
    assert(q >= 4 ==> scaled >= 4 * span_ms) by (nonlinear_arith)
        requires
            scaled == span_ms * q + scaled % span_ms,
            0 <= scaled % span_ms,
            span_ms > 0,
    ;
}

/// The hits of a part are those whose time falls into it, in their order.
pub proof fn law_the_hits_of_a_part(hits: Seq<HitView>, part: int, start_ms: i64, span_ms: int)
    ensures
        hits_in_part(hits, part, start_ms, span_ms) == hits.filter(
            |h: HitView| part_of(h.observed_at_ms, start_ms, span_ms) == part,
        ),
    decreases hits.len(),
{
    reveal(Seq::filter);
    if hits.len() > 0 {
        law_the_hits_of_a_part(hits.drop_last(), part, start_ms, span_ms);
    } else {
        assert(hits_in_part(hits, part, start_ms, span_ms) =~= hits.filter(
            |h: HitView| part_of(h.observed_at_ms, start_ms, span_ms) == part,
        ));
    }
}

/// Settings make a candidate of how their hits did in each part of the time; it is
/// there exactly when they trained on twenty stable episodes in ten markets and were
/// validated on five in three, and the part held out passes with five in three that
/// earned something.
pub proof fn law_what_makes_a_candidate(
    c: int,
    observations: Seq<ObservationView>,
    rate: Decimal,
    reserves: ReserveConfig,
    risk: RiskConfig,
    start_ms: i64,
    span_ms: int,
    hits: Seq<HitView>,
    train: Tally,
    validation: Tally,
    holdout: Tally,
)
    requires
        hits_among(observations, rate, settings_at(c), reserves, risk) == Some(hits),
        tally_of(hits_in_part(hits, 0, start_ms, span_ms)) == Some(train),
        tally_of(hits_in_part(hits, 1, start_ms, span_ms)) == Some(validation),
        tally_of(hits_in_part(hits, 2, start_ms, span_ms)) == Some(holdout),
        train.episodes <= u64::MAX && train.markets.len() <= u64::MAX,
        validation.episodes <= u64::MAX && validation.markets.len() <= u64::MAX,
        holdout.episodes <= u64::MAX && holdout.markets.len() <= u64::MAX,
    ensures
        candidate_at(c, observations, rate, reserves, risk, start_ms, span_ms) matches Some(made)
            && match made {
            Some(best) => {
                &&& train.episodes >= 20 && train.markets.len() >= 10
                &&& validation.episodes >= 5 && validation.markets.len() >= 3
                &&& best.minimum_profit == settings_at(c).minimum_profit
                &&& best.minimum_return_bps == settings_at(c).minimum_return_bps
                &&& best.depth_fraction == settings_at(c).depth_fraction
                &&& best.price_band == band_label(c)
                &&& best.train.stable_episodes == train.episodes
                &&& best.train.distinct_markets == train.markets.len()
                &&& best.train.total_profit == train.total
                &&& best.validation.stable_episodes == validation.episodes
                &&& best.validation.distinct_markets == validation.markets.len()
                &&& best.validation.total_profit == validation.total
                &&& best.holdout.stable_episodes == holdout.episodes
                &&& best.holdout.distinct_markets == holdout.markets.len()
                &&& best.holdout.total_profit == holdout.total
                &&& best.holdout_pass <==> holdout.episodes >= 5 && holdout.markets.len() >= 3
                    && holdout.total.m() > 0
            },
            None => train.episodes < 20 || train.markets.len() < 10 || validation.episodes < 5
                || validation.markets.len() < 3,
        },
{
    reveal(candidate_at);
}

/// The settings that are tried are all combinations of five price bands, the last of
/// them none, three thresholds on profit, three on return and three shares of the
/// depth.
pub proof fn law_the_settings_that_are_tried(band: int, profit: int, earned: int, share: int)
    requires
        0 <= band < 5,
        0 <= profit < 3,
        0 <= earned < 3,
        0 <= share < 3,
    ensures
        ({
            let c = 27 * band + 9 * profit + 3 * earned + share;
            let terms = settings_at(c);
            let lows = seq![15int, 25, 35, 45];
            let profits = seq![2int, 5, 10];
            let rates = seq![30int, 60, 100];
            let shares = seq![10int, 25, 50];
            &&& 0 <= c < SETTINGS
            &&& terms.price_band_enabled <==> band < 4
            &&& band < 4 ==> terms.price_band_low_max == decimal_of(lows[band], 2)
            &&& band < 4 ==> terms.price_band_high_min == decimal_of(100 - lows[band], 2)
            &&& terms.minimum_profit == decimal_of(profits[profit], 2)
            &&& terms.minimum_return_bps == decimal_of(rates[earned], 0)
            &&& terms.depth_fraction == decimal_of(shares[share], 2)
            &&& band_label(c) == if band == 0 {
                "0.15/0.85"@
            } else if band == 1 {
                "0.25/0.75"@
            } else if band == 2 {
                "0.35/0.65"@
            } else if band == 3 {
                "0.45/0.55"@
            } else {
                "disabled"@
            }
        }),
{
    let c = 27 * band + 9 * profit + 3 * earned + share;
    assert(c / 27 == band);
    assert(c / 9 == 3 * band + profit);
    assert(c / 3 == 9 * band + 3 * profit + earned);
    assert(c / 9 % 3 == profit);
    assert(c / 3 % 3 == earned);
    assert(c % 3 == share);
}

/// Coverage is the share of covered decisions in basis points, rounded down; nothing
/// is selected below 9500 of them, nor without observations.
pub proof fn law_coverage_and_selection(
    eligible: u64,
    covered: u64,
    observations: Seq<ObservationView>,
    config: RuntimeConfig,
    rate: Decimal,
    bps: u64,
)
    requires
        covered <= eligible,
    ensures
        eligible == 0 ==> coverage_in_bps(eligible, covered) == Some(0u64),
        eligible > 0 ==> (coverage_in_bps(eligible, covered) matches Some(share) ==> share
            * eligible <= covered * 10_000 < (share + 1) * eligible),
        bps < 9_500 || observations.len() == 0 ==> selection(observations, config, rate, bps)
            == Some(None::<CandidateView>),
{
    if eligible > 0 {
        let whole = covered * 10_000;
        let e = eligible as int;
        vstd::arithmetic::div_mod::lemma_fundamental_div_mod(whole, e);
        vstd::arithmetic::div_mod::lemma_mod_bound(whole, e);
        let share = whole / e;
        assert(share <= 10_000) by (nonlinear_arith)
            requires
                whole == e * share + whole % e,
                0 <= whole % e,
                whole <= e * 10_000,
                e > 0,
        ;
        assert(share >= 0) by (nonlinear_arith)
            requires
                share == whole / e,
                whole >= 0,
                e > 0,
        ;
        assert(share * e <= whole < (share + 1) * e) by (nonlinear_arith)
            requires
                whole == e * share + whole % e,
                0 <= whole % e < e,
        ;
    }
}

/// The settings that are selected earned the most on validation: no others that were
/// tried earned more, nor as much in more episodes. Nothing is selected, with enough
/// coverage and observations, exactly when no settings make a candidate.
pub proof fn law_selected_settings_earned_the_most(
    c: int,
    observations: Seq<ObservationView>,
    config: RuntimeConfig,
    rate: Decimal,
    coverage_bps: u64,
)
    requires
        0 <= c < 135,
        coverage_bps >= 9_500,
        observations.len() > 0,
    ensures
        ({
            let tried = candidate_at(
                c,
                observations,
                rate,
                config.reserves,
                config.risk,
                observations[0].observed_at_ms,
                span_of(observations),
            );
            match selection(observations, config, rate, coverage_bps) {
                Some(Some(best)) => tried matches Some(Some(other)) ==> {
                    &&& !lt(best.validation.total_profit, other.validation.total_profit)
                    &&& lt(other.validation.total_profit, best.validation.total_profit)
                        || other.validation.stable_episodes <= best.validation.stable_episodes
                },
                Some(None) => tried == Some(None::<CandidateView>),
                None => true,
            }
        }),
{
    lemma_best_candidate(
        c,
        SETTINGS as int,
        observations,
        rate,
        config.reserves,
        config.risk,
        observations[0].observed_at_ms,
        span_of(observations),
    );
}

/// What is selected is what one of the settings that were tried made.
pub proof fn law_selected_settings_were_tried(
    count: int,
    observations: Seq<ObservationView>,
    rate: Decimal,
    reserves: ReserveConfig,
    risk: RiskConfig,
    start_ms: i64,
    span_ms: int,
)
    ensures
        best_candidate(count, observations, rate, reserves, risk, start_ms, span_ms) matches Some(
            Some(best),
        ) ==> exists|c: int|
            0 <= c < count && #[trigger] candidate_at(
                c,
                observations,
                rate,
                reserves,
                risk,
                start_ms,
                span_ms,
            ) == Some(Some(best)),
    decreases count,
{
    if count > 0 {
        law_selected_settings_were_tried(
            count - 1,
            observations,
            rate,
            reserves,
            risk,
            start_ms,
            span_ms,
        );
    }
}

/// Observations in the order of time span from the first to the last of them; at
/// least a millisecond.
pub proof fn law_the_span_of_observations(observations: Seq<ObservationView>)
    requires
        observations.len() > 0,
        observations.last().observed_at_ms - observations[0].observed_at_ms <= i64::MAX,
    ensures
        ({
            let apart = observations.last().observed_at_ms - observations[0].observed_at_ms;
            span_of(observations) == if apart >= 1 {
                apart
            } else {
                1
            }
        }),
{
}

/// A report is on all observations, from the earliest to the latest.
pub proof fn law_observations_are_put_in_order(observations: Seq<Observation>)
    ensures
        exists|ordered: Seq<Observation>| #[trigger]
            ordered.to_multiset() == observations.to_multiset() && observation_views(ordered)
                == in_time_order(observation_views(observations)) && forall|i: int, j: int|
                0 <= i < j < ordered.len() ==> (#[trigger] ordered[i]).observed_at_ms <= (
                #[trigger] ordered[j]).observed_at_ms,
{
    let ordered = sorted::<Observation, ByTime>(observations);
    law_sorted_is_an_ordered_rearrangement::<Observation, ByTime>(observations);
    lemma_sorted_views::<Observation, ByTime, ObservationView>(
        observations,
        |o: Observation| o@,
        |a: ObservationView, b: ObservationView| a.observed_at_ms < b.observed_at_ms,
    );
    assert(ordered.to_multiset() == observations.to_multiset());
    assert forall|i: int, j: int| 0 <= i < j < ordered.len() implies (
    #[trigger] ordered[i]).observed_at_ms <= (#[trigger] ordered[j]).observed_at_ms by {
        assert(!ByTime::before(ordered[j], ordered[i]));
    }
}

} // verus!
