//! The decisions of the strategy, from what it knows to what it does next.

use crate::clob::MarketInfo;
use crate::clob::MarketInfoView;
use crate::collections::StringMap;
use crate::config::ReserveConfig;
use crate::decimal::decimal_text;
use crate::decimal::greater;
use crate::decimal::plus;
use crate::decimal::same;
use crate::decimal::sum_of;
use crate::error::StrategyError;
use crate::gamma::BinaryCryptoMarket;
use crate::gamma::MarketView;
use crate::gate::GateStatus;
use crate::gate::GateStatusView;
use crate::identity::hex;
use crate::identity::hex_text;
use crate::identity::sha256;
use crate::identity::sha256_digest;
use crate::ints::clamped_difference;
use crate::ints::saturating_difference;
use crate::pricing::direction_label;
use crate::pricing::direction_text;
use crate::pricing::fee_problem;
use crate::pricing::validate_fee_metadata;
use crate::pricing::Book;
use crate::pricing::Direction;
use crate::pricing::FeeSchedule;
use crate::pricing::Opportunity;
use crate::text::append_int;
use crate::text::append_nat;
use crate::text::digit_of;
use crate::text::digits_number;
use crate::text::int_text;
use crate::text::nat_text;
use crate::text::same_text;
use crate::decimal::lt;
use crate::decimal::sum;
use crate::pricing::law_when_fees_agree;
use crate::decimal::Decimal;
use crate::text::parsed_int;
use vstd::prelude::*;
use vstd::string::StringExecFns;
use vstd::utf8::encode_utf8;

verus! {

/// After how long an unchanged rejection is recorded again: fifteen minutes.
pub const REJECTION_HEARTBEAT_MS: i64 = 900_000;

// ---------------------------------------------------------------------------
// Episodes
// ---------------------------------------------------------------------------

/// The uninterrupted times in which a market has offered a direction.
#[derive(Debug)]
pub struct EpisodeTracker {
    buys: StringMap<String>,
    sells: StringMap<String>,
    sequence: u64,
}

/// The identifier of an episode.
pub open spec fn episode_text(market_id: Seq<char>, direction: Direction, sequence: u64) -> Seq<
    char,
> {
    market_id + ":"@ + direction_text(direction) + ":"@ + nat_text(sequence as nat)
}

/// The texts of a map.
pub open spec fn text_map(map: Map<Seq<char>, String>) -> Map<Seq<char>, Seq<char>> {
    Map::new(|key: Seq<char>| map.contains_key(key), |key: Seq<char>| map[key]@)
}

/// One more, or the greatest number.
pub open spec fn next_sequence(sequence: u64) -> u64 {
    if sequence == u64::MAX {
        u64::MAX
    } else {
        (sequence + 1) as u64
    }
}

impl Default for EpisodeTracker {
    fn default() -> (r: Self)
        ensures
            forall|direction: Direction| #[trigger]
                r.active(direction) == Map::<Seq<char>, Seq<char>>::empty(),
            r.count() == 0,
    {
        let r = EpisodeTracker { buys: StringMap::new(), sells: StringMap::new(), sequence: 0 };
        proof {
            assert(text_map(r.buys@) =~= Map::<Seq<char>, Seq<char>>::empty());
            assert(text_map(r.sells@) =~= Map::<Seq<char>, Seq<char>>::empty());
        }
        r
    }
}

impl EpisodeTracker {
    /// The identifiers of the running episodes of a direction, by market.
    pub closed spec fn active(self, direction: Direction) -> Map<Seq<char>, Seq<char>> {
        match direction {
            Direction::BuyMerge => text_map(self.buys@),
            Direction::SplitSell => text_map(self.sells@),
        }
    }

    /// How many episodes there have been.
    pub closed spec fn count(self) -> u64 {
        self.sequence
    }

    /// The identifier of the running episode of a market and direction; one that
    /// starts now where none is running.
    pub fn episode(&mut self, market_id: &str, direction: Direction) -> (r: String)
        ensures
            ({
                let running = old(self).active(direction);
                if running.contains_key(market_id@) {
                    &&& r@ == running[market_id@]
                    &&& final(self).active(direction) == running
                    &&& final(self).count() == old(self).count()
                } else {
                    &&& r@ == episode_text(
                        market_id@,
                        direction,
                        next_sequence(old(self).count()),
                    )
                    &&& final(self).active(direction) == running.insert(market_id@, r@)
                    &&& final(self).count() == next_sequence(old(self).count())
                }
            }),
            forall|other: Direction|
                other != direction ==> #[trigger] final(self).active(other) == old(self).active(
                    other,
                ),
    {
        let held = match direction {
            Direction::BuyMerge => self.buys.get(market_id),
            Direction::SplitSell => self.sells.get(market_id),
        };
        if let Some(id) = held {
            return id.clone();
        }
        if self.sequence < u64::MAX {
            self.sequence = self.sequence + 1;
        }
        let mut id = market_id.to_owned();
        id.append(":");
        id.append(direction_label(direction));
        id.append(":");
        append_nat(&mut id, self.sequence);
        let ghost before = *old(self);
        match direction {
            Direction::BuyMerge => {
                self.buys.insert(market_id.to_owned(), id.clone());
                assert(text_map(self.buys@) =~= text_map(before.buys@).insert(market_id@, id@));
            },
            Direction::SplitSell => {
                self.sells.insert(market_id.to_owned(), id.clone());
                assert(text_map(self.sells@) =~= text_map(before.sells@).insert(market_id@, id@));
            },
        }
        id
    }

    /// Ends the episode of a market in the direction other than the given one.
    pub fn close_other_directions(&mut self, market_id: &str, direction: Direction)
        ensures
            final(self).active(direction) == old(self).active(direction),
            forall|other: Direction|
                other != direction ==> #[trigger] final(self).active(other) == old(self).active(
                    other,
                ).remove(market_id@),
            final(self).count() == old(self).count(),
    {
        let ghost before = *old(self);
        match direction {
            Direction::BuyMerge => {
                self.sells.remove(market_id);
                assert(text_map(self.sells@) =~= text_map(before.sells@).remove(market_id@));
            },
            Direction::SplitSell => {
                self.buys.remove(market_id);
                assert(text_map(self.buys@) =~= text_map(before.buys@).remove(market_id@));
            },
        }
    }

    /// Ends the episodes of a market.
    pub fn close_market(&mut self, market_id: &str)
        ensures
            forall|direction: Direction| #[trigger]
                final(self).active(direction) == old(self).active(direction).remove(market_id@),
            final(self).count() == old(self).count(),
    {
        let ghost before = *old(self);
        self.buys.remove(market_id);
        self.sells.remove(market_id);
        proof {
            assert(text_map(self.buys@) =~= text_map(before.buys@).remove(market_id@));
            assert(text_map(self.sells@) =~= text_map(before.sells@).remove(market_id@));
        }
    }
}

proof fn lemma_digit_chars(n: int)
    requires
        0 <= n < 10,
    ensures
        digit_of(crate::text::digit_char(n)) == Some(n as nat),
        crate::text::digit_char(n) != ':',
{
}

proof fn lemma_number_text_is_read_back(n: nat)
    ensures
        digits_number(nat_text(n)) == Some(n),
        forall|i: int| 0 <= i < nat_text(n).len() ==> #[trigger] nat_text(n)[i] != ':',
    decreases n,
{
    if n < 10 {
        lemma_digit_chars(n as int);
        assert(nat_text(n).drop_last() =~= Seq::<char>::empty());
    } else {
        lemma_number_text_is_read_back(n / 10);
        lemma_digit_chars((n % 10) as int);
        assert(nat_text(n).drop_last() =~= nat_text(n / 10));
    }
}

/// Episodes that started at different times have different identifiers,
/// whatever their markets and directions are.
pub proof fn law_episode_ids_are_distinct(
    market_a: Seq<char>,
    direction_a: Direction,
    sequence_a: u64,
    market_b: Seq<char>,
    direction_b: Direction,
    sequence_b: u64,
)
    requires
        sequence_a != sequence_b,
    ensures
        episode_text(market_a, direction_a, sequence_a) != episode_text(
            market_b,
            direction_b,
            sequence_b,
        ),
{
    reveal_strlit(":");
    let x = nat_text(sequence_a as nat);
    let y = nat_text(sequence_b as nat);
    lemma_number_text_is_read_back(sequence_a as nat);
    lemma_number_text_is_read_back(sequence_b as nat);
    let a = episode_text(market_a, direction_a, sequence_a);
    let b = episode_text(market_b, direction_b, sequence_b);
    let head_a = market_a + ":"@ + direction_text(direction_a);
    let head_b = market_b + ":"@ + direction_text(direction_b);
    assert(a == (head_a + ":"@) + x);
    assert(b == (head_b + ":"@) + y);
    assert(a.len() == head_a.len() + 1 + x.len());
    assert(b.len() == head_b.len() + 1 + y.len());
    assert(a[head_a.len() as int] == ':');
    assert(b[head_b.len() as int] == ':');
    if a == b {
        if x.len() < y.len() {
            let i = head_a.len() - head_b.len() - 1;
            assert(b[head_a.len() as int] == y[i]);
        } else if y.len() < x.len() {
            let i = head_b.len() - head_a.len() - 1;
            assert(a[head_b.len() as int] == x[i]);
        } else {
            assert forall|i: int| 0 <= i < x.len() implies x[i] == y[i] by {
                assert(a[head_a.len() + 1 + i] == x[i]);
                assert(b[head_b.len() + 1 + i] == y[i]);
            }
            assert(x =~= y);
        }
    }
}

// ---------------------------------------------------------------------------
// Rejections that repeat
// ---------------------------------------------------------------------------

/// The content of the last recorded rejections, by market.
pub open spec fn heartbeat_map(map: Map<Seq<char>, (String, i64)>) -> Map<
    Seq<char>,
    (Seq<char>, i64),
> {
    Map::new(|key: Seq<char>| map.contains_key(key), |key: Seq<char>| (map[key].0@, map[key].1))
}

/// Whether a rejection repeats the last recorded one of its market within the
/// heartbeat.
pub open spec fn is_repeat(
    heartbeats: Map<Seq<char>, (Seq<char>, i64)>,
    market_id: Seq<char>,
    reason: Seq<char>,
    observed_at_ms: i64,
) -> bool {
    &&& heartbeats.contains_key(market_id)
    &&& heartbeats[market_id].0 == reason
    &&& clamped_difference(observed_at_ms, heartbeats[market_id].1) < REJECTION_HEARTBEAT_MS
}

/// Whether a rejection is to be recorded: when its reason has changed, and on
/// every heartbeat. Notes those that are.
pub fn should_log_rejection(
    heartbeats: &mut StringMap<(String, i64)>,
    market_id: &str,
    reason: &str,
    observed_at_ms: i64,
) -> (r: bool)
    ensures
        r == !is_repeat(heartbeat_map(old(heartbeats)@), market_id@, reason@, observed_at_ms),
        heartbeat_map(final(heartbeats)@) == if r {
            heartbeat_map(old(heartbeats)@).insert(market_id@, (reason@, observed_at_ms))
        } else {
            heartbeat_map(old(heartbeats)@)
        },
{
    let repeated = match heartbeats.get(market_id) {
        Some(last) => same_text(last.0.as_str(), reason) && saturating_difference(
            observed_at_ms,
            last.1,
        ) < REJECTION_HEARTBEAT_MS,
        None => false,
    };
    if repeated {
        return false;
    }
    let ghost before = heartbeats@;
    heartbeats.insert(market_id.to_owned(), (reason.to_owned(), observed_at_ms));
    proof {
        assert(heartbeat_map(heartbeats@) =~= heartbeat_map(before).insert(
            market_id@,
            (reason@, observed_at_ms),
        ));
    }
    true
}

/// A rejection that has just been recorded is not recorded again before the
/// heartbeat, and is again from the heartbeat on; one for another reason is
/// recorded at once.
pub proof fn law_rejections_are_recorded_on_change_or_heartbeat(
    heartbeats: Map<Seq<char>, (Seq<char>, i64)>,
    market_id: Seq<char>,
    reason: Seq<char>,
    recorded_at_ms: i64,
    later_reason: Seq<char>,
    later_ms: i64,
)
    requires
        recorded_at_ms <= later_ms,
    ensures
        is_repeat(
            heartbeats.insert(market_id, (reason, recorded_at_ms)),
            market_id,
            later_reason,
            later_ms,
        ) <==> later_reason == reason && later_ms - recorded_at_ms < REJECTION_HEARTBEAT_MS,
{
}

// ---------------------------------------------------------------------------
// Metadata, identifiers and reserves
// ---------------------------------------------------------------------------

/// What is wrong between a discovered market and its market info.
pub open spec fn metadata_problem(market: MarketView, info: MarketInfoView) -> Option<
    StrategyError,
> {
    if info.token_ids.to_set() != set![market.token_a, market.token_b] {
        Some(StrategyError::TokenMappingMismatch)
    } else if !same(info.tick_size, market.tick_size) {
        Some(StrategyError::TickSizeMismatch)
    } else if !info.accepting_orders {
        Some(StrategyError::NotAcceptingOrders)
    } else {
        fee_problem(
            market.gamma_fee_rate,
            market.gamma_fee_exponent,
            market.gamma_fee_taker_only,
            info.fee_rate,
            info.fee_exponent,
            info.fee_taker_only,
        )
    }
}

fn same_tokens(ids: &Vec<String>, a: &str, b: &str) -> (r: bool)
    ensures
        r == (crate::collections::text_seq(ids@).to_set() == set![a@, b@]),
{
    let ghost texts = crate::collections::text_seq(ids@);
    let mut has_a = false;
    let mut has_b = false;
    let mut i: usize = 0;
    while i < ids.len()
        invariant
            i <= ids@.len(),
            texts == crate::collections::text_seq(ids@),
            has_a <==> exists|j: int| 0 <= j < i && #[trigger] texts[j] == a@,
            has_b <==> exists|j: int| 0 <= j < i && #[trigger] texts[j] == b@,
            forall|j: int| 0 <= j < i ==> #[trigger] texts[j] == a@ || texts[j] == b@,
        decreases ids@.len() - i,
    {
        let is_a = same_text(ids[i].as_str(), a);
        let is_b = same_text(ids[i].as_str(), b);
        assert(texts[i as int] == ids@[i as int]@);
        if !is_a && !is_b {
            proof {
                assert(texts.contains(texts[i as int]));
                assert(texts.to_set().contains(texts[i as int]));
            }
            return false;
        }
        has_a = has_a || is_a;
        has_b = has_b || is_b;
        i += 1;
    }
    proof {
        if has_a && has_b {
            assert(texts.to_set() =~= set![a@, b@]);
        } else {
            assert(set![a@, b@].contains(a@) && set![a@, b@].contains(b@));
            assert(texts.to_set().contains(a@) <==> texts.contains(a@));
            assert(texts.to_set().contains(b@) <==> texts.contains(b@));
        }
    }
    has_a && has_b
}

/// The fee schedule of a market, where its market info agrees with what was
/// discovered.
pub fn validate_market_info(market: &BinaryCryptoMarket, info: &MarketInfo) -> (r: Result<
    FeeSchedule,
    StrategyError,
>)
    ensures
        match r {
            Ok(fees) => metadata_problem(market@, info@) is None && market.gamma_fee_rate == Some(
                fees.rate,
            ),
            Err(e) => metadata_problem(market@, info@) == Some(e),
        },
{
    if !same_tokens(
        &info.token_ids,
        market.outcomes[0].token_id.as_str(),
        market.outcomes[1].token_id.as_str(),
    ) {
        return Err(StrategyError::TokenMappingMismatch);
    }
    if info.tick_size != market.tick_size {
        return Err(StrategyError::TickSizeMismatch);
    }
    if !info.accepting_orders {
        return Err(StrategyError::NotAcceptingOrders);
    }
    validate_fee_metadata(
        market.gamma_fee_rate,
        market.gamma_fee_exponent,
        market.gamma_fee_taker_only,
        info.fee_rate,
        info.fee_exponent,
        info.fee_taker_only,
    )
}

/// What identifies a signal: market, direction, quantity and the times of both
/// books.
pub open spec fn signal_text(
    market_id: Seq<char>,
    opportunity: Opportunity,
    book_a_ms: i64,
    book_b_ms: i64,
) -> Seq<char> {
    market_id + ":"@ + direction_text(opportunity.direction) + ":"@ + decimal_text(
        opportunity.quantity,
    ) + ":"@ + int_text(book_a_ms as int) + ":"@ + int_text(book_b_ms as int)
}

/// The identifier of a signal.
pub open spec fn signal_id(
    market_id: Seq<char>,
    opportunity: Opportunity,
    book_a_ms: i64,
    book_b_ms: i64,
) -> Seq<char> {
    "beta:"@ + hex_text(
        sha256_digest(encode_utf8(signal_text(market_id, opportunity, book_a_ms, book_b_ms))),
    )
}

/// What the identifier of a signal is made from: the market, the direction, the
/// quantity and when the books were taken.
pub fn signal_source(
    market_id: &str,
    opportunity: &Opportunity,
    book_a_ms: i64,
    book_b_ms: i64,
) -> (r: String)
    ensures
        r@ == signal_text(market_id@, *opportunity, book_a_ms, book_b_ms),
{
    let mut raw = market_id.to_owned();
    raw.append(":");
    raw.append(direction_label(opportunity.direction));
    raw.append(":");
    raw.append(opportunity.quantity.text().as_str());
    raw.append(":");
    append_int(&mut raw, book_a_ms);
    raw.append(":");
    append_int(&mut raw, book_b_ms);
    raw
}

/// The identifier that a digest gives a signal.
pub fn signal_name(digest: &Vec<u8>) -> (r: String)
    ensures
        r@ == "beta:"@ + hex_text(digest@),
{
    let mut id = "beta:".to_owned();
    id.append(hex(digest).as_str());
    id
}

/// The identifier of a signal: the same for the same market, direction, quantity
/// and books.
pub fn stable_signal_id(
    market: &BinaryCryptoMarket,
    opportunity: &Opportunity,
    book_a: &Book,
    book_b: &Book,
) -> (r: String)
    ensures
        r@ == signal_id(
            market.market_id@,
            *opportunity,
            book_a.updated_at_ms,
            book_b.updated_at_ms,
        ),
{
    let raw = signal_source(
        market.market_id.as_str(),
        opportunity,
        book_a.updated_at_ms,
        book_b.updated_at_ms,
    );
    signal_name(&sha256(raw.as_str()))
}

/// The configured reserves, raised by what a gate has learned; `None` where a
/// number leaves the range of decimals.
pub open spec fn reserves_with(configured: ReserveConfig, gate: Option<GateStatusView>) -> Option<
    ReserveConfig,
> {
    match gate {
        None => Some(configured),
        Some(status) => match plus(
            plus(Some(configured.latency), Some(status.reserves.slippage_p99)),
            Some(status.reserves.latency_p99),
        ) {
            Some(latency) => Some(
                ReserveConfig {
                    latency,
                    orphan: greater(configured.orphan, status.reserves.orphan_p99),
                    ..configured
                },
            ),
            None => None,
        },
    }
}

/// The content of a status that may be missing.
pub open spec fn status_view(status: Option<&GateStatus>) -> Option<GateStatusView> {
    match status {
        Some(s) => Some(s@),
        None => None,
    }
}

pub(crate) fn checked_effective_reserves(
    configured: &ReserveConfig,
    gate: Option<&GateStatus>,
) -> (r: Option<ReserveConfig>)
    ensures
        r == reserves_with(*configured, status_view(gate)),
{
    match gate {
        None => Some(*configured),
        Some(status) => match sum_of(
            sum_of(Some(configured.latency), Some(status.reserves.slippage_p99)),
            Some(status.reserves.latency_p99),
        ) {
            Some(latency) => Some(
                ReserveConfig {
                    slippage_bps: configured.slippage_bps,
                    latency,
                    orphan: configured.orphan.max(status.reserves.orphan_p99),
                    rounding_scale: configured.rounding_scale,
                },
            ),
            None => None,
        },
    }
}

/// The configured reserves, raised by what a gate has learned.
pub fn effective_reserves(configured: &ReserveConfig, gate: Option<&GateStatus>) -> (r:
    ReserveConfig)
    requires
        reserves_with(*configured, status_view(gate)) is Some,
    ensures
        Some(r) == reserves_with(*configured, status_view(gate)),
{
    checked_effective_reserves(configured, gate).unwrap()
}

/// [`effective_reserves`], where every number stays in the range of decimals.
pub fn try_effective_reserves(configured: &ReserveConfig, gate: Option<&GateStatus>) -> (r: Option<
    ReserveConfig,
>)
    ensures
        r == reserves_with(*configured, status_view(gate)),
{
    match checked_effective_reserves(configured, gate) {
        Some(_) => Some(effective_reserves(configured, gate)),
        None => None,
    }
}

// ---------------------------------------------------------------------------
// Laws
// ---------------------------------------------------------------------------

/// Market info agrees with a market exactly when it names the same two tokens and no
/// other, has the same tick size, takes orders, and has the same fees; the first of
/// these that fails is the problem.
pub proof fn law_when_market_info_agrees(market: MarketView, info: MarketInfoView)
    ensures
        ({
            let tokens = info.token_ids.contains(market.token_a) && info.token_ids.contains(
                market.token_b,
            ) && forall|i: int|
                0 <= i < info.token_ids.len() ==> #[trigger] info.token_ids[i] == market.token_a
                    || info.token_ids[i] == market.token_b;
            let fees = fee_problem(
                market.gamma_fee_rate,
                market.gamma_fee_exponent,
                market.gamma_fee_taker_only,
                info.fee_rate,
                info.fee_exponent,
                info.fee_taker_only,
            );
            let problem = metadata_problem(market, info);
            &&& problem == Some(StrategyError::TokenMappingMismatch) <==> !tokens
            &&& tokens && !same(info.tick_size, market.tick_size) ==> problem == Some(
                StrategyError::TickSizeMismatch,
            )
            &&& tokens && same(info.tick_size, market.tick_size) && !info.accepting_orders
                ==> problem == Some(StrategyError::NotAcceptingOrders)
            &&& tokens && same(info.tick_size, market.tick_size) && info.accepting_orders
                ==> problem == fees
        }),
{
    let named = info.token_ids.to_set();
    let expected = set![market.token_a, market.token_b];
    let ids = info.token_ids;
    if named == expected {
        assert(expected.contains(market.token_a) && expected.contains(market.token_b));
        assert forall|i: int| 0 <= i < ids.len() implies #[trigger] ids[i] == market.token_a
            || ids[i] == market.token_b by {
            assert(ids.contains(ids[i]));
            assert(named.contains(ids[i]));
        }
    }
    if ids.contains(market.token_a) && ids.contains(market.token_b) && forall|i: int|
        0 <= i < ids.len() ==> #[trigger] ids[i] == market.token_a || ids[i] == market.token_b {
        assert(named =~= expected);
    }
    law_when_fees_agree(
        market.gamma_fee_rate,
        market.gamma_fee_exponent,
        market.gamma_fee_taker_only,
        info.fee_rate,
        info.fee_exponent,
        info.fee_taker_only,
    );
}

/// A gate that has learned raises the reserves for latency by the slippage and the
/// latency that it has seen, and that for orphans to what they have cost, where that
/// is more; without one the configured reserves stay.
pub proof fn law_learned_reserves_raise_the_configured_ones(
    configured: ReserveConfig,
    gate: GateStatusView,
)
    ensures
        reserves_with(configured, None) == Some(configured),
        reserves_with(configured, Some(gate)) matches Some(raised) ==> {
            &&& plus(
                sum(configured.latency, gate.reserves.slippage_p99),
                Some(gate.reserves.latency_p99),
            ) == Some(raised.latency)
            &&& raised.slippage_bps == configured.slippage_bps
            &&& raised.rounding_scale == configured.rounding_scale
            &&& !lt(raised.orphan, configured.orphan)
            &&& !lt(raised.orphan, gate.reserves.orphan_p99)
            &&& raised.orphan == configured.orphan || raised.orphan == gate.reserves.orphan_p99
        },
        reserves_with(configured, Some(gate)) is None ==> plus(
            sum(configured.latency, gate.reserves.slippage_p99),
            Some(gate.reserves.latency_p99),
        ) is None,
{
    crate::decimal::lemma_lt_asymmetric(configured.orphan, gate.reserves.orphan_p99);
    crate::decimal::lemma_lt_asymmetric(configured.orphan, configured.orphan);
    crate::decimal::lemma_lt_asymmetric(gate.reserves.orphan_p99, gate.reserves.orphan_p99);
}

/// The sequence of episodes counts up by one, and stops at the greatest number.
pub proof fn law_sequences_count_up(sequence: u64)
    ensures
        sequence < u64::MAX ==> next_sequence(sequence) == sequence + 1,
        next_sequence(u64::MAX) == u64::MAX,
{
}

/// Whether a text holds no colon.
pub open spec fn is_free_of_colons(text: Seq<char>) -> bool {
    forall|i: int| 0 <= i < text.len() ==> #[trigger] text[i] != ':'
}

proof fn lemma_split_at_colon(x: Seq<char>, rest: Seq<char>, y: Seq<char>, other: Seq<char>)
    requires
        is_free_of_colons(x),
        is_free_of_colons(y),
        x + ":"@ + rest == y + ":"@ + other,
    ensures
        x == y,
        rest == other,
{
    reveal_strlit(":");
    let a = x + ":"@ + rest;
    let b = y + ":"@ + other;
    assert(a[x.len() as int] == ':');
    assert(b[y.len() as int] == ':');
    if x.len() < y.len() {
        assert(b[x.len() as int] == y[x.len() as int]);
    } else if y.len() < x.len() {
        assert(a[y.len() as int] == x[y.len() as int]);
    } else {
        assert forall|i: int| 0 <= i < x.len() implies x[i] == y[i] by {
            assert(a[i] == x[i]);
            assert(b[i] == y[i]);
        }
        assert(x =~= y);
        assert(rest =~= a.skip((x.len() + 1) as int));
        assert(other =~= b.skip((y.len() + 1) as int));
    }
}

proof fn lemma_padded_digits(n: nat, width: nat)
    ensures
        is_free_of_colons(crate::decimal::padded_digits(n, width)),
    decreases width,
{
    if width > 0 {
        lemma_padded_digits(n / 10, (width - 1) as nat);
        lemma_digit_chars((n % 10) as int);
    }
}

proof fn lemma_decimal_text_has_no_colon(d: Decimal)
    ensures
        is_free_of_colons(decimal_text(d)),
{
    let n = crate::decimal::abs_int(d.m()) as nat;
    let unit = crate::decimal::ten_to(d.s()) as nat;
    lemma_number_text_is_read_back(n / unit);
    lemma_padded_digits(n % unit, d.s());
}

proof fn lemma_int_text(n: int)
    ensures
        is_free_of_colons(int_text(n)),
        n < 0 <==> int_text(n)[0] == '-',
        n >= 0 ==> digits_number(int_text(n)) == Some(n as nat),
        n < 0 ==> digits_number(int_text(n).drop_first()) == Some((-n) as nat),
{
    reveal_strlit("-");
    if n < 0 {
        lemma_number_text_is_read_back((-n) as nat);
        assert(int_text(n).drop_first() =~= nat_text((-n) as nat));
    } else {
        lemma_number_text_is_read_back(n as nat);
        lemma_nat_text_starts_with_a_digit(n as nat);
    }
}

proof fn lemma_nat_text_starts_with_a_digit(n: nat)
    ensures
        nat_text(n).len() > 0,
        digit_of(nat_text(n)[0]) is Some,
    decreases n,
{
    if n < 10 {
        lemma_digit_chars(n as int);
    } else {
        lemma_nat_text_starts_with_a_digit(n / 10);
        lemma_digit_chars((n % 10) as int);
    }
}

proof fn lemma_regroup(
    head: Seq<char>,
    p: Seq<char>,
    x: Seq<char>,
    s: Seq<char>,
    u: Seq<char>,
)
    ensures
        head + ":"@ + p + ":"@ + x + ":"@ + s + ":"@ + u == (head + ":"@) + (p + ":"@ + (x + ":"@
            + (s + ":"@ + u))),
{
    assert(head + ":"@ + p + ":"@ + x + ":"@ + s + ":"@ + u =~= (head + ":"@) + (p + ":"@ + (x
        + ":"@ + (s + ":"@ + u))));
}

proof fn lemma_same_tail(head: Seq<char>, left: Seq<char>, right: Seq<char>)
    requires
        head + left == head + right,
    ensures
        left == right,
{
    assert(left =~= (head + left).skip(head.len() as int));
    assert(right =~= (head + right).skip(head.len() as int));
}

proof fn lemma_parts_between_colons(
    head: Seq<char>,
    p: Seq<char>,
    x: Seq<char>,
    s: Seq<char>,
    u: Seq<char>,
    q: Seq<char>,
    y: Seq<char>,
    t: Seq<char>,
    v: Seq<char>,
)
    requires
        head + ":"@ + p + ":"@ + x + ":"@ + s + ":"@ + u == head + ":"@ + q + ":"@ + y + ":"@ + t
            + ":"@ + v,
        is_free_of_colons(p) && is_free_of_colons(q),
        is_free_of_colons(x) && is_free_of_colons(y),
        is_free_of_colons(s) && is_free_of_colons(t),
    ensures
        p == q && x == y && s == t && u == v,
{
    lemma_regroup(head, p, x, s, u);
    lemma_regroup(head, q, y, t, v);
    lemma_same_tail(
        head + ":"@,
        p + ":"@ + (x + ":"@ + (s + ":"@ + u)),
        q + ":"@ + (y + ":"@ + (t + ":"@ + v)),
    );
    lemma_split_at_colon(p, x + ":"@ + (s + ":"@ + u), q, y + ":"@ + (t + ":"@ + v));
    lemma_split_at_colon(x, s + ":"@ + u, y, t + ":"@ + v);
    lemma_split_at_colon(s, u, t, v);
}

proof fn lemma_direction_texts(a: Direction, b: Direction)
    ensures
        is_free_of_colons(direction_text(a)),
        direction_text(a) == direction_text(b) ==> a == b,
{
    reveal_strlit("buy_merge");
    reveal_strlit("split_sell");
    assert("buy_merge"@.len() != "split_sell"@.len());
}

proof fn lemma_int_texts(a: int, b: int)
    ensures
        is_free_of_colons(int_text(a)),
        int_text(a) == int_text(b) ==> a == b,
{
    lemma_int_text(a);
    lemma_int_text(b);
}

/// Two signals of one market are made from the same text exactly when they have the
/// same direction, the same quantity in decimal notation, and the same times of both
/// books.
pub proof fn law_signals_are_told_apart(
    market_id: Seq<char>,
    a: Opportunity,
    a_first_ms: i64,
    a_second_ms: i64,
    b: Opportunity,
    b_first_ms: i64,
    b_second_ms: i64,
)
    ensures
        signal_text(market_id, a, a_first_ms, a_second_ms) == signal_text(
            market_id,
            b,
            b_first_ms,
            b_second_ms,
        ) <==> a.direction == b.direction && decimal_text(a.quantity) == decimal_text(b.quantity)
            && a_first_ms == b_first_ms && a_second_ms == b_second_ms,
{
    if signal_text(market_id, a, a_first_ms, a_second_ms) == signal_text(
        market_id,
        b,
        b_first_ms,
        b_second_ms,
    ) {
        lemma_direction_texts(a.direction, b.direction);
        lemma_direction_texts(b.direction, a.direction);
        lemma_decimal_text_has_no_colon(a.quantity);
        lemma_decimal_text_has_no_colon(b.quantity);
        lemma_int_texts(a_first_ms as int, b_first_ms as int);
        lemma_int_texts(b_first_ms as int, a_first_ms as int);
        lemma_int_texts(a_second_ms as int, b_second_ms as int);
        lemma_parts_between_colons(
            market_id,
            direction_text(a.direction),
            decimal_text(a.quantity),
            int_text(a_first_ms as int),
            int_text(a_second_ms as int),
            direction_text(b.direction),
            decimal_text(b.quantity),
            int_text(b_first_ms as int),
            int_text(b_second_ms as int),
        );
    }
}

/// Every integer is read back from its own text.
pub proof fn law_integers_are_read_back(n: i64)
    ensures
        parsed_int(int_text(n as int)) == Some(n),
{
    lemma_int_text(n as int);
    if n < 0 {
        lemma_nat_text_starts_with_a_digit((-n) as nat);
        assert(int_text(n as int).drop_first() =~= nat_text((-n) as nat));
    } else {
        lemma_nat_text_starts_with_a_digit(n as nat);
    }
}

} // verus!
