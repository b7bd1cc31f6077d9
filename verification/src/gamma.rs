//! Market discovery: the documents that list markets, and which of them count.

use crate::collections::texts_ascend;
use crate::decimal::Decimal;
use crate::error::StrategyError;
use crate::ints::clamped_difference;
use crate::ints::saturating_difference;
use crate::ints::wrap_to_i64;
use crate::ints::wrapped_to_i64;
use crate::json::array_in;
use crate::json::as_array;
use crate::json::as_bool;
use crate::json::as_decimal;
use crate::json::as_lenient_int;
use crate::json::as_str;
use crate::json::as_text;
use crate::json::bool_in;
use crate::json::decimal_in;
use crate::json::field_named;
use crate::json::json_view;
use crate::json::lenient_int_in;
use crate::json::parse_json;
use crate::json::parsed_json;
use crate::json::str_in;
use crate::json::text_in;
use crate::json::view_in;
use crate::json::views_of;
use crate::json::Json;
use crate::json::JsonView;
use crate::sorting::in_order;
use crate::sorting::law_sorted_is_an_ordered_rearrangement;
use crate::sorting::sorted;
use crate::sorting::stable_sort;
use crate::sorting::SortOrder;
use crate::text::append_nat;
use crate::text::is_blank;
use crate::text::is_blank_text;
use crate::text::lemma_text_order_total;
use crate::text::lemma_text_order_transitive;
use crate::text::nat_text;
use crate::text::same_ignoring_case;
use crate::text::same_text;
use crate::text::sorts_before;
use crate::text::text_before;
use crate::text::to_upper;
use crate::text::upper_text;
use vstd::prelude::*;
use vstd::string::StrSliceExecFns;

verus! {

/// One outcome of a market.
#[derive(Debug, PartialEq, Eq)]
pub struct OutcomeToken {
    pub label: String,
    pub token_id: String,
}

impl Clone for OutcomeToken {
    fn clone(&self) -> (r: Self)
        ensures
            r == *self,
    {
        OutcomeToken { label: self.label.clone(), token_id: self.token_id.clone() }
    }
}

/// A market with two complementary outcomes.
#[derive(Debug, PartialEq, Eq)]
pub struct BinaryCryptoMarket {
    pub market_id: String,
    pub condition_id: String,
    pub question: String,
    pub rules: String,
    pub underlying: String,
    pub outcomes: [OutcomeToken; 2],
    pub start_time_ms: Option<i64>,
    pub end_time_ms: i64,
    pub tick_size: Decimal,
    pub min_order_size: Decimal,
    pub neg_risk: bool,
    pub gamma_fee_rate: Option<Decimal>,
    pub gamma_fee_exponent: Option<i64>,
    pub gamma_fee_taker_only: Option<bool>,
    pub active: bool,
    pub accepting_orders: bool,
}

/// The content of a [`BinaryCryptoMarket`].
pub struct MarketView {
    pub market_id: Seq<char>,
    pub condition_id: Seq<char>,
    pub question: Seq<char>,
    pub rules: Seq<char>,
    pub underlying: Seq<char>,
    pub label_a: Seq<char>,
    pub token_a: Seq<char>,
    pub label_b: Seq<char>,
    pub token_b: Seq<char>,
    pub start_time_ms: Option<i64>,
    pub end_time_ms: i64,
    pub tick_size: Decimal,
    pub min_order_size: Decimal,
    pub neg_risk: bool,
    pub gamma_fee_rate: Option<Decimal>,
    pub gamma_fee_exponent: Option<i64>,
    pub gamma_fee_taker_only: Option<bool>,
    pub active: bool,
    pub accepting_orders: bool,
}

impl View for BinaryCryptoMarket {
    type V = MarketView;

    open spec fn view(&self) -> MarketView {
        MarketView {
            market_id: self.market_id@,
            condition_id: self.condition_id@,
            question: self.question@,
            rules: self.rules@,
            underlying: self.underlying@,
            label_a: self.outcomes@[0].label@,
            token_a: self.outcomes@[0].token_id@,
            label_b: self.outcomes@[1].label@,
            token_b: self.outcomes@[1].token_id@,
            start_time_ms: self.start_time_ms,
            end_time_ms: self.end_time_ms,
            tick_size: self.tick_size,
            min_order_size: self.min_order_size,
            neg_risk: self.neg_risk,
            gamma_fee_rate: self.gamma_fee_rate,
            gamma_fee_exponent: self.gamma_fee_exponent,
            gamma_fee_taker_only: self.gamma_fee_taker_only,
            active: self.active,
            accepting_orders: self.accepting_orders,
        }
    }
}

/// Not over yet, and ending within the horizon.
pub open spec fn ends_within(end_time_ms: i64, now_ms: i64, max_horizon_ms: u64) -> bool {
    &&& end_time_ms > now_ms
    &&& clamped_difference(end_time_ms, now_ms) <= wrapped_to_i64(max_horizon_ms)
}

fn is_within(end_time_ms: i64, now_ms: i64, max_horizon_ms: u64) -> (r: bool)
    ensures
        r == ends_within(end_time_ms, now_ms, max_horizon_ms),
{
    end_time_ms > now_ms && saturating_difference(end_time_ms, now_ms) <= wrap_to_i64(
        max_horizon_ms,
    )
}

/// Active, taking orders, started, and ending within the horizon.
pub open spec fn is_subscribable(market: MarketView, now_ms: i64, max_horizon_ms: u64) -> bool {
    &&& market.active
    &&& market.accepting_orders
    &&& market.start_time_ms matches Some(start) ==> start <= now_ms
    &&& ends_within(market.end_time_ms, now_ms, max_horizon_ms)
}

impl BinaryCryptoMarket {
    /// Whether the books of the market are to be followed now.
    pub fn subscribable(&self, now_ms: i64, max_horizon_ms: u64) -> (r: bool)
        ensures
            r == is_subscribable(self@, now_ms, max_horizon_ms),
    {
        let started = match self.start_time_ms {
            Some(start) => start <= now_ms,
            None => true,
        };
        self.active && self.accepting_orders && started && is_within(
            self.end_time_ms,
            now_ms,
            max_horizon_ms,
        )
    }
}

// ---------------------------------------------------------------------------
// Timestamps
// ---------------------------------------------------------------------------

/// What the `time` crate makes of an RFC 3339 text, in nanoseconds since 1970;
/// `None` is its error.
pub uninterp spec fn parsed_instant(text: Seq<char>) -> Option<i128>;

/// The RFC 3339 text that the `time` crate gives a number of nanoseconds since
/// 1970: the outer `None` where it has no such instant, the inner one where it
/// cannot write it.
pub uninterp spec fn instant_text(nanos: i128) -> Option<Option<Seq<char>>>;

/// `time::OffsetDateTime::parse` with `Rfc3339`, and `unix_timestamp_nanos` of
/// what it gives: a function of the text. Which texts it accepts is not stated.
#[verifier::external_body]
pub(crate) fn parse_instant(text: &str) -> (r: Option<i128>)
    ensures
        r == parsed_instant(text@),
{
    let format = &time::format_description::well_known::Rfc3339;
    match time::OffsetDateTime::parse(text, format) {
        Ok(instant) => Some(instant.unix_timestamp_nanos()),
        Err(_) => None,
    }
}

/// `time::OffsetDateTime::from_unix_timestamp_nanos`, and `format` with `Rfc3339`
/// of what it gives.
///
/// Claimed of them: they are a function of the number, and they succeed from
/// the beginning of the year 0 to the end of the year 9999. The text itself is
/// not stated.
#[verifier::external_body]
pub(crate) fn format_instant(nanos: i128) -> (r: Option<Option<String>>)
    ensures
        match r {
            Some(Some(text)) => instant_text(nanos) == Some(Some(text@)),
            Some(None) => instant_text(nanos) == Some(None::<Seq<char>>),
            None => instant_text(nanos) is None,
        },
        -62_167_219_200_000_000_000 <= nanos <= 253_402_300_799_999_999_999 ==> r matches Some(
            Some(_),
        ),
{
    let format = &time::format_description::well_known::Rfc3339;
    match time::OffsetDateTime::from_unix_timestamp_nanos(nanos) {
        Ok(instant) => Some(instant.format(format).ok()),
        Err(_) => None,
    }
}

/// The RFC 3339 text of a number of milliseconds since 1970.
pub open spec fn instant_text_of_ms(timestamp_ms: i64) -> Option<Option<Seq<char>>> {
    instant_text((timestamp_ms * 1_000_000) as i128)
}

/// A timestamp in milliseconds as an RFC 3339 text.
pub fn rfc3339(timestamp_ms: i64) -> (r: Result<String, StrategyError>)
    ensures
        match r {
            Ok(text) => instant_text_of_ms(timestamp_ms) == Some(Some(text@)),
            Err(e) => {
                ||| instant_text_of_ms(timestamp_ms) is None && e == StrategyError::TimestampOutOfRange
                ||| instant_text_of_ms(timestamp_ms) == Some(None::<Seq<char>>) && e
                    == StrategyError::TimestampUnformattable
            },
        },
        -62_167_219_200_000 <= timestamp_ms <= 253_402_300_799_999 ==> r is Ok,
{
    let nanos: i128 = timestamp_ms as i128 * 1_000_000;
    match format_instant(nanos) {
        Some(Some(text)) => Ok(text),
        Some(None) => Err(StrategyError::TimestampUnformattable),
        None => Err(StrategyError::TimestampOutOfRange),
    }
}

/// Nanoseconds in whole milliseconds, cut off towards zero, where they fit.
pub open spec fn nanos_in_ms(nanos: i128) -> Option<i64> {
    let ms = if nanos < 0 {
        -((-nanos) / 1_000_000)
    } else {
        nanos / 1_000_000
    };
    if i64::MIN <= ms <= i64::MAX {
        Some(ms as i64)
    } else {
        None
    }
}

fn to_ms(nanos: i128) -> (r: Option<i64>)
    ensures
        r == nanos_in_ms(nanos),
{
    let ms: i128 = nanos / 1_000_000;
    if i64::MIN as i128 <= ms && ms <= i64::MAX as i128 {
        Some(ms as i64)
    } else {
        None
    }
}

/// The timestamp in a field: milliseconds, or an RFC 3339 text; nothing where
/// the field is missing or null; the outer `None` where it is anything else.
pub open spec fn instant_in(json: Option<JsonView>) -> Option<Option<i64>> {
    match json {
        None => Some(None),
        Some(JsonView::Null) => Some(None),
        Some(JsonView::Number(_, Some(ms))) => Some(Some(ms)),
        Some(JsonView::Text(text)) => match parsed_instant(text) {
            Some(nanos) => match nanos_in_ms(nanos) {
                Some(ms) => Some(Some(ms)),
                None => None,
            },
            None => None,
        },
        Some(_) => None,
    }
}

fn optional_timestamp(json: Option<&Json>) -> (r: Option<Option<i64>>)
    ensures
        r == instant_in(view_in(json)),
{
    match json {
        None => Some(None),
        Some(Json::Null) => Some(None),
        Some(Json::Number(n)) => match n.whole {
            Some(ms) => Some(Some(ms)),
            None => None,
        },
        Some(Json::Text(text)) => match parse_instant(text.as_str()) {
            Some(nanos) => match to_ms(nanos) {
                Some(ms) => Some(Some(ms)),
                None => None,
            },
            None => None,
        },
        Some(_) => None,
    }
}

// ---------------------------------------------------------------------------
// Fields of a market
// ---------------------------------------------------------------------------

/// The texts of strings and numbers; `None` where one is neither.
pub open spec fn texts_in(items: Seq<JsonView>) -> Option<Seq<Seq<char>>>
    decreases items.len(),
{
    if items.len() == 0 {
        Some(Seq::empty())
    } else {
        match (texts_in(items.drop_last()), text_in(Some(items.last()))) {
            (Some(before), Some(text)) => Some(before.push(text)),
            _ => None,
        }
    }
}

/// The texts in an array, or in a string that encodes one.
pub open spec fn text_array_in(json: Option<JsonView>) -> Option<Seq<Seq<char>>> {
    let array = match str_in(json) {
        Some(encoded) => array_in(parsed_json(encoded)),
        None => array_in(json),
    };
    match array {
        Some(items) => texts_in(items),
        None => None,
    }
}

proof fn lemma_texts_prefix(items: Seq<JsonView>, n: int)
    requires
        0 <= n <= items.len(),
        texts_in(items.take(n)) is None,
    ensures
        texts_in(items) is None,
    decreases items.len() - n,
{
    if n == items.len() {
        assert(items.take(n) =~= items);
    } else {
        assert(items.take(n + 1).drop_last() =~= items.take(n));
        lemma_texts_prefix(items, n + 1);
    }
}

fn array_texts(items: &Vec<Json>) -> (r: Option<Vec<String>>)
    ensures
        match r {
            Some(texts) => texts_in(views_of(items@)) == Some(
                crate::collections::text_seq(texts@),
            ),
            None => texts_in(views_of(items@)) is None,
        },
{
    let ghost views = views_of(items@);
    let mut texts: Vec<String> = Vec::new();
    let mut i: usize = 0;
    assert(crate::collections::text_seq(texts@) =~= Seq::<Seq<char>>::empty());
    while i < items.len()
        invariant
            i <= items@.len(),
            views == views_of(items@),
            texts_in(views.take(i as int)) == Some(crate::collections::text_seq(texts@)),
        decreases items@.len() - i,
    {
        let ghost before = texts@;
        proof {
            assert(views.take(i + 1).drop_last() =~= views.take(i as int));
            assert(views.take(i + 1).last() == items@[i as int]@);
            if texts_in(views.take(i + 1)) is None {
                lemma_texts_prefix(views, i + 1);
            }
        }
        match as_text(Some(&items[i])) {
            Some(text) => {
                texts.push(text.to_owned());
                assert(crate::collections::text_seq(texts@) =~= crate::collections::text_seq(
                    before,
                ).push(text@));
            },
            None => return None,
        }
        i += 1;
    }
    assert(views.take(i as int) =~= views);
    Some(texts)
}

fn text_array(json: Option<&Json>) -> (r: Option<Vec<String>>)
    ensures
        match r {
            Some(texts) => text_array_in(view_in(json)) == Some(
                crate::collections::text_seq(texts@),
            ),
            None => text_array_in(view_in(json)) is None,
        },
{
    match as_str(json) {
        Some(encoded) => {
            let parsed = parse_json(encoded);
            let decoded = match &parsed {
                Some(value) => as_array(Some(value)),
                None => None,
            };
            match decoded {
                Some(items) => array_texts(items),
                None => None,
            }
        },
        None => match as_array(json) {
            Some(items) => array_texts(items),
            None => None,
        },
    }
}

/// The fee curve of a market.
pub open spec fn curve_in(json: JsonView) -> Option<JsonView> {
    json.field4("feeCurve"@, "fee_curve"@, "feeSchedule"@, "fee_schedule"@)
}

/// The fee rate of a market: of its curve, or else of its taker fees.
pub open spec fn fee_rate_in(json: JsonView) -> Option<Decimal> {
    let of_curve = match curve_in(json) {
        Some(curve) => decimal_in(curve.field2("rate"@, "r"@)),
        None => None,
    };
    match of_curve {
        Some(rate) => Some(rate),
        None => match json.field("fees"@) {
            Some(fees) => match fees.field("taker"@) {
                Some(taker) => decimal_in(taker.field("rate"@)),
                None => None,
            },
            None => None,
        },
    }
}

/// The exponent of the fee curve of a market.
pub open spec fn fee_exponent_in(json: JsonView) -> Option<i64> {
    match curve_in(json) {
        Some(curve) => lenient_int_in(curve.field2("exponent"@, "e"@)),
        None => None,
    }
}

/// Whether only takers pay the fee of a market.
pub open spec fn fee_taker_only_in(json: JsonView) -> Option<bool> {
    match curve_in(json) {
        Some(curve) => bool_in(curve.field3("takerOnly"@, "taker_only"@, "t"@)),
        None => None,
    }
}

fn fee_curve(value: &Json) -> (r: Option<&Json>)
    ensures
        view_in(r) == curve_in(value@),
{
    value.get4("feeCurve", "fee_curve", "feeSchedule", "fee_schedule")
}

fn fee_rate(value: &Json) -> (r: Option<Decimal>)
    ensures
        r == fee_rate_in(value@),
{
    let of_curve = match fee_curve(value) {
        Some(curve) => as_decimal(curve.get2("rate", "r")),
        None => None,
    };
    match of_curve {
        Some(rate) => Some(rate),
        None => match value.get("fees") {
            Some(fees) => match fees.get("taker") {
                Some(taker) => as_decimal(taker.get("rate")),
                None => None,
            },
            None => None,
        },
    }
}

fn fee_exponent(value: &Json) -> (r: Option<i64>)
    ensures
        r == fee_exponent_in(value@),
{
    match fee_curve(value) {
        Some(curve) => as_lenient_int(curve.get2("exponent", "e")),
        None => None,
    }
}

fn fee_taker_only(value: &Json) -> (r: Option<bool>)
    ensures
        r == fee_taker_only_in(value@),
{
    match fee_curve(value) {
        Some(curve) => as_bool(curve.get3("takerOnly", "taker_only", "t")),
        None => None,
    }
}

/// The part of a slug before its first separator.
pub open spec fn first_part(slug: Seq<char>) -> Seq<char>
    decreases slug.len(),
{
    if slug.len() == 0 || slug[0] == '-' || slug[0] == '_' {
        Seq::empty()
    } else {
        seq![slug[0]] + first_part(slug.drop_first())
    }
}

/// The underlying that a slug begins with, in upper case.
pub open spec fn underlying_in(slug: Seq<char>) -> Seq<char> {
    if first_part(slug).len() == 0 {
        upper_text("crypto"@)
    } else {
        upper_text(first_part(slug))
    }
}

proof fn lemma_first_part(slug: Seq<char>, n: int)
    requires
        0 <= n <= slug.len(),
        forall|i: int| 0 <= i < n ==> #[trigger] slug[i] != '-' && slug[i] != '_',
        n < slug.len() ==> slug[n] == '-' || slug[n] == '_',
    ensures
        first_part(slug) == slug.take(n),
    decreases n,
{
    if n > 0 {
        let rest = slug.drop_first();
        assert forall|i: int| 0 <= i < n - 1 implies #[trigger] rest[i] != '-' && rest[i] != '_' by {
            assert(rest[i] == slug[i + 1]);
        }
        lemma_first_part(rest, n - 1);
        assert(seq![slug[0]] + rest.take(n - 1) =~= slug.take(n));
    } else {
        assert(slug.take(0) =~= Seq::<char>::empty());
    }
}

/// The underlying that a slug begins with, in upper case.
pub fn infer_underlying(slug: &str) -> (r: String)
    ensures
        r@ == underlying_in(slug@),
{
    let length: usize = slug.unicode_len();
    let mut n: usize = 0;
    while n < length && slug.get_char(n) != '-' && slug.get_char(n) != '_'
        invariant
            n <= length,
            length == slug@.len(),
            forall|i: int| 0 <= i < n ==> #[trigger] slug@[i] != '-' && slug@[i] != '_',
        decreases length - n,
    {
        n += 1;
    }
    proof {
        lemma_first_part(slug@, n as int);
    }
    if n == 0 {
        return to_upper("crypto");
    }
    let part = slug.substring_char(0, n);
    assert(part@ =~= slug@.take(n as int));
    to_upper(part)
}

// ---------------------------------------------------------------------------
// Markets
// ---------------------------------------------------------------------------

/// Whether a flag is set.
pub open spec fn is_set(json: Option<JsonView>) -> bool {
    bool_in(json) == Some(true)
}

fn flag(json: Option<&Json>) -> (r: bool)
    ensures
        r == is_set(view_in(json)),
{
    match as_bool(json) {
        Some(b) => b,
        None => false,
    }
}

/// Two labels that are there and differ in more than case, and two distinct
/// token identifiers that are there.
pub open spec fn are_complementary(labels: Seq<Seq<char>>, tokens: Seq<Seq<char>>) -> bool {
    &&& labels.len() == 2
    &&& tokens.len() == 2
    &&& tokens[0] != tokens[1]
    &&& !is_blank_text(labels[0])
    &&& !is_blank_text(labels[1])
    &&& upper_text(labels[0]) != upper_text(labels[1])
    &&& !is_blank_text(tokens[0])
    &&& !is_blank_text(tokens[1])
}

/// The market that a document describes, where it describes one that counts: it
/// ends within the horizon, is identified, says how it resolves, has two
/// complementary outcomes and positive size rules.
pub open spec fn market_in(json: JsonView, now_ms: i64, max_horizon_ms: u64) -> Option<MarketView> {
    let end_time = instant_in(json.field2("endDate"@, "end_date"@));
    let start_time = instant_in(json.field2("startTime"@, "start_time"@));
    let market_id = text_in(json.field3("id"@, "marketId"@, "market_id"@));
    let condition_id = text_in(json.field2("conditionId"@, "condition_id"@));
    let question = text_in(json.field("question"@));
    let rules = text_in(json.field3("rules"@, "description"@, "resolutionSource"@));
    let labels = text_array_in(json.field("outcomes"@));
    let tokens = text_array_in(json.field2("clobTokenIds"@, "clob_token_ids"@));
    let tick_size = decimal_in(
        json.field2("orderPriceMinTickSize"@, "order_price_min_tick_size"@),
    );
    let min_order_size = decimal_in(json.field2("orderMinSize"@, "order_min_size"@));
    let slug = match text_in(json.field("slug"@)) {
        Some(slug) => slug,
        None => Seq::empty(),
    };
    if !(end_time matches Some(Some(_))) || !ends_within(end_time->0->0, now_ms, max_horizon_ms) {
        None
    } else if market_id is None || condition_id is None || question is None {
        None
    } else if rules is None || is_blank_text(rules->0) {
        None
    } else if labels is None || tokens is None || !are_complementary(labels->0, tokens->0) {
        None
    } else if tick_size is None || min_order_size is None || tick_size->0.m() <= 0
        || min_order_size->0.m() <= 0 {
        None
    } else if start_time is None {
        None
    } else {
        Some(
            MarketView {
                market_id: market_id->0,
                condition_id: condition_id->0,
                question: question->0,
                rules: rules->0,
                underlying: underlying_in(slug),
                label_a: labels->0[0],
                token_a: tokens->0[0],
                label_b: labels->0[1],
                token_b: tokens->0[1],
                start_time_ms: start_time->0,
                end_time_ms: end_time->0->0,
                tick_size: tick_size->0,
                min_order_size: min_order_size->0,
                neg_risk: is_set(json.field2("negRisk"@, "neg_risk"@)),
                gamma_fee_rate: fee_rate_in(json),
                gamma_fee_exponent: fee_exponent_in(json),
                gamma_fee_taker_only: fee_taker_only_in(json),
                active: is_set(json.field("active"@)) && !is_set(json.field("closed"@)) && !is_set(
                    json.field("archived"@),
                ) && is_set(json.field2("enableOrderBook"@, "enable_order_book"@)),
                accepting_orders: is_set(json.field2("acceptingOrders"@, "accepting_orders"@)),
            },
        )
    }
}

fn check_outcomes(labels: &Vec<String>, tokens: &Vec<String>) -> (r: bool)
    ensures
        r == are_complementary(
            crate::collections::text_seq(labels@),
            crate::collections::text_seq(tokens@),
        ),
{
    labels.len() == 2 && tokens.len() == 2 && !same_text(tokens[0].as_str(), tokens[1].as_str())
        && !is_blank(labels[0].as_str()) && !is_blank(labels[1].as_str()) && !same_ignoring_case(
        labels[0].as_str(),
        labels[1].as_str(),
    ) && !is_blank(tokens[0].as_str()) && !is_blank(tokens[1].as_str())
}

/// The market that a document describes, where it describes one that counts.
pub fn parse_market(value: &Json, now_ms: i64, max_horizon_ms: u64) -> (r: Option<
    BinaryCryptoMarket,
>)
    ensures
        match r {
            Some(market) => market_in(value@, now_ms, max_horizon_ms) == Some(market@),
            None => market_in(value@, now_ms, max_horizon_ms) is None,
        },
{
    let active = flag(value.get("active")) && !flag(value.get("closed")) && !flag(
        value.get("archived"),
    ) && flag(value.get2("enableOrderBook", "enable_order_book"));
    let accepting_orders = flag(value.get2("acceptingOrders", "accepting_orders"));
    let end_time_ms: i64 = match optional_timestamp(value.get2("endDate", "end_date")) {
        Some(Some(ms)) => ms,
        _ => return None,
    };
    if !is_within(end_time_ms, now_ms, max_horizon_ms) {
        return None;
    }
    let (market_id, condition_id, question) = match (
        as_text(value.get3("id", "marketId", "market_id")),
        as_text(value.get2("conditionId", "condition_id")),
        as_text(value.get("question")),
    ) {
        (Some(m), Some(c), Some(q)) => (m, c, q),
        _ => return None,
    };
    let rules = match as_text(value.get3("rules", "description", "resolutionSource")) {
        Some(text) => text,
        None => return None,
    };
    if is_blank(rules) {
        return None;
    }
    let labels = match text_array(value.get("outcomes")) {
        Some(texts) => texts,
        None => return None,
    };
    let tokens = match text_array(value.get2("clobTokenIds", "clob_token_ids")) {
        Some(texts) => texts,
        None => return None,
    };
    if !check_outcomes(&labels, &tokens) {
        return None;
    }
    let tick_size = match as_decimal(
        value.get2("orderPriceMinTickSize", "order_price_min_tick_size"),
    ) {
        Some(d) => d,
        None => return None,
    };
    let min_order_size = match as_decimal(value.get2("orderMinSize", "order_min_size")) {
        Some(d) => d,
        None => return None,
    };
    if !tick_size.is_positive() || !min_order_size.is_positive() {
        return None;
    }
    let start_time_ms = match optional_timestamp(value.get2("startTime", "start_time")) {
        Some(start) => start,
        None => return None,
    };
    let underlying = match as_text(value.get("slug")) {
        Some(slug) => infer_underlying(slug),
        None => {
            let slug = String::new();
            infer_underlying(slug.as_str())
        },
    };
    let market = BinaryCryptoMarket {
        market_id: market_id.to_owned(),
        condition_id: condition_id.to_owned(),
        question: question.to_owned(),
        rules: rules.to_owned(),
        underlying,
        outcomes: [
            OutcomeToken { label: labels[0].clone(), token_id: tokens[0].clone() },
            OutcomeToken { label: labels[1].clone(), token_id: tokens[1].clone() },
        ],
        start_time_ms,
        end_time_ms,
        tick_size,
        min_order_size,
        neg_risk: flag(value.get2("negRisk", "neg_risk")),
        gamma_fee_rate: fee_rate(value),
        gamma_fee_exponent: fee_exponent(value),
        gamma_fee_taker_only: fee_taker_only(value),
        active,
        accepting_orders,
    };
    Some(market)
}

// ---------------------------------------------------------------------------
// Pages
// ---------------------------------------------------------------------------

/// The list that a page object carries.
pub open spec fn page_list(json: JsonView) -> Option<Seq<JsonView>> {
    array_in(json.field3("events"@, "data"@, "markets"@))
}

/// The items of a list, with the markets of those that carry some in their place.
pub open spec fn unfolded(items: Seq<JsonView>, n: int) -> Seq<JsonView>
    decreases n,
{
    if n <= 0 {
        Seq::empty()
    } else {
        unfolded(items, n - 1) + match array_in(items[n - 1].field("markets"@)) {
            Some(markets) => markets,
            None => seq![items[n - 1]],
        }
    }
}

/// The documents of a page that may describe markets, in order.
pub open spec fn market_documents(json: JsonView) -> Seq<JsonView>
    decreases json, 0int,
{
    match json {
        JsonView::Array(items) => unfolded(items, items.len() as int),
        JsonView::Object(_) => match page_list(json) {
            Some(items) => {
                proof {
                    lemma_page_list_is_smaller(json);
                }
                listed_documents(items, items.len() as int)
            },
            None => seq![json],
        },
        _ => Seq::empty(),
    }
}

/// The documents of the first `n` items of a list, in order.
pub open spec fn listed_documents(items: Seq<JsonView>, n: int) -> Seq<JsonView>
    decreases items, n,
{
    if 0 < n <= items.len() {
        listed_documents(items, n - 1) + market_documents(items[n - 1])
    } else {
        Seq::empty()
    }
}

proof fn lemma_field_is_smaller(fields: Seq<(Seq<char>, JsonView)>, name: Seq<char>)
    ensures
        field_named(fields, name) matches Some(found) ==> exists|i: int|
            0 <= i < fields.len() && #[trigger] fields[i].1 == found,
    decreases fields.len(),
{
    if fields.len() > 0 && fields[0].0 != name {
        let rest = fields.drop_first();
        lemma_field_is_smaller(rest, name);
        if field_named(rest, name) is Some {
            let i = choose|i: int| 0 <= i < rest.len() && #[trigger] rest[i].1 == field_named(
                rest,
                name,
            )->0;
            assert(fields[i + 1].1 == rest[i].1);
        }
    } else if fields.len() > 0 {
        assert(fields[0].1 == field_named(fields, name)->0);
    }
}

/// The list that a page object carries is a part of it.
pub proof fn lemma_page_list_is_smaller(json: JsonView)
    ensures
        page_list(json) matches Some(items) ==> decreases_to!(json => items),
{
    match json {
        JsonView::Object(fields) => {
            lemma_field_is_smaller(fields, "events"@);
            lemma_field_is_smaller(fields, "data"@);
            lemma_field_is_smaller(fields, "markets"@);
            if page_list(json) is Some {
                let found = json.field3("events"@, "data"@, "markets"@)->0;
                let i = choose|i: int| 0 <= i < fields.len() && #[trigger] fields[i].1 == found;
                let entry = json->Object_0[i];
                assert(decreases_to!(json => json->Object_0));
                assert(decreases_to!(json->Object_0 => json->Object_0[i]));
                assert(decreases_to!(entry => entry.1));
                assert(decreases_to!(found => found->Array_0));
            }
        },
        _ => {},
    }
}

/// The markets that count among those that documents describe, in order.
pub open spec fn markets_in(documents: Seq<JsonView>, now_ms: i64, max_horizon_ms: u64) -> Seq<
    MarketView,
>
    decreases documents.len(),
{
    if documents.len() == 0 {
        Seq::empty()
    } else {
        let before = markets_in(documents.drop_last(), now_ms, max_horizon_ms);
        match market_in(documents.last(), now_ms, max_horizon_ms) {
            Some(market) => before.push(market),
            None => before,
        }
    }
}

/// The content of several markets.
pub open spec fn market_views(markets: Seq<BinaryCryptoMarket>) -> Seq<MarketView> {
    Seq::new(markets.len(), |i: int| markets[i]@)
}

proof fn lemma_markets_of_both(
    first: Seq<JsonView>,
    second: Seq<JsonView>,
    now_ms: i64,
    max_horizon_ms: u64,
)
    ensures
        markets_in(first + second, now_ms, max_horizon_ms) == markets_in(
            first,
            now_ms,
            max_horizon_ms,
        ) + markets_in(second, now_ms, max_horizon_ms),
    decreases second.len(),
{
    if second.len() == 0 {
        assert(first + second =~= first);
    } else {
        assert((first + second).drop_last() =~= first + second.drop_last());
        lemma_markets_of_both(first, second.drop_last(), now_ms, max_horizon_ms);
        assert(markets_in(first + second, now_ms, max_horizon_ms) =~= markets_in(
            first,
            now_ms,
            max_horizon_ms,
        ) + markets_in(second, now_ms, max_horizon_ms));
    }
}

fn take_market(
    value: &Json,
    now_ms: i64,
    max_horizon_ms: u64,
    output: &mut Vec<BinaryCryptoMarket>,
)
    ensures
        market_views(final(output)@) == market_views(old(output)@) + markets_in(
            seq![value@],
            now_ms,
            max_horizon_ms,
        ),
{
    let ghost before = output@;
    assert(seq![value@].drop_last() =~= Seq::<JsonView>::empty());
    assert(markets_in(Seq::<JsonView>::empty(), now_ms, max_horizon_ms) =~= Seq::<
        MarketView,
    >::empty());
    match parse_market(value, now_ms, max_horizon_ms) {
        Some(market) => {
            output.push(market);
            assert(market_views(output@) =~= market_views(before) + markets_in(
                seq![value@],
                now_ms,
                max_horizon_ms,
            ));
        },
        None => {
            assert(market_views(output@) =~= market_views(before) + markets_in(
                seq![value@],
                now_ms,
                max_horizon_ms,
            ));
        },
    }
}

fn take_markets(
    items: &Vec<Json>,
    now_ms: i64,
    max_horizon_ms: u64,
    output: &mut Vec<BinaryCryptoMarket>,
)
    ensures
        market_views(final(output)@) == market_views(old(output)@) + markets_in(
            views_of(items@),
            now_ms,
            max_horizon_ms,
        ),
{
    let ghost before = market_views(output@);
    let ghost views = views_of(items@);
    let mut i: usize = 0;
    assert(before + markets_in(views.take(0), now_ms, max_horizon_ms) =~= before);
    while i < items.len()
        invariant
            i <= items@.len(),
            views == views_of(items@),
            market_views(output@) == before + markets_in(
                views.take(i as int),
                now_ms,
                max_horizon_ms,
            ),
        decreases items@.len() - i,
    {
        take_market(&items[i], now_ms, max_horizon_ms, output);
        proof {
            let one = seq![items@[i as int]@];
            lemma_markets_of_both(views.take(i as int), one, now_ms, max_horizon_ms);
            assert(views.take(i as int) + one =~= views.take(i + 1));
            assert((before + markets_in(views.take(i as int), now_ms, max_horizon_ms)) + markets_in(
                one,
                now_ms,
                max_horizon_ms,
            ) =~= before + markets_in(views.take(i + 1), now_ms, max_horizon_ms));
        }
        i += 1;
    }
    assert(views.take(i as int) =~= views);
}

fn collect_markets(
    value: &Json,
    now_ms: i64,
    max_horizon_ms: u64,
    output: &mut Vec<BinaryCryptoMarket>,
)
    ensures
        market_views(final(output)@) == market_views(old(output)@) + markets_in(
            market_documents(value@),
            now_ms,
            max_horizon_ms,
        ),
    decreases value@,
{
    let ghost before = market_views(output@);
    match value {
        Json::Array(items) => {
            let ghost views = value@->Array_0;
            let mut i: usize = 0;
            assert(before + markets_in(unfolded(views, 0), now_ms, max_horizon_ms) =~= before);
            while i < items.len()
                invariant
                    i <= items@.len(),
                    views.len() == items@.len(),
                    forall|j: int|
                        0 <= j < items@.len() ==> #[trigger] views[j] == json_view(items@[j]),
                    market_views(output@) == before + markets_in(
                        unfolded(views, i as int),
                        now_ms,
                        max_horizon_ms,
                    ),
                decreases items@.len() - i,
            {
                let ghost so_far = unfolded(views, i as int);
                let ghost held = market_views(output@);
                let ghost mut more: Seq<JsonView> = Seq::empty();
                match as_array(items[i].get("markets")) {
                    Some(markets) => {
                        take_markets(markets, now_ms, max_horizon_ms, output);
                        proof {
                            more = views_of(markets@);
                        }
                    },
                    None => {
                        take_market(&items[i], now_ms, max_horizon_ms, output);
                        proof {
                            more = seq![items@[i as int]@];
                        }
                    },
                }
                proof {
                    assert(unfolded(views, i + 1) == so_far + more);
                    lemma_markets_of_both(so_far, more, now_ms, max_horizon_ms);
                    assert(held + markets_in(more, now_ms, max_horizon_ms) =~= before + markets_in(
                        so_far + more,
                        now_ms,
                        max_horizon_ms,
                    ));
                }
                i += 1;
            }
        },
        Json::Object(_) => match as_array(value.get3("events", "data", "markets")) {
            Some(items) => {
                let ghost views = views_of(items@);
                proof {
                    lemma_page_list_is_smaller(value@);
                }
                let mut i: usize = 0;
                assert(before + markets_in(listed_documents(views, 0), now_ms, max_horizon_ms)
                    =~= before);
                while i < items.len()
                    invariant
                        i <= items@.len(),
                        views == views_of(items@),
                        decreases_to!(value@ => views),
                        market_views(output@) == before + markets_in(
                            listed_documents(views, i as int),
                            now_ms,
                            max_horizon_ms,
                        ),
                    decreases items@.len() - i,
                {
                    let ghost so_far = listed_documents(views, i as int);
                    let ghost held = market_views(output@);
                    proof {
                        assert(views[i as int] == items@[i as int]@);
                        assert(decreases_to!(views => views[i as int]));
                    }
                    collect_markets(&items[i], now_ms, max_horizon_ms, output);
                    proof {
                        let more = market_documents(items@[i as int]@);
                        assert(listed_documents(views, i + 1) == so_far + more);
                        lemma_markets_of_both(so_far, more, now_ms, max_horizon_ms);
                        assert(held + markets_in(more, now_ms, max_horizon_ms) =~= before
                            + markets_in(so_far + more, now_ms, max_horizon_ms));
                    }
                    i += 1;
                }
            },
            None => {
                take_market(value, now_ms, max_horizon_ms, output);
            },
        },
        _ => {
            assert(before + markets_in(Seq::<JsonView>::empty(), now_ms, max_horizon_ms)
                =~= before);
        },
    }
}

/// The markets of a page that count, in order.
pub fn markets_from(page: &Json, now_ms: i64, max_horizon_ms: u64) -> (r: Vec<BinaryCryptoMarket>)
    ensures
        market_views(r@) == markets_in(market_documents(page@), now_ms, max_horizon_ms),
{
    let mut output: Vec<BinaryCryptoMarket> = Vec::new();
    collect_markets(page, now_ms, max_horizon_ms, &mut output);
    assert(Seq::<MarketView>::empty() + markets_in(
        market_documents(page@),
        now_ms,
        max_horizon_ms,
    ) =~= markets_in(market_documents(page@), now_ms, max_horizon_ms));
    output
}

/// The markets in the text of a page that count, in order.
pub fn parse_markets(raw: &str, now_ms: i64, max_horizon_ms: u64) -> (r: Result<
    Vec<BinaryCryptoMarket>,
    StrategyError,
>)
    ensures
        match r {
            Ok(markets) => parsed_json(raw@) matches Some(page) && market_views(markets@)
                == markets_in(market_documents(page), now_ms, max_horizon_ms),
            Err(e) => parsed_json(raw@) is None && e == StrategyError::GammaJson,
        },
{
    match parse_json(raw) {
        Some(page) => Ok(markets_from(&page, now_ms, max_horizon_ms)),
        None => Err(StrategyError::GammaJson),
    }
}

/// How many items a page has: those of a list, those of the list that an object
/// carries, one for any other object, and none for anything else.
pub open spec fn item_count(page: JsonView) -> nat {
    match page {
        JsonView::Array(items) => items.len(),
        JsonView::Object(_) => match page_list(page) {
            Some(items) => items.len(),
            None => 1,
        },
        _ => 0,
    }
}

/// How many items a page has.
pub fn items_on(page: &Json) -> (r: usize)
    ensures
        r == item_count(page@),
{
    match page {
        Json::Array(items) => items.len(),
        Json::Object(_) => match as_array(page.get3("events", "data", "markets")) {
            Some(items) => items.len(),
            None => 1,
        },
        _ => 0,
    }
}

/// How many items the text of a page has.
pub fn page_item_count(raw: &str) -> (r: Result<usize, StrategyError>)
    ensures
        match r {
            Ok(count) => parsed_json(raw@) matches Some(page) && count == item_count(page),
            Err(e) => parsed_json(raw@) is None && e == StrategyError::GammaJson,
        },
{
    match parse_json(raw) {
        Some(page) => Ok(items_on(&page)),
        None => Err(StrategyError::GammaJson),
    }
}

/// The markets in the text of a page that count, and whether another page is to
/// be asked for: only a full page is followed by one.
pub fn read_page(raw: &str, now_ms: i64, max_horizon_ms: u64, page_limit: usize) -> (r: Result<
    (Vec<BinaryCryptoMarket>, bool),
    StrategyError,
>)
    ensures
        match r {
            Ok((markets, more)) => parsed_json(raw@) matches Some(page) && market_views(markets@)
                == markets_in(market_documents(page), now_ms, max_horizon_ms) && more == (
            item_count(page) >= page_limit),
            Err(e) => parsed_json(raw@) is None && e == StrategyError::GammaJson,
        },
{
    let count: usize = match page_item_count(raw) {
        Ok(count) => count,
        Err(e) => return Err(e),
    };
    match parse_markets(raw, now_ms, max_horizon_ms) {
        Ok(markets) => Ok((markets, count >= page_limit)),
        Err(e) => Err(e),
    }
}

// ---------------------------------------------------------------------------
// Asking for pages
// ---------------------------------------------------------------------------

/// A sum, clamped to the range of `i64`.
pub open spec fn clamped_sum(a: i64, b: i64) -> i64 {
    if a + b > i64::MAX {
        i64::MAX
    } else if a + b < i64::MIN {
        i64::MIN
    } else {
        (a + b) as i64
    }
}

/// Until when markets may end that count.
pub open spec fn horizon_end(now_ms: i64, max_horizon_ms: u64) -> i64 {
    clamped_sum(now_ms, wrapped_to_i64(max_horizon_ms) as i64)
}

/// How many items come before a page.
pub open spec fn page_offset(page: usize, page_limit: usize) -> nat {
    if page * page_limit > usize::MAX {
        usize::MAX as nat
    } else {
        (page * page_limit) as nat
    }
}

fn add_parameter(query: &mut Vec<(String, String)>, name: &str, value: String)
    ensures
        query_views(final(query)@) == query_views(old(query)@).push((name@, value@)),
{
    let ghost before = query@;
    query.push((name.to_owned(), value));
    assert(query_views(query@) =~= query_views(before).push((name@, value@)));
}

fn number_text(n: usize) -> (r: String)
    ensures
        r@ == nat_text(n as nat),
{
    let mut out = String::new();
    append_nat(&mut out, n as u64);
    assert(out@ =~= nat_text(n as nat));
    out
}

/// The content of query parameters.
pub open spec fn query_views(query: Seq<(String, String)>) -> Seq<(Seq<char>, Seq<char>)> {
    Seq::new(query.len(), |i: int| (query[i].0@, query[i].1@))
}

/// The query parameters that ask for a page: active crypto markets, ordered by
/// their end, that end between now and the horizon.
pub fn page_query(page: usize, page_limit: usize, now_ms: i64, max_horizon_ms: u64) -> (r: Result<
    Vec<(String, String)>,
    StrategyError,
>)
    ensures
        match r {
            Ok(query) => instant_text_of_ms(now_ms) matches Some(Some(from)) && instant_text_of_ms(
                horizon_end(now_ms, max_horizon_ms),
            ) matches Some(Some(to)) && query_views(query@) == seq![
                ("tag_slug"@, "crypto-prices"@),
                ("active"@, "true"@),
                ("closed"@, "false"@),
                ("limit"@, nat_text(page_limit as nat)),
                ("offset"@, nat_text(page_offset(page, page_limit))),
                ("order"@, "endDate"@),
                ("ascending"@, "true"@),
                ("end_date_min"@, from),
                ("end_date_max"@, to),
            ],
            Err(e) => {
                let earlier = instant_text_of_ms(now_ms);
                let later = instant_text_of_ms(horizon_end(now_ms, max_horizon_ms));
                let failed = if earlier matches Some(Some(_)) {
                    later
                } else {
                    earlier
                };
                ||| failed is None && e == StrategyError::TimestampOutOfRange
                ||| failed == Some(None::<Seq<char>>) && e == StrategyError::TimestampUnformattable
            },
        },
        -62_167_219_200_000 <= now_ms && horizon_end(now_ms, max_horizon_ms)
            <= 253_402_300_799_999 && max_horizon_ms <= i64::MAX ==> r is Ok,
{
    let from = match rfc3339(now_ms) {
        Ok(text) => text,
        Err(e) => return Err(e),
    };
    let horizon: i64 = wrap_to_i64(max_horizon_ms);
    let end: i64 = match now_ms.checked_add(horizon) {
        Some(sum) => sum,
        None => if horizon > 0 {
            i64::MAX
        } else {
            i64::MIN
        },
    };
    let to = match rfc3339(end) {
        Ok(text) => text,
        Err(e) => return Err(e),
    };
    let offset: usize = match page.checked_mul(page_limit) {
        Some(n) => n,
        None => usize::MAX,
    };
    let mut query: Vec<(String, String)> = Vec::new();
    add_parameter(&mut query, "tag_slug", "crypto-prices".to_owned());
    add_parameter(&mut query, "active", "true".to_owned());
    add_parameter(&mut query, "closed", "false".to_owned());
    add_parameter(&mut query, "limit", number_text(page_limit));
    add_parameter(&mut query, "offset", number_text(offset));
    add_parameter(&mut query, "order", "endDate".to_owned());
    add_parameter(&mut query, "ascending", "true".to_owned());
    add_parameter(&mut query, "end_date_min", from);
    add_parameter(&mut query, "end_date_max", to);
    Ok(query)
}

// ---------------------------------------------------------------------------
// Putting pages together
// ---------------------------------------------------------------------------

/// Markets in the order of their identifiers.
pub struct ByMarketId;

impl SortOrder<BinaryCryptoMarket> for ByMarketId {
    open spec fn before(a: BinaryCryptoMarket, b: BinaryCryptoMarket) -> bool {
        text_before(a.market_id@, b.market_id@)
    }

    proof fn is_weak_order(
        a: BinaryCryptoMarket,
        b: BinaryCryptoMarket,
        c: BinaryCryptoMarket,
    ) {
        let (x, y, z) = (a.market_id@, b.market_id@, c.market_id@);
        lemma_text_order_total(x, x);
        lemma_text_order_total(x, y);
        lemma_text_order_total(y, z);
        lemma_text_order_total(x, z);
        if !text_before(x, y) && !text_before(y, z) && y != x && y != z {
            lemma_text_order_transitive(z, y, x);
        }
    }

    fn goes_before(a: &BinaryCryptoMarket, b: &BinaryCryptoMarket) -> (r: bool) {
        sorts_before(a.market_id.as_str(), b.market_id.as_str())
    }
}

/// The markets without those that have the identifier of the one kept before
/// them.
pub open spec fn without_repeats(markets: Seq<BinaryCryptoMarket>) -> Seq<BinaryCryptoMarket>
    decreases markets.len(),
{
    if markets.len() <= 1 {
        markets
    } else {
        let kept = without_repeats(markets.drop_last());
        if markets.last().market_id@ == kept.last().market_id@ {
            kept
        } else {
            kept.push(markets.last())
        }
    }
}

/// The status with which a page behind the last one is answered.
pub const PAST_THE_END: u16 = 422;

/// The page to ask for after one: the next, unless that would be one too many,
/// the page was not full, or it was behind the last one.
pub fn next_page(page: usize, max_pages: usize, status: u16, more: bool) -> (r: Option<usize>)
    ensures
        r == if status != 422 && more && page + 1 < max_pages {
            Some((page + 1) as usize)
        } else {
            None
        },
{
    if status != PAST_THE_END && more && page < max_pages && max_pages - page > 1 {
        Some(page + 1)
    } else {
        None
    }
}

/// The markets of all pages, in the order of their identifiers and each once;
/// of several with one identifier the first.
pub fn merge_markets(markets: Vec<BinaryCryptoMarket>) -> (r: Vec<BinaryCryptoMarket>)
    ensures
        r@ == without_repeats(sorted::<BinaryCryptoMarket, ByMarketId>(markets@)),
{
    let mut r = stable_sort::<BinaryCryptoMarket, ByMarketId>(markets);
    let ghost all = r@;
    let mut i: usize = 0;
    let ghost mut seen: int = 0;
    assert(r@.skip(0) =~= all.skip(0));
    assert(r@.take(0) =~= without_repeats(all.take(0)));
    while i < r.len()
        invariant
            i <= r@.len(),
            0 <= seen <= all.len(),
            r@.take(i as int) == without_repeats(all.take(seen)),
            r@.skip(i as int) == all.skip(seen),
            i == 0 <==> seen == 0,
        decreases r@.len() - i,
    {
        let ghost before = r@;
        proof {
            assert(all.skip(seen).len() > 0);
            assert(before.skip(i as int)[0] == all.skip(seen)[0]);
            assert(before[i as int] == all[seen]);
            assert(all.take(seen + 1).drop_last() =~= all.take(seen));
            assert(all.take(seen + 1).last() == all[seen]);
            if i > 0 {
                assert(without_repeats(all.take(seen)).last() == before[i - 1]);
            }
        }
        if i > 0 && same_text(r[i].market_id.as_str(), r[i - 1].market_id.as_str()) {
            r.remove(i);
            proof {
                assert(r@.take(i as int) =~= before.take(i as int));
                assert(r@.skip(i as int) =~= before.skip(i as int).drop_first());
                assert(all.skip(seen).drop_first() =~= all.skip(seen + 1));
            }
        } else {
            i += 1;
            proof {
                assert(r@.take(i as int) =~= before.take(i - 1).push(before[i - 1]));
                assert(r@.skip(i as int) =~= before.skip(i - 1).drop_first());
                assert(all.skip(seen).drop_first() =~= all.skip(seen + 1));
                if seen == 0 {
                    assert(all.take(1) =~= seq![all[0]]);
                    assert(r@.take(1) =~= without_repeats(all.take(1)));
                }
            }
        }
        proof {
            seen = seen + 1;
        }
    }
    proof {
        assert(r@.skip(i as int).len() == 0);
        assert(all.take(seen) =~= all);
        assert(r@.take(i as int) =~= r@);
    }
    r
}

/// The identifiers of markets, in their order.
pub open spec fn market_ids(markets: Seq<BinaryCryptoMarket>) -> Seq<Seq<char>> {
    Seq::new(markets.len(), |i: int| markets[i].market_id@)
}

proof fn lemma_repeats_of_ordered(markets: Seq<BinaryCryptoMarket>)
    requires
        in_order::<BinaryCryptoMarket, ByMarketId>(markets),
    ensures
        texts_ascend(market_ids(without_repeats(markets))),
        market_ids(without_repeats(markets)).to_set() == market_ids(markets).to_set(),
        markets.len() > 0 ==> without_repeats(markets).len() > 0
            && without_repeats(markets).last().market_id@ == markets.last().market_id@,
    decreases markets.len(),
{
    if markets.len() > 1 {
        let before = markets.drop_last();
        let last = markets.last();
        let kept = without_repeats(before);
        let all = without_repeats(markets);
        assert forall|i: int, j: int| 0 <= i < j < before.len() implies !ByMarketId::before(
            #[trigger] before[j],
            #[trigger] before[i],
        ) by {
            assert(before[i] == markets[i] && before[j] == markets[j]);
        }
        lemma_repeats_of_ordered(before);
        let x = before.last().market_id@;
        let y = last.market_id@;
        assert(!ByMarketId::before(markets[markets.len() - 1], markets[markets.len() - 2]));
        lemma_text_order_total(x, y);
        let ids = market_ids(all);
        let kept_ids = market_ids(kept);
        if x != y {
            assert(ids =~= kept_ids.push(y));
            assert forall|i: int, j: int| 0 <= i < j < ids.len() implies text_before(
                #[trigger] ids[i],
                #[trigger] ids[j],
            ) by {
                if j == ids.len() - 1 {
                    assert(ids[i] == kept_ids[i]);
                    if i < kept_ids.len() - 1 {
                        assert(text_before(kept_ids[i], kept_ids[kept_ids.len() - 1]));
                        lemma_text_order_transitive(ids[i], x, y);
                    }
                } else {
                    assert(ids[i] == kept_ids[i] && ids[j] == kept_ids[j]);
                }
            }
        }
        assert(market_ids(markets) =~= market_ids(before).push(y));
        assert forall|id: Seq<char>| ids.to_set().contains(id) <==> market_ids(
            markets,
        ).to_set().contains(id) by {
            let full = market_ids(markets);
            let part = market_ids(before);
            assert(kept_ids.to_set().contains(id) <==> part.to_set().contains(id));
            if full.contains(id) {
                let i = choose|i: int| 0 <= i < full.len() && full[i] == id;
                if i < part.len() {
                    assert(part[i] == id);
                    assert(part.to_set().contains(id));
                    let k = choose|k: int| 0 <= k < kept_ids.len() && kept_ids[k] == id;
                    assert(ids[k] == id);
                } else if x == y {
                    assert(kept_ids[kept_ids.len() - 1] == id);
                    assert(ids[ids.len() - 1] == id);
                } else {
                    assert(ids[ids.len() - 1] == id);
                }
            }
            if ids.contains(id) {
                let k = choose|k: int| 0 <= k < ids.len() && ids[k] == id;
                if k < kept_ids.len() {
                    assert(kept_ids[k] == id);
                    assert(kept_ids.to_set().contains(id));
                    let i = choose|i: int| 0 <= i < part.len() && part[i] == id;
                    assert(full[i] == id);
                } else {
                    assert(full[full.len() - 1] == id);
                }
            }
        }
        assert(ids.to_set() =~= market_ids(markets).to_set());
    }
}

/// Merging keeps every market identifier, each once and in ascending order.
pub proof fn law_merged_markets_are_distinct(markets: Seq<BinaryCryptoMarket>)
    ensures
        ({
            let merged = without_repeats(sorted::<BinaryCryptoMarket, ByMarketId>(markets));
            &&& texts_ascend(market_ids(merged))
            &&& market_ids(merged).to_set() == market_ids(
                sorted::<BinaryCryptoMarket, ByMarketId>(markets),
            ).to_set()
            &&& sorted::<BinaryCryptoMarket, ByMarketId>(markets).to_multiset()
                == markets.to_multiset()
        }),
{
    law_sorted_is_an_ordered_rearrangement::<BinaryCryptoMarket, ByMarketId>(markets);
    lemma_repeats_of_ordered(sorted::<BinaryCryptoMarket, ByMarketId>(markets));
}

/// Every market that counts ends within the horizon and not before now, has two
/// distinct tokens that are there, rules and positive sizes.
pub proof fn law_markets_that_count_are_eligible(
    documents: Seq<JsonView>,
    now_ms: i64,
    max_horizon_ms: u64,
    i: int,
)
    requires
        0 <= i < markets_in(documents, now_ms, max_horizon_ms).len(),
    ensures
        ({
            let market = markets_in(documents, now_ms, max_horizon_ms)[i];
            &&& ends_within(market.end_time_ms, now_ms, max_horizon_ms)
            &&& are_complementary(
                seq![market.label_a, market.label_b],
                seq![market.token_a, market.token_b],
            )
            &&& !is_blank_text(market.rules)
            &&& market.tick_size.m() > 0
            &&& market.min_order_size.m() > 0
        }),
    decreases documents.len(),
{
    if documents.len() > 0 {
        let before = markets_in(documents.drop_last(), now_ms, max_horizon_ms);
        if i < before.len() {
            law_markets_that_count_are_eligible(
                documents.drop_last(),
                now_ms,
                max_horizon_ms,
                i,
            );
        }
    }
}

/// A document describes a market exactly when it ends after now and within the
/// horizon, has its identifiers, its question and rules, two outcomes that differ
/// with a token each, positive sizes, and a start that can be read where it has one.
/// The market has what the document says.
pub proof fn law_what_a_market_document_says(json: JsonView, now_ms: i64, max_horizon_ms: u64)
    requires
        max_horizon_ms < i64::MAX,
    ensures
        ({
            let end = instant_in(json.field2("endDate"@, "end_date"@));
            let start = instant_in(json.field2("startTime"@, "start_time"@));
            let id = text_in(json.field3("id"@, "marketId"@, "market_id"@));
            let condition = text_in(json.field2("conditionId"@, "condition_id"@));
            let question = text_in(json.field("question"@));
            let rules = text_in(json.field3("rules"@, "description"@, "resolutionSource"@));
            let labels = text_array_in(json.field("outcomes"@));
            let tokens = text_array_in(json.field2("clobTokenIds"@, "clob_token_ids"@));
            let tick = decimal_in(
                json.field2("orderPriceMinTickSize"@, "order_price_min_tick_size"@),
            );
            let least = decimal_in(json.field2("orderMinSize"@, "order_min_size"@));
            let slug = text_in(json.field("slug"@));
            let said = |flag: Option<JsonView>| flag == Some(JsonView::Bool(true));
            match market_in(json, now_ms, max_horizon_ms) {
                Some(m) => {
                    &&& end == Some(Some(m.end_time_ms))
                    &&& 0 < m.end_time_ms - now_ms <= max_horizon_ms
                    &&& start == Some(m.start_time_ms)
                    &&& id == Some(m.market_id)
                    &&& condition == Some(m.condition_id)
                    &&& question == Some(m.question)
                    &&& rules == Some(m.rules) && !is_blank_text(m.rules)
                    &&& labels == Some(seq![m.label_a, m.label_b])
                    &&& tokens == Some(seq![m.token_a, m.token_b])
                    &&& m.token_a != m.token_b
                    &&& !is_blank_text(m.token_a) && !is_blank_text(m.token_b)
                    &&& !is_blank_text(m.label_a) && !is_blank_text(m.label_b)
                    &&& upper_text(m.label_a) != upper_text(m.label_b)
                    &&& tick == Some(m.tick_size) && m.tick_size.m() > 0
                    &&& least == Some(m.min_order_size) && m.min_order_size.m() > 0
                    &&& m.underlying == underlying_in(
                        if slug is Some {
                            slug->0
                        } else {
                            Seq::empty()
                        },
                    )
                    &&& m.neg_risk == said(json.field2("negRisk"@, "neg_risk"@))
                    &&& m.accepting_orders == said(
                        json.field2("acceptingOrders"@, "accepting_orders"@),
                    )
                    &&& m.active <==> said(json.field("active"@)) && !said(json.field("closed"@))
                        && !said(json.field("archived"@)) && said(
                        json.field2("enableOrderBook"@, "enable_order_book"@),
                    )
                    &&& m.gamma_fee_rate == fee_rate_in(json)
                    &&& m.gamma_fee_exponent == fee_exponent_in(json)
                    &&& m.gamma_fee_taker_only == fee_taker_only_in(json)
                },
                None => {
                    ||| !(end matches Some(Some(_)))
                    ||| end->0->0 <= now_ms
                    ||| end->0->0 - now_ms > max_horizon_ms
                    ||| start is None
                    ||| id is None
                    ||| condition is None
                    ||| question is None
                    ||| rules is None
                    ||| is_blank_text(rules->0)
                    ||| labels is None
                    ||| tokens is None
                    ||| labels->0.len() != 2
                    ||| tokens->0.len() != 2
                    ||| tokens->0[0] == tokens->0[1]
                    ||| is_blank_text(labels->0[0])
                    ||| is_blank_text(labels->0[1])
                    ||| is_blank_text(tokens->0[0])
                    ||| is_blank_text(tokens->0[1])
                    ||| upper_text(labels->0[0]) == upper_text(labels->0[1])
                    ||| tick is None
                    ||| tick->0.m() <= 0
                    ||| least is None
                    ||| least->0.m() <= 0
                },
            }
        }),
{
    let labels = text_array_in(json.field("outcomes"@));
    let tokens = text_array_in(json.field2("clobTokenIds"@, "clob_token_ids"@));
    if labels is Some && tokens is Some && labels->0.len() == 2 && tokens->0.len() == 2 {
        assert(labels->0 =~= seq![labels->0[0], labels->0[1]]);
        assert(tokens->0 =~= seq![tokens->0[0], tokens->0[1]]);
    }
}

/// The fees of a market are those of its curve, under the first of its names; a rate
/// that is missing there is that of the taker fees.
pub proof fn law_where_fees_are_found(json: JsonView, curve: JsonView)
    requires
        json.field4("feeCurve"@, "fee_curve"@, "feeSchedule"@, "fee_schedule"@) == Some(curve),
    ensures
        fee_exponent_in(json) == lenient_int_in(curve.field2("exponent"@, "e"@)),
        fee_taker_only_in(json) == bool_in(curve.field3("takerOnly"@, "taker_only"@, "t"@)),
        decimal_in(curve.field2("rate"@, "r"@)) is Some ==> fee_rate_in(json) == decimal_in(
            curve.field2("rate"@, "r"@),
        ),
        decimal_in(curve.field2("rate"@, "r"@)) is None ==> (fee_rate_in(json) matches Some(rate)
            ==> json.field("fees"@) matches Some(fees) && fees.field("taker"@) matches Some(taker)
            && decimal_in(taker.field("rate"@)) == Some(rate)),
{
}

/// The underlying is what stands before the first hyphen or underscore, in upper
/// case; without any such text it is `CRYPTO`.
pub proof fn law_the_underlying_of_a_slug(slug: Seq<char>, n: int)
    requires
        0 <= n <= slug.len(),
        forall|i: int| 0 <= i < n ==> #[trigger] slug[i] != '-' && slug[i] != '_',
        n < slug.len() ==> slug[n] == '-' || slug[n] == '_',
    ensures
        n > 0 ==> underlying_in(slug) == upper_text(slug.take(n)),
        n == 0 ==> underlying_in(slug) == "CRYPTO"@,
{
    lemma_first_part(slug, n);
    reveal_strlit("crypto");
    reveal_strlit("CRYPTO");
    assert(upper_text("crypto"@) =~= "CRYPTO"@);
}

/// The books of a market are followed exactly when it is active and takes orders, has
/// started where its start is known, and ends after now and within the horizon.
pub proof fn law_which_markets_are_followed(market: MarketView, now_ms: i64, max_horizon_ms: u64)
    requires
        max_horizon_ms < i64::MAX,
    ensures
        is_subscribable(market, now_ms, max_horizon_ms) <==> {
            &&& market.active
            &&& market.accepting_orders
            &&& market.start_time_ms is None || market.start_time_ms->0 <= now_ms
            &&& now_ms < market.end_time_ms
            &&& market.end_time_ms - now_ms <= max_horizon_ms
        },
{
}

/// The markets of documents are those of each that describes one, in their order.
pub proof fn law_every_document_is_looked_at(
    documents: Seq<JsonView>,
    document: JsonView,
    now_ms: i64,
    max_horizon_ms: u64,
)
    ensures
        markets_in(Seq::empty(), now_ms, max_horizon_ms).len() == 0,
        markets_in(documents.push(document), now_ms, max_horizon_ms) == match market_in(
            document,
            now_ms,
            max_horizon_ms,
        ) {
            Some(market) => markets_in(documents, now_ms, max_horizon_ms).push(market),
            None => markets_in(documents, now_ms, max_horizon_ms),
        },
{
    assert(documents.push(document).drop_last() =~= documents);
}

/// A list holds markets and events; an event stands for the markets that it carries.
/// An object with a list stands for what each of its items does, and one without for
/// itself. A page has as many items as its list.
pub proof fn law_where_market_documents_are_found(
    items: Seq<JsonView>,
    item: JsonView,
    object: JsonView,
)
    requires
        object is Object,
    ensures
        market_documents(JsonView::Array(Seq::empty())).len() == 0,
        market_documents(JsonView::Array(items.push(item))) == market_documents(
            JsonView::Array(items),
        ) + match item.field("markets"@) {
            Some(JsonView::Array(markets)) => markets,
            _ => seq![item],
        },
        item_count(JsonView::Array(items)) == items.len(),
        match object.field3("events"@, "data"@, "markets"@) {
            Some(JsonView::Array(listed)) => item_count(object) == listed.len()
                && market_documents(object) == listed_documents(listed, listed.len() as int),
            _ => item_count(object) == 1 && market_documents(object) == seq![object],
        },
        listed_documents(items, 0).len() == 0,
        forall|n: int|
            0 < n <= items.len() ==> #[trigger] listed_documents(items, n) == listed_documents(
                items,
                n - 1,
            ) + market_documents(items[n - 1]),
{
    let all = items.push(item);
    lemma_unfolded_prefix(items, item, items.len() as int);
    assert(all[items.len() as int] == item);
}

proof fn lemma_unfolded_prefix(items: Seq<JsonView>, item: JsonView, n: int)
    requires
        n <= items.len(),
    ensures
        unfolded(items.push(item), n) == unfolded(items, n),
    decreases n,
{
    if n > 0 {
        lemma_unfolded_prefix(items, item, n - 1);
        assert(items.push(item)[n - 1] == items[n - 1]);
    }
}

/// Of several markets with one identifier the first in order is kept.
pub proof fn law_the_first_of_repeated_markets_is_kept(
    markets: Seq<BinaryCryptoMarket>,
    market: BinaryCryptoMarket,
)
    requires
        markets.len() > 0,
    ensures
        without_repeats(seq![market]) == seq![market],
        ({
            let kept = without_repeats(markets);
            without_repeats(markets.push(market)) == if kept.last().market_id@
                == market.market_id@ {
                kept
            } else {
                kept.push(market)
            }
        }),
{
    assert(markets.push(market).drop_last() =~= markets);
}

/// A timestamp is a count of milliseconds, or an instant in text, cut off to
/// milliseconds towards 1970; a field that is missing or null has none.
pub proof fn law_what_a_timestamp_says(text: Seq<char>, number: Seq<char>, ms: i64, nanos: i128)
    ensures
        instant_in(None) == Some(None::<i64>),
        instant_in(Some(JsonView::Null)) == Some(None::<i64>),
        instant_in(Some(JsonView::Number(number, Some(ms)))) == Some(Some(ms)),
        instant_in(Some(JsonView::Number(number, None))) is None,
        parsed_instant(text) is None ==> instant_in(Some(JsonView::Text(text))) is None,
        parsed_instant(text) == Some(nanos) ==> (instant_in(
            Some(JsonView::Text(text)),
        ) matches Some(read) ==> read matches Some(at) && (nanos >= 0 ==> at * 1_000_000 <= nanos
            < (at + 1) * 1_000_000) && (nanos < 0 ==> (at - 1) * 1_000_000 < nanos <= at
            * 1_000_000)),
{
}

} // verus!
