//! The order-book service: its documents, its subscriptions and its feed.

use crate::collections::text_seq;
use crate::collections::texts_ascend;
use crate::collections::texts_of;
use crate::collections::StringMap;
use crate::collections::StringSet;
use crate::decimal::lt;
use crate::decimal::one;
use crate::decimal::same;
use crate::decimal::Decimal;
use crate::error::StrategyError;
use crate::json::array_in;
use crate::json::as_array;
use crate::json::as_bool;
use crate::json::as_decimal;
use crate::json::as_int;
use crate::json::as_lenient_int;
use crate::json::as_str;
use crate::json::as_text;
use crate::json::bool_in;
use crate::json::decimal_in;
use crate::json::int_in;
use crate::json::json_view;
use crate::json::lenient_int_in;
use crate::json::parse_json;
use crate::json::parsed_json;
use crate::json::quote;
use crate::json::quoted_text;
use crate::json::str_in;
use crate::json::text_in;
use crate::json::view_in;
use crate::json::views_of;
use crate::json::Json;
use crate::json::JsonView;
use crate::pricing::are_valid_levels;
use crate::pricing::Book;
use crate::pricing::BookView;
use crate::pricing::CheapestFirst;
use crate::pricing::DearestFirst;
use crate::pricing::Level;
use crate::sorting::law_sorted_is_an_ordered_rearrangement;
use crate::sorting::sorted;
use crate::text::same_ignoring_case;
use crate::text::same_text;
use crate::text::upper_text;
use vstd::prelude::*;
use vstd::string::StrSliceExecFns;
use vstd::string::StringExecFns;

verus! {

/// How many assets one subscription message names at most.
pub const SUBSCRIPTION_BATCH_SIZE: usize = 200;

// ---------------------------------------------------------------------------
// Books
// ---------------------------------------------------------------------------

/// The timestamp of a document, if it has one.
pub open spec fn timestamp_in(json: JsonView) -> Option<i64> {
    lenient_int_in(json.field2("timestamp"@, "ts"@))
}

fn timestamp(value: &Json) -> (r: Option<i64>)
    ensures
        r == timestamp_in(value@),
{
    as_lenient_int(value.get2("timestamp", "ts"))
}

/// The levels that a list of documents describes.
pub open spec fn levels_in(items: Seq<JsonView>) -> Result<Seq<Level>, StrategyError>
    decreases items.len(),
{
    if items.len() == 0 {
        Ok(Seq::empty())
    } else {
        match levels_in(items.drop_last()) {
            Ok(before) => {
                let price = decimal_in(items.last().field("price"@));
                let size = decimal_in(items.last().field("size"@));
                if price is None {
                    Err(StrategyError::LevelPriceMissing)
                } else if size is None {
                    Err(StrategyError::LevelSizeMissing)
                } else {
                    Ok(before.push(Level { price: price->0, size: size->0 }))
                }
            },
            Err(e) => Err(e),
        }
    }
}

/// The levels of one side of a book.
pub open spec fn side_in(json: Option<JsonView>) -> Result<Seq<Level>, StrategyError> {
    match array_in(json) {
        Some(items) => levels_in(items),
        None => Err(StrategyError::BookSideMissing),
    }
}

proof fn lemma_levels_prefix(items: Seq<JsonView>, n: int)
    requires
        0 <= n <= items.len(),
        levels_in(items.take(n)) is Err,
    ensures
        levels_in(items) == levels_in(items.take(n)),
    decreases items.len() - n,
{
    if n == items.len() {
        assert(items.take(n) =~= items);
    } else {
        assert(items.take(n + 1).drop_last() =~= items.take(n));
        lemma_levels_prefix(items, n + 1);
    }
}

fn parse_levels(value: Option<&Json>) -> (r: Result<Vec<Level>, StrategyError>)
    ensures
        match r {
            Ok(levels) => side_in(view_in(value)) == Ok::<Seq<Level>, StrategyError>(levels@),
            Err(e) => side_in(view_in(value)) == Err::<Seq<Level>, StrategyError>(e),
        },
{
    let items = match as_array(value) {
        Some(items) => items,
        None => return Err(StrategyError::BookSideMissing),
    };
    let ghost views = views_of(items@);
    let mut levels: Vec<Level> = Vec::new();
    let mut i: usize = 0;
    while i < items.len()
        invariant
            i <= items@.len(),
            views == views_of(items@),
            side_in(view_in(value)) == levels_in(views),
            levels_in(views.take(i as int)) == Ok::<Seq<Level>, StrategyError>(levels@),
        decreases items@.len() - i,
    {
        proof {
            assert(views.take(i + 1).drop_last() =~= views.take(i as int));
            assert(views.take(i + 1).last() == items@[i as int]@);
            if levels_in(views.take(i + 1)) is Err {
                lemma_levels_prefix(views, i + 1);
            }
        }
        let price = match as_decimal(items[i].get("price")) {
            Some(d) => d,
            None => return Err(StrategyError::LevelPriceMissing),
        };
        let size = match as_decimal(items[i].get("size")) {
            Some(d) => d,
            None => return Err(StrategyError::LevelSizeMissing),
        };
        levels.push(Level { price, size });
        i += 1;
    }
    assert(views.take(i as int) =~= views);
    Ok(levels)
}

/// A book with its best prices first.
pub open spec fn ordered_book(book: BookView) -> BookView {
    BookView {
        bids: sorted::<Level, DearestFirst>(book.bids),
        asks: sorted::<Level, CheapestFirst>(book.asks),
        ..book
    }
}

/// The book that a document describes; observed when nothing says otherwise.
pub open spec fn book_in(json: JsonView, observed_at_ms: i64) -> Result<BookView, StrategyError> {
    let market_id = text_in(json.field2("market"@, "market_id"@));
    let token_id = text_in(json.field2("asset_id"@, "token_id"@));
    let bids = side_in(json.field("bids"@));
    let asks = side_in(json.field("asks"@));
    if market_id is None || token_id is None {
        Err(StrategyError::RequiredStringMissing)
    } else if bids is Err {
        Err(bids->Err_0)
    } else if asks is Err {
        Err(asks->Err_0)
    } else if !are_valid_levels(bids->Ok_0) || !are_valid_levels(asks->Ok_0) {
        Err(StrategyError::InvalidLevel)
    } else {
        Ok(
            ordered_book(
                BookView {
                    market_id: market_id->0,
                    token_id: token_id->0,
                    bids: bids->Ok_0,
                    asks: asks->Ok_0,
                    updated_at_ms: match timestamp_in(json) {
                        Some(ms) => ms,
                        None => observed_at_ms,
                    },
                },
            ),
        )
    }
}

fn parse_book(value: &Json, observed_at_ms: i64) -> (r: Result<Book, StrategyError>)
    ensures
        match r {
            Ok(book) => book_in(value@, observed_at_ms) == Ok::<BookView, StrategyError>(book@),
            Err(e) => book_in(value@, observed_at_ms) == Err::<BookView, StrategyError>(e),
        },
{
    let market_id = match as_text(value.get2("market", "market_id")) {
        Some(text) => text.to_owned(),
        None => return Err(StrategyError::RequiredStringMissing),
    };
    let token_id = match as_text(value.get2("asset_id", "token_id")) {
        Some(text) => text.to_owned(),
        None => return Err(StrategyError::RequiredStringMissing),
    };
    let bids = match parse_levels(value.get("bids")) {
        Ok(levels) => levels,
        Err(e) => return Err(e),
    };
    let asks = match parse_levels(value.get("asks")) {
        Ok(levels) => levels,
        Err(e) => return Err(e),
    };
    let updated_at_ms: i64 = match timestamp(value) {
        Some(ms) => ms,
        None => observed_at_ms,
    };
    let mut book = Book { market_id, token_id, bids, asks, updated_at_ms };
    match book.normalize() {
        Ok(_) => Ok(book),
        Err(e) => Err(e),
    }
}

/// The books that a list of documents describes, or the first thing that is
/// wrong with one.
pub open spec fn books_in(items: Seq<JsonView>, observed_at_ms: i64) -> Result<
    Seq<BookView>,
    StrategyError,
>
    decreases items.len(),
{
    if items.len() == 0 {
        Ok(Seq::empty())
    } else {
        match books_in(items.drop_last(), observed_at_ms) {
            Ok(before) => match book_in(items.last(), observed_at_ms) {
                Ok(book) => Ok(before.push(book)),
                Err(e) => Err(e),
            },
            Err(e) => Err(e),
        }
    }
}

/// What a document makes of an answer with books.
pub open spec fn books_document(json: Option<JsonView>, observed_at_ms: i64) -> Result<
    Seq<BookView>,
    StrategyError,
> {
    match array_in(json) {
        Some(items) => books_in(items, observed_at_ms),
        None => Err(StrategyError::BooksJson),
    }
}

/// The content of several books.
pub open spec fn book_views(books: Seq<Book>) -> Seq<BookView> {
    Seq::new(books.len(), |i: int| books[i]@)
}

proof fn lemma_books_prefix(items: Seq<JsonView>, n: int, observed_at_ms: i64)
    requires
        0 <= n <= items.len(),
        books_in(items.take(n), observed_at_ms) is Err,
    ensures
        books_in(items, observed_at_ms) == books_in(items.take(n), observed_at_ms),
    decreases items.len() - n,
{
    if n == items.len() {
        assert(items.take(n) =~= items);
    } else {
        assert(items.take(n + 1).drop_last() =~= items.take(n));
        lemma_books_prefix(items, n + 1, observed_at_ms);
    }
}

/// The books in a document.
pub fn books_from(json: Option<&Json>, observed_at_ms: i64) -> (r: Result<Vec<Book>, StrategyError>)
    ensures
        match r {
            Ok(books) => books_document(view_in(json), observed_at_ms) == Ok::<
                Seq<BookView>,
                StrategyError,
            >(book_views(books@)),
            Err(e) => books_document(view_in(json), observed_at_ms) == Err::<
                Seq<BookView>,
                StrategyError,
            >(e),
        },
{
    let items = match as_array(json) {
        Some(items) => items,
        None => return Err(StrategyError::BooksJson),
    };
    let ghost views = views_of(items@);
    let mut books: Vec<Book> = Vec::new();
    let mut i: usize = 0;
    assert(book_views(books@) =~= Seq::<BookView>::empty());
    while i < items.len()
        invariant
            i <= items@.len(),
            views == views_of(items@),
            books_document(view_in(json), observed_at_ms) == books_in(views, observed_at_ms),
            books_in(views.take(i as int), observed_at_ms) == Ok::<Seq<BookView>, StrategyError>(
                book_views(books@),
            ),
        decreases items@.len() - i,
    {
        let ghost before = books@;
        proof {
            assert(views.take(i + 1).drop_last() =~= views.take(i as int));
            assert(views.take(i + 1).last() == items@[i as int]@);
            if books_in(views.take(i + 1), observed_at_ms) is Err {
                lemma_books_prefix(views, i + 1, observed_at_ms);
            }
        }
        match parse_book(&items[i], observed_at_ms) {
            Ok(book) => {
                books.push(book);
                assert(book_views(books@) =~= book_views(before).push(book@));
            },
            Err(e) => return Err(e),
        }
        i += 1;
    }
    assert(views.take(i as int) =~= views);
    Ok(books)
}

/// The books in the text of an answer.
pub fn parse_books(raw: &str, observed_at_ms: i64) -> (r: Result<Vec<Book>, StrategyError>)
    ensures
        match r {
            Ok(books) => books_document(parsed_json(raw@), observed_at_ms) == Ok::<
                Seq<BookView>,
                StrategyError,
            >(book_views(books@)),
            Err(e) => books_document(parsed_json(raw@), observed_at_ms) == Err::<
                Seq<BookView>,
                StrategyError,
            >(e),
        },
{
    let parsed = parse_json(raw);
    match &parsed {
        Some(json) => books_from(Some(json), observed_at_ms),
        None => Err(StrategyError::BooksJson),
    }
}

// ---------------------------------------------------------------------------
// Market info
// ---------------------------------------------------------------------------

/// What the order-book service says of a market.
#[derive(Debug, PartialEq, Eq)]
pub struct MarketInfo {
    pub condition_id: String,
    pub token_ids: Vec<String>,
    pub fee_rate: Option<Decimal>,
    pub fee_exponent: Option<i64>,
    pub fee_taker_only: Option<bool>,
    pub tick_size: Decimal,
    pub accepting_orders: bool,
}

/// The content of a [`MarketInfo`].
#[verifier::ext_equal]
pub struct MarketInfoView {
    pub condition_id: Seq<char>,
    pub token_ids: Seq<Seq<char>>,
    pub fee_rate: Option<Decimal>,
    pub fee_exponent: Option<i64>,
    pub fee_taker_only: Option<bool>,
    pub tick_size: Decimal,
    pub accepting_orders: bool,
}

impl View for MarketInfo {
    type V = MarketInfoView;

    open spec fn view(&self) -> MarketInfoView {
        MarketInfoView {
            condition_id: self.condition_id@,
            token_ids: text_seq(self.token_ids@),
            fee_rate: self.fee_rate,
            fee_exponent: self.fee_exponent,
            fee_taker_only: self.fee_taker_only,
            tick_size: self.tick_size,
            accepting_orders: self.accepting_orders,
        }
    }
}

/// A copy of a list of texts.
pub fn copy_texts(list: &Vec<String>) -> (r: Vec<String>)
    ensures
        r@ == list@,
{
    let mut r: Vec<String> = Vec::new();
    let mut i: usize = 0;
    while i < list.len()
        invariant
            i <= list@.len(),
            r@ == list@.take(i as int),
        decreases list@.len() - i,
    {
        r.push(list[i].clone());
        assert(list@.take(i + 1) =~= list@.take(i as int).push(list@[i as int]));
        i += 1;
    }
    assert(list@.take(i as int) =~= list@);
    r
}

impl Clone for MarketInfo {
    fn clone(&self) -> (r: Self)
        ensures
            r@ == self@,
    {
        MarketInfo {
            condition_id: self.condition_id.clone(),
            token_ids: copy_texts(&self.token_ids),
            fee_rate: self.fee_rate,
            fee_exponent: self.fee_exponent,
            fee_taker_only: self.fee_taker_only,
            tick_size: self.tick_size,
            accepting_orders: self.accepting_orders,
        }
    }
}

/// The token identifiers that a list of documents names.
pub open spec fn token_ids_in(items: Seq<JsonView>) -> Result<Seq<Seq<char>>, StrategyError>
    decreases items.len(),
{
    if items.len() == 0 {
        Ok(Seq::empty())
    } else {
        match token_ids_in(items.drop_last()) {
            Ok(before) => match text_in(items.last().field3("token_id"@, "tokenId"@, "t"@)) {
                Some(id) => Ok(before.push(id)),
                None => Err(StrategyError::RequiredStringMissing),
            },
            Err(e) => Err(e),
        }
    }
}

proof fn lemma_token_ids_prefix(items: Seq<JsonView>, n: int)
    requires
        0 <= n <= items.len(),
        token_ids_in(items.take(n)) is Err,
    ensures
        token_ids_in(items) == token_ids_in(items.take(n)),
    decreases items.len() - n,
{
    if n == items.len() {
        assert(items.take(n) =~= items);
    } else {
        assert(items.take(n + 1).drop_last() =~= items.take(n));
        lemma_token_ids_prefix(items, n + 1);
    }
}

fn token_ids(items: &Vec<Json>) -> (r: Result<Vec<String>, StrategyError>)
    ensures
        match r {
            Ok(ids) => token_ids_in(views_of(items@)) == Ok::<Seq<Seq<char>>, StrategyError>(
                text_seq(ids@),
            ),
            Err(e) => token_ids_in(views_of(items@)) == Err::<Seq<Seq<char>>, StrategyError>(e),
        },
{
    let ghost views = views_of(items@);
    let mut ids: Vec<String> = Vec::new();
    let mut i: usize = 0;
    assert(text_seq(ids@) =~= Seq::<Seq<char>>::empty());
    while i < items.len()
        invariant
            i <= items@.len(),
            views == views_of(items@),
            token_ids_in(views.take(i as int)) == Ok::<Seq<Seq<char>>, StrategyError>(
                text_seq(ids@),
            ),
        decreases items@.len() - i,
    {
        let ghost before = ids@;
        proof {
            assert(views.take(i + 1).drop_last() =~= views.take(i as int));
            assert(views.take(i + 1).last() == items@[i as int]@);
            if token_ids_in(views.take(i + 1)) is Err {
                lemma_token_ids_prefix(views, i + 1);
            }
        }
        match as_text(items[i].get3("token_id", "tokenId", "t")) {
            Some(id) => {
                ids.push(id.to_owned());
                assert(text_seq(ids@) =~= text_seq(before).push(id@));
            },
            None => return Err(StrategyError::RequiredStringMissing),
        }
        i += 1;
    }
    assert(views.take(i as int) =~= views);
    Ok(ids)
}

/// The field of a value that may be missing, under the first of two names.
pub open spec fn within2(json: Option<JsonView>, a: Seq<char>, b: Seq<char>) -> Option<JsonView> {
    match json {
        Some(value) => value.field2(a, b),
        None => None,
    }
}

/// The market info that a document holds.
pub open spec fn market_info_in(json: JsonView, expected_condition_id: Seq<char>) -> Result<
    MarketInfoView,
    StrategyError,
> {
    let condition_id = text_in(json.field3("condition_id"@, "conditionId"@, "c"@));
    let tokens = array_in(json.field2("tokens"@, "t"@));
    let curve = json.field3("fee_curve"@, "feeCurve"@, "fd"@);
    let tick_size = decimal_in(json.field3("minimum_tick_size"@, "minimumTickSize"@, "mts"@));
    if condition_id is None {
        Err(StrategyError::RequiredStringMissing)
    } else if condition_id->0 != expected_condition_id {
        Err(StrategyError::ConditionMismatch)
    } else if tokens is None {
        Err(StrategyError::TokensMissing)
    } else if token_ids_in(tokens->0) is Err {
        Err(StrategyError::RequiredStringMissing)
    } else if tick_size is None {
        Err(StrategyError::TickSizeMissing)
    } else {
        Ok(
            MarketInfoView {
                condition_id: condition_id->0,
                token_ids: token_ids_in(tokens->0)->Ok_0,
                fee_rate: decimal_in(within2(curve, "rate"@, "r"@)),
                fee_exponent: int_in(within2(curve, "exponent"@, "e"@)),
                fee_taker_only: match curve {
                    Some(value) => bool_in(
                        value.field4("taker_only"@, "takerOnly"@, "to"@, "t"@),
                    ),
                    None => None,
                },
                tick_size: tick_size->0,
                accepting_orders: bool_in(
                    json.field3("accepting_orders"@, "acceptingOrders"@, "ao"@),
                ) == Some(true),
            },
        )
    }
}

/// The market info in a document, for the condition that was asked for.
pub fn market_info_from(value: &Json, expected_condition_id: &str) -> (r: Result<
    MarketInfo,
    StrategyError,
>)
    ensures
        match r {
            Ok(info) => market_info_in(value@, expected_condition_id@) == Ok::<
                MarketInfoView,
                StrategyError,
            >(info@),
            Err(e) => market_info_in(value@, expected_condition_id@) == Err::<
                MarketInfoView,
                StrategyError,
            >(e),
        },
{
    let condition_id = match as_text(value.get3("condition_id", "conditionId", "c")) {
        Some(text) => text,
        None => return Err(StrategyError::RequiredStringMissing),
    };
    if !same_text(condition_id, expected_condition_id) {
        return Err(StrategyError::ConditionMismatch);
    }
    let tokens = match as_array(value.get2("tokens", "t")) {
        Some(items) => items,
        None => return Err(StrategyError::TokensMissing),
    };
    let token_ids = match token_ids(tokens) {
        Ok(ids) => ids,
        Err(_) => {
            proof {
                lemma_token_ids_error(views_of(tokens@));
            }
            return Err(StrategyError::RequiredStringMissing);
        },
    };
    let (fee_rate, fee_exponent, fee_taker_only) = match value.get3(
        "fee_curve",
        "feeCurve",
        "fd",
    ) {
        Some(curve) => (
            as_decimal(curve.get2("rate", "r")),
            as_int(curve.get2("exponent", "e")),
            as_bool(curve.get4("taker_only", "takerOnly", "to", "t")),
        ),
        None => (None, None, None),
    };
    let tick_size = match as_decimal(value.get3("minimum_tick_size", "minimumTickSize", "mts")) {
        Some(d) => d,
        None => return Err(StrategyError::TickSizeMissing),
    };
    let accepting_orders = match as_bool(
        value.get3("accepting_orders", "acceptingOrders", "ao"),
    ) {
        Some(b) => b,
        None => false,
    };
    Ok(
        MarketInfo {
            condition_id: condition_id.to_owned(),
            token_ids,
            fee_rate,
            fee_exponent,
            fee_taker_only,
            tick_size,
            accepting_orders,
        },
    )
}

proof fn lemma_token_ids_error(items: Seq<JsonView>)
    ensures
        token_ids_in(items) matches Err(e) ==> e == StrategyError::RequiredStringMissing,
    decreases items.len(),
{
    if items.len() > 0 {
        lemma_token_ids_error(items.drop_last());
    }
}

/// What an answer makes of the market info that was asked for.
pub open spec fn market_info_document(json: Option<JsonView>, expected_condition_id: Seq<char>) -> Result<
    MarketInfoView,
    StrategyError,
> {
    match json {
        Some(value) => market_info_in(value, expected_condition_id),
        None => Err(StrategyError::MarketInfoJson),
    }
}

/// The market info in the text of an answer, for the condition that was asked for.
pub fn parse_market_info(raw: &str, expected_condition_id: &str) -> (r: Result<
    MarketInfo,
    StrategyError,
>)
    ensures
        match r {
            Ok(info) => market_info_document(parsed_json(raw@), expected_condition_id@) == Ok::<
                MarketInfoView,
                StrategyError,
            >(info@),
            Err(e) => market_info_document(parsed_json(raw@), expected_condition_id@) == Err::<
                MarketInfoView,
                StrategyError,
            >(e),
        },
{
    match parse_json(raw) {
        Some(json) => market_info_from(&json, expected_condition_id),
        None => Err(StrategyError::MarketInfoJson),
    }
}

/// A text without the slashes at its end.
pub open spec fn without_trailing_slashes(text: Seq<char>) -> Seq<char>
    decreases text.len(),
{
    if text.len() > 0 && text.last() == '/' {
        without_trailing_slashes(text.drop_last())
    } else {
        text
    }
}

/// Where the market info of a condition is found.
pub fn market_info_url(endpoint: &str, condition_id: &str) -> (r: String)
    ensures
        r@ == without_trailing_slashes(endpoint@) + "/clob-markets/"@ + condition_id@,
{
    let mut n: usize = endpoint.unicode_len();
    assert(endpoint@.take(n as int) =~= endpoint@);
    while n > 0 && endpoint.get_char(n - 1) == '/'
        invariant
            n <= endpoint@.len(),
            without_trailing_slashes(endpoint@) == without_trailing_slashes(
                endpoint@.take(n as int),
            ),
        decreases n,
    {
        assert(endpoint@.take(n as int).drop_last() =~= endpoint@.take(n - 1));
        n -= 1;
    }
    let base = endpoint.substring_char(0, n);
    assert(base@ =~= endpoint@.take(n as int));
    let mut out = base.to_owned();
    out.append("/clob-markets/");
    out.append(condition_id);
    out
}

// ---------------------------------------------------------------------------
// Subscriptions
// ---------------------------------------------------------------------------

/// What to subscribe to and what to unsubscribe from.
#[derive(Debug, PartialEq, Eq)]
pub struct SubscriptionDiff {
    pub subscribe: Vec<String>,
    pub unsubscribe: Vec<String>,
}

impl Default for SubscriptionDiff {
    fn default() -> (r: Self)
        ensures
            r.subscribe@ == Seq::<String>::empty(),
            r.unsubscribe@ == Seq::<String>::empty(),
    {
        SubscriptionDiff { subscribe: Vec::new(), unsubscribe: Vec::new() }
    }
}

/// What leads from the current subscriptions to the wanted ones: in ascending
/// order, what is wanted and not current, and what is current and not wanted.
pub fn subscription_diff(current: &StringSet, target: &StringSet) -> (r: SubscriptionDiff)
    ensures
        texts_of(r.subscribe@) == target@.difference(current@),
        texts_ascend(text_seq(r.subscribe@)),
        texts_of(r.unsubscribe@) == current@.difference(target@),
        texts_ascend(text_seq(r.unsubscribe@)),
{
    SubscriptionDiff {
        subscribe: target.difference(current),
        unsubscribe: current.difference(target),
    }
}

/// Unsubscribing and subscribing as the difference says leads from the current
/// subscriptions to exactly the wanted ones, and touches nothing that stays.
pub proof fn law_difference_leads_to_target(current: Set<Seq<char>>, target: Set<Seq<char>>)
    ensures
        current.difference(current.difference(target)).union(target.difference(current)) == target,
        target.difference(current).disjoint(current),
        current.difference(target).disjoint(target),
{
    assert(current.difference(current.difference(target)).union(target.difference(current))
        =~= target);
}

/// JSON strings, separated by commas.
pub open spec fn quoted_list(ids: Seq<Seq<char>>) -> Seq<char>
    decreases ids.len(),
{
    if ids.len() == 0 {
        Seq::empty()
    } else if ids.len() == 1 {
        quoted_text(ids[0])
    } else {
        quoted_list(ids.drop_last()) + ","@ + quoted_text(ids.last())
    }
}

/// The message that names assets: an operation on a running subscription, or
/// the opening of one.
pub open spec fn message_text(ids: Seq<Seq<char>>, operation: Option<Seq<char>>) -> Seq<char> {
    "{\"assets_ids\":["@ + quoted_list(ids) + "],\"custom_feature_enabled\":true,"@ + (
    match operation {
        Some(operation) => "\"operation\":"@ + quoted_text(operation),
        None => "\"type\":\"market\""@,
    }) + "}"@
}

/// The `i`-th batch of assets.
pub open spec fn batch(ids: Seq<Seq<char>>, i: int) -> Seq<Seq<char>> {
    let start = i * SUBSCRIPTION_BATCH_SIZE;
    let end = if start + SUBSCRIPTION_BATCH_SIZE < ids.len() {
        start + SUBSCRIPTION_BATCH_SIZE
    } else {
        ids.len() as int
    };
    ids.subrange(start, end)
}

/// One message for each batch, in order.
pub open spec fn message_texts(ids: Seq<Seq<char>>, operation: Option<Seq<char>>) -> Seq<Seq<char>> {
    Seq::new(
        ((ids.len() + SUBSCRIPTION_BATCH_SIZE - 1) / SUBSCRIPTION_BATCH_SIZE as int) as nat,
        |i: int| message_text(batch(ids, i), operation),
    )
}

/// The content of a text that may be missing.
pub open spec fn str_view(text: Option<&str>) -> Option<Seq<char>> {
    match text {
        Some(text) => Some(text@),
        None => None,
    }
}

fn subscription_message(asset_ids: &Vec<String>, start: usize, end: usize, operation: Option<&str>) -> (r:
    String)
    requires
        start <= end <= asset_ids@.len(),
    ensures
        r@ == message_text(
            text_seq(asset_ids@).subrange(start as int, end as int),
            str_view(operation),
        ),
{
    let ghost ids = text_seq(asset_ids@).subrange(start as int, end as int);
    let mut list = String::new();
    let mut i: usize = start;
    while i < end
        invariant
            start <= i <= end <= asset_ids@.len(),
            ids == text_seq(asset_ids@).subrange(start as int, end as int),
            list@ == quoted_list(ids.take(i - start)),
        decreases end - i,
    {
        proof {
            assert(ids.take(i + 1 - start).drop_last() =~= ids.take(i - start));
            assert(ids.take(i + 1 - start).last() == asset_ids@[i as int]@);
        }
        if i > start {
            list.append(",");
        } else {
            assert(list@ + quoted_text(asset_ids@[i as int]@) =~= quoted_text(
                asset_ids@[i as int]@,
            ));
        }
        list.append(quote(asset_ids[i].as_str()).as_str());
        i += 1;
    }
    assert(ids.take(end - start) =~= ids);
    let mut out = "{\"assets_ids\":[".to_owned();
    out.append(list.as_str());
    out.append("],\"custom_feature_enabled\":true,");
    match operation {
        Some(operation) => {
            let mut tail = "\"operation\":".to_owned();
            tail.append(quote(operation).as_str());
            out.append(tail.as_str());
        },
        None => {
            out.append("\"type\":\"market\"");
        },
    }
    out.append("}");
    out
}

/// The messages that open a subscription of assets, or operate on one: each
/// names at most [`SUBSCRIPTION_BATCH_SIZE`] of them.
pub fn subscription_messages(asset_ids: &Vec<String>, operation: Option<&str>) -> (r: Vec<String>)
    ensures
        text_seq(r@) == message_texts(text_seq(asset_ids@), str_view(operation)),
{
    let ghost ids = text_seq(asset_ids@);
    let length: usize = asset_ids.len();
    let mut messages: Vec<String> = Vec::new();
    let mut start: usize = 0;
    while start < length
        invariant
            length == asset_ids@.len(),
            ids == text_seq(asset_ids@),
            start <= length,
            start == messages@.len() * SUBSCRIPTION_BATCH_SIZE || start == length,
            messages@.len() == (start + SUBSCRIPTION_BATCH_SIZE - 1)
                / SUBSCRIPTION_BATCH_SIZE as int,
            forall|i: int|
                0 <= i < messages@.len() ==> (#[trigger] messages@[i])@ == message_text(
                    batch(ids, i),
                    str_view(operation),
                ),
        decreases length - start,
    {
        let end: usize = if length - start > SUBSCRIPTION_BATCH_SIZE {
            start + SUBSCRIPTION_BATCH_SIZE
        } else {
            length
        };
        messages.push(subscription_message(asset_ids, start, end, operation));
        start = end;
    }
    assert(text_seq(messages@) =~= message_texts(ids, str_view(operation)));
    messages
}

/// Every asset is named by exactly the message of its batch, and no message
/// names more than a batch.
pub proof fn law_batches_cover_the_assets(ids: Seq<Seq<char>>, operation: Option<Seq<char>>, k: int)
    requires
        0 <= k < ids.len(),
    ensures
        0 <= k / SUBSCRIPTION_BATCH_SIZE as int,
        k / (SUBSCRIPTION_BATCH_SIZE as int) < message_texts(ids, operation).len(),
        batch(ids, k / SUBSCRIPTION_BATCH_SIZE as int).len() <= SUBSCRIPTION_BATCH_SIZE,
        batch(ids, k / SUBSCRIPTION_BATCH_SIZE as int)[k % SUBSCRIPTION_BATCH_SIZE as int] == ids[k],
{
}

// ---------------------------------------------------------------------------
// Reconnecting
// ---------------------------------------------------------------------------

/// The delay before jitter: doubling from 250 milliseconds, and capped.
pub open spec fn base_delay_ms(attempt: u32) -> int {
    if attempt == 0 {
        250
    } else if attempt == 1 {
        500
    } else if attempt == 2 {
        1_000
    } else if attempt == 3 {
        2_000
    } else if attempt == 4 {
        4_000
    } else {
        5_000
    }
}

/// The delay before a reconnect, in nanoseconds: the jitter picks one of a
/// thousand steps between half of the delay and all of it.
pub fn reconnect_delay(attempt: u32, jitter_nanos: u32) -> (r: u64)
    ensures
        r == base_delay_ms(attempt) * 500 * (1_000 + jitter_nanos % 1_000),
        base_delay_ms(attempt) * 500_000 <= r < base_delay_ms(attempt) * 1_000_000,
        r < 5_000_000_000,
{
    let base: u64 = match attempt {
        0 => 250,
        1 => 500,
        2 => 1_000,
        3 => 2_000,
        4 => 4_000,
        _ => 5_000,
    };
    let steps: u64 = 1_000 + (jitter_nanos % 1_000) as u64;
    assert(base * 500 * steps < base * 1_000_000 && base * 500 * steps >= base * 500_000)
        by (nonlinear_arith)
        requires
            1_000 <= steps < 2_000,
            0 < base <= 5_000,
    ;
    base * 500 * steps
}

/// The attempt that a reconnect counts as: the first again once a connection
/// has stayed up for ten seconds.
pub fn attempt_after(attempt: u32, connected_for_ms: Option<u64>) -> (r: u32)
    ensures
        r == (if connected_for_ms matches Some(ms) && ms >= 10_000 {
            0
        } else {
            attempt
        }),
{
    match connected_for_ms {
        Some(ms) => if ms >= 10_000 {
            0
        } else {
            attempt
        },
        None => attempt,
    }
}

/// Delays never shrink from one attempt to the next.
pub proof fn law_delays_grow(attempt: u32, later: u32)
    requires
        attempt <= later,
    ensures
        base_delay_ms(attempt) <= base_delay_ms(later) <= 5_000,
{
}

// ---------------------------------------------------------------------------
// The feed
// ---------------------------------------------------------------------------

/// The content of a cache of books.
pub open spec fn cache_view(cache: Map<Seq<char>, Book>) -> Map<Seq<char>, BookView> {
    Map::new(|token: Seq<char>| cache.contains_key(token), |token: Seq<char>| cache[token]@)
}

/// The levels without those at a price, and with a new one behind them unless
/// its size is not positive.
pub open spec fn level_changed(levels: Seq<Level>, price: Decimal, size: Decimal) -> Seq<Level> {
    let others = levels_not_at(levels, price);
    if size.m() > 0 {
        others.push(Level { price, size })
    } else {
        others
    }
}

/// The levels at other prices.
pub open spec fn levels_not_at(levels: Seq<Level>, price: Decimal) -> Seq<Level>
    decreases levels.len(),
{
    if levels.len() == 0 {
        levels
    } else if crate::decimal::same(levels.last().price, price) {
        levels_not_at(levels.drop_last(), price)
    } else {
        levels_not_at(levels.drop_last(), price).push(levels.last())
    }
}

/// A book with its best prices first, or as it is where a level is invalid.
pub open spec fn tidied(book: BookView) -> BookView {
    if are_valid_levels(book.bids) && are_valid_levels(book.asks) {
        ordered_book(book)
    } else {
        book
    }
}

/// A book after a change of one level on one side; `None` where the side is
/// neither of the two.
pub open spec fn book_changed(
    book: BookView,
    side: Seq<char>,
    price: Decimal,
    size: Decimal,
    updated_at_ms: i64,
) -> Option<BookView> {
    if upper_text(side) == upper_text("buy"@) {
        let bids = level_changed(book.bids, price, size);
        Some(BookView { updated_at_ms, ..tidied(BookView { bids, ..book }) })
    } else if upper_text(side) == upper_text("sell"@) {
        let asks = level_changed(book.asks, price, size);
        Some(BookView { updated_at_ms, ..tidied(BookView { asks, ..book }) })
    } else {
        None
    }
}

/// A cache after one change: only a subscribed token with a book, and only a
/// complete change, has an effect.
pub open spec fn change_applied(
    cache: Map<Seq<char>, BookView>,
    change: JsonView,
    subscribed: Set<Seq<char>>,
    updated_at_ms: i64,
) -> Map<Seq<char>, BookView> {
    let token = text_in(change.field2("asset_id"@, "assetId"@));
    let price = decimal_in(change.field("price"@));
    let size = decimal_in(change.field("size"@));
    let side = str_in(change.field("side"@));
    match (token, price, size, side) {
        (Some(token), Some(price), Some(size), Some(side)) => if subscribed.contains(token)
            && cache.contains_key(token) {
            match book_changed(cache[token], side, price, size, updated_at_ms) {
                Some(book) => cache.insert(token, book),
                None => cache,
            }
        } else {
            cache
        },
        _ => cache,
    }
}

/// A cache after several changes, in order.
pub open spec fn changes_applied(
    cache: Map<Seq<char>, BookView>,
    changes: Seq<JsonView>,
    subscribed: Set<Seq<char>>,
    updated_at_ms: i64,
) -> Map<Seq<char>, BookView>
    decreases changes.len(),
{
    if changes.len() == 0 {
        cache
    } else {
        change_applied(
            changes_applied(cache, changes.drop_last(), subscribed, updated_at_ms),
            changes.last(),
            subscribed,
            updated_at_ms,
        )
    }
}

/// A cache after one event: a book replaces the one of its token, a price change
/// changes the levels of those that it names.
pub open spec fn event_applied(
    cache: Map<Seq<char>, BookView>,
    event: JsonView,
    subscribed: Set<Seq<char>>,
    now_ms: i64,
) -> Map<Seq<char>, BookView> {
    let event_type = str_in(event.field("event_type"@));
    if event_type == Some("book"@) || event.field("bids"@) is Some {
        match book_in(event, now_ms) {
            Ok(book) => if subscribed.contains(book.token_id) {
                cache.insert(book.token_id, book)
            } else {
                cache
            },
            Err(_) => cache,
        }
    } else if event_type == Some("price_change"@) {
        let updated_at_ms = match timestamp_in(event) {
            Some(ms) => ms,
            None => now_ms,
        };
        match array_in(event.field2("price_changes"@, "changes"@)) {
            Some(changes) => changes_applied(cache, changes, subscribed, updated_at_ms),
            None => cache,
        }
    } else {
        cache
    }
}

/// A cache after several events, in order.
pub open spec fn events_applied(
    cache: Map<Seq<char>, BookView>,
    events: Seq<JsonView>,
    subscribed: Set<Seq<char>>,
    now_ms: i64,
) -> Map<Seq<char>, BookView>
    decreases events.len(),
{
    if events.len() == 0 {
        cache
    } else {
        event_applied(
            events_applied(cache, events.drop_last(), subscribed, now_ms),
            events.last(),
            subscribed,
            now_ms,
        )
    }
}

/// A cache after a frame: an array of events, or a single one; a frame that is
/// no JSON has no effect.
pub open spec fn frame_applied(
    cache: Map<Seq<char>, BookView>,
    frame: Option<JsonView>,
    subscribed: Set<Seq<char>>,
    now_ms: i64,
) -> Map<Seq<char>, BookView> {
    match frame {
        Some(JsonView::Array(events)) => events_applied(cache, events, subscribed, now_ms),
        Some(event) => event_applied(cache, event, subscribed, now_ms),
        None => cache,
    }
}

fn change_level(levels: &Vec<Level>, price: Decimal, size: Decimal) -> (r: Vec<Level>)
    ensures
        r@ == level_changed(levels@, price, size),
{
    let mut r: Vec<Level> = Vec::new();
    let mut i: usize = 0;
    while i < levels.len()
        invariant
            i <= levels@.len(),
            r@ == levels_not_at(levels@.take(i as int), price),
        decreases levels@.len() - i,
    {
        let level = levels[i];
        assert(levels@.take(i + 1).drop_last() =~= levels@.take(i as int));
        if level.price != price {
            r.push(level);
        }
        i += 1;
    }
    assert(levels@.take(i as int) =~= levels@);
    if size.is_positive() {
        r.push(Level { price, size });
    }
    r
}

fn change_book(book: &mut Book, side: &str, price: Decimal, size: Decimal, updated_at_ms: i64)
    ensures
        final(book)@ == (match book_changed(old(book)@, side@, price, size, updated_at_ms) {
            Some(changed) => changed,
            None => old(book)@,
        }),
{
    if same_ignoring_case(side, "buy") {
        book.bids = change_level(&book.bids, price, size);
    } else if same_ignoring_case(side, "sell") {
        book.asks = change_level(&book.asks, price, size);
    } else {
        return ;
    }
    let _ = book.normalize();
    book.updated_at_ms = updated_at_ms;
}

fn apply_change(
    books: &mut StringMap<Book>,
    change: &Json,
    subscribed: &StringSet,
    updated_at_ms: i64,
)
    ensures
        cache_view(final(books)@) == change_applied(
            cache_view(old(books)@),
            change@,
            subscribed@,
            updated_at_ms,
        ),
{
    let token = match as_text(change.get2("asset_id", "assetId")) {
        Some(token) => token,
        None => return ,
    };
    if !subscribed.contains(token) {
        return ;
    }
    let (price, size, side) = match (
        as_decimal(change.get("price")),
        as_decimal(change.get("size")),
        as_str(change.get("side")),
    ) {
        (Some(p), Some(s), Some(d)) => (p, s, d),
        _ => return ,
    };
    let ghost before = books@;
    match books.remove(token) {
        Some(book) => {
            let mut book = book;
            change_book(&mut book, side, price, size, updated_at_ms);
            books.insert(token.to_owned(), book);
            proof {
                let old_book = cache_view(before)[token@];
                assert(cache_view(books@) =~= cache_view(before).insert(token@, book@));
                if book_changed(old_book, side@, price, size, updated_at_ms) is None {
                    assert(cache_view(before).insert(token@, old_book) =~= cache_view(before));
                }
            }
        },
        None => {
            assert(books@ =~= before);
        },
    }
}

fn apply_changes(books: &mut StringMap<Book>, event: &Json, subscribed: &StringSet, now_ms: i64)
    ensures
        cache_view(final(books)@) == (match array_in(
            event@.field2("price_changes"@, "changes"@),
        ) {
            Some(changes) => changes_applied(
                cache_view(old(books)@),
                changes,
                subscribed@,
                match timestamp_in(event@) {
                    Some(ms) => ms,
                    None => now_ms,
                },
            ),
            None => cache_view(old(books)@),
        }),
{
    let changes = match as_array(event.get2("price_changes", "changes")) {
        Some(items) => items,
        None => return ,
    };
    let updated_at_ms: i64 = match timestamp(event) {
        Some(ms) => ms,
        None => now_ms,
    };
    let ghost views = views_of(changes@);
    let ghost before = cache_view(books@);
    let mut i: usize = 0;
    while i < changes.len()
        invariant
            i <= changes@.len(),
            views == views_of(changes@),
            cache_view(books@) == changes_applied(
                before,
                views.take(i as int),
                subscribed@,
                updated_at_ms,
            ),
        decreases changes@.len() - i,
    {
        proof {
            assert(views.take(i + 1).drop_last() =~= views.take(i as int));
            assert(views.take(i + 1).last() == changes@[i as int]@);
        }
        apply_change(books, &changes[i], subscribed, updated_at_ms);
        i += 1;
    }
    assert(views.take(i as int) =~= views);
}

fn apply_event(books: &mut StringMap<Book>, event: &Json, subscribed: &StringSet, now_ms: i64)
    ensures
        cache_view(final(books)@) == event_applied(
            cache_view(old(books)@),
            event@,
            subscribed@,
            now_ms,
        ),
{
    let event_type = as_str(event.get("event_type"));
    let is_book = match event_type {
        Some(kind) => same_text(kind, "book"),
        None => false,
    };
    if is_book || event.get("bids").is_some() {
        match parse_book(event, now_ms) {
            Ok(book) => {
                if subscribed.contains(book.token_id.as_str()) {
                    let ghost before = books@;
                    books.insert(book.token_id.clone(), book);
                    assert(cache_view(books@) =~= cache_view(before).insert(book@.token_id, book@));
                }
            },
            Err(_) => {},
        }
        return ;
    }
    let is_change = match event_type {
        Some(kind) => same_text(kind, "price_change"),
        None => false,
    };
    if is_change {
        apply_changes(books, event, subscribed, now_ms);
    }
}

/// Applies the events of a parsed frame to the cache of books.
pub fn apply_events(books: &mut StringMap<Book>, frame: &Json, subscribed: &StringSet, now_ms: i64)
    ensures
        cache_view(final(books)@) == frame_applied(
            cache_view(old(books)@),
            Some(frame@),
            subscribed@,
            now_ms,
        ),
{
    match frame {
        Json::Array(events) => {
            let ghost views = frame@->Array_0;
            let ghost before = cache_view(books@);
            let mut i: usize = 0;
            while i < events.len()
                invariant
                    i <= events@.len(),
                    views.len() == events@.len(),
                    forall|j: int|
                        0 <= j < events@.len() ==> #[trigger] views[j] == json_view(events@[j]),
                    cache_view(books@) == events_applied(
                        before,
                        views.take(i as int),
                        subscribed@,
                        now_ms,
                    ),
                decreases events@.len() - i,
            {
                proof {
                    assert(views.take(i + 1).drop_last() =~= views.take(i as int));
                    assert(views.take(i + 1).last() == events@[i as int]@);
                }
                apply_event(books, &events[i], subscribed, now_ms);
                i += 1;
            }
            assert(views.take(i as int) =~= views);
        },
        _ => {
            apply_event(books, frame, subscribed, now_ms);
        },
    }
}

/// Applies the events in the text of a frame to the cache of books.
pub fn apply_frame(books: &mut StringMap<Book>, raw: &str, subscribed: &StringSet, now_ms: i64)
    ensures
        cache_view(final(books)@) == frame_applied(
            cache_view(old(books)@),
            parsed_json(raw@),
            subscribed@,
            now_ms,
        ),
{
    match parse_json(raw) {
        Some(frame) => {
            apply_events(books, &frame, subscribed, now_ms);
        },
        None => {},
    }
}

proof fn lemma_change_keeps_others(
    cache: Map<Seq<char>, BookView>,
    changes: Seq<JsonView>,
    subscribed: Set<Seq<char>>,
    updated_at_ms: i64,
    token: Seq<char>,
)
    requires
        !subscribed.contains(token),
    ensures
        same_entry(changes_applied(cache, changes, subscribed, updated_at_ms), cache, token),
    decreases changes.len(),
{
    if changes.len() > 0 {
        lemma_change_keeps_others(cache, changes.drop_last(), subscribed, updated_at_ms, token);
    }
}

proof fn lemma_event_keeps_others(
    cache: Map<Seq<char>, BookView>,
    event: JsonView,
    subscribed: Set<Seq<char>>,
    now_ms: i64,
    token: Seq<char>,
)
    requires
        !subscribed.contains(token),
    ensures
        same_entry(event_applied(cache, event, subscribed, now_ms), cache, token),
{
    let updated_at_ms = match timestamp_in(event) {
        Some(ms) => ms,
        None => now_ms,
    };
    match array_in(event.field2("price_changes"@, "changes"@)) {
        Some(changes) => {
            lemma_change_keeps_others(cache, changes, subscribed, updated_at_ms, token);
        },
        None => {},
    }
}

proof fn lemma_events_keep_others(
    cache: Map<Seq<char>, BookView>,
    events: Seq<JsonView>,
    subscribed: Set<Seq<char>>,
    now_ms: i64,
    token: Seq<char>,
)
    requires
        !subscribed.contains(token),
    ensures
        same_entry(events_applied(cache, events, subscribed, now_ms), cache, token),
    decreases events.len(),
{
    if events.len() > 0 {
        lemma_events_keep_others(cache, events.drop_last(), subscribed, now_ms, token);
        lemma_event_keeps_others(
            events_applied(cache, events.drop_last(), subscribed, now_ms),
            events.last(),
            subscribed,
            now_ms,
            token,
        );
    }
}

/// Whether two caches hold the same of a token.
pub open spec fn same_entry(
    a: Map<Seq<char>, BookView>,
    b: Map<Seq<char>, BookView>,
    token: Seq<char>,
) -> bool {
    &&& a.contains_key(token) <==> b.contains_key(token)
    &&& a.contains_key(token) ==> a[token] == b[token]
}

/// No frame touches the book of a token that is not subscribed.
pub proof fn law_feed_keeps_to_subscriptions(
    cache: Map<Seq<char>, BookView>,
    frame: Option<JsonView>,
    subscribed: Set<Seq<char>>,
    now_ms: i64,
    token: Seq<char>,
)
    requires
        !subscribed.contains(token),
    ensures
        same_entry(frame_applied(cache, frame, subscribed, now_ms), cache, token),
{
    match frame {
        Some(JsonView::Array(events)) => {
            lemma_events_keep_others(cache, events, subscribed, now_ms, token);
        },
        Some(event) => {
            lemma_event_keeps_others(cache, event, subscribed, now_ms, token);
        },
        None => {},
    }
}

/// Forgets the books of tokens that are no longer subscribed.
pub fn forget_books(books: &mut StringMap<Book>, tokens: &Vec<String>)
    ensures
        final(books)@ == old(books)@.remove_keys(texts_of(tokens@)),
{
    let ghost before = books@;
    let mut i: usize = 0;
    assert(before.remove_keys(texts_of(tokens@.take(0))) =~= before);
    while i < tokens.len()
        invariant
            i <= tokens@.len(),
            books@ == before.remove_keys(texts_of(tokens@.take(i as int))),
        decreases tokens@.len() - i,
    {
        let ghost done = tokens@.take(i as int);
        let ghost next = tokens@.take(i + 1);
        books.remove(tokens[i].as_str());
        proof {
            assert(next =~= done.push(tokens@[i as int]));
            assert(texts_of(next) =~= texts_of(done).insert(tokens@[i as int]@)) by {
                assert forall|text: Seq<char>| texts_of(next).contains(text) implies texts_of(
                    done,
                ).insert(tokens@[i as int]@).contains(text) by {
                    let k = choose|k: int| 0 <= k < next.len() && next[k]@ == text;
                    if k < done.len() {
                        assert(done[k]@ == text);
                    }
                }
                assert forall|text: Seq<char>|
                    texts_of(done).insert(tokens@[i as int]@).contains(text) implies texts_of(
                    next,
                ).contains(text) by {
                    if texts_of(done).contains(text) {
                        let k = choose|k: int| 0 <= k < done.len() && done[k]@ == text;
                        assert(next[k]@ == text);
                    } else {
                        assert(next[i as int]@ == text);
                    }
                }
            }
            assert(before.remove_keys(texts_of(done)).remove(tokens@[i as int]@)
                =~= before.remove_keys(texts_of(next)));
        }
        i += 1;
    }
    assert(tokens@.take(i as int) =~= tokens@);
}

// ---------------------------------------------------------------------------
// What the feed does to the books
// ---------------------------------------------------------------------------

/// How often a level occurs on a side once the size at a price was set: the new
/// level once where its size is positive, no other at its price, and every level at
/// another price as often as before.
pub open spec fn times_after_change(
    before: Seq<Level>,
    price: Decimal,
    size: Decimal,
    level: Level,
) -> nat {
    if !same(level.price, price) {
        before.to_multiset().count(level)
    } else if size.m() > 0 && level.price == price && level.size == size {
        1
    } else {
        0
    }
}

proof fn lemma_levels_not_at(levels: Seq<Level>, price: Decimal, level: Level)
    ensures
        levels_not_at(levels, price).to_multiset().count(level) == if same(level.price, price) {
            0
        } else {
            levels.to_multiset().count(level)
        },
    decreases levels.len(),
{
    broadcast use vstd::seq_lib::group_to_multiset_ensures;

    if levels.len() > 0 {
        lemma_levels_not_at(levels.drop_last(), price, level);
        assert(levels =~= levels.drop_last().push(levels.last()));
    } else {
        assert(levels.to_multiset().count(level) == 0);
    }
}

/// Setting the size at a price leaves one level there, with that size, where it is
/// positive, and none otherwise; the levels at every other price stay.
pub proof fn law_a_change_replaces_the_level_at_its_price(
    levels: Seq<Level>,
    price: Decimal,
    size: Decimal,
)
    ensures
        forall|level: Level| #[trigger]
            level_changed(levels, price, size).to_multiset().count(level) == times_after_change(
                levels,
                price,
                size,
                level,
            ),
{
    broadcast use vstd::seq_lib::group_to_multiset_ensures;

    crate::decimal::lemma_lt_asymmetric(price, price);
    assert forall|level: Level| #[trigger]
        level_changed(levels, price, size).to_multiset().count(level) == times_after_change(
            levels,
            price,
            size,
            level,
        ) by {
        lemma_levels_not_at(levels, price, level);
    }
}

/// Whether bids do not rise and asks do not fall from one level to the next.
pub open spec fn runs_from_the_best(book: BookView) -> bool {
    &&& forall|i: int, j: int|
        0 <= i < j < book.bids.len() ==> !lt(
            (#[trigger] book.bids[i]).price,
            (#[trigger] book.bids[j]).price,
        )
    &&& forall|i: int, j: int|
        0 <= i < j < book.asks.len() ==> !lt(
            (#[trigger] book.asks[j]).price,
            (#[trigger] book.asks[i]).price,
        )
}

/// Whether every price lies strictly between zero and one, and every size is
/// positive.
pub open spec fn is_sound(levels: Seq<Level>) -> bool {
    forall|i: int|
        0 <= i < levels.len() ==> (#[trigger] levels[i]).price.m() > 0 && lt(
            levels[i].price,
            one(),
        ) && levels[i].size.m() > 0
}

/// Ordering a book keeps its levels and puts the best prices first.
pub proof fn lemma_ordered_book(book: BookView)
    ensures
        ordered_book(book).bids.to_multiset() == book.bids.to_multiset(),
        ordered_book(book).asks.to_multiset() == book.asks.to_multiset(),
        runs_from_the_best(ordered_book(book)),
{
    law_sorted_is_an_ordered_rearrangement::<Level, DearestFirst>(book.bids);
    law_sorted_is_an_ordered_rearrangement::<Level, CheapestFirst>(book.asks);
}

proof fn lemma_sound_by_count(a: Seq<Level>, b: Seq<Level>)
    requires
        a.to_multiset() == b.to_multiset(),
        is_sound(a),
    ensures
        is_sound(b),
{
    broadcast use vstd::seq_lib::group_to_multiset_ensures;

    assert forall|i: int| 0 <= i < b.len() implies (#[trigger] b[i]).price.m() > 0 && lt(
        b[i].price,
        one(),
    ) && b[i].size.m() > 0 by {
        assert(b.contains(b[i]));
        assert(b.to_multiset().count(b[i]) > 0);
        assert(a.contains(b[i]));
        let j = choose|j: int| 0 <= j < a.len() && a[j] == b[i];
        assert(a[j].price.m() > 0);
    }
}

proof fn lemma_tidied(book: BookView)
    ensures
        tidied(book).bids.to_multiset() == book.bids.to_multiset(),
        tidied(book).asks.to_multiset() == book.asks.to_multiset(),
        tidied(book).market_id == book.market_id,
        tidied(book).token_id == book.token_id,
        is_sound(tidied(book).bids) && is_sound(tidied(book).asks) ==> runs_from_the_best(
            tidied(book),
        ),
{
    lemma_ordered_book(book);
    if is_sound(tidied(book).bids) && is_sound(tidied(book).asks) {
        lemma_sound_by_count(tidied(book).bids, book.bids);
        lemma_sound_by_count(tidied(book).asks, book.asks);
        assert(are_valid_levels(book.bids));
        assert(are_valid_levels(book.asks));
    }
}

/// Whether a book is another one after the size at a price of one side was set:
/// the other side keeps its levels, the book stays that of its token and market and
/// is as recent as the change, and it runs from its best prices on where its levels
/// are sound.
pub open spec fn is_book_after_change(
    after: BookView,
    before: BookView,
    of_bids: bool,
    price: Decimal,
    size: Decimal,
    updated_at_ms: i64,
) -> bool {
    &&& after.market_id == before.market_id
    &&& after.token_id == before.token_id
    &&& after.updated_at_ms == updated_at_ms
    &&& forall|level: Level| #[trigger]
        after.bids.to_multiset().count(level) == if of_bids {
            times_after_change(before.bids, price, size, level)
        } else {
            before.bids.to_multiset().count(level)
        }
    &&& forall|level: Level| #[trigger]
        after.asks.to_multiset().count(level) == if of_bids {
            before.asks.to_multiset().count(level)
        } else {
            times_after_change(before.asks, price, size, level)
        }
    &&& is_sound(after.bids) && is_sound(after.asks) ==> runs_from_the_best(after)
}

proof fn lemma_book_changed(
    book: BookView,
    side: Seq<char>,
    price: Decimal,
    size: Decimal,
    updated_at_ms: i64,
)
    ensures
        ({
            let after = book_changed(book, side, price, size, updated_at_ms);
            if upper_text(side) == "BUY"@ {
                after matches Some(changed) && is_book_after_change(
                    changed,
                    book,
                    true,
                    price,
                    size,
                    updated_at_ms,
                )
            } else if upper_text(side) == "SELL"@ {
                after matches Some(changed) && is_book_after_change(
                    changed,
                    book,
                    false,
                    price,
                    size,
                    updated_at_ms,
                )
            } else {
                after is None
            }
        }),
{
    lemma_upper_sides();
    law_a_change_replaces_the_level_at_its_price(book.bids, price, size);
    law_a_change_replaces_the_level_at_its_price(book.asks, price, size);
    lemma_tidied(BookView { bids: level_changed(book.bids, price, size), ..book });
    lemma_tidied(BookView { asks: level_changed(book.asks, price, size), ..book });
}

/// A change has an effect exactly when it names a subscribed token with a book, a
/// price, a size and one of the two sides, in whatever case: it sets the size at
/// that price on that side of that book. The books of all other tokens stay.
pub proof fn law_a_change_sets_one_size_of_one_book(
    cache: Map<Seq<char>, BookView>,
    change: JsonView,
    subscribed: Set<Seq<char>>,
    updated_at_ms: i64,
)
    ensures
        ({
            let after = change_applied(cache, change, subscribed, updated_at_ms);
            let token = text_in(change.field2("asset_id"@, "assetId"@));
            let price = decimal_in(change.field("price"@));
            let size = decimal_in(change.field("size"@));
            let side = str_in(change.field("side"@));
            let buys = side matches Some(text) && upper_text(text) == "BUY"@;
            let sells = side matches Some(text) && upper_text(text) == "SELL"@;
            if token is Some && price is Some && size is Some && (buys || sells)
                && subscribed.contains(token->0) && cache.contains_key(token->0) {
                &&& after.contains_key(token->0)
                &&& is_book_after_change(
                    after[token->0],
                    cache[token->0],
                    buys,
                    price->0,
                    size->0,
                    updated_at_ms,
                )
                &&& forall|other: Seq<char>| other != token->0 ==> #[trigger] same_entry(after, cache, other)
            } else {
                after == cache
            }
        }),
{
    lemma_upper_sides();
    reveal_strlit("BUY");
    reveal_strlit("SELL");
    assert("BUY"@.len() != "SELL"@.len());
    let token = text_in(change.field2("asset_id"@, "assetId"@));
    let price = decimal_in(change.field("price"@));
    let size = decimal_in(change.field("size"@));
    let side = str_in(change.field("side"@));
    if token is Some && price is Some && size is Some && side is Some {
        lemma_book_changed(cache[token->0], side->0, price->0, size->0, updated_at_ms);
    }
}

/// Changes and events take effect one after the other.
pub proof fn law_changes_and_events_apply_in_order(
    cache: Map<Seq<char>, BookView>,
    first: Seq<JsonView>,
    item: JsonView,
    subscribed: Set<Seq<char>>,
    at_ms: i64,
)
    ensures
        changes_applied(cache, Seq::empty(), subscribed, at_ms) == cache,
        changes_applied(cache, first.push(item), subscribed, at_ms) == change_applied(
            changes_applied(cache, first, subscribed, at_ms),
            item,
            subscribed,
            at_ms,
        ),
        frame_applied(cache, None, subscribed, at_ms) == cache,
        frame_applied(cache, Some(JsonView::Array(Seq::empty())), subscribed, at_ms) == cache,
        frame_applied(cache, Some(JsonView::Array(first.push(item))), subscribed, at_ms)
            == event_applied(
            frame_applied(cache, Some(JsonView::Array(first)), subscribed, at_ms),
            item,
            subscribed,
            at_ms,
        ),
        !(item is Array) ==> frame_applied(cache, Some(item), subscribed, at_ms) == event_applied(
            cache,
            item,
            subscribed,
            at_ms,
        ),
{
    assert(first.push(item).drop_last() =~= first);
}

/// An event with a type of book, or with bids, puts its book in the place of that of
/// its token, where the token is subscribed and the book is sound; an event of a
/// price change makes its changes, at its own time where it has one; any other event
/// has no effect.
pub proof fn law_events_replace_or_change_books(
    cache: Map<Seq<char>, BookView>,
    event: JsonView,
    subscribed: Set<Seq<char>>,
    now_ms: i64,
)
    ensures
        ({
            let after = event_applied(cache, event, subscribed, now_ms);
            let kind = str_in(event.field("event_type"@));
            let at_ms = lenient_int_in(event.field2("timestamp"@, "ts"@));
            let changes = array_in(event.field2("price_changes"@, "changes"@));
            if kind == Some("book"@) || event.field("bids"@) is Some {
                match book_in(event, now_ms) {
                    Ok(book) => if subscribed.contains(book.token_id) {
                        &&& after.contains_key(book.token_id)
                        &&& after[book.token_id] == book
                        &&& forall|other: Seq<char>|
                            other != book.token_id ==> #[trigger] same_entry(after, cache, other)
                    } else {
                        after == cache
                    },
                    Err(_) => after == cache,
                }
            } else if kind == Some("price_change"@) && changes is Some {
                after == changes_applied(
                    cache,
                    changes->0,
                    subscribed,
                    if at_ms is Some {
                        at_ms->0
                    } else {
                        now_ms
                    },
                )
            } else {
                after == cache
            }
        }),
{
}

proof fn lemma_levels_in(items: Seq<JsonView>)
    ensures
        match levels_in(items) {
            Ok(levels) => levels.len() == items.len() && forall|i: int|
                0 <= i < items.len() ==> decimal_in((#[trigger] items[i]).field("price"@)) == Some(
                    levels[i].price,
                ) && decimal_in(items[i].field("size"@)) == Some(levels[i].size),
            Err(e) => exists|i: int|
                0 <= i < items.len() && (decimal_in((#[trigger] items[i]).field("price"@)) is None
                    || decimal_in(items[i].field("size"@)) is None),
        },
    decreases items.len(),
{
    if items.len() > 0 {
        let before = items.drop_last();
        lemma_levels_in(before);
        match (levels_in(before), levels_in(items)) {
            (Ok(kept), Ok(levels)) => {
                assert forall|i: int| 0 <= i < items.len() implies decimal_in(
                    (#[trigger] items[i]).field("price"@),
                ) == Some(levels[i].price) && decimal_in(items[i].field("size"@)) == Some(
                    levels[i].size,
                ) by {
                    if i < before.len() {
                        assert(before[i] == items[i]);
                        assert(levels[i] == kept[i]);
                    }
                }
            },
            (Ok(_), Err(_)) => {
                assert(items[items.len() - 1] == items.last());
            },
            (Err(_), _) => {
                let i = choose|i: int|
                    0 <= i < before.len() && (decimal_in(
                        (#[trigger] before[i]).field("price"@),
                    ) is None || decimal_in(before[i].field("size"@)) is None);
                assert(items[i] == before[i]);
            },
        }
    }
}

/// Whether levels are those of a list of documents, in some order.
pub open spec fn are_levels_of(levels: Seq<Level>, items: Seq<JsonView>) -> bool {
    exists|listed: Seq<Level>| #[trigger]
        listed.to_multiset() == levels.to_multiset() && listed.len() == items.len() && forall|
            i: int,
        |
            0 <= i < items.len() ==> decimal_in((#[trigger] items[i]).field("price"@)) == Some(
                listed[i].price,
            ) && decimal_in(items[i].field("size"@)) == Some(listed[i].size)
}

/// Whether a document lists levels, each with a price and a size.
pub open spec fn lists_levels(json: Option<JsonView>) -> bool {
    array_in(json) matches Some(items) && forall|i: int|
        0 <= i < items.len() ==> decimal_in((#[trigger] items[i]).field("price"@)) is Some
            && decimal_in(items[i].field("size"@)) is Some
}

/// A document describes a book exactly when it names a market and a token and lists
/// the levels of both sides, all of them sound: the book has those levels, from the
/// best on, and the time of the document where that has one.
pub proof fn law_books_have_the_levels_of_their_documents(json: JsonView, observed_at_ms: i64)
    ensures
        book_in(json, observed_at_ms) matches Ok(book) ==> {
            &&& text_in(json.field2("market"@, "market_id"@)) == Some(book.market_id)
            &&& text_in(json.field2("asset_id"@, "token_id"@)) == Some(book.token_id)
            &&& array_in(json.field("bids"@)) matches Some(items) && are_levels_of(book.bids, items)
            &&& array_in(json.field("asks"@)) matches Some(items) && are_levels_of(book.asks, items)
            &&& is_sound(book.bids)
            &&& is_sound(book.asks)
            &&& runs_from_the_best(book)
            &&& match lenient_int_in(json.field2("timestamp"@, "ts"@)) {
                Some(ms) => book.updated_at_ms == ms,
                None => book.updated_at_ms == observed_at_ms,
            }
        },
        book_in(json, observed_at_ms) matches Err(e) ==> match e {
            StrategyError::RequiredStringMissing => text_in(
                json.field2("market"@, "market_id"@),
            ) is None || text_in(json.field2("asset_id"@, "token_id"@)) is None,
            StrategyError::BookSideMissing => array_in(json.field("bids"@)) is None || array_in(
                json.field("asks"@),
            ) is None,
            StrategyError::LevelPriceMissing | StrategyError::LevelSizeMissing => !lists_levels(
                json.field("bids"@),
            ) || !lists_levels(json.field("asks"@)),
            StrategyError::InvalidLevel => {
                &&& lists_levels(json.field("bids"@))
                &&& lists_levels(json.field("asks"@))
                &&& !is_sound(levels_in(array_in(json.field("bids"@))->0)->Ok_0) || !is_sound(
                    levels_in(array_in(json.field("asks"@))->0)->Ok_0,
                )
            },
            _ => false,
        },
{
    let bids = array_in(json.field("bids"@));
    let asks = array_in(json.field("asks"@));
    if bids is Some {
        lemma_levels_in(bids->0);
        lemma_levels_error(bids->0);
    }
    if asks is Some {
        lemma_levels_in(asks->0);
        lemma_levels_error(asks->0);
    }
    match book_in(json, observed_at_ms) {
        Ok(book) => {
            let listed_bids = levels_in(bids->0)->Ok_0;
            let listed_asks = levels_in(asks->0)->Ok_0;
            lemma_ordered_book(
                BookView {
                    market_id: book.market_id,
                    token_id: book.token_id,
                    bids: listed_bids,
                    asks: listed_asks,
                    updated_at_ms: book.updated_at_ms,
                },
            );
            assert(is_sound(listed_bids));
            assert(is_sound(listed_asks));
            lemma_sound_by_count(listed_bids, book.bids);
            lemma_sound_by_count(listed_asks, book.asks);
            assert(listed_bids.to_multiset() == book.bids.to_multiset());
            assert(listed_asks.to_multiset() == book.asks.to_multiset());
        },
        Err(_) => {},
    }
}

proof fn lemma_levels_error(items: Seq<JsonView>)
    ensures
        levels_in(items) matches Err(e) ==> e == StrategyError::LevelPriceMissing || e
            == StrategyError::LevelSizeMissing,
    decreases items.len(),
{
    if items.len() > 0 {
        lemma_levels_error(items.drop_last());
    }
}

proof fn lemma_upper_sides()
    ensures
        upper_text("buy"@) == "BUY"@,
        upper_text("sell"@) == "SELL"@,
{
    reveal_strlit("buy");
    reveal_strlit("sell");
    reveal_strlit("BUY");
    reveal_strlit("SELL");
    assert(upper_text("buy"@) =~= "BUY"@);
    assert(upper_text("sell"@) =~= "SELL"@);
}

/// A document has the info of a market exactly when it is of the condition that was
/// asked for, lists tokens with an identifier each and has a tick size; the info is
/// what it says, with orders accepted only where it says so.
pub proof fn law_what_a_market_info_document_says(json: JsonView, condition: Seq<char>)
    ensures
        ({
            let id = text_in(json.field3("condition_id"@, "conditionId"@, "c"@));
            let tokens = array_in(json.field2("tokens"@, "t"@));
            let curve = json.field3("fee_curve"@, "feeCurve"@, "fd"@);
            let tick = decimal_in(json.field3("minimum_tick_size"@, "minimumTickSize"@, "mts"@));
            match market_info_in(json, condition) {
                Ok(info) => {
                    &&& info.condition_id == condition
                    &&& id == Some(condition)
                    &&& tokens matches Some(items) && items.len() == info.token_ids.len() && forall|
                        i: int,
                    |
                        0 <= i < items.len() ==> text_in(
                            (#[trigger] items[i]).field3("token_id"@, "tokenId"@, "t"@),
                        ) == Some(info.token_ids[i])
                    &&& tick == Some(info.tick_size)
                    &&& info.accepting_orders <==> json.field3(
                        "accepting_orders"@,
                        "acceptingOrders"@,
                        "ao"@,
                    ) == Some(JsonView::Bool(true))
                    &&& curve is None ==> info.fee_rate is None && info.fee_exponent is None
                        && info.fee_taker_only is None
                    &&& curve matches Some(of) ==> info.fee_rate == decimal_in(
                        of.field2("rate"@, "r"@),
                    ) && info.fee_exponent == int_in(of.field2("exponent"@, "e"@))
                        && info.fee_taker_only == bool_in(
                        of.field4("taker_only"@, "takerOnly"@, "to"@, "t"@),
                    )
                },
                Err(StrategyError::ConditionMismatch) => id is Some && id != Some(condition),
                Err(StrategyError::TokensMissing) => tokens is None,
                Err(StrategyError::TickSizeMissing) => tick is None,
                Err(e) => e == StrategyError::RequiredStringMissing && (id is None || (
                tokens matches Some(items) && exists|i: int|
                    0 <= i < items.len() && text_in(
                        (#[trigger] items[i]).field3("token_id"@, "tokenId"@, "t"@),
                    ) is None)),
            }
        }),
{
    match array_in(json.field2("tokens"@, "t"@)) {
        Some(items) => lemma_token_ids_in(items),
        None => {},
    }
}

proof fn lemma_token_ids_in(items: Seq<JsonView>)
    ensures
        match token_ids_in(items) {
            Ok(ids) => ids.len() == items.len() && forall|i: int|
                0 <= i < items.len() ==> text_in(
                    (#[trigger] items[i]).field3("token_id"@, "tokenId"@, "t"@),
                ) == Some(ids[i]),
            Err(_) => exists|i: int|
                0 <= i < items.len() && text_in(
                    (#[trigger] items[i]).field3("token_id"@, "tokenId"@, "t"@),
                ) is None,
        },
    decreases items.len(),
{
    if items.len() > 0 {
        let before = items.drop_last();
        lemma_token_ids_in(before);
        assert(items[items.len() - 1] == items.last());
        assert(forall|i: int| 0 <= i < before.len() ==> #[trigger] before[i] == items[i]);
        assert(forall|i: int| 0 <= i < before.len() ==> before[i] == #[trigger] items[i]);
        match (token_ids_in(before), token_ids_in(items)) {
            (Ok(kept), Ok(ids)) => {
                assert(forall|i: int| 0 <= i < before.len() ==> #[trigger] ids[i] == kept[i]);
            },
            _ => {},
        }
    }
}

/// The delay starts at a quarter of a second, doubles with every attempt, and stays
/// at five seconds from the fifth on.
pub proof fn law_delays_double(attempt: u32)
    ensures
        base_delay_ms(0) == 250,
        attempt < 4 ==> base_delay_ms((attempt + 1) as u32) == 2 * base_delay_ms(attempt),
        attempt > 4 ==> base_delay_ms(attempt) == 5_000,
{
}

/// Slashes at the end of an endpoint are dropped, all of them and nothing else.
pub proof fn law_trailing_slashes_are_dropped(text: Seq<char>)
    ensures
        ({
            let kept = without_trailing_slashes(text);
            &&& kept.len() <= text.len()
            &&& kept == text.take(kept.len() as int)
            &&& kept.len() > 0 ==> kept.last() != '/'
            &&& forall|i: int| kept.len() <= i < text.len() ==> #[trigger] text[i] == '/'
        }),
    decreases text.len(),
{
    if text.len() > 0 && text.last() == '/' {
        let shorter = text.drop_last();
        law_trailing_slashes_are_dropped(shorter);
        let kept = without_trailing_slashes(text);
        assert(shorter.take(kept.len() as int) =~= text.take(kept.len() as int));
        assert forall|i: int| kept.len() <= i < text.len() implies #[trigger] text[i] == '/' by {
            if i < shorter.len() {
                assert(shorter[i] == text[i]);
            }
        }
    } else {
        assert(text.take(text.len() as int) =~= text);
    }
}

} // verus!
