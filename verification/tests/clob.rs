use moni_strategy_beta::clob::{
    apply_frame, attempt_after, forget_books, market_info_url, parse_books, parse_market_info,
    reconnect_delay, subscription_diff, subscription_messages,
};
use moni_strategy_beta::collections::{StringMap, StringSet};
use moni_strategy_beta::decimal::Decimal;
use moni_strategy_beta::error::StrategyError;
use moni_strategy_beta::pricing::Book;
use moni_strategy_beta::shards::{shard_count, ShardAssignments};
use std::time::{Duration, SystemTime, UNIX_EPOCH};

const RECONNECT_DELAY_MAX: Duration = Duration::from_millis(5_000);

fn set(items: &[&str]) -> StringSet {
    StringSet::of(&items.iter().map(|item| (*item).to_owned()).collect())
}

fn texts(items: &[&str]) -> Vec<String> {
    items.iter().map(|item| (*item).to_owned()).collect()
}

fn delay_now(attempt: u32) -> Duration {
    let jitter = SystemTime::now()
        .duration_since(UNIX_EPOCH)
        .map(|elapsed| elapsed.subsec_nanos())
        .unwrap_or(0);
    Duration::from_nanos(reconnect_delay(attempt, jitter))
}

#[test]
fn reconnect_delay_grows_and_caps_with_jitter() {
    for attempt in 0..8 {
        let delay = delay_now(attempt);
        let base = Duration::from_millis(250)
            .saturating_mul(1_u32 << attempt.min(5))
            .min(RECONNECT_DELAY_MAX);
        assert!(delay >= base / 2, "attempt {attempt}: {delay:?} < half base");
        assert!(delay <= base, "attempt {attempt}: {delay:?} over base");
    }
    assert!(delay_now(20) <= RECONNECT_DELAY_MAX);
}

#[test]
fn jitter_picks_between_half_and_all_of_the_delay() {
    assert_eq!(reconnect_delay(0, 0), 125_000_000);
    assert_eq!(reconnect_delay(0, 1_000), 125_000_000);
    assert_eq!(reconnect_delay(2, 500), 750_000_000);
    assert_eq!(reconnect_delay(9, 999), 4_997_500_000);
}

#[test]
fn a_stable_connection_resets_the_attempts() {
    assert_eq!(attempt_after(7, None), 7);
    assert_eq!(attempt_after(7, Some(9_999)), 7);
    assert_eq!(attempt_after(7, Some(10_000)), 0);
}

#[test]
fn dynamic_subscription_uses_set_difference() {
    let current = set(&["1", "2"]);
    let target = set(&["2", "3"]);
    let diff = subscription_diff(&current, &target);
    assert_eq!(diff.unsubscribe, vec!["1"]);
    assert_eq!(diff.subscribe, vec!["3"]);
    let unsubscribe = subscription_messages(&diff.unsubscribe, Some("unsubscribe"));
    assert!(unsubscribe[0].contains("\"operation\":\"unsubscribe\""));
}

#[test]
fn subscription_messages_come_in_batches() {
    let one = subscription_messages(&texts(&["a\"b", "c"]), None);
    assert_eq!(
        one,
        vec![
            "{\"assets_ids\":[\"a\\\"b\",\"c\"],\"custom_feature_enabled\":true,\"type\":\"market\"}"
        ]
    );
    let ids: Vec<String> = (0..401).map(|i| format!("t{i}")).collect();
    let batches = subscription_messages(&ids, Some("subscribe"));
    assert_eq!(batches.len(), 3);
    assert!(batches[0].contains("\"t199\"") && !batches[0].contains("\"t200\""));
    assert_eq!(
        batches[2],
        "{\"assets_ids\":[\"t400\"],\"custom_feature_enabled\":true,\"operation\":\"subscribe\"}"
    );
    assert!(subscription_messages(&Vec::new(), None).is_empty());
    for message in batches {
        let value: serde_json::Value = serde_json::from_str(&message).unwrap();
        assert_eq!(value.to_string(), message);
    }
}

#[test]
fn shard_assignments_keep_outcome_pairs_together() {
    let mut assignments = ShardAssignments::new(2, 4, 8);
    let shards = assignments
        .assign(&vec![
            "a-yes".to_owned(),
            "a-no".to_owned(),
            "b-yes".to_owned(),
            "b-no".to_owned(),
            "c-yes".to_owned(),
            "c-no".to_owned(),
        ])
        .unwrap();
    let shard_for =
        |token: &str| shards.iter().position(|assets| assets.contains(token)).unwrap();
    assert_eq!(shard_for("a-yes"), shard_for("a-no"));
    assert_eq!(shard_for("b-yes"), shard_for("b-no"));
    assert_eq!(shard_for("c-yes"), shard_for("c-no"));
}

#[test]
fn assets_keep_their_shard_and_freed_room_is_used() {
    let mut assignments = ShardAssignments::new(2, 2, 4);
    let shards = assignments.assign(&texts(&["a", "b", "c", "d"])).unwrap();
    assert!(shards[0].contains("a") && shards[1].contains("c"));
    let shards = assignments.assign(&texts(&["c", "d", "e", "f"])).unwrap();
    assert!(shards[1].contains("c") && shards[1].contains("d"));
    assert!(shards[0].contains("e") && shards[0].contains("f"));
    assert!(!shards[0].contains("a"));
    // a partner that joins finds no room where the other one is
    let shards = assignments.assign(&texts(&["c", "x"])).unwrap();
    assert!(shards[1].contains("c") && shards[0].contains("x"));
}

#[test]
fn too_many_assets_and_full_shards_are_refused() {
    let mut assignments = ShardAssignments::new(2, 3, 4);
    let refused = assignments.assign(&texts(&["a", "b", "c", "d", "e"])).unwrap_err();
    assert_eq!(refused, StrategyError::TooManyAssets { count: 5, maximum: 4 });
    assert_eq!(refused.message(), "5 assets exceed configured maximum 4");
    let mut narrow = ShardAssignments::new(1, 3, 4);
    assert_eq!(
        narrow.assign(&texts(&["a", "b", "c", "d"])).unwrap_err(),
        StrategyError::NoShardCapacity
    );
}

#[test]
fn parses_and_sorts_batched_rest_books() {
    let books = parse_books(
        r#"[{"market":"m","asset_id":"a","timestamp":"100",
            "bids":[{"price":"0.4","size":"2"},{"price":"0.5","size":"1"}],
            "asks":[{"price":"0.7","size":"1"},{"price":"0.6","size":"2"}]}]"#,
        200,
    )
    .unwrap();
    assert_eq!(books[0].bids[0].price, Decimal::new(5, 1));
    assert_eq!(books[0].asks[0].price, Decimal::new(6, 1));
    assert_eq!(books[0].updated_at_ms, 100);
}

#[test]
fn books_that_cannot_be_read_say_why() {
    assert_eq!(parse_books("{", 1), Err(StrategyError::BooksJson));
    assert_eq!(parse_books("{}", 1), Err(StrategyError::BooksJson));
    assert_eq!(parse_books("[{}]", 1), Err(StrategyError::RequiredStringMissing));
    assert_eq!(
        parse_books(r#"[{"market":"m","asset_id":"a"}]"#, 1),
        Err(StrategyError::BookSideMissing)
    );
    assert_eq!(
        parse_books(r#"[{"market":"m","asset_id":"a","bids":[{"size":"1"}],"asks":[]}]"#, 1),
        Err(StrategyError::LevelPriceMissing)
    );
    assert_eq!(
        parse_books(r#"[{"market":"m","asset_id":"a","bids":[{"price":"0.1"}],"asks":[]}]"#, 1),
        Err(StrategyError::LevelSizeMissing)
    );
    assert_eq!(
        parse_books(
            r#"[{"market":"m","asset_id":"a","bids":[{"price":"1.5","size":"1"}],"asks":[]}]"#,
            1
        ),
        Err(StrategyError::InvalidLevel)
    );
    let read = parse_books(
        r#"[{"market_id":7,"token_id":"a","bids":[{"price":0.25,"size":3}],"asks":[]}]"#,
        42,
    )
    .unwrap();
    assert_eq!(read[0].market_id, "7");
    assert_eq!(read[0].bids[0].price, Decimal::new(25, 2));
    assert_eq!(read[0].updated_at_ms, 42);
}

#[test]
fn market_info_requires_current_fee_and_order_metadata() {
    let info = parse_market_info(
        r#"{"c":"c","t":[{"t":"1","o":"Yes"},{"t":"2","o":"No"}],
            "fd":{"r":0.07,"e":1,"to":true},"mts":0.01,"ao":true}"#,
        "c",
    )
    .unwrap();
    assert_eq!(info.fee_rate, Some(Decimal::new(7, 2)));
    assert_eq!(info.fee_exponent, Some(1));
    assert_eq!(info.fee_taker_only, Some(true));
    assert!(info.accepting_orders);
}

#[test]
fn market_info_that_cannot_be_read_says_why() {
    assert_eq!(parse_market_info("", "c"), Err(StrategyError::MarketInfoJson));
    assert_eq!(parse_market_info("{}", "c"), Err(StrategyError::RequiredStringMissing));
    assert_eq!(
        parse_market_info(r#"{"condition_id":"d"}"#, "c"),
        Err(StrategyError::ConditionMismatch)
    );
    assert_eq!(
        parse_market_info(r#"{"conditionId":"c"}"#, "c"),
        Err(StrategyError::TokensMissing)
    );
    assert_eq!(
        parse_market_info(r#"{"c":"c","tokens":[{}]}"#, "c"),
        Err(StrategyError::RequiredStringMissing)
    );
    assert_eq!(
        parse_market_info(r#"{"c":"c","tokens":[]}"#, "c"),
        Err(StrategyError::TickSizeMissing)
    );
    let bare = parse_market_info(r#"{"c":"c","tokens":[],"mts":"0.01"}"#, "c").unwrap();
    assert!(!bare.accepting_orders);
    assert_eq!(bare.fee_rate, None);
}

#[test]
fn market_info_uses_current_clob_market_path() {
    assert_eq!(
        market_info_url("https://clob.polymarket.com/", "condition-a"),
        "https://clob.polymarket.com/clob-markets/condition-a"
    );
}

#[test]
fn frames_update_subscribed_books_only() {
    let mut books: StringMap<Book> = StringMap::new();
    let subscribed = set(&["a"]);
    let frame = r#"[{"event_type":"book","market":"m","asset_id":"a","timestamp":"10",
        "bids":[{"price":"0.4","size":"2"}],"asks":[{"price":"0.6","size":"2"}]},
       {"event_type":"book","market":"m","asset_id":"b","timestamp":"10","bids":[],"asks":[]}]"#;
    apply_frame(&mut books, frame, &subscribed, 99);
    assert!(books.get("b").is_none());
    assert_eq!(books.get("a").unwrap().updated_at_ms, 10);
    let change = r#"{"event_type":"price_change","price_changes":[
        {"asset_id":"a","price":"0.5","size":"3","side":"BUY"},
        {"asset_id":"a","price":"0.60","size":"0","side":"sell"},
        {"asset_id":"a","price":"0.7","size":"1","side":"hold"},
        {"asset_id":"b","price":"0.7","size":"1","side":"sell"}]}"#;
    apply_frame(&mut books, change, &subscribed, 99);
    let book = books.get("a").unwrap();
    assert_eq!(book.bids.len(), 2);
    assert_eq!(book.bids[0].price, Decimal::new(5, 1));
    assert!(book.asks.is_empty());
    assert_eq!(book.updated_at_ms, 99);
    apply_frame(&mut books, "PONG", &subscribed, 100);
    assert_eq!(books.get("a").unwrap().updated_at_ms, 99);
}

#[test]
fn books_of_dropped_tokens_are_forgotten() {
    let mut books: StringMap<Book> = StringMap::new();
    let frame = |token: &str| {
        format!(
            r#"{{"event_type":"book","market":"m","asset_id":"{token}","timestamp":"10","bids":[],"asks":[]}}"#
        )
    };
    let subscribed = set(&["a", "b", "c"]);
    for token in ["a", "b", "c"] {
        apply_frame(&mut books, &frame(token), &subscribed, 1);
    }
    let diff = subscription_diff(&subscribed, &set(&["b", "d"]));
    forget_books(&mut books, &diff.unsubscribe);
    assert_eq!(books.len(), 1);
    assert!(books.contains_key("b"));
}

#[test]
fn there_are_just_enough_shards() {
    assert_eq!(shard_count(200, 10_000), 50);
    assert_eq!(shard_count(200, 10_001), 51);
    assert_eq!(shard_count(200, 1), 1);
    assert_eq!(shard_count(200, 0), 0);
    assert_eq!(shard_count(1, usize::MAX), usize::MAX);
}

#[test]
fn asset_ids_are_quoted() {
    let messages = subscription_messages(&texts(&["a\"b\\\n"]), Some("subscribe"));
    assert_eq!(messages.len(), 1);
    assert!(messages[0].contains(r#""a\"b\\\n""#));
}

#[test]
fn empty_shards_take_all_that_fits() {
    let ids: Vec<String> = (0..8).map(|i| format!("asset-{i}")).collect();
    let mut even = ShardAssignments::new(2, 4, 8);
    let shards = even.assign(&ids).unwrap();
    assert_eq!((shards[0].len(), shards[1].len()), (4, 4));
    // a shard of odd size has no room for its last pair
    let mut odd = ShardAssignments::new(2, 3, 6);
    assert_eq!(
        odd.assign(&ids.into_iter().take(6).collect()).unwrap_err(),
        StrategyError::NoShardCapacity
    );
}

#[test]
fn a_refused_assignment_splits_no_pair() {
    let mut assignments = ShardAssignments::new(2, 2, 8);
    let all = texts(&["a1", "a2", "b1", "b2", "c1", "c2"]);
    assert_eq!(assignments.assign(&all).unwrap_err(), StrategyError::NoShardCapacity);
    let shards = assignments.assign(&texts(&["a1", "a2", "b1", "b2"])).unwrap();
    assert_eq!(shards[0].to_vec(), vec!["a1", "a2"]);
    assert_eq!(shards[1].to_vec(), vec!["b1", "b2"]);
}
