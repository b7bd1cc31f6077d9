use moni_strategy_beta::error::StrategyError;
use moni_strategy_beta::gamma::{
    infer_underlying, merge_markets, next_page, page_item_count, page_query, parse_markets,
    read_page, rfc3339,
};

fn fixture(start: &str, question: &str, outcomes: &str) -> String {
    format!(
        r#"[{{"slug":"btc-price-threshold","markets":[{{
          "id":"m1","conditionId":"0x01","question":"{question}",
          "description":"Resolves from the named price feed.",
          "active":true,"closed":false,"archived":false,
          "enableOrderBook":true,"acceptingOrders":true,
          "startTime":"{start}","endDate":"2026-07-27T12:30:00Z",
          "outcomes":{outcomes},"clobTokenIds":"[\"11\",\"22\"]",
          "orderPriceMinTickSize":"0.01","orderMinSize":"1","negRisk":false,
          "feeCurve":{{"rate":"0.07","exponent":1,"takerOnly":true}}
        }}]}}]"#
    )
}

#[test]
fn discovers_binary_threshold_market_and_keeps_it_out_of_hot_set_before_start() {
    let now = 1_785_153_600_000;
    let raw = fixture("2026-07-27T12:15:00Z", "Will BTC exceed $100k?", r#"["Yes","No"]"#);
    let markets = parse_markets(&raw, now, 86_400_000).unwrap();
    assert_eq!(markets.len(), 1);
    assert!(!markets[0].subscribable(now, 86_400_000));
    assert_eq!(markets[0].outcomes[0].label, "Yes");
}

#[test]
fn a_started_market_is_followed_until_it_ends() {
    let end = 1_785_155_400_000;
    let raw = fixture("2026-07-27T10:00:00Z", "BTC?", r#""[\"Up\",\"Down\"]""#);
    let markets = parse_markets(&raw, end - 1, 86_400_000).unwrap();
    assert_eq!(markets[0].end_time_ms, end);
    assert_eq!(markets[0].start_time_ms, Some(end - 9_000_000));
    assert_eq!(markets[0].underlying, "CRYPTO");
    assert_eq!(markets[0].gamma_fee_exponent, Some(1));
    assert!(markets[0].subscribable(end - 1, 86_400_000));
    assert!(!markets[0].subscribable(end, 86_400_000));
    assert!(!markets[0].subscribable(end - 9_000_001, 86_400_000));
    assert!(!markets[0].subscribable(end - 100, 99));
    assert!(parse_markets(&raw, end, 86_400_000).unwrap().is_empty());
    assert!(parse_markets(&raw, end - 100, 99).unwrap().is_empty());
}

#[test]
fn rejects_non_binary_or_duplicate_tokens() {
    let raw = fixture("2026-07-27T10:00:00Z", "BTC?", r#"["Yes","No","Maybe"]"#);
    assert!(parse_markets(&raw, 1_785_153_600_000, 86_400_000).unwrap().is_empty());
}

#[test]
fn markets_that_do_not_count_are_left_out() {
    let good = fixture("2026-07-27T10:00:00Z", "BTC?", r#"["Yes","No"]"#);
    let now = 1_785_153_600_000;
    assert_eq!(parse_markets(&good, now, 86_400_000).unwrap().len(), 1);
    for (from, to) in [
        ("[\\\"11\\\",\\\"22\\\"]", "[\\\"11\\\",\\\"11\\\"]"),
        ("Resolves from the named price feed.", "  "),
        ("\"orderMinSize\":\"1\"", "\"orderMinSize\":\"0\""),
        ("[\"Yes\",\"No\"]", "[\"Yes\",\"YES\"]"),
        ("[\"Yes\",\"No\"]", "[\"Yes\",null]"),
        ("2026-07-27T10:00:00Z", "yesterday"),
        ("\"conditionId\":\"0x01\"", "\"conditionId\":null"),
        ("2026-07-27T12:30:00Z", "2026-07-27T12:30"),
    ] {
        let bad = good.replace(from, to);
        assert_ne!(bad, good);
        assert!(parse_markets(&bad, now, 86_400_000).unwrap().is_empty(), "{to}");
    }
    assert_eq!(parse_markets("nope", now, 1), Err(StrategyError::GammaJson));
}

#[test]
fn pages_may_nest_their_markets() {
    let now = 1_785_153_600_000;
    let one = fixture("2026-07-27T10:00:00Z", "BTC?", r#"["Yes","No"]"#);
    let event = &one[1..one.len() - 1];
    let nested = format!("{{\"data\":[{event},{event}]}}");
    assert_eq!(parse_markets(&nested, now, 86_400_000).unwrap().len(), 2);
    assert_eq!(page_item_count(&nested), Ok(2));
    assert_eq!(page_item_count(event), Ok(1));
    assert_eq!(page_item_count("{\"other\":1}"), Ok(1));
    assert_eq!(page_item_count("7"), Ok(0));
    let (markets, more) = read_page(&nested, now, 86_400_000, 2).unwrap();
    assert_eq!((markets.len(), more), (2, true));
    let (_, more) = read_page(&nested, now, 86_400_000, 3).unwrap();
    assert!(!more);
}

#[test]
fn page_count_preserves_collected_pages_at_a_later_422_boundary() {
    let full = serde_json::to_string(&vec![serde_json::Value::Null; 100]).unwrap();
    assert_eq!(page_item_count(&full).unwrap(), 100);
    // A page that is refused ends the walk before anything is parsed; this
    // count decides between going on and finishing.
    assert_eq!(page_item_count("[]").unwrap(), 0);
}

#[test]
fn merged_pages_hold_each_market_once() {
    let now = 1_785_153_600_000;
    let one = fixture("2026-07-27T10:00:00Z", "first", r#"["Yes","No"]"#);
    let again = fixture("2026-07-27T10:00:00Z", "second", r#"["Yes","No"]"#);
    let earlier = one.replace("\"m1\"", "\"m0\"");
    let mut all = parse_markets(&one, now, 86_400_000).unwrap();
    all.extend(parse_markets(&again, now, 86_400_000).unwrap());
    all.extend(parse_markets(&earlier, now, 86_400_000).unwrap());
    let merged = merge_markets(all);
    let ids: Vec<&str> = merged.iter().map(|market| market.market_id.as_str()).collect();
    assert_eq!(ids, vec!["m0", "m1"]);
    assert_eq!(merged[1].question, "first");
    assert!(merge_markets(Vec::new()).is_empty());
}

#[test]
fn queries_name_the_window_and_the_page() {
    let query = page_query(3, 100, 1_785_153_600_000, 86_400_000).unwrap();
    let value = |name: &str| {
        query.iter().find(|(key, _)| key == name).map(|(_, value)| value.as_str()).unwrap()
    };
    assert_eq!(query.len(), 9);
    assert_eq!(value("offset"), "300");
    assert_eq!(value("limit"), "100");
    assert_eq!(value("end_date_min"), "2026-07-27T12:00:00Z");
    assert_eq!(value("end_date_max"), "2026-07-28T12:00:00Z");
    assert_eq!(value("tag_slug"), "crypto-prices");
}

#[test]
fn timestamps_have_limits() {
    assert_eq!(rfc3339(0).unwrap(), "1970-01-01T00:00:00Z");
    assert_eq!(rfc3339(1_500).unwrap(), "1970-01-01T00:00:01.5Z");
    assert_eq!(rfc3339(-62_167_219_200_000).unwrap(), "0000-01-01T00:00:00Z");
    assert_eq!(rfc3339(253_402_300_799_999).unwrap(), "9999-12-31T23:59:59.999Z");
    assert_eq!(rfc3339(-62_167_219_200_001), Err(StrategyError::TimestampUnformattable));
    assert_eq!(rfc3339(i64::MAX), Err(StrategyError::TimestampOutOfRange));
}

#[test]
fn slugs_name_the_underlying() {
    assert_eq!(infer_underlying("btc-updown-5m"), "BTC");
    assert_eq!(infer_underlying("sol_x"), "SOL");
    assert_eq!(infer_underlying("eth"), "ETH");
    assert_eq!(infer_underlying("-x"), "CRYPTO");
    assert_eq!(infer_underlying(""), "CRYPTO");
}

#[test]
fn paging_stops_at_the_end() {
    assert_eq!(next_page(0, 30, 200, true), Some(1));
    assert_eq!(next_page(28, 30, 200, true), Some(29));
    assert_eq!(next_page(29, 30, 200, true), None);
    assert_eq!(next_page(3, 30, 200, false), None);
    assert_eq!(next_page(3, 30, 422, true), None);
    assert_eq!(next_page(usize::MAX, usize::MAX, 200, true), None);
}
