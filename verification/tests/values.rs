use moni_strategy_beta::collections::{StringMap, StringSet};
use moni_strategy_beta::decimal::Decimal;
use moni_strategy_beta::ints::{distance, saturating_difference, wrap_to_i64};
use moni_strategy_beta::json::{as_lenient_int, as_text, Json, JsonNumber};
use moni_strategy_beta::sorting::{stable_sort, LowestFirst};
use moni_strategy_beta::text::{
    is_blank, parse_int, same_ignoring_case, sorts_before, to_upper,
};

#[test]
fn decimals_keep_their_scale_and_compare_by_value() {
    let a = Decimal::from_text("1.50").unwrap();
    assert_eq!(a.text(), "1.50");
    assert_eq!(a, Decimal::new(15, 1));
    assert!(a > Decimal::one());
    assert!(Decimal::from_text("-0.001").unwrap() < Decimal::zero());
    assert_eq!(Decimal::new(-5, 3).text(), "-0.005");
    assert_eq!(Decimal::from_u64(u64::MAX).text(), "18446744073709551615");
    assert_eq!(Decimal::from_text("one"), None);
    assert_eq!(Decimal::from_text("79228162514264337593543950336"), None);
    assert_eq!(a.negated().abs(), a);
    assert_eq!(a.min(Decimal::one()), Decimal::one());
    assert_eq!(a.max(Decimal::one()), a);
}

#[test]
fn integers_stop_at_their_limits() {
    assert_eq!(saturating_difference(i64::MIN, 1), i64::MIN);
    assert_eq!(saturating_difference(i64::MAX, -1), i64::MAX);
    assert_eq!(saturating_difference(3, 5), -2);
    assert_eq!(distance(i64::MIN, i64::MAX), u64::MAX);
    assert_eq!(distance(5, 3), 2);
    assert_eq!(wrap_to_i64(u64::MAX), -1);
    assert_eq!(wrap_to_i64(7), 7);
}

#[test]
fn texts_are_read_and_ordered_as_bytes() {
    assert!(sorts_before("a", "b"));
    assert!(sorts_before("a", "ab"));
    assert!(!sorts_before("a", "a"));
    assert!(sorts_before("Z", "a"));
    assert!(sorts_before("z", "\u{e9}"));
    assert!(is_blank(" \t\u{a0}"));
    assert!(!is_blank(" x "));
    assert_eq!(to_upper("btc-\u{e9}"), "BTC-\u{e9}");
    assert!(same_ignoring_case("Yes", "yEs"));
    assert!(!same_ignoring_case("\u{e9}", "\u{c9}"));
    assert_eq!(parse_int("-9223372036854775808"), Some(i64::MIN));
    assert_eq!(parse_int("+7"), Some(7));
    assert_eq!(parse_int("9223372036854775808"), None);
    assert_eq!(parse_int(""), None);
    assert_eq!(parse_int("-"), None);
    assert_eq!(parse_int("1 "), None);
}

#[test]
fn maps_and_sets_list_their_keys_in_order() {
    let mut map = StringMap::new();
    map.insert("b".to_owned(), 2);
    map.insert("a".to_owned(), 1);
    map.insert("b".to_owned(), 3);
    assert_eq!(map.len(), 2);
    assert_eq!((map.key_at(0).as_str(), *map.value_at(0)), ("a", 1));
    assert_eq!((map.key_at(1).as_str(), *map.value_at(1)), ("b", 3));
    assert_eq!(map.remove("a"), Some(1));
    assert_eq!(map.remove("a"), None);
    map.retain(&StringSet::new());
    assert_eq!(map.len(), 0);

    let mut set = StringSet::of(&vec!["c".to_owned(), "a".to_owned(), "c".to_owned()]);
    assert_eq!(set.to_vec(), vec!["a", "c"]);
    assert!(set.insert("b".to_owned()));
    assert!(!set.insert("b".to_owned()));
    set.remove("a");
    assert_eq!(set.difference(&StringSet::of(&vec!["c".to_owned()])), vec!["b"]);
    assert_eq!((set.len(), set.item_at(0).as_str()), (2, "b"));
}

#[test]
fn sorting_orders_from_the_least() {
    assert_eq!(stable_sort::<u64, LowestFirst>(vec![3, 1, 2, 1]), vec![1, 1, 2, 3]);
}

#[test]
fn json_fields_are_found_under_the_first_of_their_names() {
    let number = |text: &str, whole| Json::Number(JsonNumber { text: text.to_owned(), whole });
    let value = Json::Object(vec![
        ("b".to_owned(), number("1.5", None)),
        ("a".to_owned(), Json::Text("-3".to_owned())),
    ]);
    assert_eq!(as_text(value.get("b")), Some("1.5"));
    assert_eq!(as_text(value.get2("x", "b")), Some("1.5"));
    assert_eq!(as_lenient_int(value.get3("a", "b", "c")), Some(-3));
    assert_eq!(as_lenient_int(value.get("b")), None);
    assert!(value.get4("w", "x", "y", "z").is_none());
    assert!(Json::Null.get("a").is_none());
}
