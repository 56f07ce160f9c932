use yagna_offer_server::ordered_map::OrderedMap;
use yagna_offer_server::text::{leading_token, text_eq, text_precedes};
use yagna_offer_server::time::Timestamp;

#[test]
fn text_order_is_the_order_of_the_bytes() {
    let samples = ["", "a", "A", "aa", "ab", "b", "é", "z", "~", "10", "9", "a\u{0}", "日本"];
    for x in samples {
        for y in samples {
            assert_eq!(text_precedes(x, y), x < y, "{:?} before {:?}", x, y);
            assert_eq!(text_eq(x, y), x == y, "{:?} equals {:?}", x, y);
        }
    }
}

#[test]
fn a_prefix_precedes_its_extensions() {
    assert!(text_precedes("", "a"));
    assert!(text_precedes("abc", "abcd"));
    assert!(!text_precedes("abcd", "abc"));
    assert!(!text_precedes("abc", "abc"));
}

#[test]
fn leading_token_ends_at_the_first_separator() {
    assert_eq!(leading_token("brick-54", '-'), "brick");
    assert_eq!(leading_token("a-b-c", '-'), "a");
    assert_eq!(leading_token("nodash", '-'), "nodash");
    assert_eq!(leading_token("-x", '-'), "");
    assert_eq!(leading_token("", '-'), "");
    assert_eq!(leading_token("central.example.net", '.'), "central");
    assert_eq!(leading_token("żółw-1", '-'), "żółw");
}

#[test]
fn ordered_map_keeps_keys_ascending_and_replaces_values() {
    let mut map: OrderedMap<u32> = OrderedMap::new();
    assert_eq!(map.insert("m".to_string(), 1), None);
    assert_eq!(map.insert("a".to_string(), 2), None);
    assert_eq!(map.insert("z".to_string(), 3), None);
    assert_eq!(map.insert("m".to_string(), 4), Some(1));
    let keys: Vec<&str> = (0..map.len()).map(|i| map.key_at(i).as_str()).collect();
    assert_eq!(keys, vec!["a", "m", "z"]);
    assert_eq!(map.find("m"), Some(1));
    assert_eq!(*map.value_at(1), 4);
    assert_eq!(map.search("b"), 1);
    assert_eq!(map.search("zz"), 3);
    assert_eq!(map.search(""), 0);
    assert_eq!(map.find("b"), None);
    *map.value_at_mut(0) = 9;
    assert_eq!(*map.value_at(0), 9);
    let (key, value) = map.remove_at(1);
    assert_eq!((key.as_str(), value), ("m", 4));
    assert_eq!(map.len(), 2);
    map.clear();
    assert_eq!(map.len(), 0);
}

#[test]
fn timestamps_are_ordered_by_seconds_then_nanoseconds() {
    let a = Timestamp::new(5, 999_999_999);
    let b = Timestamp::new(6, 0);
    let c = Timestamp::new(6, 1);
    assert!(a.is_before(&b));
    assert!(b.is_before(&c));
    assert!(!b.is_before(&a));
    assert!(!b.is_before(&b));
    assert!(Timestamp::new(-1, 5).is_before(&Timestamp::new(0, 0)));
}

#[test]
fn lapse_is_reached_when_the_grace_period_is_over() {
    let expiration = Timestamp::new(1000, 500);
    assert!(!expiration.has_lapsed(60, &Timestamp::new(1060, 499)));
    assert!(expiration.has_lapsed(60, &Timestamp::new(1060, 500)));
    assert!(expiration.has_lapsed(60, &Timestamp::new(1061, 0)));
    assert!(!expiration.has_lapsed(60, &Timestamp::new(1059, 999_999_999)));
    assert!(expiration.has_lapsed(0, &Timestamp::new(1000, 500)));
    assert!(!Timestamp::new(i64::MAX, 0).has_lapsed(u64::MAX, &Timestamp::new(i64::MAX, 0)));
    assert!(Timestamp::new(i64::MIN, 0).has_lapsed(0, &Timestamp::new(i64::MIN, 0)));
}
