use wfmq::cache::{
    consult_cache, dropsources_path, ducats_per_relic_path, is_fresh, items_path, locations_path,
    missions_path, orders_path,
};
use wfmq::client::{dropsources_endpoint, orders_endpoint, request_url, RateLimiter, RATE_INTERVAL_NANOS};
use wfmq::config::Config;
use wfmq::text::{chars_of, joined, contains_str, i64_decimal, split_at_char, trimmed, u64_decimal, white_space};

#[test]
fn static_paths() {
    assert_eq!(items_path(), "data/items.json");
    assert_eq!(locations_path(), "data/locations.json");
    assert_eq!(missions_path(), "data/missions.json");
    assert_eq!(ducats_per_relic_path(), "data/ducats_per_relic.json");
}

#[test]
fn per_item_paths() {
    assert_eq!(dropsources_path("lex_prime_barrel"), "data/dropsources/lex_prime_barrel.json");
    assert_eq!(orders_path("ash_prime_set"), "data/orders/ash_prime_set.json");
    assert_eq!(dropsources_path(""), "data/dropsources/.json");
}

#[test]
fn freshness_is_strictly_under_the_limit() {
    assert!(is_fresh(Some(0), 5));
    assert!(is_fresh(Some(299), 5));
    assert!(!is_fresh(Some(300), 5));
    assert!(!is_fresh(Some(1000), 5));
    assert!(!is_fresh(None, 5));
    assert!(!is_fresh(Some(0), 0));
    // No overflow for very large limits.
    assert!(is_fresh(Some(u64::MAX), u64::MAX));
}

#[test]
fn static_data_always_consults_the_cache() {
    assert!(consult_cache(None, None));
    assert!(consult_cache(None, Some(1_000_000)));
    assert!(consult_cache(Some(5), Some(10)));
    assert!(!consult_cache(Some(5), Some(300)));
    assert!(!consult_cache(Some(5), None));
}

#[test]
fn config_default_is_five_minutes() {
    assert_eq!(Config::default().orders_cache_minutes, 5);
}

#[test]
fn endpoints_and_urls() {
    assert_eq!(request_url("/v2/items"), "https://api.warframe.market/v2/items");
    assert_eq!(dropsources_endpoint("axi_a1_relic"), "/v1/items/axi_a1_relic/dropsources");
    assert_eq!(orders_endpoint("axi_a1_relic"), "/v2/orders/item/axi_a1_relic");
    assert_eq!(
        request_url(&orders_endpoint("x")),
        "https://api.warframe.market/v2/orders/item/x"
    );
}

#[test]
fn rate_limiter_waits_for_the_reserved_slot() {
    let mut limiter = RateLimiter::new(1_000);
    assert_eq!(limiter.next_at, 1_000);
    // First request at once.
    assert_eq!(limiter.wait_until(1_000), None);
    limiter.reserve(1_000);
    assert_eq!(limiter.next_at, 1_000 + RATE_INTERVAL_NANOS);
    // A request 10 ms later must wait for the slot.
    assert_eq!(limiter.wait_until(11_000_000), Some(1_000 + 334_000_000));
    limiter.reserve(334_001_000);
    assert_eq!(limiter.next_at, 668_001_000);
    // A request long after the slot goes at once.
    assert_eq!(limiter.wait_until(2_000_000_000), None);
}

#[test]
fn rate_limiter_spacing_on_a_run() {
    // A run that follows the limiter: releases are at least one interval apart.
    let arrivals = [0u64, 1, 2, 900_000_000];
    let mut limiter = RateLimiter::new(0);
    let mut released = Vec::new();
    for &a in &arrivals {
        let r = limiter.wait_until(a).unwrap_or(a);
        limiter.reserve(r);
        released.push(r);
    }
    assert_eq!(released, vec![0, 334_000_000, 668_000_000, 1_002_000_000]);
    for w in released.windows(2) {
        assert!(w[1] >= w[0] + RATE_INTERVAL_NANOS);
    }
}

#[test]
fn decimals() {
    assert_eq!(u64_decimal(0), "0");
    assert_eq!(u64_decimal(7), "7");
    assert_eq!(u64_decimal(10), "10");
    assert_eq!(u64_decimal(1234567890), "1234567890");
    assert_eq!(u64_decimal(u64::MAX), u64::MAX.to_string());
    assert_eq!(i64_decimal(0), "0");
    assert_eq!(i64_decimal(-5), "-5");
    assert_eq!(i64_decimal(42), "42");
    assert_eq!(i64_decimal(i64::MIN), i64::MIN.to_string());
}

#[test]
fn concat_and_chars() {
    assert_eq!(joined("ab", "cd"), "abcd");
    assert_eq!(chars_of("héllo"), vec!['h', 'é', 'l', 'l', 'o']);
}

#[test]
fn white_space_is_std_white_space() {
    for v in 0u32..0x3100 {
        if let Some(c) = char::from_u32(v) {
            assert_eq!(white_space(c), c.is_whitespace(), "code point {v:#x}");
        }
    }
    assert_eq!(white_space('\u{10FFFF}'), '\u{10FFFF}'.is_whitespace());
}

#[test]
fn trim_matches_std() {
    for s in ["  prime ", "\trelic\n", "", "   ", "a b", "\u{3000}x\u{a0}", "x"] {
        assert_eq!(trimmed(s), s.trim());
    }
}

#[test]
fn split_matches_std() {
    for s in ["prime,relic", "a,,b", "", ",", "abc", ",x,"] {
        let expected: Vec<String> = s.split(',').map(|p| p.to_string()).collect();
        assert_eq!(split_at_char(s, ','), expected);
    }
}

#[test]
fn substring_search() {
    assert!(contains_str("@wfm|event/newOrder", "newOrder"));
    assert!(contains_str("newOrder", "newOrder"));
    assert!(!contains_str("@wfm|event/newOrde", "newOrder"));
    assert!(contains_str("abc", ""));
    assert!(!contains_str("", "a"));
}
