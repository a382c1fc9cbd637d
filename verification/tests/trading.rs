use wfmq::ducats::{is_ducat_candidate, message_too_long, qualifying_sellers, seller_totals, whisper_message, Hit};
use wfmq::assoc::AssocMap;
use wfmq::listen::{is_new_order_route, live_order_item, live_whisper, socket_step, SocketEvent, SocketStep};
use wfmq::models::{ItemShort, OrderWithUser, UserShort};
use wfmq::search::{has_all_tags, order_matches_search, parse_tags, search_hit_line};

fn order(kind: &str, status: &str, platinum: u32, quantity: u32, item_id: &str) -> OrderWithUser {
    OrderWithUser {
        id: "o1".to_string(),
        order_type: kind.to_string(),
        platinum,
        quantity,
        item_id: item_id.to_string(),
        user: UserShort { ingame_name: "Tenno".to_string(), status: status.to_string(), reputation: -3 },
    }
}

fn hit(name: &str, platinum: u32, quantity: u32, ducats: u32) -> Hit {
    Hit { item_name: name.to_string(), platinum, quantity, ducats }
}

#[test]
fn tags_are_split_trimmed_and_lower_cased() {
    assert_eq!(parse_tags(Some(" Prime, RELIC ")), vec!["prime".to_string(), "relic".to_string()]);
    assert_eq!(parse_tags(Some("a,,B")), vec!["a".to_string(), "".to_string(), "b".to_string()]);
    assert_eq!(parse_tags(None), Vec::<String>::new());
    assert_eq!(parse_tags(Some("ÄRA")), vec!["ära".to_string()]);
}

#[test]
fn all_tags_must_match() {
    let item = ItemShort { id: "1".into(), slug: "s".into(), tags: vec!["prime".into(), "relic".into()], ducats: None, i18n: None };
    assert!(has_all_tags(&item, &[]));
    assert!(has_all_tags(&item, &["relic".to_string(), "prime".to_string()]));
    assert!(!has_all_tags(&item, &["relic".to_string(), "mod".to_string()]));
}

#[test]
fn search_bounds_are_inclusive() {
    let o = order("sell", "ingame", 10, 3, "i");
    let sell = "sell".to_string();
    assert!(order_matches_search(&o, &sell, None, None));
    assert!(order_matches_search(&o, &sell, Some(10), Some(3)));
    assert!(!order_matches_search(&o, &sell, Some(9), None));
    assert!(!order_matches_search(&o, &sell, None, Some(4)));
    assert!(!order_matches_search(&o, &"buy".to_string(), None, None));
    assert!(!order_matches_search(&order("sell", "online", 10, 3, "i"), &sell, None, None));
}

#[test]
fn search_line_text() {
    let item = ItemShort { id: "1".into(), slug: "ash_prime_set".into(), tags: vec![], ducats: None, i18n: None };
    let o = order("sell", "ingame", 120, 2, "1");
    assert_eq!(
        search_hit_line(&item, &o),
        "[ash_prime_set] 120:platinum: x2 | Tenno (rep:-3) | https://warframe.market/profile/Tenno | https://warframe.market/items/ash_prime_set"
    );
}

#[test]
fn ducat_candidates() {
    assert!(is_ducat_candidate(&order("sell", "ingame", 3, 1, "i")));
    assert!(!is_ducat_candidate(&order("sell", "ingame", 0, 1, "i")));
    assert!(!is_ducat_candidate(&order("buy", "ingame", 3, 1, "i")));
    assert!(!is_ducat_candidate(&order("sell", "offline", 3, 1, "i")));
}

#[test]
fn seller_totals_and_qualification() {
    let hits = vec![hit("A", 3, 2, 45), hit("B", 5, 4, 100)];
    let t = seller_totals(&hits);
    assert_eq!((t.quantity, t.platinum, t.ducats), (6, 26, 490));
    let big = vec![hit("X", u32::MAX, u32::MAX, u32::MAX), hit("Y", u32::MAX, u32::MAX, 1)];
    let tb = seller_totals(&big);
    assert_eq!(tb.quantity, 2 * u32::MAX as u128);
    assert_eq!(tb.platinum, 2 * (u32::MAX as u128) * (u32::MAX as u128));

    let mut by_seller: AssocMap<String, Vec<Hit>> = AssocMap::new();
    by_seller.push_to("alice".to_string(), hit("A", 3, 2, 45));
    by_seller.push_to("bob".to_string(), hit("B", 3, 10, 45));
    by_seller.push_to("alice".to_string(), hit("C", 3, 4, 45));
    by_seller.push_to("carol".to_string(), hit("D", 3, 5, 45));
    let q = qualifying_sellers(by_seller, 6);
    let names: Vec<&str> = q.iter().map(|(n, _)| n.as_str()).collect();
    assert_eq!(names, vec!["alice", "bob"]);
    assert_eq!(q[0].1.len(), 2);
}

#[test]
fn whisper_texts() {
    let hits = vec![hit("Lex Prime Barrel", 3, 2, 45), hit("Ash Prime Systems", 5, 1, 100)];
    assert_eq!(
        whisper_message("Tenno", &hits),
        "/w Tenno Hi! I'd like to buy: 2x Lex Prime Barrel (3:platinum:), 1x Ash Prime Systems (5:platinum:) (warframe.market via wfmq)"
    );
    assert_eq!(whisper_message("T", &[]), "/w T Hi! I'd like to buy:  (warframe.market via wfmq)");
    assert!(!message_too_long(&"x".repeat(255)));
    assert!(message_too_long(&"x".repeat(256)));
    assert!(message_too_long(&"é".repeat(128)));
}

#[test]
fn socket_steps() {
    assert!(matches!(socket_step(&SocketEvent::Text), SocketStep::Handle));
    assert!(matches!(socket_step(&SocketEvent::Closed), SocketStep::Stop));
    assert!(matches!(socket_step(&SocketEvent::Failed), SocketStep::Stop));
    assert!(matches!(socket_step(&SocketEvent::Other), SocketStep::Skip));
}

#[test]
fn new_order_routes() {
    assert!(is_new_order_route("@wfm|event/orders/newOrder"));
    assert!(!is_new_order_route("@wfm|cmd/subscribe/newOrders/ok".replace("newOrder", "other").as_str()));
    assert!(!is_new_order_route(""));
}

#[test]
fn live_orders() {
    let mut items: AssocMap<String, (String, u32)> = AssocMap::new();
    items.insert("i1".to_string(), ("Lex Prime Barrel".to_string(), 45));
    assert_eq!(live_order_item(&order("sell", "ingame", 3, 1, "i1"), &items), Some(&("Lex Prime Barrel".to_string(), 45)));
    assert_eq!(live_order_item(&order("sell", "in_game", 3, 1, "i1"), &items), Some(&("Lex Prime Barrel".to_string(), 45)));
    assert_eq!(live_order_item(&order("sell", "online", 3, 1, "i1"), &items), None);
    assert_eq!(live_order_item(&order("buy", "ingame", 3, 1, "i1"), &items), None);
    assert_eq!(live_order_item(&order("sell", "ingame", 0, 1, "i1"), &items), None);
    assert_eq!(live_order_item(&order("sell", "ingame", 3, 1, "i2"), &items), None);
    assert_eq!(
        live_whisper(&order("sell", "ingame", 3, 1, "i1"), "Lex Prime Barrel"),
        "/w Tenno Hi! I'd like to buy: 1x Lex Prime Barrel (3:platinum:) (warframe.market via wfmq)"
    );
}
