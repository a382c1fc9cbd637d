use wfmq::analysis::{
    index_by_id, mission_score_terms, relic_contents, resolved_scores, score_label, MissionScore,
};
use wfmq::assoc::AssocMap;
use wfmq::items::{
    ducat_items_by_id, fetch_targets, is_prime_part, is_relic, items_of_class, report_progress,
    targets_to_fetch, ItemClass,
};
use wfmq::models::{
    DropSource, ItemI18nEntry, ItemI18nMap, ItemShort, Location, LocationI18n, Mission, MissionI18n,
    RelicRates,
};

fn item(id: &str, slug: &str, tags: &[&str], ducats: Option<u32>, name: Option<&str>) -> ItemShort {
    ItemShort {
        id: id.to_string(),
        slug: slug.to_string(),
        tags: tags.iter().map(|t| t.to_string()).collect(),
        ducats,
        i18n: name.map(|n| ItemI18nMap { en: ItemI18nEntry { name: n.to_string() } }),
    }
}

fn relic_source(relic: &str, intact: f32) -> DropSource<f32> {
    DropSource {
        source_type: "relic".to_string(),
        item: "x".to_string(),
        relic: Some(relic.to_string()),
        rates: Some(RelicRates { intact, exceptional: intact + 1.0, flawless: intact + 2.0, radiant: intact + 3.0 }),
        location: None,
        mission: None,
        rate: None,
        rarity: None,
        rotation: None,
    }
}

fn mission_source(loc: &str, mis: &str, rate: f32, rotation: Option<&str>) -> DropSource<f32> {
    DropSource {
        source_type: "mission".to_string(),
        item: "x".to_string(),
        relic: None,
        rates: None,
        location: Some(loc.to_string()),
        mission: Some(mis.to_string()),
        rate: Some(rate),
        rarity: Some("common".to_string()),
        rotation: rotation.map(|r| r.to_string()),
    }
}

fn location(id: &str, node: Option<&str>, system: Option<&str>) -> Location {
    let i18n = node.map(|n| {
        let mut m = AssocMap::new();
        m.insert("de".to_string(), LocationI18n { node_name: "Knoten".to_string(), system_name: None });
        m.insert(
            "en".to_string(),
            LocationI18n { node_name: n.to_string(), system_name: system.map(|s| s.to_string()) },
        );
        m
    });
    Location { id: id.to_string(), slug: id.to_string(), faction: None, min_level: Some(1), max_level: Some(5), i18n }
}

fn mission(id: &str, name: Option<&str>) -> Mission {
    let i18n = name.map(|n| {
        let mut m = AssocMap::new();
        m.insert("en".to_string(), MissionI18n { name: n.to_string() });
        m
    });
    Mission { id: id.to_string(), slug: id.to_string(), i18n }
}

#[test]
fn item_names_fall_back_to_slug() {
    assert_eq!(item("1", "ash_prime", &[], None, Some("Ash Prime")).name(), "Ash Prime");
    assert_eq!(item("1", "ash_prime", &[], None, None).name(), "ash_prime");
}

#[test]
fn location_and_mission_names() {
    let l = location("loc1", Some("Hydron"), Some("Sedna"));
    assert_eq!(l.node_name(), Some("Hydron"));
    assert_eq!(l.system_name(), Some("Sedna"));
    let l2 = location("loc2", Some("Apollo"), None);
    assert_eq!(l2.node_name(), Some("Apollo"));
    assert_eq!(l2.system_name(), None);
    let l3 = location("loc3", None, None);
    assert_eq!(l3.node_name(), None);
    assert_eq!(l3.system_name(), None);
    assert_eq!(mission("m1", Some("Defense")).name(), Some("Defense"));
    assert_eq!(mission("m1", None).name(), None);
}

#[test]
fn assoc_map_read_gives_back_write() {
    let mut m: AssocMap<String, u32> = AssocMap::new();
    m.insert("a".to_string(), 1);
    m.insert("b".to_string(), 2);
    m.insert("a".to_string(), 3);
    assert_eq!(m.get(&"a".to_string()), Some(&3));
    assert_eq!(m.get(&"b".to_string()), Some(&2));
    assert_eq!(m.get(&"c".to_string()), None);
    assert!(m.contains_key(&"b".to_string()));
    assert_eq!(m.len(), 2);
    assert_eq!(m.entry_at(0), (&"a".to_string(), &3));
    let mut lists: AssocMap<String, Vec<u32>> = AssocMap::new();
    lists.push_to("k".to_string(), 1);
    lists.push_to("j".to_string(), 9);
    lists.push_to("k".to_string(), 2);
    assert_eq!(lists.get(&"k".to_string()), Some(&vec![1, 2]));
    assert_eq!(lists.into_items(), vec![("k".to_string(), vec![1, 2]), ("j".to_string(), vec![9])]);
}

#[test]
fn item_classes() {
    let a = item("1", "lex_prime_barrel", &["prime", "weapon"], Some(45), None);
    let b = item("2", "axi_a1_relic", &["relic", "axi"], None, None);
    let c = item("3", "zero", &[], Some(0), None);
    assert!(is_prime_part(&a));
    assert!(!is_prime_part(&b));
    assert!(!is_prime_part(&c));
    assert!(is_relic(&b));
    assert!(!is_relic(&a));
    let items = vec![a, b, c];
    let parts = items_of_class(&items, ItemClass::PrimePart);
    assert_eq!(parts.len(), 1);
    assert_eq!(parts[0].slug, "lex_prime_barrel");
    let relics = items_of_class(&items, ItemClass::Relic);
    assert_eq!(relics.len(), 1);
    assert_eq!(relics[0].slug, "axi_a1_relic");
}

#[test]
fn fetch_targets_deduplicate_by_slug() {
    let a = item("1", "a", &[], Some(10), None);
    let b = item("2", "b", &["relic"], Some(10), None);
    let a2 = item("3", "a", &["relic"], None, None);
    let c = item("4", "c", &["relic"], None, None);
    let parts = vec![&a, &b];
    let relics = vec![&b, &a2, &c];
    let targets = fetch_targets(&parts, &relics);
    let slugs: Vec<&str> = targets.iter().map(|t| t.slug.as_str()).collect();
    assert_eq!(slugs, vec!["a", "b", "c"]);
    // First occurrence kept.
    assert_eq!(targets[0].id, "1");
}

#[test]
fn fetch_only_uncached_unless_forced() {
    let a = item("1", "a", &[], Some(10), None);
    let b = item("2", "b", &[], Some(10), None);
    let c = item("3", "c", &[], Some(10), None);
    let targets = vec![&a, &b, &c];
    let cached = vec![true, false, true];
    let todo = targets_to_fetch(&targets, &cached, false);
    assert_eq!(todo.len(), 1);
    assert_eq!(todo[0].slug, "b");
    assert_eq!(targets_to_fetch(&targets, &cached, true).len(), 3);
}

#[test]
fn progress_every_fifty_and_at_the_end() {
    assert!(report_progress(49, 120));
    assert!(!report_progress(50, 120));
    assert!(report_progress(99, 120));
    assert!(report_progress(119, 120));
    assert!(report_progress(2, 3));
    assert!(!report_progress(0, 3));
}

#[test]
fn ducat_items_by_id_later_wins() {
    let items = vec![
        item("1", "a", &[], Some(10), Some("A")),
        item("2", "b", &[], None, None),
        item("1", "a2", &[], Some(25), None),
        item("3", "c", &[], Some(0), None),
    ];
    let m = ducat_items_by_id(&items);
    assert_eq!(m.len(), 1);
    assert_eq!(m.get(&"1".to_string()), Some(&("a2".to_string(), 25)));
    assert_eq!(m.get(&"2".to_string()), None);
}

#[test]
fn relic_contents_gathers_shares_of_prime_parts() {
    let barrel = item("p1", "barrel", &[], Some(45), None);
    let stock = item("p2", "stock", &[], Some(100), None);
    let unpriced = item("p3", "unpriced", &[], None, None);
    let mut ds: AssocMap<String, Vec<DropSource<f32>>> = AssocMap::new();
    let mut not_relic = relic_source("r9", 5.0);
    not_relic.source_type = "mission".to_string();
    let mut no_rates = relic_source("r8", 5.0);
    no_rates.rates = None;
    ds.insert("barrel".to_string(), vec![relic_source("r1", 25.33), not_relic, no_rates, relic_source("r2", 2.0)]);
    ds.insert("stock".to_string(), vec![relic_source("r1", 11.0)]);
    ds.insert("unpriced".to_string(), vec![relic_source("r3", 11.0)]);
    let parts = vec![&barrel, &stock, &unpriced];
    let contents = relic_contents(&parts, &ds);
    assert_eq!(contents.len(), 2);
    let r1 = contents.get(&"r1".to_string()).unwrap();
    assert_eq!(r1.len(), 2);
    assert_eq!(r1[0].ducats, 45);
    assert_eq!(r1[0].rates.intact, 25.33);
    assert_eq!(r1[1].ducats, 100);
    assert_eq!(r1[1].rates.radiant, 14.0);
    let r2 = contents.get(&"r2".to_string()).unwrap();
    assert_eq!(r2.len(), 1);
    assert_eq!(r2[0].ducats, 45);
    assert!(contents.get(&"r3".to_string()).is_none());
    assert!(contents.get(&"r8".to_string()).is_none());
    assert!(contents.get(&"r9".to_string()).is_none());
}

#[test]
fn mission_terms_group_by_combination_with_upper_case_rotation() {
    let axi = item("relic1", "axi_a1_relic", &["relic"], None, None);
    let lith = item("relic2", "lith_b2_relic", &["relic"], None, None);
    let unvalued = item("relic3", "meso_c3_relic", &["relic"], None, None);
    let mut ds: AssocMap<String, Vec<DropSource<f32>>> = AssocMap::new();
    ds.insert(
        "axi_a1_relic".to_string(),
        vec![
            mission_source("loc1", "mis1", 10.0, Some("a")),
            mission_source("loc1", "mis1", 5.0, Some("C")),
            relic_source("ignored", 1.0),
        ],
    );
    ds.insert("lith_b2_relic".to_string(), vec![mission_source("loc1", "mis1", 20.0, Some("A")), mission_source("loc2", "mis2", 7.5, None)]);
    ds.insert("meso_c3_relic".to_string(), vec![mission_source("loc9", "mis9", 1.0, None)]);
    let mut values: AssocMap<String, f32> = AssocMap::new();
    values.insert("relic1".to_string(), 30.0);
    values.insert("relic2".to_string(), 12.0);
    let relics = vec![&axi, &lith, &unvalued];
    let terms = mission_score_terms(&relics, &ds, &values);
    assert_eq!(terms.len(), 3);
    let (k0, v0) = terms.entry_at(0);
    assert_eq!((k0.location_id.as_str(), k0.mission_id.as_str(), k0.rotation.as_deref()), ("loc1", "mis1", Some("A")));
    assert_eq!(v0, &vec![(10.0, 30.0), (20.0, 12.0)]);
    let (k1, v1) = terms.entry_at(1);
    assert_eq!(k1.rotation.as_deref(), Some("C"));
    assert_eq!(v1, &vec![(5.0, 30.0)]);
    let (k2, v2) = terms.entry_at(2);
    assert_eq!((k2.location_id.as_str(), k2.rotation.as_deref()), ("loc2", None));
    assert_eq!(v2, &vec![(7.5, 12.0)]);
}

#[test]
fn lookup_maps_resolution_and_labels() {
    let locations = index_by_id(vec![
        location("loc1", Some("Old"), Some("Old System")),
        location("loc1", Some("Hydron"), Some("Sedna")),
        location("loc2", None, None),
    ]);
    let missions = index_by_id(vec![mission("mis1", Some("Defense")), mission("mis2", None)]);
    assert_eq!(locations.len(), 2);
    let scores = vec![
        MissionScore { location_id: "loc1".to_string(), mission_id: "mis1".to_string(), rotation: Some("A".to_string()), expected_ducats: 9.5f32 },
        MissionScore { location_id: "nowhere".to_string(), mission_id: "mis1".to_string(), rotation: None, expected_ducats: 8.0f32 },
        MissionScore { location_id: "loc2".to_string(), mission_id: "mis2".to_string(), rotation: None, expected_ducats: 1.0f32 },
        MissionScore { location_id: "loc1".to_string(), mission_id: "mis7".to_string(), rotation: None, expected_ducats: 0.5f32 },
    ];
    let resolved = resolved_scores(&scores, &locations);
    assert_eq!(resolved.len(), 3);
    assert_eq!(resolved[0].expected_ducats, 9.5);
    assert_eq!(resolved[1].location_id, "loc2");
    assert_eq!(score_label(resolved[0], &locations, &missions), "Sedna / Hydron (Defense / A)");
    assert_eq!(score_label(resolved[1], &locations, &missions), "? / loc2 (mis2)");
    assert_eq!(score_label(resolved[2], &locations, &missions), "Sedna / Hydron (mis7)");
    assert_eq!(score_label(&scores[1], &locations, &missions), "? / nowhere (Defense)");
}
