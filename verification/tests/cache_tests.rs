use steam_trade_watcher::cache::{ClassInfoMap, ItemCache};
use steam_trade_watcher::models::AssetClassInfo;

fn create_dummy_info() -> AssetClassInfo {
    AssetClassInfo {
        icon_url: Some("fWFc82js0fmoRAP-qOIPu5THSWqfSmTEL".to_string()),
        name: "Test Item".to_string(),
        market_hash_name: "Test Item".to_string(),
        market_name: "Test Item".to_string(),
        name_color: "FFFFFF".to_string(),
        type_: "Tool".to_string(),
    }
}

fn info_named(name: &str) -> AssetClassInfo {
    AssetClassInfo {
        icon_url: None,
        name: name.to_string(),
        market_hash_name: format!("{} (hash)", name),
        market_name: format!("{} (market)", name),
        name_color: "D2D2D2".to_string(),
        type_: "Crate".to_string(),
    }
}

#[test]
fn test_cache_operations() {
    let stored;
    {
        let mut cache = ItemCache::new(Vec::new());

        let info = create_dummy_info();

        cache.insert("100", "0", info.clone());

        let retrieved = cache.get("100", "0");
        assert!(retrieved.is_some());
        assert_eq!(retrieved.unwrap().name, "Test Item");
        stored = cache.entries();
    }

    {
        let cache2 = ItemCache::new(stored);
        let retrieved2 = cache2.get("100", "0");
        assert!(retrieved2.is_some());
        assert_eq!(retrieved2.unwrap().name, "Test Item");
    }
}

#[test]
fn reloaded_cache_returns_an_equal_info() {
    let mut cache = ItemCache::new(Vec::new());
    cache.insert("100", "0", create_dummy_info());
    let reloaded = ItemCache::new(cache.entries());
    let info = reloaded.get("100", "0").unwrap();
    let expected = create_dummy_info();
    assert_eq!(info.icon_url, expected.icon_url);
    assert_eq!(info.name, expected.name);
    assert_eq!(info.market_hash_name, expected.market_hash_name);
    assert_eq!(info.market_name, expected.market_name);
    assert_eq!(info.name_color, expected.name_color);
    assert_eq!(info.type_, expected.type_);
}

#[test]
fn empty_cache_has_nothing() {
    let cache = ItemCache::new(Vec::new());
    assert!(cache.get("100", "0").is_none());
    assert!(!cache.contains("100"));
    assert!(cache.entries().is_empty());
}

#[test]
fn cache_key_is_the_class_id_alone() {
    let mut cache = ItemCache::new(Vec::new());
    cache.insert("100", "1", info_named("first"));
    assert_eq!(cache.get("100", "2").unwrap().name, "first");
    cache.insert("100", "2", info_named("second"));
    assert_eq!(cache.get("100", "1").unwrap().name, "second");
    assert_eq!(cache.entries().len(), 1);
    assert!(cache.get("1000", "1").is_none());
    assert!(cache.get("10", "1").is_none());
}

#[test]
fn insert_keeps_the_other_entries() {
    let mut cache = ItemCache::new(Vec::new());
    cache.insert("1", "0", info_named("one"));
    cache.insert("2", "0", info_named("two"));
    cache.insert("3", "0", info_named("three"));
    cache.insert("2", "0", info_named("two again"));
    assert_eq!(cache.get("1", "0").unwrap().name, "one");
    assert_eq!(cache.get("2", "0").unwrap().name, "two again");
    assert_eq!(cache.get("3", "0").unwrap().name, "three");
    let mut entries = cache.entries();
    entries.sort_by(|a, b| a.0.cmp(&b.0));
    let keys: Vec<&str> = entries.iter().map(|e| e.0.as_str()).collect();
    assert_eq!(keys, vec!["1", "2", "3"]);
    assert_eq!(entries[1].1.name, "two again");
}

#[test]
fn new_takes_the_last_entry_of_a_repeated_class() {
    let cache = ItemCache::new(vec![
        ("7".to_string(), info_named("old")),
        ("8".to_string(), info_named("other")),
        ("7".to_string(), info_named("new")),
    ]);
    assert_eq!(cache.get("7", "0").unwrap().name, "new");
    assert_eq!(cache.get("8", "0").unwrap().name, "other");
    assert_eq!(cache.entries().len(), 2);
}

#[test]
fn class_info_map_get_and_insert() {
    let mut map = ClassInfoMap::new();
    assert!(map.get("100").is_none());
    map.insert("100_1".to_string(), info_named("composite"));
    assert!(map.get("100").is_none());
    assert_eq!(map.get("100_1").unwrap().market_hash_name, "composite (hash)");
    map.insert("100".to_string(), info_named("bare"));
    assert_eq!(map.get("100").unwrap().name, "bare");
    let mut entries = map.entries();
    entries.sort_by(|a, b| a.0.cmp(&b.0));
    assert_eq!(entries.len(), 2);
    assert_eq!(entries[0].0, "100");
    assert_eq!(entries[1].0, "100_1");
}

#[test]
fn clone_of_an_info_has_the_same_fields() {
    let info = create_dummy_info();
    let copy = info.clone();
    assert_eq!(copy.icon_url, Some("fWFc82js0fmoRAP-qOIPu5THSWqfSmTEL".to_string()));
    assert_eq!(copy.name, "Test Item");
    assert_eq!(copy.market_hash_name, "Test Item");
    assert_eq!(copy.market_name, "Test Item");
    assert_eq!(copy.name_color, "FFFFFF");
    assert_eq!(copy.type_, "Tool");
    let bare = info_named("x").clone();
    assert_eq!(bare.icon_url, None);
}
