use packtrack::cache::JsonCache;

#[test]
fn test_insert_with_max_values() {
    let mut cache = JsonCache::with_max_entries(2);
    assert_eq!(cache.max_entries, Some(2));
    cache.insert("url", "0", 1000);
    cache.insert("url", "1", 2000);
    cache.insert("url", "2", 3000);
    cache.insert("url", "3", 4000);
    let entries = cache.get_texts("url");
    assert_eq!(entries.len(), 2);
    // only the 2 most recent ones should be kept
    assert_eq!(entries, vec!["2", "3"]);
}

#[test]
fn test_insert_with_no_max_values() {
    let mut cache = JsonCache::default();
    assert_eq!(cache.max_entries, None);
    cache.insert("url", "0", 1000);
    cache.insert("url", "1", 2000);
    cache.insert("url", "2", 3000);
    cache.insert("url", "3", 4000);
    let entries = cache.get_texts("url");
    assert_eq!(entries.len(), 4);
    assert_eq!(entries, vec!["0", "1", "2", "3"]);
}

#[test]
fn test_get() {
    let mut cache = JsonCache::default();

    assert!(cache.get("url").is_none());

    cache.insert("url", "text", 1000);
    assert!(cache.get("url").unwrap().text.eq("text"));

    cache.insert("url", "text2", 2000);
    cache.insert("url", "text3", 3000);
    assert!(cache.get("url").unwrap().text.eq("text3"));
}

#[test]
fn test_get_younger_than() {
    let now: i64 = 1_000_000_000;
    let mut cache = JsonCache::default();
    // entries aged 20s, 5s and 10s
    cache.insert("url", "20s ago", now - 20_000);
    cache.insert("url", "5s ago", now - 5_000);
    cache.insert("url", "10s ago", now - 10_000);

    // we should get the youngest match
    assert!(cache.get_younger_than("url", 10, now).unwrap().text.eq("5s ago"));

    // if no max age, we should get the same result
    assert!(cache.get("url").unwrap().text.eq("5s ago"));

    // if no entries are young enough, we should get None
    assert!(cache.get_younger_than("url", 3, now).is_none());
}

#[test]
fn test_is_modified() {
    let mut cache = JsonCache::default();
    assert_eq!(cache.modified, false);
    cache.insert("url", "foo", 1000);
    assert_eq!(cache.modified, true);
}

#[test]
fn test_insert_keeps_other_keys() {
    let mut cache = JsonCache::with_max_entries(1);
    cache.insert("a", "x", 1000);
    cache.insert("b", "y", 2000);
    cache.insert("a", "z", 3000);
    assert_eq!(cache.get_texts("a"), vec!["z"]);
    assert_eq!(cache.get_texts("b"), vec!["y"]);
}

#[test]
fn test_insert_with_zero_max() {
    // a bound of zero retains nothing, even for a fresh key
    let mut cache = JsonCache::with_max_entries(0);
    cache.insert("url", "0", 1000);
    assert!(cache.get_texts("url").is_empty());
    assert!(cache.modified);
}

#[test]
fn test_get_younger_than_missing_key() {
    let cache = JsonCache::default();
    assert!(cache.get_younger_than("absent", 1000, 0).is_none());
}
