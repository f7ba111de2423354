use packtrack::cache::JsonCache;
use packtrack::cachefile::{decode_store, encode_store, save_payload};
use packtrack::time::parse_timestamp;

#[test]
fn test_save_unmodified_writes_nothing() {
    let cache = JsonCache::with_max_entries(10);
    assert!(save_payload(&cache).is_none());
}

#[test]
fn test_save_after_insert_writes_store() {
    let mut cache = JsonCache::with_max_entries(10);
    cache.insert("url", "text", 1_000);
    let payload = save_payload(&cache).unwrap();
    assert!(payload.contains("\"url\""));
    assert!(payload.contains("1970-01-01T00:00:01.000Z"));
}

#[test]
fn test_round_trip_byte_for_byte() {
    let mut cache = JsonCache::with_max_entries(10);
    cache.insert("https://a.example/x", "body one", 1_000);
    cache.insert("https://a.example/x", "body \"two\" \\ with\nescapes", 1732264123456);
    cache.insert("https://b.example/y", "{\"nested\": [1, 2]}", 951868799999);
    let saved = encode_store(&cache);

    let loaded = decode_store(saved.as_str(), Some(10)).unwrap();
    assert!(!loaded.modified);
    assert_eq!(loaded.max_entries, Some(10));
    assert_eq!(
        loaded.get_texts("https://a.example/x"),
        vec!["body one", "body \"two\" \\ with\nescapes"]
    );
    assert_eq!(loaded.get("https://a.example/x").unwrap().created, 1732264123456);

    // saving the loaded store reproduces the file byte for byte
    let saved_again = encode_store(&loaded);
    assert_eq!(saved_again, saved);
}

#[test]
fn test_loaded_store_is_unmodified() {
    let mut cache = JsonCache::new();
    cache.insert("url", "text", 5_000);
    let saved = encode_store(&cache);
    let loaded = decode_store(saved.as_str(), None).unwrap();
    // no insert since load: saving performs no write
    assert!(save_payload(&loaded).is_none());
}

#[test]
fn test_decode_accepts_documented_forms() {
    // another writer of the format: whitespace, no fractional seconds,
    // an explicit offset
    let text = "{ \"url\": [ {\"text\": \"body\", \"created\": \"2024-11-22T08:28:43Z\"},\n {\"text\": \"b2\", \"created\": \"2024-11-22T09:28:43+01:00\"} ] }";
    let loaded = decode_store(text, Some(10)).unwrap();
    assert!(!loaded.modified);
    assert_eq!(loaded.get_texts("url"), vec!["body", "b2"]);
    assert_eq!(loaded.get("url").unwrap().created, 1732264123000);
    // re-saving normalizes to the canonical encoding
    let normalized = encode_store(&loaded);
    assert!(normalized.contains("2024-11-22T08:28:43.000Z"));
}

#[test]
fn test_decode_rejects_duplicate_urls() {
    let text = "{\"u\": [], \"u\": []}";
    assert!(decode_store(text, None).is_none());
}

#[test]
fn test_decode_rejects_corrupt_file() {
    assert!(decode_store("{\"a\": oops", None).is_none());
    assert!(decode_store("[1, 2, 3]", None).is_none());
    // valid JSON, but not the shape of a cache file
    assert!(decode_store("{\"a\": {\"b\": 1}}", None).is_none());
}

#[test]
fn test_decode_empty_store() {
    let cache = JsonCache::new();
    let encoded = encode_store(&cache);
    assert_eq!(encoded, "{}");
    let loaded = decode_store("{}", None).unwrap();
    assert!(loaded.get("anything").is_none());
}

#[test]
fn test_timestamp_parse_exact() {
    assert_eq!(
        parse_timestamp("2024-11-19T12:00:00+00:00"),
        Some(1732017600000)
    );
    assert_eq!(
        parse_timestamp("2024-11-06T11:25:00+01:00"),
        Some(1730888700000)
    );
    assert_eq!(
        parse_timestamp("2024-11-05T07:50:51.802+01:00"),
        Some(1730789451802)
    );
    assert_eq!(parse_timestamp("1970-01-01T00:00:00Z"), Some(0));
    // leap day
    assert_eq!(
        parse_timestamp("2000-02-29T23:59:59.999Z"),
        Some(951868799999)
    );
    // a naive timestamp counts as UTC
    assert_eq!(parse_timestamp("1970-01-01T00:00:01"), Some(1000));
    // rejected shapes
    assert_eq!(parse_timestamp("not a date"), None);
    assert_eq!(parse_timestamp("2024-13-01T00:00:00Z"), None);
    assert_eq!(parse_timestamp("2023-02-29T00:00:00Z"), None);
    assert_eq!(parse_timestamp("1969-12-31T23:59:59Z"), None);
}

#[test]
fn test_timestamp_format_parse_round_trip() {
    let mut cache = JsonCache::new();
    let t: i64 = 1730789451802;
    cache.insert("u", "x", t);
    let encoded = encode_store(&cache);
    let loaded = decode_store(encoded.as_str(), None).unwrap();
    assert_eq!(loaded.get("u").unwrap().created, t);
}

#[test]
fn test_unicode_escape_round_trip() {
    let mut cache = JsonCache::new();
    cache.insert("u", "tab\there ctrl\u{1}done", 0);
    let encoded = encode_store(&cache);
    let loaded = decode_store(encoded.as_str(), None).unwrap();
    assert_eq!(loaded.get_texts("u"), vec!["tab\there ctrl\u{1}done"]);
    assert_eq!(encode_store(&loaded), encoded);
}
