use packtrack::json;
use packtrack::json::JsonValue;
use packtrack::strutil::{matches_ci, parse_u64, parse_usize, spaced};

#[test]
fn test_spaced() {
    assert_eq!(spaced("hello".to_owned()), "h e l l o");
    assert_eq!(spaced("".to_owned()), "");
    assert_eq!(spaced("x".to_owned()), "x");
}

#[test]
fn test_matches_ci() {
    // the match goes through lowercase folding on both sides
    assert!(matches_ci("Recipient NAME", "name"));
    assert!(matches_ci("recipient name", "NAME"));
    assert!(!matches_ci("recipient", "sender"));
}

#[test]
fn test_parse_u64() {
    assert_eq!(parse_u64("0"), Some(0));
    assert_eq!(parse_u64("30"), Some(30));
    assert_eq!(parse_u64("18446744073709551615"), Some(u64::MAX));
    assert_eq!(parse_u64("18446744073709551616"), None);
    assert_eq!(parse_u64(""), None);
    assert_eq!(parse_u64("1x"), None);
    assert_eq!(parse_u64("-1"), None);
    assert_eq!(parse_usize("7"), Some(7));
}

#[test]
fn test_json_parse_values() {
    match json::parse("{\"a\": [true, null, 1.5e3, \"caf\\u00e9\"]}") {
        Some(v) => {
            let arr = match v.get("a") {
                Some(JsonValue::Arr(items)) => items,
                _ => panic!("expected an array"),
            };
            assert!(matches!(arr[0], JsonValue::Bool(true)));
            assert!(matches!(arr[1], JsonValue::Null));
            match &arr[2] {
                JsonValue::Num(lex) => assert_eq!(lex, "1.5e3"),
                _ => panic!("expected a number"),
            }
            match &arr[3] {
                JsonValue::Str(s) => assert_eq!(s, "caf\u{e9}"),
                _ => panic!("expected a string"),
            }
        }
        None => panic!("expected a parse"),
    }
}

#[test]
fn test_json_parse_rejects_garbage() {
    assert!(json::parse("{\"a\": }").is_none());
    assert!(json::parse("").is_none());
    assert!(json::parse("{} trailing").is_none());
}

#[test]
fn test_json_duplicate_key_last_wins() {
    match json::parse("{\"a\": 1, \"a\": 2}") {
        Some(v) => match v.get("a") {
            Some(JsonValue::Num(lex)) => assert_eq!(lex, "2"),
            _ => panic!("expected the later binding"),
        },
        None => panic!("expected a parse"),
    }
}

#[test]
fn test_json_depth_bound() {
    // nesting up to 128 containers parses; deeper is rejected
    let deep_ok = format!("{}null{}", "[".repeat(127), "]".repeat(127));
    assert!(json::parse(&deep_ok).is_some());
    let too_deep = format!("{}null{}", "[".repeat(200), "]".repeat(200));
    assert!(json::parse(&too_deep).is_none());
}

#[test]
fn test_json_surrogate_pair() {
    match json::parse("\"\\ud83d\\ude00\"") {
        Some(JsonValue::Str(s)) => assert_eq!(s, "\u{1F600}"),
        _ => panic!("expected a string"),
    }
}
