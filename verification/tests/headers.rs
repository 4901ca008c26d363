use topiq_explorer::headers::{join_headers, MAX_HEADER_VALUE_SIZE};

#[test]
fn join_headers_preserves_duplicate_keys() {
    let h = join_headers(vec![
        ("k".to_string(), "a".to_string()),
        ("k".to_string(), "b".to_string()),
        ("x".to_string(), "y".to_string()),
    ]);
    assert_eq!(h.get("k").unwrap(), "a,b");
    assert_eq!(h.get("x").unwrap(), "y");
}

#[test]
fn values_keep_their_order() {
    let pair = |k: &str, v: &str| (k.to_string(), v.to_string());
    let h = join_headers(vec![
        pair("a", "1"),
        pair("b", "2"),
        pair("a", "3"),
        pair("c", ""),
        pair("a", "1"),
    ]);
    assert_eq!(h.get("a").unwrap(), "1,3,1");
    assert_eq!(h.get("b").unwrap(), "2");
    assert_eq!(h.get("c").unwrap(), "");
    assert!(h.get("d").is_none());
    assert_eq!(h.entries().len(), 3);
}

#[test]
fn joined_value_is_truncated() {
    let half = "x".repeat(MAX_HEADER_VALUE_SIZE / 2);
    let h = join_headers(vec![
        ("k".to_string(), half.clone()),
        ("k".to_string(), half.clone()),
        ("short".to_string(), half.clone()),
    ]);
    let joined = h.get("k").unwrap();
    assert!(joined.ends_with("\n...[truncated]"));
    assert_eq!(joined.chars().count(), MAX_HEADER_VALUE_SIZE + 15);
    assert_eq!(*h.get("short").unwrap(), half);
}

#[test]
fn no_headers_no_entries() {
    assert!(join_headers(Vec::new()).entries().is_empty());
}
