use topiq_explorer::message::{
    assemble_message, empty_result, next_offset, to_out_message, MessageTimestamp, RawMessage,
    MAX_KEY_SIZE,
};

fn raw() -> RawMessage {
    RawMessage {
        partition: 3,
        offset: 41,
        timestamp: MessageTimestamp::CreateTime(1_700_000_000_000),
        key: Some(b"key".to_vec()),
        payload: Some("wärt".as_bytes().to_vec()),
        headers: Some(vec![
            ("h".to_string(), Some(b"a".to_vec())),
            ("h".to_string(), None),
            ("x".to_string(), Some(b"y".to_vec())),
        ]),
    }
}

#[test]
fn next_offset_only_when_more() {
    assert_eq!(next_offset(true, Some(41)).as_deref(), Some("42"));
    assert_eq!(next_offset(false, Some(41)), None);
    assert_eq!(next_offset(true, None), None);
}

#[test]
fn next_offset_of_extreme_offsets() {
    assert_eq!(next_offset(true, Some(0)).as_deref(), Some("1"));
    assert_eq!(next_offset(true, Some(-1)).as_deref(), Some("0"));
    assert_eq!(
        next_offset(true, Some(i64::MAX - 1)).as_deref(),
        Some("9223372036854775807")
    );
    assert_eq!(next_offset(false, Some(i64::MAX)), None);
}

#[test]
fn message_is_shown_as_text() {
    let m = to_out_message(&raw());
    assert_eq!(m.partition, 3);
    assert_eq!(m.offset, "41");
    assert_eq!(m.timestamp, "1700000000000");
    assert_eq!(m.key.as_deref(), Some("key"));
    assert_eq!(m.value.as_deref(), Some("wärt"));
    assert_eq!(m.headers.get("h").unwrap(), "a,");
    assert_eq!(m.headers.get("x").unwrap(), "y");
}

#[test]
fn missing_parts_stay_missing() {
    let m = to_out_message(&RawMessage {
        timestamp: MessageTimestamp::NotAvailable,
        key: None,
        payload: None,
        headers: None,
        ..raw()
    });
    assert_eq!(m.timestamp, "");
    assert_eq!(m.key, None);
    assert_eq!(m.value, None);
    assert!(m.headers.entries().is_empty());
}

#[test]
fn timestamp_of_minus_one_is_none() {
    for timestamp in [MessageTimestamp::CreateTime(-1), MessageTimestamp::LogAppendTime(-1)] {
        assert_eq!(to_out_message(&RawMessage { timestamp, ..raw() }).timestamp, "");
    }
    let appended = RawMessage { timestamp: MessageTimestamp::LogAppendTime(7), ..raw() };
    assert_eq!(to_out_message(&appended).timestamp, "7");
}

#[test]
fn invalid_utf8_is_replaced() {
    let m = to_out_message(&RawMessage {
        key: Some(vec![b'a', 0xff, b'b']),
        payload: Some(vec![0xc3, 0x28]),
        ..raw()
    });
    assert_eq!(m.key.as_deref(), Some("a\u{FFFD}b"));
    assert_eq!(m.value.as_deref(), Some("\u{FFFD}("));
}

#[test]
fn long_key_is_truncated() {
    let m = to_out_message(&RawMessage { key: Some(vec![b'k'; MAX_KEY_SIZE + 1]), ..raw() });
    let key = m.key.unwrap();
    assert!(key.ends_with("k\n...[truncated]"));
    assert_eq!(key.len(), MAX_KEY_SIZE + 15);
}

#[test]
fn assembled_from_decoded_parts() {
    let m = assemble_message(
        1,
        -2,
        Some(-3),
        Some("k".to_string()),
        None,
        vec![("a".to_string(), "b".to_string())],
    );
    assert_eq!((m.partition, m.offset.as_str(), m.timestamp.as_str()), (1, "-2", "-3"));
    assert_eq!(m.key.as_deref(), Some("k"));
    assert_eq!(m.value, None);
    assert_eq!(m.headers.get("a").unwrap(), "b");
}

#[test]
fn empty_page() {
    let page = empty_result();
    assert!(page.messages.is_empty());
    assert!(!page.has_more);
    assert_eq!(page.next_offset, None);
    assert_eq!(page.next_partition, None);
}
