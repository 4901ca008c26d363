use rdkafka::{Offset, TopicPartitionList};
use topiq_explorer::fetch::{
    parse_from_offset, select_partitions, AssignStage, FetchStep, PollEvent, PollStage, TopicInfo,
    WatermarkStage,
};
use topiq_explorer::message::{MessageFetchResult, MessageTimestamp, RawMessage};
use topiq_explorer::request::FetchRequest;

fn request(limit: usize) -> FetchRequest {
    FetchRequest {
        topic: "orders".to_string(),
        partition: None,
        from_offset: None,
        from_timestamp: None,
        limit,
    }
}

fn topic(name: &str, partitions: &[i32]) -> TopicInfo {
    TopicInfo { name: name.to_string(), error: None, partitions: partitions.to_vec() }
}

fn begin(request: FetchRequest, topics: Vec<TopicInfo>) -> FetchStep {
    assert!(request.accepts(&topics));
    request.on_metadata(Ok(topics))
}

fn orders(partitions: &[i32]) -> Result<Vec<TopicInfo>, String> {
    Ok(vec![topic("other", &[9]), topic("orders", partitions)])
}

fn message(partition: i32, offset: i64) -> PollEvent {
    PollEvent::Message(RawMessage {
        partition,
        offset,
        timestamp: MessageTimestamp::NotAvailable,
        key: None,
        payload: Some(format!("{partition}/{offset}").into_bytes()),
        headers: None,
    })
}

fn failure(step: FetchStep) -> String {
    match step {
        FetchStep::Done(Err(e)) => e,
        _ => panic!("no failure"),
    }
}

fn done(step: FetchStep) -> MessageFetchResult {
    match step {
        FetchStep::Done(Ok(page)) => page,
        _ => panic!("not done"),
    }
}

fn released(step: FetchStep) -> MessageFetchResult {
    match step {
        FetchStep::Release(page) => page,
        _ => panic!("not released"),
    }
}

fn watermarks(step: FetchStep) -> WatermarkStage {
    match step {
        FetchStep::FetchWatermarks(stage) => stage,
        _ => panic!("offsets not awaited"),
    }
}

fn assignment(step: FetchStep) -> (AssignStage, TopicPartitionList) {
    match step {
        FetchStep::Assign(stage, list) => (stage, list),
        _ => panic!("nothing to assign"),
    }
}

fn polling(step: FetchStep) -> PollStage {
    match step {
        FetchStep::Poll(stage) => stage,
        _ => panic!("nothing to poll"),
    }
}

fn offsets(list: &TopicPartitionList) -> Vec<(i32, Offset)> {
    list.elements()
        .iter()
        .map(|e| {
            assert_eq!(e.topic(), "orders");
            (e.partition(), e.offset())
        })
        .collect()
}

fn marks(stage: WatermarkStage, low: i64, high: i64) -> FetchStep {
    assert!(stage.accepts(low, high));
    stage.on_watermarks(Ok((low, high)))
}

/// The stage that polls one partition with `count` messages.
fn poll_stage(request: FetchRequest, count: i64) -> PollStage {
    let stage = watermarks(request.on_metadata(orders(&[0])));
    let (stage, _) = assignment(marks(stage, 0, count));
    polling(stage.on_assigned(Ok(())))
}

// ---- metadata ---------------------------------------------------------------

#[test]
fn selected_partitions_ascend() {
    let topics = vec![topic("a", &[1]), topic("orders", &[5, -1, 3, 0]), topic("orders", &[7])];
    let name = "orders".to_string();
    assert_eq!(select_partitions(&topics, &name, None).unwrap(), [-1, 0, 3, 5]);
    assert_eq!(select_partitions(&topics, &name, Some(3)).unwrap(), [3]);
    assert!(select_partitions(&topics, &name, Some(7)).unwrap().is_empty());
}

#[test]
fn unknown_topic_is_an_error() {
    assert_eq!(
        failure(begin(request(10), vec![topic("other", &[0])])),
        "Topic not found: orders"
    );
}

#[test]
fn topic_with_an_error_is_an_error() {
    let info = TopicInfo {
        error: Some("UnknownTopicOrPartition at 10.1.2.3:9092".to_string()),
        ..topic("orders", &[0])
    };
    assert_eq!(
        failure(begin(request(10), vec![info])),
        "Topic error: UnknownTopicOrPartition at <redacted>"
    );
}

#[test]
fn failed_metadata_is_redacted() {
    assert_eq!(
        failure(request(10).on_metadata(Err("Metadata from kafka-1.example.com:9092".to_string()))),
        "Metadata from <redacted>"
    );
}

#[test]
fn no_partition_gives_an_empty_page() {
    assert!(done(request(10).on_metadata(orders(&[]))).messages.is_empty());
    let absent = FetchRequest { partition: Some(4), ..request(10) };
    assert!(!done(absent.on_metadata(orders(&[0, 1]))).has_more);
}

#[test]
fn invalid_offset_is_an_error() {
    for text in ["", "-1", "+5", "1x", " 1", "0x10", "9223372036854775808", "18446744073709551616"] {
        let asked = FetchRequest { from_offset: Some(text.to_string()), ..request(10) };
        assert_eq!(failure(asked.on_metadata(orders(&[0]))), "Invalid offset");
    }
}

#[test]
fn offsets_are_read_up_to_the_largest() {
    let read = |text: &str| parse_from_offset(&Some(text.to_string()));
    assert_eq!(parse_from_offset(&None), Ok(None));
    assert_eq!(read("0"), Ok(Some(0)));
    assert_eq!(read("0042"), Ok(Some(42)));
    assert_eq!(read("9223372036854775807"), Ok(Some(i64::MAX)));
    assert_eq!(read("9223372036854775808"), Err("Invalid offset".to_string()));
    assert_eq!(read("18446744073709551615"), Err("Invalid offset".to_string()));
    assert_eq!(read("-1"), Err("Invalid offset".to_string()));
}

// ---- where to start ---------------------------------------------------------

#[test]
fn every_partition_is_assigned() {
    let stage = watermarks(request(100).on_metadata(orders(&[2, 0, 1])));
    assert_eq!(stage.next_partition(), 0);
    let stage = watermarks(marks(stage, 5, 9));
    assert_eq!(stage.next_partition(), 1);
    let stage = watermarks(marks(stage, 3, 3));
    assert_eq!(stage.next_partition(), 2);
    let (stage, list) = assignment(marks(stage, 0, 20));
    assert_eq!(stage.cap, 24);
    assert_eq!(
        offsets(&list),
        [(0, Offset::Offset(5)), (1, Offset::Offset(3)), (2, Offset::Offset(0))]
    );
}

#[test]
fn expected_messages_are_capped() {
    let stage = watermarks(request(10).on_metadata(orders(&[0])));
    let (stage, _) = assignment(marks(stage, 0, 1_000_000));
    assert_eq!(stage.cap, 10);
}

#[test]
fn empty_partitions_give_an_empty_page() {
    let stage = watermarks(request(10).on_metadata(orders(&[0, 1])));
    let stage = watermarks(marks(stage, 7, 7));
    assert!(done(marks(stage, 0, 0)).messages.is_empty());
}

#[test]
fn offset_is_brought_into_range() {
    for (asked, start) in [("0", 5), ("5", 5), ("7", 7)] {
        let asked = FetchRequest { from_offset: Some(asked.to_string()), ..request(10) };
        let stage = watermarks(asked.on_metadata(orders(&[0])));
        let (_, list) = assignment(marks(stage, 5, 9));
        assert_eq!(offsets(&list), [(0, Offset::Offset(start))]);
    }
    for asked in ["9", "10", "9223372036854775807"] {
        let beyond = FetchRequest { from_offset: Some(asked.to_string()), ..request(10) };
        let stage = watermarks(beyond.on_metadata(orders(&[0])));
        let page = done(marks(stage, 5, 9));
        assert!(page.messages.is_empty());
        assert!(!page.has_more);
    }
}

#[test]
fn negative_start_is_refused() {
    let stage = watermarks(request(10).on_metadata(orders(&[0])));
    assert_eq!(
        failure(marks(stage, -3, 4)),
        "Set partition offset error: InvalidArgument (Local: Invalid argument or configuration)"
    );
}

#[test]
fn failed_watermarks_are_redacted() {
    let stage = watermarks(request(10).on_metadata(orders(&[0])));
    assert_eq!(
        failure(stage.on_watermarks(Err("leader 1.2.3.4:9092 gone".to_string()))),
        "leader <redacted> gone"
    );
}

#[test]
fn impossible_watermarks_are_not_accepted() {
    let stage = watermarks(request(10).on_metadata(orders(&[0, 1])));
    assert!(!stage.accepts(4, 3));
    assert!(!stage.accepts(i64::MIN, i64::MAX));
    assert!(stage.accepts(0, i64::MAX));
    let stage = watermarks(marks(stage, 0, i64::MAX));
    assert!(!stage.accepts(0, 1));
    assert!(stage.accepts(1, 1));
}

// ---- starting at a time -----------------------------------------------------

#[test]
fn time_is_resolved_into_offsets() {
    let asked = FetchRequest { from_timestamp: Some(1_000), ..request(10) };
    let (stage, query) = match asked.on_metadata(orders(&[1, 0, 2])) {
        FetchStep::ResolveTimestamps(stage, query) => (stage, query),
        _ => panic!("time not resolved"),
    };
    assert_eq!(
        offsets(&query),
        [(0, Offset::Offset(1_000)), (1, Offset::Offset(1_000)), (2, Offset::Offset(1_000))]
    );
    let mut answer = TopicPartitionList::new();
    answer.add_partition_offset("orders", 0, Offset::Offset(6)).unwrap();
    answer.add_partition_offset("orders", 1, Offset::End).unwrap();
    let stage = watermarks(stage.on_offsets(Ok(answer)));
    let stage = watermarks(marks(stage, 2, 8));
    let stage = watermarks(marks(stage, 0, 5));
    let (stage, list) = assignment(marks(stage, 0, 4));
    assert_eq!(stage.cap, 2);
    assert_eq!(
        offsets(&list),
        [(0, Offset::Offset(6)), (1, Offset::Offset(5)), (2, Offset::Offset(4))]
    );
}

#[test]
fn time_that_is_not_positive_is_ignored() {
    for ts in [0, -1, i64::MIN] {
        let asked = FetchRequest { from_timestamp: Some(ts), ..request(10) };
        let stage = watermarks(asked.on_metadata(orders(&[0])));
        let (_, list) = assignment(marks(stage, 2, 8));
        assert_eq!(offsets(&list), [(0, Offset::Offset(2))]);
    }
}

#[test]
fn time_goes_before_offset() {
    let both = FetchRequest {
        from_timestamp: Some(1),
        from_offset: Some("3".to_string()),
        ..request(10)
    };
    let stage = match both.clone().on_metadata(orders(&[0])) {
        FetchStep::ResolveTimestamps(stage, _) => stage,
        _ => panic!("time not resolved"),
    };
    let mut answer = TopicPartitionList::new();
    answer.add_partition_offset("orders", 0, Offset::Offset(6)).unwrap();
    let (_, list) = assignment(marks(watermarks(stage.on_offsets(Ok(answer))), 0, 8));
    assert_eq!(offsets(&list), [(0, Offset::Offset(6))]);

    let invalid = FetchRequest { from_offset: Some("x".to_string()), ..both };
    let stage = match invalid.on_metadata(orders(&[0])) {
        FetchStep::ResolveTimestamps(stage, _) => stage,
        _ => panic!("time not resolved"),
    };
    assert_eq!(failure(stage.clone().on_offsets(Ok(TopicPartitionList::new()))), "Invalid offset");
    assert_eq!(failure(stage.on_offsets(Err("9.9.9.9 timed out".to_string()))), "<redacted> timed out");
}

// ---- polling ----------------------------------------------------------------

#[test]
fn failed_assignment_is_redacted() {
    let stage = watermarks(request(10).on_metadata(orders(&[0])));
    let (stage, _) = assignment(marks(stage, 0, 5));
    assert_eq!(failure(stage.on_assigned(Err("8.8.8.8".to_string()))), "<redacted>");
}

#[test]
fn full_page_says_where_the_next_one_starts() {
    let stage = polling(poll_stage(request(2), 5).on_poll(message(0, 0)));
    let page = released(stage.on_poll(message(0, 1)));
    assert!(page.has_more);
    assert_eq!(page.next_offset.as_deref(), Some("2"));
    assert_eq!(page.next_partition, Some(0));
    let values: Vec<_> = page.messages.iter().map(|m| m.value.as_deref().unwrap()).collect();
    assert_eq!(values, ["0/0", "0/1"]);

    let next = FetchRequest {
        from_offset: page.next_offset,
        partition: page.next_partition,
        ..request(2)
    };
    let stage = watermarks(next.on_metadata(orders(&[0])));
    let (_, list) = assignment(marks(stage, 0, 5));
    assert_eq!(offsets(&list), [(0, Offset::Offset(2))]);
}

#[test]
fn last_page_has_nothing_behind_it() {
    let stage = polling(poll_stage(request(10), 2).on_poll(message(0, 0)));
    let page = released(stage.on_poll(message(0, 1)));
    assert!(!page.has_more);
    assert_eq!(page.messages.len(), 2);
    assert_eq!(page.next_offset, None);
    assert_eq!(page.next_partition, None);
}

#[test]
fn silence_ends_a_page() {
    for event in [PollEvent::Idle, PollEvent::DeadlinePassed] {
        let stage = polling(poll_stage(request(10), 5).on_poll(message(0, 0)));
        assert!(stage.accepts(&event));
        let page = released(stage.on_poll(event));
        assert_eq!(page.messages.len(), 1);
        assert!(!page.has_more);
    }
}

#[test]
fn failed_poll_drops_the_page() {
    let stage = polling(poll_stage(request(10), 5).on_poll(message(0, 0)));
    let event = PollEvent::Failed("SASL PLAIN authentication failed".to_string());
    assert_eq!(failure(stage.on_poll(event)), "SASL authentication failed");
}

#[test]
fn other_partitions_do_not_count() {
    let only = FetchRequest { partition: Some(0), ..request(2) };
    let stage = polling(poll_stage(only, 5).on_poll(message(3, 8)));
    assert!(stage.messages.is_empty());
    assert_eq!(stage.last_offset, None);
    let stage = polling(stage.on_poll(message(0, 1)));
    let stage = polling(stage.on_poll(message(3, 9)));
    let page = released(stage.on_poll(message(0, 2)));
    assert!(page.messages.iter().all(|m| m.partition == 0));
    assert_eq!(page.next_offset.as_deref(), Some("3"));
}

#[test]
fn last_offset_of_all_ends_no_full_page() {
    let stage = poll_stage(request(1), 5);
    assert!(!stage.accepts(&message(0, i64::MAX)));
    assert!(stage.accepts(&message(0, i64::MAX - 1)));
    let page = released(poll_stage(request(2), 1).on_poll(message(0, i64::MAX)));
    assert_eq!(page.messages[0].offset, "9223372036854775807");
    assert_eq!(page.next_offset, None);
}

#[test]
fn whole_fetch_is_in_order() {
    let asked = FetchRequest { from_offset: Some("1".to_string()), ..request(3) };
    let stage = watermarks(begin(asked, vec![topic("orders", &[1, 0])]));
    let stage = watermarks(marks(stage, 0, 2));
    let (stage, list) = assignment(marks(stage, 4, 6));
    assert_eq!(offsets(&list), [(0, Offset::Offset(1)), (1, Offset::Offset(4))]);
    assert_eq!(stage.cap, 3);
    let stage = polling(stage.on_assigned(Ok(())));
    let stage = polling(stage.on_poll(message(1, 4)));
    let stage = polling(stage.on_poll(message(0, 1)));
    let page = released(stage.on_poll(message(1, 5)));
    let values: Vec<_> = page.messages.iter().map(|m| m.value.as_deref().unwrap()).collect();
    assert_eq!(values, ["1/4", "0/1", "1/5"]);
    assert!(page.has_more);
    assert_eq!(page.next_offset.as_deref(), Some("6"));
    assert_eq!(page.next_partition, Some(1));
}
