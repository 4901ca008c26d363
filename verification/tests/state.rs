use topiq_explorer::config::{build_config, KafkaConnection};
use topiq_explorer::request::{prepare_fetch, topic_list, validate_topic, MessageOptions};
use topiq_explorer::state::{complete_connect, get_config, AppState};

fn connection(id: &str, broker: &str) -> KafkaConnection {
    KafkaConnection {
        id: id.to_string(),
        brokers: vec![broker.to_string()],
        ssl: None,
        sasl: None,
    }
}

fn open(state: &mut AppState, id: &str, broker: &str) {
    let config = build_config(&connection(id, broker)).unwrap();
    complete_connect(state, id.to_string(), config, Ok(())).unwrap();
}

fn broker_of(state: &AppState, id: &str) -> Option<String> {
    let config = get_config(state, id).ok()?;
    config.get("bootstrap.servers").map(|s| s.to_string())
}

#[test]
fn opened_connection_is_found() {
    let mut state = AppState::new();
    assert_eq!(get_config(&state, "a").unwrap_err(), "Not connected");
    open(&mut state, "a", "x:1");
    open(&mut state, "b", "y:1");
    assert_eq!(broker_of(&state, "a").as_deref(), Some("x:1"));
    assert_eq!(broker_of(&state, "b").as_deref(), Some("y:1"));
    open(&mut state, "a", "z:1");
    assert_eq!(broker_of(&state, "a").as_deref(), Some("z:1"));
    assert_eq!(broker_of(&state, "b").as_deref(), Some("y:1"));
}

#[test]
fn failed_connect_changes_nothing() {
    let mut state = AppState::new();
    open(&mut state, "a", "x:1");
    let config = build_config(&connection("a", "bad:1")).unwrap();
    let probe = Err("connect to 10.0.0.1:9092 failed".to_string());
    let e = complete_connect(&mut state, "a".to_string(), config, probe).unwrap_err();
    assert_eq!(e, "connect to <redacted> failed");
    assert_eq!(broker_of(&state, "a").as_deref(), Some("x:1"));
}

#[test]
fn topics_are_listed_in_order() {
    let names = ["b", "a", "B", "_x", "a1", "a", ""];
    let names = names.iter().map(|n| n.to_string()).collect();
    assert_eq!(topic_list(Ok(names)).unwrap(), ["", "B", "_x", "a", "a", "a1", "b"]);
    assert_eq!(
        topic_list(Err("broker 1.2.3.4 down".to_string())).unwrap_err(),
        "broker <redacted> down"
    );
}

#[test]
fn topic_names() {
    for good in ["a", "Topic_1.x-Y", ".", &"t".repeat(249)] {
        assert_eq!(validate_topic(good), Ok(()));
    }
    for bad in ["", "a b", "a/b", "ä", "a\0", &"t".repeat(250)] {
        assert_eq!(validate_topic(bad).unwrap_err(), "Invalid topic name");
    }
}

#[test]
fn request_is_checked() {
    let mut state = AppState::new();
    open(&mut state, "a", "x:1");
    let refused = |id: &str, topic: &str| {
        prepare_fetch(&state, id, topic.to_string(), None).map(|_| ()).unwrap_err()
    };
    assert_eq!(refused("a", "no/topic"), "Invalid topic name");
    assert_eq!(refused("b", "no/topic"), "Invalid topic name");
    assert_eq!(refused("b", "orders"), "Not connected");
}

#[test]
fn request_has_defaults() {
    let mut state = AppState::new();
    open(&mut state, "a", "x:1");
    let (config, request) = prepare_fetch(&state, "a", "orders".to_string(), None).unwrap();
    assert_eq!(config.get("bootstrap.servers"), Some("x:1"));
    assert_eq!(request.topic, "orders");
    assert_eq!(request.limit, 100);
    assert_eq!(request.partition, None);
    assert_eq!(request.from_offset, None);
    assert_eq!(request.from_timestamp, None);
}

#[test]
fn limit_is_clamped() {
    let mut state = AppState::new();
    open(&mut state, "a", "x:1");
    for (asked, given) in [
        (None, 100),
        (Some(0), 1),
        (Some(1), 1),
        (Some(50), 50),
        (Some(10_000), 10_000),
        (Some(10_001), 10_000),
        (Some(usize::MAX), 10_000),
    ] {
        let options = MessageOptions { limit: asked, partition: Some(2), ..Default::default() };
        let prepared = prepare_fetch(&state, "a", "orders".to_string(), Some(options));
        let (_, request) = prepared.unwrap();
        assert_eq!(request.limit, given);
        assert_eq!(request.partition, Some(2));
    }
}
