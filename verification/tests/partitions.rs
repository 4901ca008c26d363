use rdkafka::{Offset, TopicPartitionList};
use topiq_explorer::partitions::{resolved_offsets, timestamp_query};

fn contents(list: &TopicPartitionList) -> Vec<(String, i32, Offset)> {
    list.elements()
        .iter()
        .map(|e| (e.topic().to_string(), e.partition(), e.offset()))
        .collect()
}

#[test]
fn query_asks_each_partition_once() {
    let list = timestamp_query("orders", &vec![0, 2, 5], 1_700_000_000_000).unwrap();
    let at = Offset::Offset(1_700_000_000_000);
    assert_eq!(
        contents(&list),
        [
            ("orders".to_string(), 0, at),
            ("orders".to_string(), 2, at),
            ("orders".to_string(), 5, at),
        ]
    );
}

#[test]
fn query_sets_the_first_of_two_entries() {
    let list = timestamp_query("orders", &vec![3, 3], 7).unwrap();
    assert_eq!(
        contents(&list),
        [
            ("orders".to_string(), 3, Offset::Offset(7)),
            ("orders".to_string(), 3, Offset::Invalid),
        ]
    );
}

#[test]
fn query_refuses_negative_times() {
    assert_eq!(
        timestamp_query("orders", &vec![0], -5).unwrap_err(),
        "Set partition offset error: InvalidArgument (Local: Invalid argument or configuration)"
    );
    assert_eq!(timestamp_query("orders", &vec![], -5).unwrap().count(), 0);
}

#[test]
fn only_definite_offsets_are_resolved() {
    let mut list = TopicPartitionList::new();
    let entries = [
        (0, Offset::Offset(12)),
        (1, Offset::End),
        (2, Offset::Beginning),
        (3, Offset::Stored),
        (4, Offset::Invalid),
        (5, Offset::OffsetTail(3)),
        (6, Offset::Offset(0)),
    ];
    for (partition, offset) in entries {
        list.add_partition_offset("orders", partition, offset).unwrap();
    }
    let offsets = resolved_offsets(&list);
    assert_eq!(offsets.len(), 2);
    assert_eq!(offsets.get(&0), Some(&12));
    assert_eq!(offsets.get(&6), Some(&0));
}
