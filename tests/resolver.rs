use kafka_lens::metadata::{ClusterMetadata, Partition, Topic};
use kafka_lens::offsets::OffsetRequest;
use kafka_lens::resolver::{
    all_partitions, apply_fallback, committed_set, from_topic_partition_list_to_map, needs_fallback, partition_set,
    PartitionOffset,
};

fn partition(id: i32) -> Partition {
    Partition { id, isr: vec![1], replicas: vec![1], leader: 1 }
}

fn entry(topic: &str, partition: i32, offset: Option<i64>) -> PartitionOffset {
    PartitionOffset { topic: topic.to_string(), partition, offset }
}

fn pairs(listed: &[PartitionOffset]) -> Vec<(String, i32, Option<i64>)> {
    listed.iter().map(|e| (e.topic.clone(), e.partition, e.offset)).collect()
}

#[test]
fn partition_set_spans_zero_to_largest_id() {
    let topics = vec![
        Topic { name: "orders".to_string(), partitions: vec![partition(2), partition(0)] },
        Topic { name: "empty".to_string(), partitions: vec![] },
        Topic { name: "audit".to_string(), partitions: vec![partition(0)] },
    ];
    let set = partition_set(&topics);
    let got: Vec<(String, i32)> = set.iter().map(|p| (p.topic.clone(), p.partition)).collect();
    assert_eq!(
        got,
        vec![
            ("orders".to_string(), 0),
            ("orders".to_string(), 1),
            ("orders".to_string(), 2),
            ("audit".to_string(), 0),
        ]
    );
}

#[test]
fn partition_set_of_no_topics_is_empty() {
    assert!(partition_set(&vec![]).is_empty());
}

#[test]
fn fallback_only_for_missed_timestamps() {
    let missed = vec![entry("orders", 0, Some(4)), entry("orders", 1, None)];
    let all_found = vec![entry("orders", 0, Some(4)), entry("orders", 1, Some(9))];
    assert!(needs_fallback(&OffsetRequest::Timestamp(1000), &missed));
    assert!(!needs_fallback(&OffsetRequest::Timestamp(1000), &all_found));
    assert!(!needs_fallback(&OffsetRequest::End, &missed));
    assert!(!needs_fallback(&OffsetRequest::Beginning, &missed));
    assert!(!needs_fallback(&OffsetRequest::Tail(3), &missed));
}

#[test]
fn fallback_fills_only_missed_partitions() {
    // Partition 1 has no record at or after the timestamp; the others keep their offsets.
    let by_time = vec![entry("orders", 0, Some(4)), entry("orders", 1, None), entry("orders", 2, Some(7))];
    let at_end = vec![entry("orders", 0, Some(10)), entry("orders", 1, Some(12)), entry("orders", 2, Some(30))];
    let resolved = apply_fallback(&by_time, &at_end);
    assert_eq!(
        pairs(&resolved),
        vec![
            ("orders".to_string(), 0, Some(4)),
            ("orders".to_string(), 1, Some(12)),
            ("orders".to_string(), 2, Some(7)),
        ]
    );
}

#[test]
fn fallback_without_answer_stays_unresolved() {
    let by_time = vec![entry("orders", 3, None)];
    let at_end = vec![entry("orders", 0, Some(10))];
    let resolved = apply_fallback(&by_time, &at_end);
    assert_eq!(pairs(&resolved), vec![("orders".to_string(), 3, None)]);
}

#[test]
fn resolving_twice_gives_the_same_offsets() {
    let by_time = vec![entry("a", 0, None), entry("b", 0, Some(2))];
    let at_end = vec![entry("a", 0, Some(5)), entry("b", 0, Some(6))];
    let first = apply_fallback(&by_time, &at_end);
    let second = apply_fallback(&by_time, &at_end);
    assert_eq!(pairs(&first), pairs(&second));
}

#[test]
fn beginning_is_not_after_end() {
    let beginning = vec![entry("orders", 0, Some(0)), entry("orders", 1, Some(3))];
    let end = vec![entry("orders", 0, Some(10)), entry("orders", 1, Some(3))];
    assert!(!needs_fallback(&OffsetRequest::Beginning, &beginning));
    assert!(!needs_fallback(&OffsetRequest::End, &end));
    for (b, e) in beginning.iter().zip(end.iter()) {
        assert!(b.offset.unwrap() <= e.offset.unwrap());
    }
}

#[test]
fn grouping_keeps_topic_and_answer_order() {
    let listed = vec![
        entry("b", 1, Some(11)),
        entry("a", 0, Some(3)),
        entry("b", 0, Some(10)),
        entry("a", 1, None),
    ];
    let groups = from_topic_partition_list_to_map(&listed);
    assert_eq!(groups.len(), 2);
    assert_eq!(groups[0].topic, "b");
    assert_eq!(groups[0].offsets, vec![(1, 11), (0, 10)]);
    assert_eq!(groups[1].topic, "a");
    assert_eq!(groups[1].offsets, vec![(0, 3)]);
}

#[test]
fn grouping_drops_topics_without_offsets() {
    let listed = vec![entry("a", 0, None)];
    assert!(from_topic_partition_list_to_map(&listed).is_empty());
}

#[test]
fn report_partition_sets() {
    let metadata = ClusterMetadata {
        originating_broker_id: 1,
        brokers: vec![],
        topics: vec![
            Topic { name: "a".to_string(), partitions: vec![partition(1), partition(0)] },
            Topic { name: "b".to_string(), partitions: vec![partition(0)] },
        ],
    };
    let all: Vec<(String, i32)> =
        all_partitions(&metadata).iter().map(|p| (p.topic.clone(), p.partition)).collect();
    assert_eq!(all, vec![("a".to_string(), 1), ("a".to_string(), 0), ("b".to_string(), 0)]);
    let committed = vec![entry("a", 1, Some(4)), entry("a", 0, None), entry("b", 0, Some(0))];
    let set: Vec<(String, i32)> =
        committed_set(&committed).iter().map(|p| (p.topic.clone(), p.partition)).collect();
    assert_eq!(set, vec![("a".to_string(), 1), ("b".to_string(), 0)]);
}
