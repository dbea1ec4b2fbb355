use kafka_lens::lag::{from_offset_map_tuple_to_description_vec, ConsumerGroupPartitionOffsets};
use kafka_lens::metadata::{Partition, Topic};
use kafka_lens::offsets::{GroupOffset, OffsetRequest};
use kafka_lens::resolver::{
    from_topic_partition_list_to_map, needs_fallback, partition_set, PartitionOffset,
    TopicPartitionOffset,
};

fn group(topic: &str, offsets: Vec<(i32, i64)>) -> TopicPartitionOffset {
    TopicPartitionOffset { topic: topic.to_string(), offsets }
}

fn offsets(partition: i32, start: i64, end: i64, current: i64) -> ConsumerGroupPartitionOffsets {
    ConsumerGroupPartitionOffsets {
        partition,
        start_offset: start,
        end_offset: end,
        current_offset: current,
    }
}

#[test]
fn lag_is_end_minus_current() {
    assert_eq!(offsets(0, 0, 120, 100).lag(), 20);
    assert_eq!(offsets(0, 0, 100, 100).lag(), 0);
    assert_eq!(offsets(0, -1, -1, 5).lag(), -6);
}

#[test]
fn descriptions_sort_partitions_and_join_offsets() {
    let starts = vec![group("orders", vec![(0, 0), (1, 5), (2, 2)])];
    let ends = vec![group("orders", vec![(2, 40), (0, 10), (1, 20)])];
    let current = vec![group("orders", vec![(2, 30), (0, 7), (1, 20)])];
    let report = from_offset_map_tuple_to_description_vec(starts, ends, current);
    assert_eq!(report.len(), 1);
    assert_eq!(report[0].topic, "orders");
    assert_eq!(
        report[0].partitions,
        vec![offsets(0, 0, 10, 7), offsets(1, 5, 20, 20), offsets(2, 2, 40, 30)]
    );
}

#[test]
fn missing_start_or_end_is_unknown() {
    let starts = vec![group("orders", vec![(0, 1)])];
    let ends = vec![group("other", vec![(0, 9)])];
    let current = vec![group("orders", vec![(1, 4), (0, 3)])];
    let report = from_offset_map_tuple_to_description_vec(starts, ends, current);
    assert_eq!(report[0].partitions, vec![offsets(0, 1, -1, 3), offsets(1, -1, -1, 4)]);
}

#[test]
fn one_description_per_committed_topic() {
    let report = from_offset_map_tuple_to_description_vec(
        vec![group("a", vec![(0, 0)]), group("b", vec![(0, 0)])],
        vec![group("a", vec![(0, 5)]), group("b", vec![(0, 6)])],
        vec![group("b", vec![(0, 6)]), group("a", vec![(0, 1)])],
    );
    assert_eq!(report.len(), 2);
    assert_eq!(report[0].topic, "b");
    assert_eq!(report[1].topic, "a");
    assert!(from_offset_map_tuple_to_description_vec(vec![], vec![], vec![]).is_empty());
}

#[test]
fn known_lags_are_not_negative() {
    // Committed offsets within their logs, ends taken from the logs.
    let starts = vec![group("orders", vec![(0, 0), (1, 0)])];
    let ends = vec![group("orders", vec![(0, 10), (1, 4)])];
    let current = vec![group("orders", vec![(0, 10), (1, 2), (2, 0)])];
    let report = from_offset_map_tuple_to_description_vec(starts, ends, current);
    for p in &report[0].partitions {
        if p.end_offset != -1 && p.current_offset != -1 {
            assert!(p.lag() >= 0);
        }
    }
    assert_eq!(report[0].partitions[2].end_offset, -1);
}

fn answer(topic: &str, partition: i32, offset: i64) -> PartitionOffset {
    PartitionOffset { topic: topic.to_string(), partition, offset: Some(offset) }
}

#[test]
fn new_group_from_beginning_reports_current_at_start() {
    // "orders" has three partitions whose logs start at 5, 0 and 7 and end at 9, 3 and 7.
    let topics = vec![Topic {
        name: "orders".to_string(),
        partitions: (0..3).map(|id| Partition { id, isr: vec![1], replicas: vec![1], leader: 1 }).collect(),
    }];
    let set = partition_set(&topics);
    assert_eq!(set.len(), 3);
    let beginning = vec![answer("orders", 0, 5), answer("orders", 1, 0), answer("orders", 2, 7)];
    let end = vec![answer("orders", 0, 9), answer("orders", 1, 3), answer("orders", 2, 7)];
    let request = OffsetRequest::from(GroupOffset::Beginning);
    assert!(!needs_fallback(&request, &beginning));
    // What the group commits is what the resolution gave.
    let committed = from_topic_partition_list_to_map(&beginning);
    let report = from_offset_map_tuple_to_description_vec(
        from_topic_partition_list_to_map(&beginning),
        from_topic_partition_list_to_map(&end),
        committed,
    );
    assert_eq!(report.len(), 1);
    assert_eq!(report[0].partitions.len(), 3);
    for p in &report[0].partitions {
        assert_eq!(p.current_offset, p.start_offset);
    }
}
