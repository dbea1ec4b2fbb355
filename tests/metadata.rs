use kafka_lens::metadata::{max_partition, Broker, ClusterMetadata, MetadataCache, Partition, Topic};

fn cluster(broker_id: i32) -> ClusterMetadata {
    ClusterMetadata {
        originating_broker_id: broker_id,
        brokers: vec![Broker { id: broker_id, host: "localhost".to_string(), port: 9092 }],
        topics: vec![],
    }
}

#[test]
fn cache_keeps_metadata_until_invalidated() {
    let mut cache = MetadataCache::new();
    assert!(cache.get().is_none());
    cache.update(cluster(1));
    assert_eq!(cache.get().unwrap().originating_broker_id, 1);
    cache.update(cluster(2));
    assert_eq!(cache.get().unwrap().originating_broker_id, 2);
    cache.invalidate();
    assert!(cache.get().is_none());
}

#[test]
fn max_partition_is_largest_id() {
    let partition = |id| Partition { id, isr: vec![], replicas: vec![], leader: 0 };
    let topic = Topic { name: "t".to_string(), partitions: vec![partition(3), partition(7), partition(1)] };
    assert_eq!(max_partition(&topic), 7);
}
