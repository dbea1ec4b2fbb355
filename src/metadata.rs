//! A snapshot of the cluster's topology: brokers, topics and their partitions.
use vstd::prelude::*;

verus! {

/// The cluster as one broker described it.
#[derive(Clone, Debug)]
pub struct ClusterMetadata {
    pub originating_broker_id: i32,
    pub brokers: Vec<Broker>,
    pub topics: Vec<Topic>,
}

#[derive(Clone, Debug)]
pub struct Broker {
    pub id: i32,
    pub host: String,
    pub port: i32,
}

#[derive(Clone, Debug)]
pub struct Topic {
    pub name: String,
    pub partitions: Vec<Partition>,
}

#[derive(Clone, Debug)]
pub struct Partition {
    pub id: i32,
    /// The replicas that are in sync with the leader.
    pub isr: Vec<i32>,
    pub replicas: Vec<i32>,
    pub leader: i32,
}

/// The largest partition id of a non-empty list of partitions.
pub open spec fn max_partition_id(ps: Seq<Partition>) -> int
    decreases ps.len(),
{
    if ps.len() <= 1 {
        ps[0].id as int
    } else {
        let rest = max_partition_id(ps.drop_last());
        if ps.last().id > rest {
            ps.last().id as int
        } else {
            rest
        }
    }
}

/// The largest partition id of a topic that has at least one partition.
pub fn max_partition(topic: &Topic) -> (r: i32)
    requires
        topic.partitions@.len() > 0,
    ensures
        r as int == max_partition_id(topic.partitions@),
{
    let ps = &topic.partitions;
    let mut best: i32 = ps[0].id;
    let mut i: usize = 1;
    while i < ps.len()
        invariant
            1 <= i <= ps@.len(),
            best as int == max_partition_id(ps@.take(i as int)),
        decreases ps@.len() - i,
    {
        assert(ps@.take(i as int + 1).drop_last() == ps@.take(i as int));
        if ps[i].id > best {
            best = ps[i].id;
        }
        i += 1;
    }
    assert(ps@.take(ps@.len() as int) == ps@);
    best
}

/// The metadata of one connection, kept from the first fetch until the caller drops it;
/// nothing in the engine refreshes it.
pub struct MetadataCache {
    metadata: Option<ClusterMetadata>,
}

impl MetadataCache {
    pub closed spec fn cached(&self) -> Option<ClusterMetadata> {
        self.metadata
    }

    pub fn new() -> (r: Self)
        ensures
            r.cached() is None,
    {
        MetadataCache { metadata: None }
    }

    /// The kept metadata, if there is any: a caller fetches only when there is none.
    pub fn get(&self) -> (r: Option<&ClusterMetadata>)
        ensures
            r == (match self.cached() {
                Some(m) => Some(&m),
                None => None::<&ClusterMetadata>,
            }),
    {
        match &self.metadata {
            Some(m) => Some(m),
            None => None,
        }
    }

    /// Keeps freshly fetched metadata, replacing what was kept.
    pub fn update(&mut self, metadata: ClusterMetadata)
        ensures
            final(self).cached() == Some(metadata),
    {
        self.metadata = Some(metadata);
    }

    /// Forgets the kept metadata, so that the next use fetches it anew.
    pub fn invalidate(&mut self)
        ensures
            final(self).cached() is None,
    {
        self.metadata = None;
    }
}

} // verus!
