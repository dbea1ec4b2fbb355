//! Turning symbolic positions into absolute offsets, partition by partition.
//!
//! Resolution takes two round trips at most. The caller enumerates the partitions to query
//! with [`partition_set`], asks the broker for the primary position of all of them at once,
//! and, where [`needs_fallback`] says so, asks once more for the fallback position and splices
//! the answers in with [`apply_fallback`].
use vstd::prelude::*;
use crate::metadata::{max_partition, max_partition_id, ClusterMetadata, Partition, Topic};
use crate::offsets::OffsetRequest;

verus! {

/// A partition of a topic.
#[derive(Clone, Debug)]
pub struct TopicPartition {
    pub topic: String,
    pub partition: i32,
}

/// The offset the broker gave for one partition; `None` where it holds no record at the
/// requested position.
#[derive(Clone, Debug)]
pub struct PartitionOffset {
    pub topic: String,
    pub partition: i32,
    pub offset: Option<i64>,
}

/// A partition offset as a mathematical value.
pub struct OffsetEntry {
    pub topic: Seq<char>,
    pub partition: i32,
    pub offset: Option<i64>,
}

impl View for TopicPartition {
    type V = (Seq<char>, i32);

    open spec fn view(&self) -> (Seq<char>, i32) {
        (self.topic@, self.partition)
    }
}

impl View for PartitionOffset {
    type V = OffsetEntry;

    open spec fn view(&self) -> OffsetEntry {
        OffsetEntry { topic: self.topic@, partition: self.partition, offset: self.offset }
    }
}

pub open spec fn partitions_view(s: Seq<TopicPartition>) -> Seq<(Seq<char>, i32)> {
    s.map_values(|e: TopicPartition| e@)
}

pub open spec fn entries_view(s: Seq<PartitionOffset>) -> Seq<OffsetEntry> {
    s.map_values(|e: PartitionOffset| e@)
}

/// Partitions `0..=max` of the topic `name`.
pub open spec fn partition_range(name: Seq<char>, max: int) -> Seq<(Seq<char>, i32)> {
    if max < 0 {
        seq![]
    } else {
        Seq::new((max + 1) as nat, |i: int| (name, i as i32))
    }
}

/// Every partition to query for `topics`: ids `0` up to the largest id seen, topic by topic;
/// a topic without partitions adds nothing.
pub open spec fn partition_set_of(topics: Seq<Topic>) -> Seq<(Seq<char>, i32)>
    decreases topics.len(),
{
    if topics.len() == 0 {
        seq![]
    } else {
        let t = topics.last();
        let rest = partition_set_of(topics.drop_last());
        if t.partitions@.len() == 0 {
            rest
        } else {
            rest + partition_range(t.name@, max_partition_id(t.partitions@))
        }
    }
}

/// The partitions that one batched offset query covers for `topics`.
pub fn partition_set(topics: &Vec<Topic>) -> (r: Vec<TopicPartition>)
    ensures
        partitions_view(r@) == partition_set_of(topics@),
{
    let mut r: Vec<TopicPartition> = Vec::new();
    let mut i: usize = 0;
    while i < topics.len()
        invariant
            0 <= i <= topics@.len(),
            partitions_view(r@) == partition_set_of(topics@.take(i as int)),
        decreases topics@.len() - i,
    {
        let topic = &topics[i];
        assert(topics@.take(i as int + 1).drop_last() == topics@.take(i as int));
        if topic.partitions.len() > 0 {
            let max = max_partition(topic);
            let ghost before = partitions_view(r@);
            let mut k: i64 = 0;
            while k <= max as i64
                invariant
                    0 <= k,
                    k <= max as i64 + 1 || k == 0,
                    partitions_view(r@) == before + partition_range(topic.name@, k - 1),
                decreases max as i64 + 1 - k,
            {
                let ghost prev = r@;
                r.push(TopicPartition { topic: topic.name.clone(), partition: k as i32 });
                assert(r@ == prev.push(TopicPartition { topic: topic.name, partition: k as i32 }));
                assert(partitions_view(r@) =~= partitions_view(prev).push((topic.name@, k as i32)));
                assert(partition_range(topic.name@, k as int) =~= partition_range(
                    topic.name@,
                    k - 1,
                ).push((topic.name@, k as i32)));
                assert(partitions_view(r@) =~= before + partition_range(topic.name@, k as int));
                k += 1;
            }
            assert(partitions_view(r@) =~= before + partition_range(
                topic.name@,
                max_partition_id(topic.partitions@),
            ));
        }
        i += 1;
    }
    assert(topics@.take(topics@.len() as int) == topics@);
    r
}

/// Whether a partition was left without an offset.
pub open spec fn has_unresolved(listed: Seq<OffsetEntry>) -> bool {
    exists|i: int| 0 <= i < listed.len() && (#[trigger] listed[i]).offset is None
}

/// A second query is made only for a timestamp that missed on some partition.
pub open spec fn needs_fallback_of(request: OffsetRequest, listed: Seq<OffsetEntry>) -> bool {
    request.is_timestamp() && has_unresolved(listed)
}

/// Whether the answers to `request` call for a query of the fallback position.
pub fn needs_fallback(request: &OffsetRequest, listed: &Vec<PartitionOffset>) -> (r: bool)
    ensures
        r == needs_fallback_of(*request, entries_view(listed@)),
{
    let timestamp = match request {
        OffsetRequest::Timestamp(_) => true,
        _ => false,
    };
    if !timestamp {
        return false;
    }
    let mut i: usize = 0;
    while i < listed.len()
        invariant
            0 <= i <= listed@.len(),
            request.is_timestamp(),
            forall|j: int| 0 <= j < i ==> (#[trigger] listed@[j]).offset is Some,
        decreases listed@.len() - i,
    {
        if listed[i].offset.is_none() {
            assert(entries_view(listed@)[i as int].offset is None);
            return true;
        }
        i += 1;
    }
    assert forall|j: int| 0 <= j < listed@.len() implies (#[trigger] entries_view(
        listed@,
    )[j]).offset is Some by {
        assert(listed@[j].offset is Some);
    }
    false
}

/// The offset of the first entry for partition `partition` of `topic`; `None` if there is
/// none.
pub open spec fn offset_in(listed: Seq<OffsetEntry>, topic: Seq<char>, partition: i32) -> Option<
    i64,
>
    decreases listed.len(),
{
    if listed.len() == 0 {
        None
    } else if listed[0].topic == topic && listed[0].partition == partition {
        listed[0].offset
    } else {
        offset_in(listed.drop_first(), topic, partition)
    }
}

/// The primary answers, with each partition that had none taking the fallback answer for
/// the same partition.
pub open spec fn spliced(listed: Seq<OffsetEntry>, fallback: Seq<OffsetEntry>) -> Seq<OffsetEntry> {
    listed.map_values(
        |e: OffsetEntry|
            if e.offset is None {
                OffsetEntry {
                    topic: e.topic,
                    partition: e.partition,
                    offset: offset_in(fallback, e.topic, e.partition),
                }
            } else {
                e
            },
    )
}

/// The fallback answer for one partition.
fn fallback_offset(fallback: &Vec<PartitionOffset>, topic: &String, partition: i32) -> (r: Option<
    i64,
>)
    ensures
        r == offset_in(entries_view(fallback@), topic@, partition),
{
    let mut i: usize = 0;
    assert(entries_view(fallback@).subrange(0, fallback@.len() as int) =~= entries_view(
        fallback@,
    ));
    while i < fallback.len()
        invariant
            0 <= i <= fallback@.len(),
            offset_in(entries_view(fallback@), topic@, partition) == offset_in(
                entries_view(fallback@).subrange(i as int, fallback@.len() as int),
                topic@,
                partition,
            ),
        decreases fallback@.len() - i,
    {
        let ghost rest = entries_view(fallback@).subrange(i as int, fallback@.len() as int);
        assert(rest.drop_first() =~= entries_view(fallback@).subrange(
            i as int + 1,
            fallback@.len() as int,
        ));
        if fallback[i].topic == *topic && fallback[i].partition == partition {
            return fallback[i].offset;
        }
        i += 1;
    }
    None
}

/// Keeps every offset the primary query found and fills in each missing one from the
/// fallback answers.
pub fn apply_fallback(listed: &Vec<PartitionOffset>, fallback: &Vec<PartitionOffset>) -> (r: Vec<
    PartitionOffset,
>)
    ensures
        entries_view(r@) == spliced(entries_view(listed@), entries_view(fallback@)),
{
    let mut r: Vec<PartitionOffset> = Vec::new();
    let mut i: usize = 0;
    while i < listed.len()
        invariant
            0 <= i <= listed@.len(),
            entries_view(r@) == spliced(entries_view(listed@), entries_view(fallback@)).take(
                i as int,
            ),
        decreases listed@.len() - i,
    {
        let e = &listed[i];
        let offset = if e.offset.is_none() {
            fallback_offset(fallback, &e.topic, e.partition)
        } else {
            e.offset
        };
        let ghost prev = r@;
        r.push(PartitionOffset { topic: e.topic.clone(), partition: e.partition, offset });
        assert(entries_view(r@) =~= entries_view(prev).push(r@.last()@));
        assert(entries_view(r@) =~= spliced(entries_view(listed@), entries_view(fallback@)).take(
            i as int + 1,
        ));
        i += 1;
    }
    assert(entries_view(r@) =~= spliced(entries_view(listed@), entries_view(fallback@)));
    r
}

/// The offsets of one topic, as `(partition, offset)` pairs.
#[derive(Clone, Debug)]
pub struct TopicPartitionOffset {
    pub topic: String,
    pub offsets: Vec<(i32, i64)>,
}

impl View for TopicPartitionOffset {
    type V = (Seq<char>, Seq<(i32, i64)>);

    open spec fn view(&self) -> (Seq<char>, Seq<(i32, i64)>) {
        (self.topic@, self.offsets@)
    }
}

pub open spec fn groups_view(s: Seq<TopicPartitionOffset>) -> Seq<(Seq<char>, Seq<(i32, i64)>)> {
    s.map_values(|g: TopicPartitionOffset| g@)
}

/// The index of the first group of `topic`, or -1.
pub open spec fn group_index(groups: Seq<(Seq<char>, Seq<(i32, i64)>)>, topic: Seq<char>) -> int
    decreases groups.len(),
{
    if groups.len() == 0 {
        -1
    } else {
        let earlier = group_index(groups.drop_last(), topic);
        if earlier >= 0 {
            earlier
        } else if groups.last().0 == topic {
            groups.len() - 1
        } else {
            -1
        }
    }
}

/// Files one answer under its topic: appended to the topic's group, or as a new group at
/// the end; an answer without an offset is dropped.
pub open spec fn add_to_groups(groups: Seq<(Seq<char>, Seq<(i32, i64)>)>, e: OffsetEntry) -> Seq<
    (Seq<char>, Seq<(i32, i64)>),
> {
    match e.offset {
        None => groups,
        Some(o) => {
            let j = group_index(groups, e.topic);
            if j < 0 {
                groups.push((e.topic, seq![(e.partition, o)]))
            } else {
                groups.update(j, (groups[j].0, groups[j].1.push((e.partition, o))))
            }
        },
    }
}

/// The resolved answers grouped by topic: topics in the order they first appear, and each
/// topic's pairs in the order of the answers.
pub open spec fn grouped(listed: Seq<OffsetEntry>) -> Seq<(Seq<char>, Seq<(i32, i64)>)>
    decreases listed.len(),
{
    if listed.len() == 0 {
        seq![]
    } else {
        add_to_groups(grouped(listed.drop_last()), listed.last())
    }
}

/// Groups a batch of answers by topic, leaving out partitions without an offset.
pub fn from_topic_partition_list_to_map(listed: &Vec<PartitionOffset>) -> (r: Vec<
    TopicPartitionOffset,
>)
    ensures
        groups_view(r@) == grouped(entries_view(listed@)),
{
    let mut r: Vec<TopicPartitionOffset> = Vec::new();
    let mut i: usize = 0;
    while i < listed.len()
        invariant
            0 <= i <= listed@.len(),
            groups_view(r@) == grouped(entries_view(listed@).take(i as int)),
        decreases listed@.len() - i,
    {
        let e = &listed[i];
        assert(entries_view(listed@).take(i as int + 1).drop_last() =~= entries_view(listed@).take(
            i as int,
        ));
        assert(entries_view(listed@).take(i as int + 1).last() == e@);
        if let Some(o) = e.offset {
            let ghost before = groups_view(r@);
            match find_group(&r, &e.topic) {
                Some(j) => {
                    let ghost old_r = r@;
                    let mut g = r.remove(j);
                    assert(g == old_r[j as int]);
                    g.offsets.push((e.partition, o));
                    r.insert(j, g);
                    assert(r@ =~= old_r.update(j as int, g));
                    assert(g@ == (before[j as int].0, before[j as int].1.push((e.partition, o))));
                    assert(add_to_groups(before, e@) == before.update(
                        j as int,
                        (before[j as int].0, before[j as int].1.push((e.partition, o))),
                    ));
                    assert(before == groups_view(old_r));
                    assert(groups_view(old_r.update(j as int, g)) =~= before.update(j as int, g@));
                    assert(groups_view(r@) == add_to_groups(before, e@));
                },
                None => {
                    let mut offsets: Vec<(i32, i64)> = Vec::new();
                    offsets.push((e.partition, o));
                    assert(offsets@ =~= seq![(e.partition, o)]);
                    let ghost old_r = r@;
                    r.push(TopicPartitionOffset { topic: e.topic.clone(), offsets });
                    assert(groups_view(r@) =~= groups_view(old_r).push((e.topic@, offsets@)));
                    assert(groups_view(r@) =~= add_to_groups(before, e@));
                },
            }
        }
        i += 1;
    }
    assert(entries_view(listed@).take(listed@.len() as int) =~= entries_view(listed@));
    r
}

/// Where the first group of `topic` stands, if there is one.
fn find_group(groups: &Vec<TopicPartitionOffset>, topic: &String) -> (r: Option<usize>)
    ensures
        r matches Some(j) ==> j < groups@.len() && group_index(groups_view(groups@), topic@) == j,
        r is None ==> group_index(groups_view(groups@), topic@) == -1,
{
    let ghost all = groups_view(groups@);
    let mut j: usize = 0;
    while j < groups.len()
        invariant
            0 <= j <= groups@.len(),
            all == groups_view(groups@),
            group_index(all.take(j as int), topic@) == -1,
        decreases groups@.len() - j,
    {
        assert(all.take(j as int + 1).drop_last() =~= all.take(j as int));
        assert(all.take(j as int + 1).last() == all[j as int]);
        if groups[j].topic == *topic {
            assert(group_index(all.take(j as int + 1), topic@) == j);
            proof {
                lemma_group_index_prefix(all, topic@, j as int + 1);
            }
            return Some(j);
        }
        j += 1;
    }
    assert(all.take(groups@.len() as int) =~= all);
    None
}

/// A topic found among the first `k` groups is found at the same place among all of them.
proof fn lemma_group_index_prefix(
    groups: Seq<(Seq<char>, Seq<(i32, i64)>)>,
    topic: Seq<char>,
    k: int,
)
    requires
        0 <= k <= groups.len(),
        group_index(groups.take(k), topic) >= 0,
    ensures
        group_index(groups, topic) == group_index(groups.take(k), topic),
    decreases groups.len() - k,
{
    if k < groups.len() {
        assert(groups.take(k + 1).drop_last() =~= groups.take(k));
        lemma_group_index_prefix(groups, topic, k + 1);
    } else {
        assert(groups.take(k) =~= groups);
    }
}

/// Every partition the metadata lists, topic by topic.
pub open spec fn listed_partitions(topics: Seq<Topic>) -> Seq<(Seq<char>, i32)>
    decreases topics.len(),
{
    if topics.len() == 0 {
        seq![]
    } else {
        let t = topics.last();
        listed_partitions(topics.drop_last()) + t.partitions@.map_values(
            |p: Partition| (t.name@, p.id),
        )
    }
}

/// The partitions whose committed offsets a group report asks for: all that the metadata
/// lists.
pub fn all_partitions(metadata: &ClusterMetadata) -> (r: Vec<TopicPartition>)
    ensures
        partitions_view(r@) == listed_partitions(metadata.topics@),
{
    let topics = &metadata.topics;
    let mut r: Vec<TopicPartition> = Vec::new();
    let mut i: usize = 0;
    while i < topics.len()
        invariant
            0 <= i <= topics@.len(),
            partitions_view(r@) == listed_partitions(topics@.take(i as int)),
        decreases topics@.len() - i,
    {
        let topic = &topics[i];
        assert(topics@.take(i as int + 1).drop_last() =~= topics@.take(i as int));
        let ghost before = partitions_view(r@);
        let ghost ids = topic.partitions@.map_values(
            |p: Partition| (topic.name@, p.id),
        );
        let mut k: usize = 0;
        while k < topic.partitions.len()
            invariant
                0 <= k <= topic.partitions@.len(),
                ids == topic.partitions@.map_values(
                    |p: Partition| (topic.name@, p.id),
                ),
                partitions_view(r@) == before + ids.take(k as int),
            decreases topic.partitions@.len() - k,
        {
            let ghost prev = r@;
            r.push(TopicPartition { topic: topic.name.clone(), partition: topic.partitions[k].id });
            assert(partitions_view(r@) =~= partitions_view(prev).push(ids[k as int]));
            assert(before + ids.take(k as int + 1) =~= (before + ids.take(k as int)).push(
                ids[k as int],
            ));
            k += 1;
        }
        assert(ids.take(k as int) =~= ids);
        i += 1;
    }
    assert(topics@.take(topics@.len() as int) =~= topics@);
    r
}

/// The partitions that have an offset, in order.
pub open spec fn resolved_partitions(listed: Seq<OffsetEntry>) -> Seq<(Seq<char>, i32)>
    decreases listed.len(),
{
    if listed.len() == 0 {
        seq![]
    } else {
        let rest = resolved_partitions(listed.drop_last());
        let e = listed.last();
        if e.offset is Some {
            rest.push((e.topic, e.partition))
        } else {
            rest
        }
    }
}

/// The partitions a group has committed offsets for: the ones whose start and end a group
/// report resolves.
pub fn committed_set(committed: &Vec<PartitionOffset>) -> (r: Vec<TopicPartition>)
    ensures
        partitions_view(r@) == resolved_partitions(entries_view(committed@)),
{
    let mut r: Vec<TopicPartition> = Vec::new();
    let mut i: usize = 0;
    while i < committed.len()
        invariant
            0 <= i <= committed@.len(),
            partitions_view(r@) == resolved_partitions(entries_view(committed@).take(i as int)),
        decreases committed@.len() - i,
    {
        let e = &committed[i];
        assert(entries_view(committed@).take(i as int + 1).drop_last() =~= entries_view(
            committed@,
        ).take(i as int));
        assert(entries_view(committed@).take(i as int + 1).last() == e@);
        if e.offset.is_some() {
            let ghost prev = r@;
            r.push(TopicPartition { topic: e.topic.clone(), partition: e.partition });
            assert(partitions_view(r@) =~= partitions_view(prev).push((e.topic@, e.partition)));
        }
        i += 1;
    }
    assert(entries_view(committed@).take(committed@.len() as int) =~= entries_view(committed@));
    r
}

} // verus!
