//! The lag report of a consumer group: committed offsets joined with the start and the end
//! of each partition's log.
use vstd::prelude::*;
use itertools::Itertools;
use crate::broker::LogView;
use crate::resolver::{groups_view, TopicPartitionOffset};

verus! {

/// The offsets of one partition as seen by a consumer group; `-1` stands for a start or end
/// the broker did not give.
#[derive(Clone, Copy, Debug, PartialEq, Eq, Structural)]
pub struct ConsumerGroupPartitionOffsets {
    pub partition: i32,
    pub start_offset: i64,
    pub end_offset: i64,
    pub current_offset: i64,
}

/// The offsets of one topic's partitions, by ascending partition id.
#[derive(Clone, Debug)]
pub struct ConsumerGroupOffsetDescription {
    pub topic: String,
    pub partitions: Vec<ConsumerGroupPartitionOffsets>,
}

/// The offset that stands for a start or end the broker did not give.
pub const UNKNOWN_OFFSET: i64 = -1;

impl ConsumerGroupPartitionOffsets {
    /// How far the group trails the end of the log.
    pub fn lag(self) -> (r: i64)
        requires
            i64::MIN <= self.end_offset - self.current_offset <= i64::MAX,
        ensures
            r == self.end_offset - self.current_offset,
    {
        self.end_offset - self.current_offset
    }
}

/// The pairs of the first group of `topic`; none if there is no such group.
pub open spec fn topic_pairs(groups: Seq<(Seq<char>, Seq<(i32, i64)>)>, topic: Seq<char>) -> Seq<
    (i32, i64),
>
    decreases groups.len(),
{
    if groups.len() == 0 {
        seq![]
    } else if groups[0].0 == topic {
        groups[0].1
    } else {
        topic_pairs(groups.drop_first(), topic)
    }
}

/// The offset of the first pair for `partition`, or `-1` if there is none.
pub open spec fn offset_or_unknown(pairs: Seq<(i32, i64)>, partition: i32) -> i64
    decreases pairs.len(),
{
    if pairs.len() == 0 {
        UNKNOWN_OFFSET
    } else if pairs[0].0 == partition {
        pairs[0].1
    } else {
        offset_or_unknown(pairs.drop_first(), partition)
    }
}

pub open spec fn sorted_by_partition(s: Seq<(i32, i64)>) -> bool {
    forall|i: int, j: int| 0 <= i < j < s.len() ==> s[i].0 <= s[j].0
}

/// The `(partition, current offset)` pairs of a list of partition offsets.
pub open spec fn current_pairs(s: Seq<ConsumerGroupPartitionOffsets>) -> Seq<(i32, i64)> {
    s.map_values(|p: ConsumerGroupPartitionOffsets| (p.partition, p.current_offset))
}

/// `d` describes the committed pairs `current` of `topic`: the same pairs by ascending
/// partition, each with the start and end that `starts` and `ends` hold for its partition.
pub open spec fn describes(
    d: ConsumerGroupOffsetDescription,
    topic: Seq<char>,
    current: Seq<(i32, i64)>,
    starts: Seq<(i32, i64)>,
    ends: Seq<(i32, i64)>,
) -> bool {
    &&& d.topic@ == topic
    &&& current_pairs(d.partitions@).to_multiset() == current.to_multiset()
    &&& sorted_by_partition(current_pairs(d.partitions@))
    &&& forall|k: int|
        0 <= k < d.partitions@.len() ==> {
            let p = #[trigger] d.partitions@[k];
            &&& p.start_offset == offset_or_unknown(starts, p.partition)
            &&& p.end_offset == offset_or_unknown(ends, p.partition)
        }
}

/// Relies on `itertools::Itertools::sorted_by_key`: the same pairs, ordered by partition id.
#[verifier::external_body]
fn sort_by_partition(pairs: Vec<(i32, i64)>) -> (r: Vec<(i32, i64)>)
    ensures
        r@.to_multiset() == pairs@.to_multiset(),
        sorted_by_partition(r@),
{
    pairs.into_iter().sorted_by_key(|p| p.0).collect()
}

pub(crate) fn topic_offsets(groups: &Vec<TopicPartitionOffset>, topic: &String) -> (r: Vec<(i32, i64)>)
    ensures
        r@ == topic_pairs(groups_view(groups@), topic@),
{
    let mut i: usize = 0;
    assert(groups_view(groups@).subrange(0, groups@.len() as int) =~= groups_view(groups@));
    while i < groups.len()
        invariant
            0 <= i <= groups@.len(),
            topic_pairs(groups_view(groups@), topic@) == topic_pairs(
                groups_view(groups@).subrange(i as int, groups@.len() as int),
                topic@,
            ),
        decreases groups@.len() - i,
    {
        assert(groups_view(groups@).subrange(i as int, groups@.len() as int).drop_first()
            =~= groups_view(groups@).subrange(i as int + 1, groups@.len() as int));
        if groups[i].topic == *topic {
            let mut r: Vec<(i32, i64)> = Vec::new();
            let mut k: usize = 0;
            while k < groups[i].offsets.len()
                invariant
                    0 <= i < groups@.len(),
                    0 <= k <= groups@[i as int].offsets@.len(),
                    r@ == groups@[i as int].offsets@.take(k as int),
                decreases groups@[i as int].offsets@.len() - k,
            {
                r.push(groups[i].offsets[k]);
                assert(r@ =~= groups@[i as int].offsets@.take(k as int + 1));
                k += 1;
            }
            assert(r@ =~= groups@[i as int].offsets@);
            return r;
        }
        i += 1;
    }
    Vec::new()
}

fn offset_or_minus_one(pairs: &Vec<(i32, i64)>, partition: i32) -> (r: i64)
    ensures
        r == offset_or_unknown(pairs@, partition),
{
    let mut i: usize = 0;
    assert(pairs@.subrange(0, pairs@.len() as int) =~= pairs@);
    while i < pairs.len()
        invariant
            0 <= i <= pairs@.len(),
            offset_or_unknown(pairs@, partition) == offset_or_unknown(
                pairs@.subrange(i as int, pairs@.len() as int),
                partition,
            ),
        decreases pairs@.len() - i,
    {
        assert(pairs@.subrange(i as int, pairs@.len() as int).drop_first() =~= pairs@.subrange(
            i as int + 1,
            pairs@.len() as int,
        ));
        if pairs[i].0 == partition {
            return pairs[i].1;
        }
        i += 1;
    }
    UNKNOWN_OFFSET
}

/// One description per topic of `current_offsets_map`, in its order: the committed pairs by
/// ascending partition, each joined with that partition's start and end.
pub fn from_offset_map_tuple_to_description_vec(
    start_offsets_map: Vec<TopicPartitionOffset>,
    end_offsets_map: Vec<TopicPartitionOffset>,
    current_offsets_map: Vec<TopicPartitionOffset>,
) -> (r: Vec<ConsumerGroupOffsetDescription>)
    ensures
        r@.len() == current_offsets_map@.len(),
        forall|i: int|
            0 <= i < r@.len() ==> describes(
                #[trigger] r@[i],
                current_offsets_map@[i].topic@,
                current_offsets_map@[i].offsets@,
                topic_pairs(groups_view(start_offsets_map@), current_offsets_map@[i].topic@),
                topic_pairs(groups_view(end_offsets_map@), current_offsets_map@[i].topic@),
            ),
{
    let mut r: Vec<ConsumerGroupOffsetDescription> = Vec::new();
    let mut i: usize = 0;
    while i < current_offsets_map.len()
        invariant
            0 <= i <= current_offsets_map@.len(),
            r@.len() == i,
            forall|j: int|
                0 <= j < i ==> describes(
                    #[trigger] r@[j],
                    current_offsets_map@[j].topic@,
                    current_offsets_map@[j].offsets@,
                    topic_pairs(groups_view(start_offsets_map@), current_offsets_map@[j].topic@),
                    topic_pairs(groups_view(end_offsets_map@), current_offsets_map@[j].topic@),
                ),
        decreases current_offsets_map@.len() - i,
    {
        let group = &current_offsets_map[i];
        let starts = topic_offsets(&start_offsets_map, &group.topic);
        let ends = topic_offsets(&end_offsets_map, &group.topic);
        let mut pairs: Vec<(i32, i64)> = Vec::new();
        let mut k: usize = 0;
        while k < group.offsets.len()
            invariant
                0 <= k <= group.offsets@.len(),
                pairs@ == group.offsets@.take(k as int),
            decreases group.offsets@.len() - k,
        {
            pairs.push(group.offsets[k]);
            assert(pairs@ =~= group.offsets@.take(k as int + 1));
            k += 1;
        }
        assert(pairs@ =~= group.offsets@);
        let sorted = sort_by_partition(pairs);
        let mut partitions: Vec<ConsumerGroupPartitionOffsets> = Vec::new();
        let mut k: usize = 0;
        while k < sorted.len()
            invariant
                0 <= k <= sorted@.len(),
                partitions@.len() == k,
                current_pairs(partitions@) == sorted@.take(k as int),
                forall|m: int|
                    0 <= m < k ==> {
                        let p = #[trigger] partitions@[m];
                        &&& p.start_offset == offset_or_unknown(starts@, p.partition)
                        &&& p.end_offset == offset_or_unknown(ends@, p.partition)
                    },
            decreases sorted@.len() - k,
        {
            let (partition, offset) = sorted[k];
            let start_offset = offset_or_minus_one(&starts, partition);
            let end_offset = offset_or_minus_one(&ends, partition);
            partitions.push(
                ConsumerGroupPartitionOffsets {
                    partition,
                    start_offset,
                    end_offset,
                    current_offset: offset,
                },
            );
            assert(current_pairs(partitions@) =~= sorted@.take(k as int + 1));
            k += 1;
        }
        assert(sorted@.take(sorted@.len() as int) =~= sorted@);
        r.push(ConsumerGroupOffsetDescription { topic: group.topic.clone(), partitions });
        i += 1;
    }
    r
}

/// A known offset for `partition` is the offset of some pair for it.
proof fn lemma_known_offset_is_listed(pairs: Seq<(i32, i64)>, partition: i32)
    ensures
        offset_or_unknown(pairs, partition) == UNKNOWN_OFFSET || exists|k: int|
            0 <= k < pairs.len() && (#[trigger] pairs[k]).0 == partition && pairs[k].1
                == offset_or_unknown(pairs, partition),
    decreases pairs.len(),
{
    if pairs.len() > 0 && pairs[0].0 != partition {
        lemma_known_offset_is_listed(pairs.drop_first(), partition);
        if offset_or_unknown(pairs, partition) != UNKNOWN_OFFSET {
            let k = choose|k: int|
                0 <= k < pairs.drop_first().len() && (#[trigger] pairs.drop_first()[k]).0
                    == partition && pairs.drop_first()[k].1 == offset_or_unknown(
                    pairs.drop_first(),
                    partition,
                );
            assert(pairs[k + 1] == pairs.drop_first()[k]);
        }
    }
}

/// Where the end offsets are the ends of the logs and no committed offset lies past the end
/// of its log, no partition whose end and committed offsets are both known lags by less than
/// zero.
pub proof fn lemma_lag_not_negative(
    logs: spec_fn(Seq<char>, i32) -> LogView,
    d: ConsumerGroupOffsetDescription,
    topic: Seq<char>,
    current: Seq<(i32, i64)>,
    starts: Seq<(i32, i64)>,
    ends: Seq<(i32, i64)>,
)
    requires
        describes(d, topic, current, starts, ends),
        forall|k: int| 0 <= k < ends.len() ==> (#[trigger] ends[k]).1 == logs(topic, ends[k].0).end,
        forall|k: int|
            0 <= k < current.len() ==> (#[trigger] current[k]).1 <= logs(topic, current[k].0).end,
    ensures
        forall|k: int|
            0 <= k < d.partitions@.len() && (#[trigger] d.partitions@[k]).end_offset
                != UNKNOWN_OFFSET && d.partitions@[k].current_offset != UNKNOWN_OFFSET
                ==> d.partitions@[k].end_offset - d.partitions@[k].current_offset >= 0,
{
    broadcast use vstd::seq_lib::group_to_multiset_ensures;

    assert forall|k: int|
        0 <= k < d.partitions@.len() && (#[trigger] d.partitions@[k]).end_offset
            != UNKNOWN_OFFSET && d.partitions@[k].current_offset
            != UNKNOWN_OFFSET implies d.partitions@[k].end_offset
        - d.partitions@[k].current_offset >= 0 by {
        let p = d.partitions@[k];
        lemma_known_offset_is_listed(ends, p.partition);
        let pair = (p.partition, p.current_offset);
        assert(current_pairs(d.partitions@)[k] == pair);
        assert(current_pairs(d.partitions@).contains(pair));
        assert(current.to_multiset().count(pair) > 0);
        assert(current.contains(pair));
        let m = choose|m: int| 0 <= m < current.len() && current[m] == pair;
        assert(current[m].1 <= logs(topic, current[m].0).end);
    }
}

} // verus!
