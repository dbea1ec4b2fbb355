//! A model of the broker's logs and of what its offset query answers, and the laws that
//! resolution obeys over it.
use vstd::prelude::*;
use crate::offsets::OffsetRequest;
use crate::resolver::{needs_fallback_of, offset_in, spliced, OffsetEntry};

verus! {

/// A partition's log: records at offsets `start..end`, the record at offset `o` stamped
/// `stamps[o - start]` (milliseconds since the epoch).
pub struct LogView {
    pub start: int,
    pub end: int,
    pub stamps: Seq<int>,
}

pub open spec fn log_wf(l: LogView) -> bool {
    &&& 0 <= l.start <= l.end <= i64::MAX
    &&& l.stamps.len() == l.end - l.start
}

/// The index of the first stamp at or after `ts`, if any.
pub open spec fn first_stamp_from(stamps: Seq<int>, ts: int) -> Option<int>
    decreases stamps.len(),
{
    if stamps.len() == 0 {
        None
    } else if stamps[0] >= ts {
        Some(0)
    } else {
        match first_stamp_from(stamps.drop_first(), ts) {
            Some(i) => Some(i + 1),
            None => None,
        }
    }
}

/// The broker's answer for one partition: the first offset, the end of the log, the first
/// record at or after a timestamp (none if every record is older), or `n` records before the
/// end, kept within the log.
pub open spec fn answer(l: LogView, request: OffsetRequest) -> Option<int> {
    match request {
        OffsetRequest::Beginning => Some(l.start),
        OffsetRequest::End => Some(l.end),
        OffsetRequest::Timestamp(ts) => match first_stamp_from(l.stamps, ts as int) {
            Some(i) => Some(l.start + i),
            None => None,
        },
        OffsetRequest::Tail(n) => Some(
            if l.end - n < l.start {
                l.start
            } else if l.end - n > l.end {
                l.end
            } else {
                l.end - n
            },
        ),
    }
}

pub open spec fn as_offset(o: Option<int>) -> Option<i64> {
    match o {
        Some(v) => Some(v as i64),
        None => None,
    }
}

/// The answers of one batched query for the partitions `set`, in the same order.
pub open spec fn listing(
    logs: spec_fn(Seq<char>, i32) -> LogView,
    set: Seq<(Seq<char>, i32)>,
    request: OffsetRequest,
) -> Seq<OffsetEntry> {
    set.map_values(
        |k: (Seq<char>, i32)|
            OffsetEntry {
                topic: k.0,
                partition: k.1,
                offset: as_offset(answer(logs(k.0, k.1), request)),
            },
    )
}

/// What resolution yields: the primary answers, spliced with the fallback answers where a
/// timestamp missed.
pub open spec fn resolution(
    logs: spec_fn(Seq<char>, i32) -> LogView,
    set: Seq<(Seq<char>, i32)>,
    primary: OffsetRequest,
    fallback: OffsetRequest,
) -> Seq<OffsetEntry> {
    let listed = listing(logs, set, primary);
    if needs_fallback_of(primary, listed) {
        spliced(listed, listing(logs, set, fallback))
    } else {
        listed
    }
}

pub open spec fn logs_wf(logs: spec_fn(Seq<char>, i32) -> LogView, set: Seq<(Seq<char>, i32)>) -> bool {
    forall|i: int| 0 <= i < set.len() ==> log_wf(#[trigger] logs(set[i].0, set[i].1))
}

/// Resolving to the beginning never lands after resolving to the end, partition by
/// partition; both always resolve.
pub proof fn lemma_beginning_not_after_end(
    logs: spec_fn(Seq<char>, i32) -> LogView,
    set: Seq<(Seq<char>, i32)>,
    fallback: OffsetRequest,
)
    requires
        logs_wf(logs, set),
    ensures
        resolution(logs, set, OffsetRequest::Beginning, fallback).len() == set.len(),
        resolution(logs, set, OffsetRequest::End, fallback).len() == set.len(),
        forall|i: int|
            0 <= i < set.len() ==> {
                let b = #[trigger] resolution(logs, set, OffsetRequest::Beginning, fallback)[i];
                let e = resolution(logs, set, OffsetRequest::End, fallback)[i];
                &&& b.offset is Some
                &&& e.offset is Some
                &&& b.offset.unwrap() <= e.offset.unwrap()
            },
{
    assert forall|i: int| 0 <= i < set.len() implies {
        let b = #[trigger] resolution(logs, set, OffsetRequest::Beginning, fallback)[i];
        let e = resolution(logs, set, OffsetRequest::End, fallback)[i];
        &&& b.offset is Some
        &&& e.offset is Some
        &&& b.offset.unwrap() <= e.offset.unwrap()
    } by {
        assert(log_wf(logs(set[i].0, set[i].1)));
    }
}

/// Resolving twice against logs that took no writes in between gives the same offsets.
pub proof fn lemma_resolution_repeatable(
    before: spec_fn(Seq<char>, i32) -> LogView,
    after: spec_fn(Seq<char>, i32) -> LogView,
    set: Seq<(Seq<char>, i32)>,
    primary: OffsetRequest,
    fallback: OffsetRequest,
)
    requires
        forall|i: int|
            0 <= i < set.len() ==> #[trigger] before(set[i].0, set[i].1) == after(
                set[i].0,
                set[i].1,
            ),
    ensures
        resolution(before, set, primary, fallback) == resolution(after, set, primary, fallback),
{
    assert(listing(before, set, primary) =~= listing(after, set, primary));
    assert(listing(before, set, fallback) =~= listing(after, set, fallback));
}

/// In a listing, the first entry for a partition of the set carries that partition's answer.
proof fn lemma_offset_in_listing(
    logs: spec_fn(Seq<char>, i32) -> LogView,
    set: Seq<(Seq<char>, i32)>,
    request: OffsetRequest,
    i: int,
)
    requires
        0 <= i < set.len(),
    ensures
        offset_in(listing(logs, set, request), set[i].0, set[i].1) == as_offset(
            answer(logs(set[i].0, set[i].1), request),
        ),
    decreases set.len(),
{
    let l = listing(logs, set, request);
    if set[0].0 == set[i].0 && set[0].1 == set[i].1 {
    } else {
        assert(l.drop_first() =~= listing(logs, set.drop_first(), request));
        assert(set.drop_first()[i - 1] == set[i]);
        lemma_offset_in_listing(logs, set.drop_first(), request, i - 1);
    }
}

/// A timestamp that finds no record in a partition lands that partition at the end of its
/// log; every other partition keeps the offset the timestamp found.
pub proof fn lemma_timestamp_fallback(
    logs: spec_fn(Seq<char>, i32) -> LogView,
    set: Seq<(Seq<char>, i32)>,
    ts: i64,
)
    requires
        logs_wf(logs, set),
    ensures
        resolution(logs, set, OffsetRequest::Timestamp(ts), OffsetRequest::End).len()
            == set.len(),
        forall|i: int|
            0 <= i < set.len() ==> {
                let l = logs(set[i].0, set[i].1);
                let r = #[trigger] resolution(
                    logs,
                    set,
                    OffsetRequest::Timestamp(ts),
                    OffsetRequest::End,
                )[i];
                &&& r.topic == set[i].0
                &&& r.partition == set[i].1
                &&& first_stamp_from(l.stamps, ts as int) is None ==> r.offset == Some(
                    l.end as i64,
                )
                &&& first_stamp_from(l.stamps, ts as int) matches Some(k) ==> r.offset == Some(
                    (l.start + k) as i64,
                )
            },
{
    let primary = OffsetRequest::Timestamp(ts);
    assert forall|i: int| 0 <= i < set.len() implies {
        let l = logs(set[i].0, set[i].1);
        let r = #[trigger] resolution(logs, set, primary, OffsetRequest::End)[i];
        &&& r.topic == set[i].0
        &&& r.partition == set[i].1
        &&& first_stamp_from(l.stamps, ts as int) is None ==> r.offset == Some(l.end as i64)
        &&& first_stamp_from(l.stamps, ts as int) matches Some(k) ==> r.offset == Some(
            (l.start + k) as i64,
        )
    } by {
        lemma_offset_in_listing(logs, set, OffsetRequest::End, i);
        let listed = listing(logs, set, primary);
        if first_stamp_from(logs(set[i].0, set[i].1).stamps, ts as int) is None {
            assert(listed[i].offset is None);
            assert(needs_fallback_of(primary, listed));
        }
    }
}

} // verus!
