//! The decisions of one streaming session: which fetched messages to hand on, and when the
//! session is over.
//!
//! The session replays a topic from a resolved start. With an end bound, resolved once when
//! the session starts, a message at or past its partition's bound is not handed on, and the
//! session ends as soon as every bounded partition has been read up to its bound. Without a
//! bound it runs until it is cancelled.
use vstd::prelude::*;
use std::collections::HashMap;
use crate::lag::{topic_offsets, topic_pairs};
use crate::offsets::{decimal, decimal_text, fetch_label, fetch_request, FetchOffset, OffsetRequest};
use crate::resolver::{entries_view, groups_view, OffsetEntry, PartitionOffset, TopicPartitionOffset};

verus! {

/// A fetched message as the caller receives it.
#[derive(Clone, Debug)]
pub struct MessageEnvelope<K, P> {
    pub key: K,
    pub partition: i32,
    pub offset: i64,
    pub headers: HashMap<String, String>,
    pub payload: P,
    /// Milliseconds since the epoch.
    pub timestamp: i64,
}

/// What a running session learns.
#[derive(Clone, Copy, Debug, PartialEq, Eq, Structural)]
pub enum StreamEvent {
    /// The message at `offset` of `partition` was fetched.
    Message { partition: i32, offset: i64 },
    /// The caller asked the session to stop.
    Cancelled,
    /// A fetch failed; the session cannot go on.
    FetchFailed,
}

/// What the session does about an event.
#[derive(Clone, Copy, Debug, PartialEq, Eq, Structural)]
pub struct StreamStep {
    /// Hand the message on to the caller.
    pub emit: bool,
    /// Send the end-of-stream marker and leave the registry: the session is over.
    pub finish: bool,
}

/// The state of a session: the next offset to read of each partition, the end bounds if
/// there are any, and whether the session is over.
pub struct StreamSession {
    current: Vec<(i32, i64)>,
    end: Option<Vec<(i32, i64)>>,
    finished: bool,
}

pub struct SessionView {
    pub current: Seq<(i32, i64)>,
    pub end: Option<Seq<(i32, i64)>>,
    pub finished: bool,
}

impl View for StreamSession {
    type V = SessionView;

    closed spec fn view(&self) -> SessionView {
        SessionView {
            current: self.current@,
            end: match self.end {
                Some(e) => Some(e@),
                None => None,
            },
            finished: self.finished,
        }
    }
}

/// The offset of the first pair for `partition`, or 0 if there is none.
pub open spec fn offset_or_zero(pairs: Seq<(i32, i64)>, partition: i32) -> int
    decreases pairs.len(),
{
    if pairs.len() == 0 {
        0
    } else if pairs[0].0 == partition {
        pairs[0].1 as int
    } else {
        offset_or_zero(pairs.drop_first(), partition)
    }
}

/// Every pair of `partition` set to `next`; other pairs, and untracked partitions, are left
/// alone.
pub open spec fn advance(current: Seq<(i32, i64)>, partition: i32, next: i64) -> Seq<(i32, i64)> {
    current.map_values(
        |e: (i32, i64)|
            if e.0 == partition {
                (partition, next)
            } else {
                e
            },
    )
}

/// Whether a message lies at or past its partition's end bound.
pub open spec fn past_end(end: Option<Seq<(i32, i64)>>, partition: i32, offset: i64) -> bool {
    end matches Some(e) && offset >= offset_or_zero(e, partition)
}

/// Whether every bounded partition has been read up to its bound.
pub open spec fn drained(current: Seq<(i32, i64)>, end: Seq<(i32, i64)>) -> bool {
    forall|k: int| 0 <= k < end.len() ==> offset_or_zero(current, (#[trigger] end[k]).0) >= end[k].1
}

/// The session after the message at `offset` of `partition`, and what it does about it.
pub open spec fn after_message(s: SessionView, partition: i32, offset: i64) -> (
    SessionView,
    StreamStep,
) {
    let current = advance(s.current, partition, (offset + 1) as i64);
    let finish = s.end matches Some(e) && drained(current, e);
    (
        SessionView { current, end: s.end, finished: finish },
        StreamStep { emit: !past_end(s.end, partition, offset), finish },
    )
}

impl StreamSession {
    /// A session that starts from `current` and, if `end` is given, stops at those bounds.
    pub fn new(current: Vec<(i32, i64)>, end: Option<Vec<(i32, i64)>>) -> (r: Self)
        ensures
            r@.current == current@,
            r@.end == (match end {
                Some(e) => Some(e@),
                None => None::<Seq<(i32, i64)>>,
            }),
            !r@.finished,
    {
        StreamSession { current, end, finished: false }
    }

    pub fn is_finished(&self) -> (r: bool)
        ensures
            r == self@.finished,
    {
        self.finished
    }

    /// The next offset to read of each tracked partition.
    pub fn current_offsets(&self) -> (r: &Vec<(i32, i64)>)
        ensures
            r@ == self@.current,
    {
        &self.current
    }

    fn bound_of(end: &Vec<(i32, i64)>, partition: i32) -> (r: i64)
        ensures
            r as int == offset_or_zero(end@, partition),
    {
        let mut i: usize = 0;
        assert(end@.subrange(0, end@.len() as int) =~= end@);
        while i < end.len()
            invariant
                0 <= i <= end@.len(),
                offset_or_zero(end@, partition) == offset_or_zero(
                    end@.subrange(i as int, end@.len() as int),
                    partition,
                ),
            decreases end@.len() - i,
        {
            assert(end@.subrange(i as int, end@.len() as int).drop_first() =~= end@.subrange(
                i as int + 1,
                end@.len() as int,
            ));
            if end[i].0 == partition {
                return end[i].1;
            }
            i += 1;
        }
        0
    }

    /// Whether every partition of `end` has been read up to its bound.
    fn all_drained(current: &Vec<(i32, i64)>, end: &Vec<(i32, i64)>) -> (r: bool)
        ensures
            r == drained(current@, end@),
    {
        let mut k: usize = 0;
        while k < end.len()
            invariant
                0 <= k <= end@.len(),
                forall|m: int|
                    0 <= m < k ==> offset_or_zero(current@, (#[trigger] end@[m]).0) >= end@[m].1,
            decreases end@.len() - k,
        {
            let reached = Self::bound_of(current, end[k].0);
            if reached < end[k].1 {
                return false;
            }
            k += 1;
        }
        true
    }

    /// Moves the session on by one event.
    ///
    /// A message is handed on unless it lies at or past its partition's bound; either way its
    /// partition's next offset becomes `offset + 1`, and the session is over once every
    /// bounded partition has been read up to its bound. A cancellation or a failed fetch ends
    /// the session at once.
    pub fn on_event(&mut self, event: StreamEvent) -> (r: StreamStep)
        requires
            !old(self)@.finished,
            event matches StreamEvent::Message { offset, .. } ==> offset < i64::MAX,
        ensures
            match event {
                StreamEvent::Message { partition, offset } => (final(self)@, r) == after_message(
                    old(self)@,
                    partition,
                    offset,
                ),
                _ => r == (StreamStep { emit: false, finish: true }) && final(self)@
                    == (SessionView { finished: true, ..old(self)@ }),
            },
    {
        match event {
            StreamEvent::Message { partition, offset } => {
                let past = match &self.end {
                    Some(e) => offset >= Self::bound_of(e, partition),
                    None => false,
                };
                let ghost before = self.current@;
                let ghost end_before = self.end;
                let mut i: usize = 0;
                while i < self.current.len()
                    invariant
                        0 <= i <= self.current@.len(),
                        self.end == end_before,
                        self.current@.len() == before.len(),
                        offset < i64::MAX,
                        forall|m: int|
                            0 <= m < self.current@.len() ==> #[trigger] self.current@[m] == (if m
                                < i {
                                advance(before, partition, (offset + 1) as i64)[m]
                            } else {
                                before[m]
                            }),
                    decreases self.current@.len() - i,
                {
                    if self.current[i].0 == partition {
                        self.current.set(i, (partition, offset + 1));
                    }
                    i += 1;
                }
                assert(self.current@ =~= advance(before, partition, (offset + 1) as i64));
                let finish = match &self.end {
                    Some(e) => Self::all_drained(&self.current, e),
                    None => false,
                };
                self.finished = finish;
                StreamStep { emit: !past, finish }
            },
            _ => {
                self.finished = true;
                StreamStep { emit: false, finish: true }
            },
        }
    }
}

/// The bound of each partition of an end resolution; a partition without an offset is bound
/// at 0 and so holds no data for the session.
pub open spec fn bounds_of(listed: Seq<OffsetEntry>) -> Seq<(i32, i64)> {
    listed.map_values(
        |e: OffsetEntry|
            (
                e.partition,
                match e.offset {
                    Some(o) => o,
                    None => 0,
                },
            ),
    )
}

/// The end bounds a session gets from the resolution of its end position.
pub fn end_bounds(listed: &Vec<PartitionOffset>) -> (r: Vec<(i32, i64)>)
    ensures
        r@ == bounds_of(entries_view(listed@)),
{
    let mut r: Vec<(i32, i64)> = Vec::new();
    let mut i: usize = 0;
    while i < listed.len()
        invariant
            0 <= i <= listed@.len(),
            r@ == bounds_of(entries_view(listed@)).take(i as int),
        decreases listed@.len() - i,
    {
        let bound = match listed[i].offset {
            Some(o) => o,
            None => 0,
        };
        r.push((listed[i].partition, bound));
        assert(r@ =~= bounds_of(entries_view(listed@)).take(i as int + 1));
        i += 1;
    }
    assert(bounds_of(entries_view(listed@)).take(listed@.len() as int) =~= bounds_of(
        entries_view(listed@),
    ));
    r
}

/// The position to resolve for a session's end bound: none without an end, and none for
/// an end at the beginning.
pub fn end_request(end: Option<FetchOffset>) -> (r: Option<OffsetRequest>)
    ensures
        r == (match end {
            Some(FetchOffset::Beginning) | None => None,
            Some(f) => Some(fetch_request(f)),
        }),
{
    match end {
        Some(FetchOffset::Beginning) | None => None,
        Some(f) => Some(OffsetRequest::from(f)),
    }
}

/// A session on `topic` that starts from the offsets resolved for it in `start`.
pub fn start_session(topic: &String, start: &Vec<TopicPartitionOffset>, end: Option<Vec<(i32, i64)>>) -> (r: StreamSession)
    ensures
        r@.current == topic_pairs(groups_view(start@), topic@),
        r@.end == (match end {
            Some(e) => Some(e@),
            None => None::<Seq<(i32, i64)>>,
        }),
        !r@.finished,
{
    let current = topic_offsets(start, topic);
    StreamSession::new(current, end)
}

pub open spec fn session_id_text(now_millis: u64, topic: Seq<char>, start: FetchOffset) -> Seq<
    char,
> {
    "consumer_"@ + decimal_text(now_millis as int) + "/"@ + topic + "/"@ + fetch_label(start)
}

/// The identifier of a session started at `now_millis` on `topic` from `start`; it also names
/// the session's event channel.
pub fn session_id(now_millis: u64, topic: &String, start: &FetchOffset) -> (r: String)
    ensures
        r@ == session_id_text(now_millis, topic@, *start),
{
    let mut s = String::from_str("consumer_");
    let millis = decimal(now_millis as i128);
    s.append(millis.as_str());
    s.append("/");
    s.append(topic.as_str());
    s.append("/");
    let label = start.label();
    s.append(label.as_str());
    s
}

/// How many of `msgs` a session hands on, and whether it is over after them. A session
/// that is over reads nothing more.
pub open spec fn run(s: SessionView, msgs: Seq<(i32, i64)>) -> (nat, bool)
    decreases msgs.len(),
{
    if msgs.len() == 0 || s.finished {
        (0, s.finished)
    } else {
        let stepped = after_message(s, msgs[0].0, msgs[0].1);
        let rest = run(stepped.0, msgs.drop_first());
        ((if stepped.1.emit {
            1nat
        } else {
            0nat
        }) + rest.0, rest.1)
    }
}

/// The messages between the session's position and its bounds, over the bounded partitions.
pub open spec fn unread(current: Seq<(i32, i64)>, end: Seq<(i32, i64)>) -> int
    decreases end.len(),
{
    if end.len() == 0 {
        0
    } else {
        let gap = end[0].1 - offset_or_zero(current, end[0].0);
        (if gap > 0 {
            gap
        } else {
            0
        }) + unread(current, end.drop_first())
    }
}

/// The messages a session from `current` to the bounds `end` would replay: the sum over the
/// bounded partitions of bound minus start.
pub open spec fn span(current: Seq<(i32, i64)>, end: Seq<(i32, i64)>) -> int
    decreases end.len(),
{
    if end.len() == 0 {
        0
    } else {
        end[0].1 - offset_or_zero(current, end[0].0) + span(current, end.drop_first())
    }
}

pub open spec fn tracks(pairs: Seq<(i32, i64)>, partition: i32) -> bool {
    exists|i: int| 0 <= i < pairs.len() && (#[trigger] pairs[i]).0 == partition
}

/// Fetched messages come in order: within a partition offsets grow, none lies before the
/// session's position, and none is negative or the largest `i64`.
pub open spec fn in_order(current: Seq<(i32, i64)>, msgs: Seq<(i32, i64)>) -> bool {
    &&& forall|i: int|
        0 <= i < msgs.len() ==> 0 <= (#[trigger] msgs[i]).1 < i64::MAX && msgs[i].1
            >= offset_or_zero(current, msgs[i].0)
    &&& forall|i: int, j: int|
        0 <= i < j < msgs.len() && (#[trigger] msgs[i]).0 == (#[trigger] msgs[j]).0 ==> msgs[i].1
            < msgs[j].1
}

proof fn lemma_advance_lookup(current: Seq<(i32, i64)>, partition: i32, next: i64, q: i32)
    ensures
        offset_or_zero(advance(current, partition, next), q) == if q == partition && tracks(
            current,
            partition,
        ) {
            next as int
        } else {
            offset_or_zero(current, q)
        },
    decreases current.len(),
{
    if current.len() > 0 {
        let rest = current.drop_first();
        assert(advance(current, partition, next).drop_first() =~= advance(rest, partition, next));
        lemma_advance_lookup(rest, partition, next, q);
        if current[0].0 != q && q == partition {
            if tracks(current, partition) {
                let i = choose|i: int| 0 <= i < current.len() && (#[trigger] current[i]).0 == partition;
                assert(rest[i - 1] == current[i]);
            }
            if tracks(rest, partition) {
                let i = choose|i: int| 0 <= i < rest.len() && (#[trigger] rest[i]).0 == partition;
                assert(current[i + 1] == rest[i]);
            }
        }
        if current[0].0 == q {
            assert(tracks(current, current[0].0));
        }
    }
}

proof fn lemma_untracked_zero(pairs: Seq<(i32, i64)>, partition: i32)
    requires
        offset_or_zero(pairs, partition) != 0,
    ensures
        tracks(pairs, partition),
    decreases pairs.len(),
{
    if pairs[0].0 != partition {
        lemma_untracked_zero(pairs.drop_first(), partition);
        let i = choose|i: int|
            0 <= i < pairs.drop_first().len() && (#[trigger] pairs.drop_first()[i]).0 == partition;
        assert(pairs[i + 1] == pairs.drop_first()[i]);
    } else {
        assert(pairs[0].0 == partition);
    }
}

proof fn lemma_unread_nonneg(current: Seq<(i32, i64)>, end: Seq<(i32, i64)>)
    ensures
        unread(current, end) >= 0,
    decreases end.len(),
{
    if end.len() > 0 {
        lemma_unread_nonneg(current, end.drop_first());
    }
}

proof fn lemma_unread_monotone(
    current: Seq<(i32, i64)>,
    later: Seq<(i32, i64)>,
    end: Seq<(i32, i64)>,
)
    requires
        forall|q: i32| #[trigger] offset_or_zero(later, q) >= offset_or_zero(current, q),
    ensures
        unread(later, end) <= unread(current, end),
    decreases end.len(),
{
    if end.len() > 0 {
        assert(offset_or_zero(later, end[0].0) >= offset_or_zero(current, end[0].0));
        lemma_unread_monotone(current, later, end.drop_first());
    }
}

proof fn lemma_unread_decreases(
    current: Seq<(i32, i64)>,
    later: Seq<(i32, i64)>,
    end: Seq<(i32, i64)>,
    partition: i32,
)
    requires
        forall|q: i32| #[trigger] offset_or_zero(later, q) >= offset_or_zero(current, q),
        offset_or_zero(later, partition) > offset_or_zero(current, partition),
        offset_or_zero(current, partition) < offset_or_zero(end, partition),
        tracks(end, partition),
    ensures
        unread(later, end) <= unread(current, end) - 1,
    decreases end.len(),
{
    let rest = end.drop_first();
    if end[0].0 == partition {
        lemma_unread_monotone(current, later, rest);
    } else {
        let i = choose|i: int| 0 <= i < end.len() && (#[trigger] end[i]).0 == partition;
        assert(rest[i - 1] == end[i]);
        assert(offset_or_zero(later, end[0].0) >= offset_or_zero(current, end[0].0));
        lemma_unread_decreases(current, later, rest, partition);
    }
}

proof fn lemma_run_within_unread(s: SessionView, msgs: Seq<(i32, i64)>)
    requires
        s.end is Some,
        forall|k: int|
            0 <= k < s.end.unwrap().len() ==> tracks(s.current, (#[trigger] s.end.unwrap()[k]).0),
        in_order(s.current, msgs),
    ensures
        run(s, msgs).0 <= unread(s.current, s.end.unwrap()),
    decreases msgs.len(),
{
    let end = s.end.unwrap();
    lemma_unread_nonneg(s.current, end);
    if msgs.len() > 0 && !s.finished {
        let (p, o) = (msgs[0].0, msgs[0].1);
        let stepped = after_message(s, p, o);
        let next = stepped.0;
        let later = next.current;
        assert(msgs[0].1 >= offset_or_zero(s.current, msgs[0].0));
        assert forall|q: i32| #[trigger] offset_or_zero(later, q) >= offset_or_zero(
            s.current,
            q,
        ) by {
            lemma_advance_lookup(s.current, p, (o + 1) as i64, q);
        }
        if stepped.1.emit {
            assert(o < offset_or_zero(end, p));
            lemma_untracked_zero(end, p);
            let k = choose|k: int| 0 <= k < end.len() && (#[trigger] end[k]).0 == p;
            assert(tracks(s.current, end[k].0));
            lemma_advance_lookup(s.current, p, (o + 1) as i64, p);
            lemma_unread_decreases(s.current, later, end, p);
        } else {
            lemma_unread_monotone(s.current, later, end);
        }
        assert forall|k: int| 0 <= k < end.len() implies tracks(later, (#[trigger] end[k]).0) by {
            let q = end[k].0;
            let i = choose|i: int| 0 <= i < s.current.len() && (#[trigger] s.current[i]).0 == q;
            assert(later[i].0 == q);
        }
        let rest = msgs.drop_first();
        assert forall|i: int| 0 <= i < rest.len() implies 0 <= (#[trigger] rest[i]).1 < i64::MAX
            && rest[i].1 >= offset_or_zero(later, rest[i].0) by {
            assert(rest[i] == msgs[i + 1]);
            lemma_advance_lookup(s.current, p, (o + 1) as i64, rest[i].0);
            if rest[i].0 == p {
                assert(msgs[0].1 < msgs[i + 1].1);
            }
        }
        assert forall|i: int, j: int|
            0 <= i < j < rest.len() && (#[trigger] rest[i]).0 == (#[trigger] rest[j]).0 implies rest[i].1
            < rest[j].1 by {
            assert(rest[i] == msgs[i + 1]);
            assert(rest[j] == msgs[j + 1]);
        }
        lemma_run_within_unread(next, rest);
    }
}

proof fn lemma_unread_is_span(current: Seq<(i32, i64)>, end: Seq<(i32, i64)>)
    requires
        forall|k: int|
            0 <= k < end.len() ==> offset_or_zero(current, (#[trigger] end[k]).0) <= end[k].1,
    ensures
        unread(current, end) == span(current, end),
    decreases end.len(),
{
    if end.len() > 0 {
        assert(offset_or_zero(current, end[0].0) <= end[0].1);
        assert forall|k: int|
            0 <= k < end.drop_first().len() implies offset_or_zero(
            current,
            (#[trigger] end.drop_first()[k]).0,
        ) <= end.drop_first()[k].1 by {
            assert(end.drop_first()[k] == end[k + 1]);
        }
        lemma_unread_is_span(current, end.drop_first());
    }
}

/// A bounded session hands on at most as many messages as lie between its start and its
/// bounds: started at the beginning with bounds at the end of the log, at most the number of
/// messages in the topic. Fetched messages are taken to come in order, and every bounded
/// partition to be tracked from the start.
pub proof fn lemma_bounded_session(s: SessionView, msgs: Seq<(i32, i64)>)
    requires
        s.end is Some,
        forall|k: int|
            0 <= k < s.end.unwrap().len() ==> {
                let b = #[trigger] s.end.unwrap()[k];
                &&& tracks(s.current, b.0)
                &&& offset_or_zero(s.current, b.0) <= b.1
            },
        in_order(s.current, msgs),
    ensures
        run(s, msgs).0 <= span(s.current, s.end.unwrap()),
{
    let end = s.end.unwrap();
    assert forall|k: int| 0 <= k < end.len() implies tracks(s.current, (#[trigger] end[k]).0) by {
        assert(tracks(s.current, s.end.unwrap()[k].0));
    }
    lemma_run_within_unread(s, msgs);
    lemma_unread_is_span(s.current, end);
}

} // verus!
