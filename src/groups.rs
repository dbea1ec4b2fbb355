//! Consumer groups as the broker lists them, and the member assignment payload: which
//! partitions of which topics each member was given.
//!
//! The payload is big-endian: a 16-bit version, a 32-bit count of topics, then for each
//! topic its name (a 16-bit length and that many bytes of UTF-8), a 32-bit count of
//! partitions and each partition id as 32 bits. A negative count stands for none.
use vstd::prelude::*;
use vstd::slice::slice_to_vec;
use vstd::utf8::{decode_utf8, valid_utf8};
use byteorder::{BigEndian, ByteOrder};

verus! {

/// The partitions of one topic assigned to a member.
#[derive(Clone, Debug, PartialEq)]
pub struct MemberAssignment {
    pub topic: String,
    pub partitions: Vec<i32>,
}

#[derive(Clone, Debug, PartialEq)]
pub struct ConsumerGroupMember {
    pub id: String,
    pub client_id: String,
    pub client_host: String,
    pub metadata: Vec<u8>,
    pub assignments: Vec<MemberAssignment>,
}

#[derive(Clone, Debug, PartialEq)]
pub struct ConsumerGroup {
    pub name: String,
    pub state: String,
    pub protocol: String,
    pub protocol_type: String,
    pub members: Vec<ConsumerGroupMember>,
}

impl View for MemberAssignment {
    type V = (Seq<char>, Seq<i32>);

    open spec fn view(&self) -> (Seq<char>, Seq<i32>) {
        (self.topic@, self.partitions@)
    }
}

pub open spec fn assignments_view(s: Seq<MemberAssignment>) -> Seq<(Seq<char>, Seq<i32>)> {
    s.map_values(|a: MemberAssignment| a@)
}

/// The big-endian 16-bit signed integer at `at`.
pub open spec fn be_i16(b: Seq<u8>, at: int) -> int {
    let v = b[at] as int * 0x100 + b[at + 1] as int;
    if v >= 0x8000 {
        v - 0x10000
    } else {
        v
    }
}

/// The big-endian 32-bit signed integer at `at`.
pub open spec fn be_i32(b: Seq<u8>, at: int) -> int {
    let v = b[at] as int * 0x1000000 + b[at + 1] as int * 0x10000 + b[at + 2] as int * 0x100
        + b[at + 3] as int;
    if v >= 0x80000000 {
        v - 0x100000000
    } else {
        v
    }
}

/// `n` partition ids from `pos`, and where they end.
pub open spec fn parse_partitions(b: Seq<u8>, pos: int, n: int) -> Option<(Seq<i32>, int)>
    decreases n,
{
    if n <= 0 {
        Some((seq![], pos))
    } else {
        match parse_partitions(b, pos, n - 1) {
            None => None,
            Some((ps, p)) => if p + 4 <= b.len() {
                Some((ps.push(be_i32(b, p) as i32), p + 4))
            } else {
                None
            },
        }
    }
}

/// The topic name at `pos`, and where it ends.
pub open spec fn parse_topic(b: Seq<u8>, pos: int) -> Option<(Seq<char>, int)> {
    if pos + 2 > b.len() {
        None
    } else {
        let len = be_i16(b, pos);
        let text = b.subrange(pos + 2, pos + 2 + len);
        if len < 0 || pos + 2 + len > b.len() || !valid_utf8(text) {
            None
        } else {
            Some((decode_utf8(text), pos + 2 + len))
        }
    }
}

/// The topic assignment at `pos`, and where it ends.
pub open spec fn parse_assignment(b: Seq<u8>, pos: int) -> Option<((Seq<char>, Seq<i32>), int)> {
    match parse_topic(b, pos) {
        None => None,
        Some((t, p)) => if p + 4 > b.len() {
            None
        } else {
            match parse_partitions(b, p + 4, be_i32(b, p)) {
                None => None,
                Some((ps, q)) => Some(((t, ps), q)),
            }
        },
    }
}

/// `n` topic assignments from `pos`, and where they end.
pub open spec fn parse_assignments(b: Seq<u8>, pos: int, n: int) -> Option<
    (Seq<(Seq<char>, Seq<i32>)>, int),
>
    decreases n,
{
    if n <= 0 {
        Some((seq![], pos))
    } else {
        match parse_assignments(b, pos, n - 1) {
            None => None,
            Some((s, p)) => match parse_assignment(b, p) {
                None => None,
                Some((a, q)) => Some((s.push(a), q)),
            },
        }
    }
}

/// The assignments a payload holds; none without a payload, and nothing where the payload
/// is cut short or a topic name is not UTF-8.
pub open spec fn member_assignment(payload: Option<Seq<u8>>) -> Option<Seq<(Seq<char>, Seq<i32>)>> {
    match payload {
        None => Some(seq![]),
        Some(b) => if b.len() < 6 {
            None
        } else {
            match parse_assignments(b, 6, be_i32(b, 2)) {
                Some((s, _)) => Some(s),
                None => None,
            }
        },
    }
}

/// Relies on `byteorder::BigEndian::read_i16`: the first two bytes of the slice as a
/// big-endian signed integer.
#[verifier::external_body]
fn read_i16_at(data: &[u8], pos: usize) -> (r: i16)
    requires
        pos + 2 <= data@.len(),
    ensures
        r as int == be_i16(data@, pos as int),
{
    BigEndian::read_i16(&data[pos..])
}

/// Relies on `byteorder::BigEndian::read_i32`: the first four bytes of the slice as a
/// big-endian signed integer.
#[verifier::external_body]
fn read_i32_at(data: &[u8], pos: usize) -> (r: i32)
    requires
        pos + 4 <= data@.len(),
    ensures
        r as int == be_i32(data@, pos as int),
{
    BigEndian::read_i32(&data[pos..])
}

/// Relies on `std::str::from_utf8`: the bytes as text if they are valid UTF-8.
#[verifier::external_body]
fn utf8_text(data: &[u8], from: usize, to: usize) -> (r: Option<String>)
    requires
        from <= to <= data@.len(),
    ensures
        r is Some <==> valid_utf8(data@.subrange(from as int, to as int)),
        r matches Some(s) ==> s@ == decode_utf8(data@.subrange(from as int, to as int)),
{
    match std::str::from_utf8(&data[from..to]) {
        Ok(s) => Some(s.to_string()),
        Err(_) => None,
    }
}

fn cut_short() -> String {
    String::from_str("member assignment ends before its data")
}

fn read_partitions(data: &[u8], pos: usize, n: i32) -> (r: Result<(Vec<i32>, usize), String>)
    requires
        pos <= data@.len(),
    ensures
        parse_partitions(data@, pos as int, n as int) matches Some((ps, q)) ==> (r matches Ok((
            v,
            p,
        )) && v@ == ps && p as int == q),
        parse_partitions(data@, pos as int, n as int) is None ==> r is Err,
{
    let mut ps: Vec<i32> = Vec::new();
    let mut p = pos;
    let mut k: i32 = 0;
    while k < n
        invariant
            0 <= k,
            k <= n || k == 0,
            p <= data@.len(),
            parse_partitions(data@, pos as int, k as int) == Some((ps@, p as int)),
        decreases n - k,
    {
        if data.len() - p < 4 {
            assert(parse_partitions(data@, pos as int, k as int + 1) is None);
            proof {
                lemma_partitions_fail_on(data@, pos as int, k as int + 1, n as int);
            }
            return Err(cut_short());
        }
        let id = read_i32_at(data, p);
        ps.push(id);
        p = p + 4;
        k = k + 1;
    }
    Ok((ps, p))
}

/// Once partition ids run out at `k`, every longer count runs out too.
proof fn lemma_partitions_fail_on(b: Seq<u8>, pos: int, k: int, n: int)
    requires
        1 <= k <= n,
        parse_partitions(b, pos, k) is None,
    ensures
        parse_partitions(b, pos, n) is None,
    decreases n - k,
{
    if k < n {
        lemma_partitions_fail_on(b, pos, k + 1, n);
    }
}

/// Once assignments run out at `k`, every longer count runs out too.
proof fn lemma_assignments_fail_on(b: Seq<u8>, pos: int, k: int, n: int)
    requires
        1 <= k <= n,
        parse_assignments(b, pos, k) is None,
    ensures
        parse_assignments(b, pos, n) is None,
    decreases n - k,
{
    if k < n {
        lemma_assignments_fail_on(b, pos, k + 1, n);
    }
}

/// The string at `pos`: a 16-bit length, then that many bytes of UTF-8; and where it ends.
pub fn read_str(data: &[u8], pos: usize) -> (r: Result<(String, usize), String>)
    requires
        pos <= data@.len(),
    ensures
        parse_topic(data@, pos as int) matches Some((t, q)) ==> (r matches Ok((s, p)) && s@ == t
            && p as int == q),
        parse_topic(data@, pos as int) is None ==> r is Err,
{
    if data.len() - pos < 2 {
        return Err(cut_short());
    }
    let len = read_i16_at(data, pos);
    if len < 0 || data.len() - pos - 2 < len as usize {
        return Err(cut_short());
    }
    let end = pos + 2 + len as usize;
    match utf8_text(data, pos + 2, end) {
        Some(t) => Ok((t, end)),
        None => Err(String::from_str("member assignment holds a topic name that is not UTF-8")),
    }
}

fn read_assignment(data: &[u8], pos: usize) -> (r: Result<(MemberAssignment, usize), String>)
    requires
        pos <= data@.len(),
    ensures
        parse_assignment(data@, pos as int) matches Some((a, q)) ==> (r matches Ok((m, p)) && m@
            == a && p as int == q),
        parse_assignment(data@, pos as int) is None ==> r is Err,
{
    let (topic, end) = read_str(data, pos)?;
    if data.len() - end < 4 {
        return Err(cut_short());
    }
    let n = read_i32_at(data, end);
    let (partitions, q) = read_partitions(data, end + 4, n)?;
    Ok((MemberAssignment { topic, partitions }, q))
}

/// The topic assignments of a member, read from its assignment payload.
pub fn parse_member_assignment(payload: Option<&[u8]>) -> (r: Result<Vec<MemberAssignment>, String>)
    ensures
        member_assignment(
            match payload {
                Some(b) => Some(b@),
                None => None,
            },
        ) matches Some(s) ==> (r matches Ok(v) && assignments_view(v@) == s),
        member_assignment(
            match payload {
                Some(b) => Some(b@),
                None => None,
            },
        ) is None ==> r is Err,
{
    let data = match payload {
        None => {
            let empty: Vec<MemberAssignment> = Vec::new();
            assert(assignments_view(empty@) =~= seq![]);
            return Ok(empty);
        },
        Some(b) => b,
    };
    if data.len() < 6 {
        return Err(cut_short());
    }
    let n = read_i32_at(data, 2);
    let mut assigns: Vec<MemberAssignment> = Vec::new();
    let mut p: usize = 6;
    let mut k: i32 = 0;
    assert(assignments_view(assigns@) =~= seq![]);
    while k < n
        invariant
            0 <= k,
            k <= n || k == 0,
            p <= data@.len(),
            n as int == be_i32(data@, 2),
            payload == Some(data),
            data@.len() >= 6,
            parse_assignments(data@, 6, k as int) matches Some((s, q)) && s == assignments_view(
                assigns@,
            ) && q == p as int,
        decreases n - k,
    {
        match read_assignment(data, p) {
            Ok((a, q)) => {
                let ghost before = assigns@;
                assigns.push(a);
                assert(assignments_view(assigns@) =~= assignments_view(before).push(a@));
                p = q;
            },
            Err(e) => {
                assert(parse_assignments(data@, 6, k as int + 1) is None);
                proof {
                    lemma_assignments_fail_on(data@, 6, k as int + 1, n as int);
                }
                return Err(e);
            },
        }
        k = k + 1;
    }
    Ok(assigns)
}

pub open spec fn bytes_or_empty(b: Option<&[u8]>) -> Seq<u8> {
    match b {
        Some(s) => s@,
        None => seq![],
    }
}

pub open spec fn payload_view(b: Option<&[u8]>) -> Option<Seq<u8>> {
    match b {
        Some(s) => Some(s@),
        None => None,
    }
}

/// The members whose assignment could be read, in order.
pub open spec fn readable_members(s: Seq<Result<ConsumerGroupMember, String>>) -> Seq<
    ConsumerGroupMember,
>
    decreases s.len(),
{
    if s.len() == 0 {
        seq![]
    } else {
        let rest = readable_members(s.drop_last());
        match s.last() {
            Ok(m) => rest.push(m),
            Err(_) => rest,
        }
    }
}

impl ConsumerGroupMember {
    /// A member as the broker describes it; its metadata is empty if the broker gave none,
    /// and a member whose assignment payload cannot be read is refused.
    pub fn from_parts(
        id: String,
        client_id: String,
        client_host: String,
        metadata: Option<&[u8]>,
        assignment: Option<&[u8]>,
    ) -> (r: Result<ConsumerGroupMember, String>)
        ensures
            member_assignment(payload_view(assignment)) matches Some(a) ==> (r matches Ok(m)
                && m.id == id && m.client_id == client_id && m.client_host == client_host
                && m.metadata@ == bytes_or_empty(metadata) && assignments_view(m.assignments@)
                == a),
            member_assignment(payload_view(assignment)) is None ==> r is Err,
    {
        let metadata = match metadata {
            Some(b) => slice_to_vec(b),
            None => Vec::new(),
        };
        let assignments = parse_member_assignment(assignment)?;
        Ok(ConsumerGroupMember { id, client_id, client_host, metadata, assignments })
    }
}

impl ConsumerGroup {
    /// A group as the broker describes it, keeping the members whose assignment could be
    /// read.
    pub fn from_parts(
        name: String,
        state: String,
        protocol: String,
        protocol_type: String,
        members: Vec<Result<ConsumerGroupMember, String>>,
    ) -> (r: ConsumerGroup)
        ensures
            r.name == name,
            r.state == state,
            r.protocol == protocol,
            r.protocol_type == protocol_type,
            r.members@ == readable_members(members@),
    {
        let ghost all = members@;
        let mut kept: Vec<ConsumerGroupMember> = Vec::new();
        let mut rest = members;
        // Walk the members from the front by reversing them first, so that each can be
        // moved out with `pop`.
        let mut reversed: Vec<Result<ConsumerGroupMember, String>> = Vec::new();
        while rest.len() > 0
            invariant
                rest@.len() + reversed@.len() == all.len(),
                forall|k: int| 0 <= k < rest@.len() ==> #[trigger] rest@[k] == all[k],
                forall|k: int|
                    0 <= k < reversed@.len() ==> #[trigger] reversed@[k] == all[all.len() - 1 - k],
            decreases rest@.len(),
        {
            let m = rest.pop().unwrap();
            reversed.push(m);
        }
        while reversed.len() > 0
            invariant
                reversed@.len() <= all.len(),
                forall|k: int|
                    0 <= k < reversed@.len() ==> #[trigger] reversed@[k] == all[all.len() - 1 - k],
                kept@ == readable_members(all.take(all.len() - reversed@.len())),
            decreases reversed@.len(),
        {
            let ghost j: int = all.len() - reversed@.len();
            let m = reversed.pop().unwrap();
            assert(all.take(j + 1).drop_last() =~= all.take(j));
            assert(all.take(j + 1).last() == m);
            match m {
                Ok(member) => kept.push(member),
                Err(_) => {},
            }
        }
        assert(all.take(all.len() as int) =~= all);
        ConsumerGroup { name, state, protocol, protocol_type, members: kept }
    }
}

} // verus!
