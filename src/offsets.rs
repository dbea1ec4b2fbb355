//! Symbolic positions in a partition's log and their textual form.
use vstd::prelude::*;

verus! {

/// The initial position of a new consumer group.
#[derive(Clone, Copy, Debug, PartialEq, Eq, Structural)]
pub enum GroupOffset {
    Beginning,
    End,
    /// That many records before the end of the log.
    Tail(i64),
    /// The first record at or after this timestamp (milliseconds since the epoch).
    Offset(i64),
}

/// The start or the end of a stream.
#[derive(Clone, Copy, Debug, PartialEq, Eq, Structural)]
pub enum FetchOffset {
    Beginning,
    End,
    /// The first record at or after this timestamp (milliseconds since the epoch).
    Timestamp(i64),
}

/// A symbolic position, as the broker's offset query takes it.
#[derive(Clone, Copy, Debug, PartialEq, Eq, Structural)]
pub enum OffsetRequest {
    Beginning,
    End,
    /// The first record at or after this timestamp (milliseconds since the epoch).
    Timestamp(i64),
    /// That many records before the end of the log.
    Tail(i64),
}

impl OffsetRequest {
    pub open spec fn is_timestamp(self) -> bool {
        self is Timestamp
    }
}

pub open spec fn group_request(g: GroupOffset) -> OffsetRequest {
    match g {
        GroupOffset::Beginning => OffsetRequest::Beginning,
        GroupOffset::End => OffsetRequest::End,
        GroupOffset::Tail(n) => OffsetRequest::Tail(n),
        GroupOffset::Offset(t) => OffsetRequest::Timestamp(t),
    }
}

pub open spec fn fetch_request(f: FetchOffset) -> OffsetRequest {
    match f {
        FetchOffset::Beginning => OffsetRequest::Beginning,
        FetchOffset::End => OffsetRequest::End,
        FetchOffset::Timestamp(t) => OffsetRequest::Timestamp(t),
    }
}

impl From<GroupOffset> for OffsetRequest {
    fn from(g: GroupOffset) -> OffsetRequest {
        match g {
            GroupOffset::Beginning => OffsetRequest::Beginning,
            GroupOffset::End => OffsetRequest::End,
            GroupOffset::Tail(n) => OffsetRequest::Tail(n),
            GroupOffset::Offset(t) => OffsetRequest::Timestamp(t),
        }
    }
}

impl vstd::std_specs::convert::FromSpecImpl<GroupOffset> for OffsetRequest {
    open spec fn obeys_from_spec() -> bool {
        true
    }

    open spec fn from_spec(g: GroupOffset) -> OffsetRequest {
        group_request(g)
    }
}

impl From<FetchOffset> for OffsetRequest {
    fn from(f: FetchOffset) -> OffsetRequest {
        match f {
            FetchOffset::Beginning => OffsetRequest::Beginning,
            FetchOffset::End => OffsetRequest::End,
            FetchOffset::Timestamp(t) => OffsetRequest::Timestamp(t),
        }
    }
}

impl vstd::std_specs::convert::FromSpecImpl<FetchOffset> for OffsetRequest {
    open spec fn obeys_from_spec() -> bool {
        true
    }

    open spec fn from_spec(f: FetchOffset) -> OffsetRequest {
        fetch_request(f)
    }
}

/// The decimal digits of `n`, most significant first.
pub open spec fn digits_of(n: nat) -> Seq<char>
    decreases n,
{
    let d = seq!['0', '1', '2', '3', '4', '5', '6', '7', '8', '9'][(n % 10) as int];
    if n < 10 {
        seq![d]
    } else {
        digits_of(n / 10).push(d)
    }
}

/// `n` written in decimal, with a leading `-` when negative.
pub open spec fn decimal_text(n: int) -> Seq<char> {
    if n < 0 {
        seq!['-'] + digits_of((-n) as nat)
    } else {
        digits_of(n as nat)
    }
}

/// Relies on `<i128 as Display>` (through `ToString::to_string`): an integer is written in
/// decimal, with a leading `-` when negative and no padding.
#[verifier::external_body]
pub(crate) fn decimal(n: i128) -> (r: String)
    ensures
        r@ == decimal_text(n as int),
{
    n.to_string()
}

pub open spec fn fetch_label(f: FetchOffset) -> Seq<char> {
    match f {
        FetchOffset::Beginning => "Beginning"@,
        FetchOffset::End => "End"@,
        FetchOffset::Timestamp(t) => "Timestamp("@ + decimal_text(t as int) + ")"@,
    }
}

impl FetchOffset {
    /// The position in words: `Beginning`, `End` or `Timestamp(<millis>)`.
    pub fn label(&self) -> (r: String)
        ensures
            r@ == fetch_label(*self),
    {
        match self {
            FetchOffset::Beginning => String::from_str("Beginning"),
            FetchOffset::End => String::from_str("End"),
            FetchOffset::Timestamp(t) => {
                let mut s = String::from_str("Timestamp(");
                let digits = decimal(*t as i128);
                s.append(digits.as_str());
                s.append(")");
                s
            },
        }
    }
}

} // verus!
