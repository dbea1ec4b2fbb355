use kafka_lens::offsets::{FetchOffset, GroupOffset, OffsetRequest};

#[test]
fn fetch_offset_labels() {
    assert_eq!(FetchOffset::Beginning.label(), "Beginning");
    assert_eq!(FetchOffset::End.label(), "End");
    assert_eq!(FetchOffset::Timestamp(1700000000123).label(), "Timestamp(1700000000123)");
    assert_eq!(FetchOffset::Timestamp(-42).label(), "Timestamp(-42)");
    assert_eq!(FetchOffset::Timestamp(0).label(), "Timestamp(0)");
}

#[test]
fn group_offsets_become_requests() {
    assert_eq!(OffsetRequest::from(GroupOffset::Beginning), OffsetRequest::Beginning);
    assert_eq!(OffsetRequest::from(GroupOffset::End), OffsetRequest::End);
    assert_eq!(OffsetRequest::from(GroupOffset::Tail(5)), OffsetRequest::Tail(5));
    assert_eq!(OffsetRequest::from(GroupOffset::Offset(99)), OffsetRequest::Timestamp(99));
}

#[test]
fn fetch_offsets_become_requests() {
    assert_eq!(OffsetRequest::from(FetchOffset::Beginning), OffsetRequest::Beginning);
    assert_eq!(OffsetRequest::from(FetchOffset::End), OffsetRequest::End);
    assert_eq!(OffsetRequest::from(FetchOffset::Timestamp(7)), OffsetRequest::Timestamp(7));
}
