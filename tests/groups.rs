use kafka_lens::groups::{parse_member_assignment, read_str, ConsumerGroup, ConsumerGroupMember, MemberAssignment};

fn payload(assignments: &[(&str, &[i32])]) -> Vec<u8> {
    let mut b = vec![0, 1];
    b.extend_from_slice(&(assignments.len() as i32).to_be_bytes());
    for (topic, partitions) in assignments {
        b.extend_from_slice(&(topic.len() as i16).to_be_bytes());
        b.extend_from_slice(topic.as_bytes());
        b.extend_from_slice(&(partitions.len() as i32).to_be_bytes());
        for p in partitions.iter() {
            b.extend_from_slice(&p.to_be_bytes());
        }
    }
    b
}

#[test]
fn no_payload_means_no_assignment() {
    assert_eq!(parse_member_assignment(None), Ok(vec![]));
}

#[test]
fn parses_topics_and_partitions() {
    let b = payload(&[("orders", &[0, 2, 70000]), ("audit", &[])]);
    assert_eq!(
        parse_member_assignment(Some(&b)),
        Ok(vec![
            MemberAssignment { topic: "orders".to_string(), partitions: vec![0, 2, 70000] },
            MemberAssignment { topic: "audit".to_string(), partitions: vec![] },
        ])
    );
}

#[test]
fn reads_multibyte_topic_names() {
    let b = payload(&[("zürich", &[1])]);
    let parsed = parse_member_assignment(Some(&b)).unwrap();
    assert_eq!(parsed[0].topic, "zürich");
    assert_eq!(parsed[0].partitions, vec![1]);
}

#[test]
fn negative_counts_hold_nothing() {
    let mut b = vec![0, 0];
    b.extend_from_slice(&(-1i32).to_be_bytes());
    assert_eq!(parse_member_assignment(Some(&b)), Ok(vec![]));
}

#[test]
fn truncated_payloads_are_refused() {
    let b = payload(&[("orders", &[0, 1])]);
    for cut in 0..b.len() {
        assert!(parse_member_assignment(Some(&b[..cut])).is_err(), "cut at {}", cut);
    }
}

#[test]
fn invalid_topic_name_is_refused() {
    let mut b = vec![0, 0, 0, 0, 0, 1, 0, 2, 0xff, 0xfe];
    b.extend_from_slice(&0i32.to_be_bytes());
    assert!(parse_member_assignment(Some(&b)).is_err());
}

#[test]
fn negative_name_length_is_refused() {
    let mut b = vec![0, 0, 0, 0, 0, 1, 0xff, 0xff];
    b.extend_from_slice(&0i32.to_be_bytes());
    assert!(parse_member_assignment(Some(&b)).is_err());
}

#[test]
fn groups_keep_readable_members() {
    let good = payload(&[("orders", &[3])]);
    let ok = ConsumerGroupMember::from_parts(
        "m1".to_string(),
        "c1".to_string(),
        "/10.0.0.1".to_string(),
        Some(&[9, 9]),
        Some(&good),
    );
    let bad = ConsumerGroupMember::from_parts(
        "m2".to_string(),
        "c2".to_string(),
        "/10.0.0.2".to_string(),
        None,
        Some(&[0]),
    );
    assert!(bad.is_err());
    let member = ok.clone().unwrap();
    assert_eq!(member.metadata, vec![9, 9]);
    assert_eq!(member.assignments[0].partitions, vec![3]);
    let group = ConsumerGroup::from_parts(
        "g1".to_string(),
        "Stable".to_string(),
        "range".to_string(),
        "consumer".to_string(),
        vec![bad, ok],
    );
    assert_eq!(group.members, vec![member]);
    assert_eq!(group.name, "g1");
}

#[test]
fn read_str_reads_length_prefixed_text() {
    let b = [0xaa, 0, 3, b'a', b'b', b'c', 0xbb];
    let (s, end) = read_str(&b, 1).unwrap();
    assert_eq!(s, "abc");
    assert_eq!(end, 6);
    assert!(read_str(&b, 5).is_err());
    assert!(read_str(&[0, 4, b'a'], 0).is_err());
}
