use kafka_lens::error::EngineError;
use kafka_lens::offsets::{FetchOffset, OffsetRequest};
use kafka_lens::registry::SessionRegistry;
use kafka_lens::resolver::{PartitionOffset, TopicPartitionOffset};
use kafka_lens::session::{
    end_bounds, end_request, session_id, start_session, StreamEvent, StreamSession, StreamStep,
};

fn message(partition: i32, offset: i64) -> StreamEvent {
    StreamEvent::Message { partition, offset }
}

#[test]
fn stop_after_start_succeeds_once() {
    let mut registry: SessionRegistry<u32> = SessionRegistry::new();
    let id = session_id(1700000000000, &"orders".to_string(), &FetchOffset::Beginning);
    assert!(registry.register(id.clone(), 7).is_ok());
    assert_eq!(registry.active_ids(), vec![id.clone()]);
    assert!(matches!(registry.remove(&id), Ok(7)));
    assert!(registry.active_ids().is_empty());
    match registry.remove(&id) {
        Err(EngineError::SessionNotFound(m)) => assert_eq!(m, id),
        _ => panic!("a second stop must not find the session"),
    }
}

#[test]
fn stopping_unknown_session_is_not_found() {
    let mut registry: SessionRegistry<u32> = SessionRegistry::new();
    let err = registry.remove(&"nonexistent".to_string()).err().unwrap();
    assert!(matches!(err, EngineError::SessionNotFound(_)));
    assert_eq!(err.message(), "there is no such consumer running on channel: 'nonexistent'");
}

#[test]
fn duplicate_session_id_is_refused() {
    let mut registry: SessionRegistry<u32> = SessionRegistry::new();
    let id = "consumer_1/orders/End".to_string();
    assert!(registry.register(id.clone(), 1).is_ok());
    let err = registry.register(id.clone(), 2).err().unwrap();
    assert_eq!(err.message(), "a consumer is already running on channel: 'consumer_1/orders/End'");
    assert!(registry.contains(&id));
    assert!(matches!(registry.remove(&id), Ok(1)));
}

#[test]
fn session_ids_name_time_topic_and_start() {
    let topic = "orders".to_string();
    assert_eq!(session_id(1700000000123, &topic, &FetchOffset::End), "consumer_1700000000123/orders/End");
    assert_eq!(
        session_id(5, &topic, &FetchOffset::Timestamp(99)),
        "consumer_5/orders/Timestamp(99)"
    );
}

#[test]
fn bounded_replay_of_ten_messages() {
    // One partition with offsets 0..9, from the beginning to the end.
    let start = vec![TopicPartitionOffset { topic: "orders".to_string(), offsets: vec![(0, 0)] }];
    let end = vec![PartitionOffset { topic: "orders".to_string(), partition: 0, offset: Some(10) }];
    let mut session = start_session(&"orders".to_string(), &start, Some(end_bounds(&end)));
    let mut emitted = Vec::new();
    for offset in 0..10 {
        assert!(!session.is_finished());
        let step = session.on_event(message(0, offset));
        if step.emit {
            emitted.push(offset);
        }
        assert_eq!(step.finish, offset == 9);
    }
    assert_eq!(emitted, (0..10).collect::<Vec<i64>>());
    assert!(session.is_finished());
}

#[test]
fn bounded_session_emits_at_most_the_messages_in_its_span() {
    // Two partitions: 0 holds offsets 0..3, 1 holds offsets 5..7.
    let mut session = StreamSession::new(vec![(0, 0), (1, 5)], Some(vec![(0, 3), (1, 7)]));
    let fetched = [(0, 0), (1, 5), (0, 1), (1, 6), (0, 2)];
    let mut emitted = 0;
    let mut finishes = 0;
    for (partition, offset) in fetched {
        if session.is_finished() {
            break;
        }
        let step = session.on_event(message(partition, offset));
        if step.emit {
            emitted += 1;
        }
        if step.finish {
            finishes += 1;
        }
    }
    assert!(emitted <= 5);
    assert_eq!(emitted, 5);
    assert_eq!(finishes, 1);
    assert_eq!(session.current_offsets(), &vec![(0, 3), (1, 7)]);
}

#[test]
fn messages_past_the_bound_are_held_back() {
    let mut session = StreamSession::new(vec![(0, 0), (1, 0)], Some(vec![(0, 2), (1, 1)]));
    assert_eq!(session.on_event(message(0, 5)), StreamStep { emit: false, finish: false });
    assert_eq!(session.on_event(message(1, 0)), StreamStep { emit: true, finish: true });
}

#[test]
fn unbounded_session_runs_until_cancelled() {
    let mut session = StreamSession::new(vec![(0, 0)], None);
    for offset in 0..100 {
        assert_eq!(session.on_event(message(0, offset)), StreamStep { emit: true, finish: false });
    }
    assert_eq!(session.on_event(StreamEvent::Cancelled), StreamStep { emit: false, finish: true });
    assert!(session.is_finished());
}

#[test]
fn fetch_failure_ends_the_session() {
    let mut session = StreamSession::new(vec![(0, 0)], Some(vec![(0, 5)]));
    assert_eq!(session.on_event(StreamEvent::FetchFailed), StreamStep { emit: false, finish: true });
    assert!(session.is_finished());
}

#[test]
fn end_bound_requests() {
    assert_eq!(end_request(None), None);
    assert_eq!(end_request(Some(FetchOffset::Beginning)), None);
    assert_eq!(end_request(Some(FetchOffset::End)), Some(OffsetRequest::End));
    assert_eq!(end_request(Some(FetchOffset::Timestamp(3))), Some(OffsetRequest::Timestamp(3)));
}

#[test]
fn unresolved_end_bounds_are_zero() {
    let listed = vec![
        PartitionOffset { topic: "t".to_string(), partition: 0, offset: Some(8) },
        PartitionOffset { topic: "t".to_string(), partition: 1, offset: None },
    ];
    assert_eq!(end_bounds(&listed), vec![(0, 8), (1, 0)]);
}

#[test]
fn session_starts_from_its_topic_offsets() {
    let start = vec![
        TopicPartitionOffset { topic: "other".to_string(), offsets: vec![(0, 1)] },
        TopicPartitionOffset { topic: "orders".to_string(), offsets: vec![(0, 4), (1, 6)] },
    ];
    let session = start_session(&"orders".to_string(), &start, None);
    assert_eq!(session.current_offsets(), &vec![(0, 4), (1, 6)]);
    let none = start_session(&"missing".to_string(), &start, None);
    assert!(none.current_offsets().is_empty());
}

#[test]
fn registry_lists_sessions_oldest_first() {
    let mut registry: SessionRegistry<u8> = SessionRegistry::new();
    for (i, name) in ["a", "b", "c"].iter().enumerate() {
        assert!(registry.register(name.to_string(), i as u8).is_ok());
    }
    assert!(matches!(registry.remove(&"b".to_string()), Ok(1)));
    assert_eq!(registry.active_ids(), vec!["a".to_string(), "c".to_string()]);
    assert!(!registry.contains(&"b".to_string()));
}
