use relay_core::envelope::{AttachmentType, Envelope, Item, ItemType};
use relay_core::project_state::RequestMeta;
use relay_core::quota::{ProjectKey, Scoping};
use relay_core::store::{
    is_slow_item, make_distinct_id, metric_namespace, metric_topic, produce_replay_recording,
    produce_session, produce_sessions_from_aggregate, select_topic, split_chunks, BucketRef, Codec,
    KafkaMessage, KafkaTopic, MetricNamespace, ParsedPayload, Produced, ProfileKafkaMessage,
    SessionAggregateItem, SessionAggregates, SessionStatus, SessionUpdate, StoreEnvelope, StoreError, StoreService,
    MAX_REPLAY_PAYLOAD,
};

fn item(ty: ItemType, payload: Vec<u8>) -> Item {
    Item { ty, payload, filename: None, content_type: None, attachment_type: None, rate_limited: false }
}

fn scoping() -> Scoping {
    Scoping {
        organization_id: 1,
        project_id: 2,
        project_key: ProjectKey::parse("a94ae32be2584e0bbd7a4cbb95971fee").unwrap(),
        key_id: Some(3),
    }
}

fn envelope(event_id: Option<u128>, items: Vec<Item>) -> Envelope {
    Envelope {
        event_id,
        items,
        meta: RequestMeta {
            project_id: Some(2),
            origin: None,
            public_key: scoping().project_key,
            no_cache: false,
            client: Some("sdk/1.0".to_owned()),
            client_addr: Some("127.0.0.1".to_owned()),
        },
        retention: None,
        sampling_key: None,
    }
}

fn message(envelope: Envelope, start_time: u64) -> StoreEnvelope {
    StoreEnvelope { envelope, start_time, scoping: scoping() }
}

#[test]
fn topics_follow_envelope_content() {
    let t = |tys: Vec<ItemType>| select_topic(&tys.into_iter().map(|ty| item(ty, vec![])).collect());
    assert_eq!(t(vec![ItemType::Event]), KafkaTopic::Events);
    assert_eq!(t(vec![ItemType::Transaction]), KafkaTopic::Transactions);
    assert_eq!(t(vec![ItemType::Transaction, ItemType::Attachment]), KafkaTopic::Attachments);
    assert_eq!(t(vec![ItemType::UserReport]), KafkaTopic::Attachments);
    assert_eq!(t(vec![ItemType::ReplayRecording, ItemType::Event]), KafkaTopic::Attachments);
    assert_eq!(t(vec![ItemType::Security, ItemType::Transaction]), KafkaTopic::Events);
    assert_eq!(t(vec![]), KafkaTopic::Events);
    assert!(is_slow_item(&item(ItemType::Attachment, vec![])));
    assert!(!is_slow_item(&item(ItemType::Profile, vec![])));
}

#[test]
fn chunks_concatenate_to_payload() {
    let payload: Vec<u8> = (0..10).collect();
    let chunks = split_chunks(&payload, 4);
    assert_eq!(chunks, vec![vec![0, 1, 2, 3], vec![4, 5, 6, 7], vec![8, 9]]);
    assert_eq!(chunks.concat(), payload);
    assert_eq!(split_chunks(&vec![], 4), Vec::<Vec<u8>>::new());
    assert_eq!(split_chunks(&payload, 10).len(), 1);
}

#[test]
fn attachment_is_published_in_chunks() {
    let store = StoreService::create(3);
    let mut att = item(ItemType::Attachment, vec![9, 8, 7, 6, 5, 4, 3]);
    att.filename = Some("log.txt".to_owned());
    att.attachment_type = Some(AttachmentType::Minidump);
    let mut out = Vec::new();
    let summary = store.produce_attachment_chunks(77, 1, 2, &att, "abc".to_owned(), &mut out);
    assert_eq!(summary.chunks, 3);
    assert_eq!(summary.size, Some(7));
    assert_eq!(summary.name, "log.txt");
    assert_eq!(summary.attachment_type, AttachmentType::Minidump);
    assert_eq!(summary.rate_limited, Some(false));
    let mut joined = Vec::new();
    for (k, p) in out.iter().enumerate() {
        assert_eq!(p.topic, KafkaTopic::Attachments);
        match &p.message {
            KafkaMessage::AttachmentChunk(m) => {
                assert_eq!(m.chunk_index, k);
                assert_eq!(m.id, "abc");
                joined.extend_from_slice(&m.payload);
            }
            other => panic!("unexpected {:?}", other),
        }
    }
    assert_eq!(joined, att.payload);
    let unnamed = store.produce_attachment_chunks(77, 1, 2, &item(ItemType::Attachment, vec![]), "e".to_owned(), &mut out);
    assert_eq!(unnamed.chunks, 0);
    assert_eq!(unnamed.name, "Unnamed Attachment");
    assert_eq!(unnamed.attachment_type, AttachmentType::Attachment);
}

#[test]
fn envelope_with_event_and_attachment() {
    let store = StoreService::create(2);
    let env = envelope(
        Some(5),
        vec![item(ItemType::Event, vec![1]), item(ItemType::Attachment, vec![1, 2, 3])],
    );
    let parsed = vec![ParsedPayload::Raw, ParsedPayload::Raw];
    let ids = vec!["a".to_owned(), "b".to_owned()];
    let mut out = Vec::new();
    assert_eq!(store.handle_store_envelope(&message(env.clone(), 100), &parsed, &ids, 0, &mut out), Ok(()));
    assert_eq!(out.len(), 3);
    match &out[2] {
        Produced { topic: KafkaTopic::Attachments, organization_id: 1, message: KafkaMessage::Event(m) } => {
            assert_eq!(m.event_id, 5);
            assert_eq!(m.payload, vec![1]);
            assert_eq!(m.attachments.len(), 1);
            assert_eq!(m.attachments[0].id, "b");
            assert_eq!(m.attachments[0].chunks, 2);
            assert_eq!(m.remote_addr, Some("127.0.0.1".to_owned()));
            assert_eq!(m.start_time, 100);
        }
        other => panic!("unexpected {:?}", other),
    }
}

#[test]
fn attachments_without_event_go_out_individually() {
    let store = StoreService::create(10);
    let env = envelope(Some(5), vec![item(ItemType::Attachment, vec![1]), item(ItemType::Attachment, vec![2])]);
    let parsed = vec![ParsedPayload::Raw, ParsedPayload::Raw];
    let ids = vec!["a".to_owned(), "b".to_owned()];
    let mut out = Vec::new();
    store.handle_store_envelope(&message(env.clone(), 0), &parsed, &ids, 0, &mut out).unwrap();
    let kinds: Vec<&str> = out.iter().map(|p| p.message.variant()).collect();
    assert_eq!(kinds, vec!["attachment_chunk", "attachment_chunk", "attachment", "attachment"]);
}

#[test]
fn missing_event_id_is_an_error() {
    let store = StoreService::create(10);
    let parsed = vec![ParsedPayload::Raw];
    let ids = vec!["a".to_owned()];
    let mut out = Vec::new();
    let env = envelope(None, vec![item(ItemType::UserReport, vec![1])]);
    assert_eq!(
        store.handle_store_envelope(&message(env.clone(), 0), &parsed, &ids, 0, &mut out),
        Err(StoreError::NoEventId)
    );
    let env = envelope(None, vec![item(ItemType::Event, vec![1])]);
    assert_eq!(
        store.handle_store_envelope(&message(env.clone(), 0), &parsed, &ids, 0, &mut out),
        Err(StoreError::NoEventId)
    );
    let env = envelope(None, vec![item(ItemType::Profile, vec![4])]);
    out.clear();
    assert_eq!(store.handle_store_envelope(&message(env.clone(), 9), &parsed, &ids, 0, &mut out), Ok(()));
    assert_eq!(
        out,
        vec![Produced {
            topic: KafkaTopic::Profiles,
            organization_id: 1,
            message: KafkaMessage::Profile(ProfileKafkaMessage {
                organization_id: 1,
                project_id: 2,
                key_id: Some(3),
                received: 9,
                payload: vec![4],
            }),
        }]
    );
}

#[test]
fn replay_recordings_are_chunked_when_large() {
    let small = item(ItemType::ReplayRecording, vec![1, 2]);
    let mut out = Vec::new();
    produce_replay_recording(Some(9), &scoping(), &small, 5, 30, "r".to_owned(), &mut out).unwrap();
    assert_eq!(out.len(), 1);
    assert_eq!(out[0].message.variant(), "replay_recording_not_chunked");
    let exact = item(ItemType::ReplayRecording, vec![7; MAX_REPLAY_PAYLOAD]);
    let mut out = Vec::new();
    produce_replay_recording(Some(9), &scoping(), &exact, 5, 30, "r".to_owned(), &mut out).unwrap();
    assert_eq!(out.len(), 1);
    assert_eq!(out[0].message.variant(), "replay_recording_not_chunked");
    let big = item(ItemType::ReplayRecording, vec![7; MAX_REPLAY_PAYLOAD + 1]);
    let mut out = Vec::new();
    produce_replay_recording(Some(9), &scoping(), &big, 5, 30, "r".to_owned(), &mut out).unwrap();
    let kinds: Vec<&str> = out.iter().map(|p| p.message.variant()).collect();
    assert_eq!(kinds, vec!["replay_recording_chunk", "replay_recording_chunk", "replay_recording"]);
    match &out[2].message {
        KafkaMessage::ReplayRecording(m) => {
            assert_eq!(m.replay_recording.chunks, 2);
            assert_eq!(m.replay_recording.size, Some(MAX_REPLAY_PAYLOAD + 1));
        }
        other => panic!("unexpected {:?}", other),
    }
    let mut out = Vec::new();
    assert_eq!(
        produce_replay_recording(None, &scoping(), &small, 5, 30, "r".to_owned(), &mut out),
        Err(StoreError::NoEventId)
    );
    assert!(out.is_empty());
}

#[test]
fn partition_keys() {
    let mut out = Vec::new();
    StoreService::create(10).produce_attachment_chunks(42, 1, 2, &item(ItemType::Attachment, vec![1]), "x".to_owned(), &mut out);
    let chunk = &out[0].message;
    assert_eq!(chunk.key(1), 42);
    assert_eq!(chunk.key(2), 42);
    let session = KafkaMessage::Session(produce_session(1, 2, 90, &None, update(SessionStatus::Exited, 0)));
    assert_eq!(session.key(11), 11);
    assert_ne!(session.key(11), session.key(12));
    assert_eq!(session.codec(), Codec::Json);
    assert_eq!(chunk.codec(), Codec::MessagePack);
    assert_eq!(chunk.variant(), "attachment_chunk");
}

fn update(status: SessionStatus, errors: u64) -> SessionUpdate {
    SessionUpdate {
        session_id: 5,
        distinct_id: None,
        sequence: 4,
        init: false,
        timestamp: 1_000,
        started: 900,
        duration: Some(100),
        status,
        errors,
        release: "1.0".to_owned(),
        environment: Some("prod".to_owned()),
    }
}

#[test]
fn single_session_updates() {
    let m = produce_session(1, 2, 90, &Some("sdk".to_owned()), update(SessionStatus::Errored, 3));
    assert_eq!(m.status, SessionStatus::Exited);
    assert_eq!(m.errors, 3);
    assert_eq!(m.seq, 4);
    assert_eq!(m.distinct_id, 0);
    assert_eq!(m.sdk, Some("sdk".to_owned()));
    let crashed = produce_session(1, 2, 90, &None, update(SessionStatus::Crashed, 0));
    assert_eq!(crashed.errors, 1);
    let mut init = update(SessionStatus::Healthy, 100_000);
    init.init = true;
    let m = produce_session(1, 2, 90, &None, init);
    assert_eq!(m.seq, 0);
    assert_eq!(m.errors, u16::MAX);
}

#[test]
fn aggregates_explode_per_status() {
    let agg = SessionAggregates {
        aggregates: vec![
            SessionAggregateItem { started: 10, distinct_id: None, exited: 2, errored: 0, abnormal: 1, crashed: 3 },
            SessionAggregateItem { started: 20, distinct_id: None, exited: 0, errored: 4, abnormal: 0, crashed: 0 },
        ],
        release: "r".to_owned(),
        environment: None,
    };
    let ms = produce_sessions_from_aggregate(1, 2, 90, &None, 55, &agg);
    let got: Vec<(i64, SessionStatus, u32, u16)> = ms.iter().map(|m| (m.started, m.status, m.quantity, m.errors)).collect();
    assert_eq!(
        got,
        vec![
            (10, SessionStatus::Exited, 2, 0),
            (10, SessionStatus::Abnormal, 1, 1),
            (10, SessionStatus::Crashed, 3, 1),
            (20, SessionStatus::Errored, 4, 1),
        ]
    );
    assert!(ms.iter().all(|m| m.received == 55 && m.release == "r"));
    let many = SessionAggregates {
        aggregates: (0..150)
            .map(|i| SessionAggregateItem { started: i, distinct_id: None, exited: 1, errored: 0, abnormal: 0, crashed: 0 })
            .collect(),
        release: "r".to_owned(),
        environment: None,
    };
    assert_eq!(produce_sessions_from_aggregate(1, 2, 90, &None, 0, &many).len(), 100);
}

#[test]
fn distinct_ids() {
    // a text that is itself a UUID is hashed like any other
    let id = "67e55044-10b1-426f-9247-bb680e5fe0c8";
    assert_ne!(make_distinct_id(id), 0x67e5504410b1426f9247bb680e5fe0c8);
    assert_eq!((make_distinct_id(id) >> 76) & 0xf, 5);
    let hashed = make_distinct_id("user@example.com");
    assert_eq!(hashed, make_distinct_id("user@example.com"));
    assert_ne!(hashed, make_distinct_id("other@example.com"));
    assert_eq!((hashed >> 76) & 0xf, 5);
}

#[test]
fn sessions_and_metrics_in_envelopes() {
    let store = StoreService::create(10);
    let env = envelope(
        None,
        vec![item(ItemType::Session, vec![]), item(ItemType::MetricBuckets, vec![]), item(ItemType::Sessions, vec![])],
    );
    let parsed = vec![
        ParsedPayload::Session(update(SessionStatus::Errored, 0)),
        ParsedPayload::Buckets(vec![
            BucketRef { name: "d:transactions/duration@millisecond".to_owned(), timestamp: 1 },
            BucketRef { name: "c:sessions/session@none".to_owned(), timestamp: 2 },
            BucketRef { name: "c:custom/x@none".to_owned(), timestamp: 3 },
        ]),
        ParsedPayload::Malformed,
    ];
    let ids = vec!["a".to_owned(), "b".to_owned(), "c".to_owned()];
    let mut out = Vec::new();
    store.handle_store_envelope(&message(env.clone(), 0), &parsed, &ids, 0, &mut out).unwrap();
    let topics: Vec<KafkaTopic> = out.iter().map(|p| p.topic).collect();
    assert_eq!(topics, vec![KafkaTopic::Sessions, KafkaTopic::MetricsTransactions, KafkaTopic::MetricsSessions]);
    assert_eq!(metric_namespace("d:transactions/foo"), MetricNamespace::Transactions);
    assert_eq!(metric_namespace("transactions/foo"), MetricNamespace::Unsupported);
    assert_eq!(metric_topic("s:sessions/user@none"), Some(KafkaTopic::MetricsSessions));
    assert_eq!(metric_topic("c:custom/x"), None);
}
