//! Publication of envelope items as messages on the bus: topic selection, chunking of
//! large payloads, partition keys, and the shape of session messages.
use vstd::prelude::*;
use crate::envelope::{AttachmentType, Envelope, Item, ItemType};
use crate::quota::Scoping;

verus! {

/// The topics of the message bus.
#[derive(Clone, Copy, Debug, PartialEq, Eq, Structural, Hash)]
pub enum KafkaTopic {
    Events,
    Transactions,
    Attachments,
    Outcomes,
    OutcomesBilling,
    Sessions,
    MetricsTransactions,
    MetricsSessions,
    Profiles,
    ReplayEvents,
    ReplayRecordings,
}

/// Why an envelope could not be published.
#[derive(Clone, Copy, Debug, PartialEq, Eq, Structural)]
pub enum StoreError {
    /// The bus refused a message.
    SendFailed,
    /// An item needs the event id, and the envelope has none.
    NoEventId,
}

/// Name of an attachment without a `filename` header.
pub const UNNAMED_ATTACHMENT: &'static str = "Unnamed Attachment";

/// The most session messages produced for one aggregate item.
pub const MAX_EXPLODED_SESSIONS: usize = 100;

/// Largest replay recording payload sent in one message, in bytes: one megabyte less
/// what is reserved for the message's other fields.
pub const MAX_REPLAY_PAYLOAD: usize = 998000;

pub open spec fn spec_is_slow(ty: ItemType) -> bool {
    ty == ItemType::Attachment || ty == ItemType::UserReport || ty == ItemType::ReplayRecording
}

/// Whether an item is slow: such items route the envelope to the attachments topic.
pub fn is_slow_item(item: &Item) -> (r: bool)
    ensures
        r == spec_is_slow(item.ty),
{
    item.ty == ItemType::Attachment || item.ty == ItemType::UserReport || item.ty == ItemType::ReplayRecording
}

pub open spec fn is_event_type(ty: ItemType) -> bool {
    ty == ItemType::Event || ty == ItemType::Transaction || ty == ItemType::Security
}

/// Index of the first event-like item.
pub open spec fn first_event(items: Seq<Item>) -> Option<int>
    decreases items.len(),
{
    if items.len() == 0 {
        None
    } else {
        match first_event(items.drop_last()) {
            Some(i) => Some(i),
            None => if is_event_type(items.last().ty) {
                Some(items.len() - 1)
            } else {
                None
            },
        }
    }
}

pub open spec fn spec_topic(items: Seq<Item>) -> KafkaTopic {
    if exists|i: int| 0 <= i < items.len() && spec_is_slow(#[trigger] items[i].ty) {
        KafkaTopic::Attachments
    } else if first_event(items) matches Some(i) && items[i].ty == ItemType::Transaction {
        KafkaTopic::Transactions
    } else {
        KafkaTopic::Events
    }
}

proof fn lemma_first_event(items: Seq<Item>, k: int)
    requires
        0 <= k <= items.len(),
    ensures
        first_event(items.take(k)) matches Some(i) ==> first_event(items) == Some(i),
        first_event(items.take(k)) is None && k < items.len() && is_event_type(items[k].ty) ==> first_event(
            items.take(k + 1),
        ) == Some(k),
        first_event(items.take(k)) is None && k < items.len() && !is_event_type(items[k].ty) ==> first_event(
            items.take(k + 1),
        ) is None,
        first_event(items) matches Some(i) ==> 0 <= i < items.len() && is_event_type(items[i].ty),
    decreases items.len(),
{
    if k < items.len() {
        assert(items.take(k + 1).drop_last() =~= items.take(k));
    }
    if items.len() > 0 {
        let p = items.drop_last();
        if k < items.len() {
            lemma_first_event(p, k);
            assert(p.take(k) =~= items.take(k));
        } else {
            assert(items.take(k) =~= items);
        }
        lemma_first_event(p, p.len() as int);
    }
}

/// The index of the first event, transaction or security item.
pub fn event_item_index(items: &Vec<Item>) -> (r: Option<usize>)
    ensures
        match r {
            Some(i) => first_event(items@) == Some(i as int),
            None => first_event(items@) is None,
        },
{
    let mut k: usize = 0;
    while k < items.len()
        invariant
            k <= items@.len(),
            first_event(items@.take(k as int)) is None,
        decreases items@.len() - k,
    {
        proof {
            lemma_first_event(items@, k as int);
            assert(items@.take(k as int + 1).last() == items@[k as int]);
        }
        if is_event_type_exec(items[k].ty) {
            proof {
                lemma_first_event(items@, k as int + 1);
            }
            return Some(k);
        }
        k = k + 1;
    }
    assert(items@.take(items@.len() as int) =~= items@);
    None
}

fn is_event_type_exec(ty: ItemType) -> (r: bool)
    ensures
        r == is_event_type(ty),
{
    ty == ItemType::Event || ty == ItemType::Transaction || ty == ItemType::Security
}

/// The topic of an envelope's event: attachments if any item is slow, else transactions
/// for a transaction, else events.
pub fn select_topic(items: &Vec<Item>) -> (r: KafkaTopic)
    ensures
        r == spec_topic(items@),
{
    let mut k: usize = 0;
    let mut slow = false;
    while k < items.len()
        invariant
            k <= items@.len(),
            slow == exists|i: int| 0 <= i < k && spec_is_slow(#[trigger] items@[i].ty),
        decreases items@.len() - k,
    {
        if is_slow_item(&items[k]) {
            slow = true;
        }
        k = k + 1;
    }
    if slow {
        return KafkaTopic::Attachments;
    }
    proof {
        lemma_first_event(items@, 0);
    }
    match event_item_index(items) {
        Some(i) => if items[i].ty == ItemType::Transaction {
            KafkaTopic::Transactions
        } else {
            KafkaTopic::Events
        },
        None => KafkaTopic::Events,
    }
}

/// The chunks of `p` from offset `off` on: consecutive pieces of `cs` bytes, the last
/// one possibly shorter.
pub open spec fn chunks_from(p: Seq<u8>, cs: nat, off: nat) -> Seq<Seq<u8>>
    decreases p.len() - off,
{
    if cs == 0 || off >= p.len() {
        Seq::empty()
    } else if off + cs >= p.len() {
        seq![p.subrange(off as int, p.len() as int)]
    } else {
        seq![p.subrange(off as int, (off + cs) as int)] + chunks_from(p, cs, (off + cs) as nat)
    }
}

/// The concatenation of byte sequences.
pub open spec fn concat(ss: Seq<Seq<u8>>) -> Seq<u8>
    decreases ss.len(),
{
    if ss.len() == 0 {
        Seq::empty()
    } else {
        ss[0] + concat(ss.drop_first())
    }
}

/// Concatenating the chunks of a payload in index order gives back the payload.
pub proof fn law_chunks_concat(p: Seq<u8>, cs: nat, off: nat)
    requires
        cs > 0,
        off <= p.len(),
    ensures
        concat(chunks_from(p, cs, off)) == p.subrange(off as int, p.len() as int),
    decreases p.len() - off,
{
    let c = chunks_from(p, cs, off);
    if off >= p.len() {
        assert(p.subrange(off as int, p.len() as int) =~= Seq::<u8>::empty());
    } else if off + cs >= p.len() {
        assert(c.drop_first() =~= Seq::<Seq<u8>>::empty());
        assert(concat(c.drop_first()) == Seq::<u8>::empty());
        assert(concat(c) =~= p.subrange(off as int, p.len() as int));
    } else {
        assert(c.drop_first() =~= chunks_from(p, cs, (off + cs) as nat));
        law_chunks_concat(p, cs, (off + cs) as nat);
        assert(p.subrange(off as int, (off + cs) as int) + p.subrange((off + cs) as int, p.len() as int) =~= p.subrange(
            off as int,
            p.len() as int,
        ));
    }
}

/// The number of chunks: the payload length divided by the chunk size, rounded up.
pub proof fn law_chunk_count(p: Seq<u8>, cs: nat, off: nat)
    requires
        cs > 0,
        off <= p.len(),
    ensures
        chunks_from(p, cs, off).len() == (p.len() - off + cs - 1) / (cs as int),
    decreases p.len() - off,
{
    let n = p.len() - off;
    if off >= p.len() {
        assert((n + cs - 1) / (cs as int) == 0) by (nonlinear_arith)
            requires
                n == 0,
                cs > 0,
        ;
    } else if off + cs >= p.len() {
        assert((n + cs - 1) / (cs as int) == 1) by (nonlinear_arith)
            requires
                0 < n <= cs,
        ;
    } else {
        law_chunk_count(p, cs, (off + cs) as nat);
        assert((n + cs - 1) / (cs as int) == 1 + (n - cs + cs - 1) / (cs as int)) by (nonlinear_arith)
            requires
                n > cs,
                cs > 0,
        ;
    }
}

fn copy_range(p: &Vec<u8>, a: usize, b: usize) -> (r: Vec<u8>)
    requires
        a <= b <= p@.len(),
    ensures
        r@ == p@.subrange(a as int, b as int),
{
    let mut out: Vec<u8> = Vec::new();
    let mut i: usize = a;
    while i < b
        invariant
            a <= i <= b,
            b <= p@.len(),
            out@ == p@.subrange(a as int, i as int),
        decreases b - i,
    {
        out.push(p[i]);
        i = i + 1;
        assert(out@ =~= p@.subrange(a as int, i as int));
    }
    out
}

pub open spec fn payload_views(v: Seq<Vec<u8>>) -> Seq<Seq<u8>> {
    Seq::new(v.len(), |k: int| v[k]@)
}

/// Splits a payload into chunks of at most `chunk_size` bytes; an empty payload has none.
pub fn split_chunks(payload: &Vec<u8>, chunk_size: usize) -> (r: Vec<Vec<u8>>)
    requires
        chunk_size > 0,
    ensures
        payload_views(r@) == chunks_from(payload@, chunk_size as nat, 0),
{
    let ghost all = chunks_from(payload@, chunk_size as nat, 0);
    let size = payload.len();
    let mut out: Vec<Vec<u8>> = Vec::new();
    let mut offset: usize = 0;
    while offset < size
        invariant
            size == payload@.len(),
            chunk_size > 0,
            offset <= size,
            payload_views(out@) + chunks_from(payload@, chunk_size as nat, offset as nat) == all,
        decreases size - offset,
    {
        let rest = size - offset;
        let n = if chunk_size < rest {
            chunk_size
        } else {
            rest
        };
        let piece = copy_range(payload, offset, offset + n);
        let ghost before = payload_views(out@);
        let ghost cur = chunks_from(payload@, chunk_size as nat, offset as nat);
        out.push(piece);
        proof {
            assert(payload_views(out@) =~= before.push(piece@));
            if n == rest {
                assert(cur =~= seq![piece@]);
                assert(chunks_from(payload@, chunk_size as nat, (offset + n) as nat) =~= Seq::<Seq<u8>>::empty());
                assert(payload_views(out@) + chunks_from(payload@, chunk_size as nat, (offset + n) as nat) =~= all);
            } else {
                assert(cur =~= seq![piece@] + chunks_from(payload@, chunk_size as nat, (offset + n) as nat));
                assert(payload_views(out@) + chunks_from(payload@, chunk_size as nat, (offset + n) as nat) =~= all);
            }
        }
        offset = offset + n;
    }
    assert(chunks_from(payload@, chunk_size as nat, offset as nat) =~= Seq::<Seq<u8>>::empty());
    assert(payload_views(out@) =~= all);
    out
}

/// An attachment as the processing pipeline sees it, with the number of its chunks.
#[derive(Clone, Debug, PartialEq, Eq)]
pub struct ChunkedAttachment {
    pub id: String,
    pub name: String,
    pub content_type: Option<String>,
    pub attachment_type: AttachmentType,
    pub chunks: usize,
    pub size: Option<usize>,
    pub rate_limited: Option<bool>,
}

#[derive(Clone, Debug, PartialEq, Eq)]
pub struct EventKafkaMessage {
    pub payload: Vec<u8>,
    pub start_time: u64,
    pub event_id: u128,
    pub project_id: u64,
    pub remote_addr: Option<String>,
    pub attachments: Vec<ChunkedAttachment>,
}

#[derive(Clone, Debug, PartialEq, Eq)]
pub struct AttachmentChunkKafkaMessage {
    pub payload: Vec<u8>,
    pub event_id: u128,
    pub project_id: u64,
    pub id: String,
    pub chunk_index: usize,
}

#[derive(Clone, Debug, PartialEq, Eq)]
pub struct AttachmentKafkaMessage {
    pub event_id: u128,
    pub project_id: u64,
    pub attachment: ChunkedAttachment,
}

#[derive(Clone, Debug, PartialEq, Eq)]
pub struct UserReportKafkaMessage {
    pub project_id: u64,
    pub start_time: u64,
    pub payload: Vec<u8>,
    pub event_id: u128,
}

/// The status of a session.
#[derive(Clone, Copy, Debug, PartialEq, Eq, Structural, Hash)]
pub enum SessionStatus {
    /// The session is healthy and still running (written `ok` on the wire).
    Healthy,
    Exited,
    Crashed,
    Abnormal,
    Errored,
}

/// A session message; times are microseconds since the epoch, the duration microseconds.
#[derive(Clone, Debug, PartialEq, Eq)]
pub struct SessionKafkaMessage {
    pub org_id: u64,
    pub project_id: u64,
    pub session_id: u128,
    pub distinct_id: u128,
    pub quantity: u32,
    pub seq: u64,
    pub received: i64,
    pub started: i64,
    pub duration: Option<u64>,
    pub status: SessionStatus,
    pub errors: u16,
    pub release: String,
    pub environment: Option<String>,
    pub sdk: Option<String>,
    pub retention_days: u16,
}

/// A metric bucket message; the bucket's value and tags stay with the caller, at
/// position `bucket_index` of the buckets parsed from item `item_index`.
#[derive(Clone, Debug, PartialEq, Eq)]
pub struct MetricKafkaMessage {
    pub org_id: u64,
    pub project_id: u64,
    pub name: String,
    pub timestamp: u64,
    pub item_index: usize,
    pub bucket_index: usize,
}

#[derive(Clone, Debug, PartialEq, Eq)]
pub struct ProfileKafkaMessage {
    pub organization_id: u64,
    pub project_id: u64,
    pub key_id: Option<u64>,
    pub received: u64,
    pub payload: Vec<u8>,
}

#[derive(Clone, Debug, PartialEq, Eq)]
pub struct ReplayEventKafkaMessage {
    pub payload: Vec<u8>,
    pub start_time: u64,
    pub replay_id: u128,
    pub project_id: u64,
    pub retention_days: u16,
}

#[derive(Clone, Debug, PartialEq, Eq)]
pub struct ReplayRecordingChunkKafkaMessage {
    pub payload: Vec<u8>,
    pub replay_id: u128,
    pub project_id: u64,
    pub id: String,
    pub chunk_index: usize,
}

#[derive(Clone, Debug, PartialEq, Eq)]
pub struct ReplayRecordingChunkMeta {
    pub id: String,
    pub chunks: usize,
    pub size: Option<usize>,
}

#[derive(Clone, Debug, PartialEq, Eq)]
pub struct ReplayRecordingKafkaMessage {
    pub replay_id: u128,
    pub key_id: Option<u64>,
    pub org_id: u64,
    pub project_id: u64,
    pub received: u64,
    pub retention_days: u16,
    pub replay_recording: ReplayRecordingChunkMeta,
}

#[derive(Clone, Debug, PartialEq, Eq)]
pub struct ReplayRecordingNotChunkedKafkaMessage {
    pub replay_id: u128,
    pub key_id: Option<u64>,
    pub org_id: u64,
    pub project_id: u64,
    pub received: u64,
    pub retention_days: u16,
    pub payload: Vec<u8>,
}

/// Every message published on the bus.
#[derive(Clone, Debug, PartialEq, Eq)]
pub enum KafkaMessage {
    Event(EventKafkaMessage),
    Attachment(AttachmentKafkaMessage),
    AttachmentChunk(AttachmentChunkKafkaMessage),
    UserReport(UserReportKafkaMessage),
    Session(SessionKafkaMessage),
    Metric(MetricKafkaMessage),
    Profile(ProfileKafkaMessage),
    ReplayEvent(ReplayEventKafkaMessage),
    ReplayRecordingNotChunked(ReplayRecordingNotChunkedKafkaMessage),
    ReplayRecording(ReplayRecordingKafkaMessage),
    ReplayRecordingChunk(ReplayRecordingChunkKafkaMessage),
}

/// How a message is encoded.
#[derive(Clone, Copy, Debug, PartialEq, Eq, Structural)]
pub enum Codec {
    Json,
    /// Binary map encoding with field names.
    MessagePack,
}

/// The identity a message is partitioned by; zero (the nil id) asks for random partitioning.
pub open spec fn message_id(m: KafkaMessage) -> u128 {
    match m {
        KafkaMessage::Event(x) => x.event_id,
        KafkaMessage::Attachment(x) => x.event_id,
        KafkaMessage::AttachmentChunk(x) => x.event_id,
        KafkaMessage::UserReport(x) => x.event_id,
        KafkaMessage::Session(_) => 0,
        KafkaMessage::Metric(_) => 0,
        KafkaMessage::Profile(_) => 0,
        KafkaMessage::ReplayEvent(x) => x.replay_id,
        KafkaMessage::ReplayRecording(x) => x.replay_id,
        KafkaMessage::ReplayRecordingChunk(x) => x.replay_id,
        KafkaMessage::ReplayRecordingNotChunked(_) => 0,
    }
}

pub open spec fn partition_key(m: KafkaMessage, fresh: u128) -> u128 {
    if message_id(m) != 0 {
        message_id(m)
    } else {
        fresh
    }
}

pub open spec fn variant_name(m: KafkaMessage) -> Seq<char> {
    match m {
        KafkaMessage::Event(_) => "event"@,
        KafkaMessage::Attachment(_) => "attachment"@,
        KafkaMessage::AttachmentChunk(_) => "attachment_chunk"@,
        KafkaMessage::UserReport(_) => "user_report"@,
        KafkaMessage::Session(_) => "session"@,
        KafkaMessage::Metric(_) => "metric"@,
        KafkaMessage::Profile(_) => "profile"@,
        KafkaMessage::ReplayEvent(_) => "replay_event"@,
        KafkaMessage::ReplayRecording(_) => "replay_recording"@,
        KafkaMessage::ReplayRecordingChunk(_) => "replay_recording_chunk"@,
        KafkaMessage::ReplayRecordingNotChunked(_) => "replay_recording_not_chunked"@,
    }
}

impl KafkaMessage {
    /// The name of the message's variant, as it appears in the encoded message.
    pub fn variant(&self) -> (r: &'static str)
        ensures
            r@ == variant_name(*self),
    {
        match self {
            KafkaMessage::Event(_) => "event",
            KafkaMessage::Attachment(_) => "attachment",
            KafkaMessage::AttachmentChunk(_) => "attachment_chunk",
            KafkaMessage::UserReport(_) => "user_report",
            KafkaMessage::Session(_) => "session",
            KafkaMessage::Metric(_) => "metric",
            KafkaMessage::Profile(_) => "profile",
            KafkaMessage::ReplayEvent(_) => "replay_event",
            KafkaMessage::ReplayRecording(_) => "replay_recording",
            KafkaMessage::ReplayRecordingChunk(_) => "replay_recording_chunk",
            KafkaMessage::ReplayRecordingNotChunked(_) => "replay_recording_not_chunked",
        }
    }

    /// The partition key: the message's event or replay id, or `fresh` (a random id
    /// drawn by the caller) when that id is nil.
    pub fn key(&self, fresh: u128) -> (r: u128)
        ensures
            r == partition_key(*self, fresh),
    {
        let id: u128 = match self {
            KafkaMessage::Event(x) => x.event_id,
            KafkaMessage::Attachment(x) => x.event_id,
            KafkaMessage::AttachmentChunk(x) => x.event_id,
            KafkaMessage::UserReport(x) => x.event_id,
            KafkaMessage::Session(_) => 0,
            KafkaMessage::Metric(_) => 0,
            KafkaMessage::Profile(_) => 0,
            KafkaMessage::ReplayEvent(x) => x.replay_id,
            KafkaMessage::ReplayRecording(x) => x.replay_id,
            KafkaMessage::ReplayRecordingChunk(x) => x.replay_id,
            KafkaMessage::ReplayRecordingNotChunked(_) => 0,
        };
        if id != 0 {
            id
        } else {
            fresh
        }
    }

    /// Sessions, metrics and replay events are JSON; everything else is MessagePack.
    pub fn codec(&self) -> (r: Codec)
        ensures
            r == (match *self {
                KafkaMessage::Session(_) | KafkaMessage::Metric(_) | KafkaMessage::ReplayEvent(_) => Codec::Json,
                _ => Codec::MessagePack,
            }),
    {
        match self {
            KafkaMessage::Session(_) | KafkaMessage::Metric(_) | KafkaMessage::ReplayEvent(_) => Codec::Json,
            _ => Codec::MessagePack,
        }
    }
}

/// Messages with the same non-nil id get the same partition key whatever random value
/// is at hand; a message with a nil id is keyed by the random value, so distinct random
/// values give distinct keys.
pub proof fn law_partition_key(a: KafkaMessage, b: KafkaMessage, fresh_a: u128, fresh_b: u128)
    ensures
        message_id(a) != 0 && message_id(a) == message_id(b) ==> partition_key(a, fresh_a) == partition_key(
            b,
            fresh_b,
        ),
        message_id(a) == 0 && message_id(b) == 0 && fresh_a != fresh_b ==> partition_key(a, fresh_a)
            != partition_key(b, fresh_b),
{
}

/// The UUID namespace for URLs (RFC 9562).
pub const NAMESPACE_URL: u128 = 0x6ba7b811_9dad_11d1_80b4_00c04fd430c8;

/// The name-based (version 5) UUID of a text within a namespace.
pub uninterp spec fn uuid_v5_text(namespace: u128, name: Seq<char>) -> u128;

/// Relies on `uuid::Uuid::new_v5`: the name-based id of the UTF-8 bytes of `name`.
#[verifier::external_body]
fn new_v5(namespace: u128, name: &str) -> (r: u128)
    ensures
        r == uuid_v5_text(namespace, name@),
{
    uuid::Uuid::new_v5(&uuid::Uuid::from_u128(namespace), name.as_bytes()).as_u128()
}

pub open spec fn did_namespace() -> u128 {
    uuid_v5_text(NAMESPACE_URL, "https://sentry.io/#did"@)
}

pub open spec fn distinct_id_of(s: Seq<char>) -> u128 {
    uuid_v5_text(did_namespace(), s)
}

pub open spec fn opt_distinct_id(s: Option<String>) -> u128 {
    match s {
        Some(d) => distinct_id_of(d@),
        None => 0,
    }
}

/// The id of a distinct user: the name-based id of `s` under a fixed namespace.
pub fn make_distinct_id(s: &str) -> (r: u128)
    ensures
        r == distinct_id_of(s@),
{
    let namespace = new_v5(NAMESPACE_URL, "https://sentry.io/#did");
    new_v5(namespace, s)
}

fn opt_distinct_id_exec(s: &Option<String>) -> (r: u128)
    ensures
        r == opt_distinct_id(*s),
{
    match s {
        Some(d) => make_distinct_id(d.as_str()),
        None => 0,
    }
}

/// A single session update.
#[derive(Clone, Debug, PartialEq, Eq)]
pub struct SessionUpdate {
    pub session_id: u128,
    pub distinct_id: Option<String>,
    pub sequence: u64,
    pub init: bool,
    pub timestamp: i64,
    pub started: i64,
    pub duration: Option<u64>,
    pub status: SessionStatus,
    pub errors: u64,
    pub release: String,
    pub environment: Option<String>,
}

/// Counts of sessions that started together, by final status.
#[derive(Clone, Debug, PartialEq, Eq)]
pub struct SessionAggregateItem {
    pub started: i64,
    pub distinct_id: Option<String>,
    pub exited: u32,
    pub errored: u32,
    pub abnormal: u32,
    pub crashed: u32,
}

#[derive(Clone, Debug, PartialEq, Eq)]
pub struct SessionAggregates {
    pub aggregates: Vec<SessionAggregateItem>,
    pub release: String,
    pub environment: Option<String>,
}

pub open spec fn clamp_errors(errors: u64, status: SessionStatus) -> u16 {
    let lo: u64 = if status == SessionStatus::Crashed {
        1
    } else {
        0
    };
    if errors < lo {
        lo as u16
    } else if errors > u16::MAX as u64 {
        u16::MAX
    } else {
        errors as u16
    }
}

pub open spec fn update_message(
    org_id: u64,
    project_id: u64,
    retention: u16,
    sdk: Option<String>,
    s: SessionUpdate,
) -> SessionKafkaMessage {
    SessionKafkaMessage {
        org_id,
        project_id,
        session_id: s.session_id,
        distinct_id: opt_distinct_id(s.distinct_id),
        quantity: 1,
        seq: if s.init {
            0
        } else {
            s.sequence
        },
        received: s.timestamp,
        started: s.started,
        duration: s.duration,
        status: s.status,
        errors: clamp_errors(s.errors, s.status),
        release: s.release,
        environment: s.environment,
        sdk,
        retention_days: retention,
    }
}

fn clone_opt(s: &Option<String>) -> (r: Option<String>)
    ensures
        r == *s,
{
    match s {
        Some(v) => Some(v.clone()),
        None => None,
    }
}

/// The message for one session update; an initial update has sequence zero, and a
/// crashed session counts at least one error.
pub fn produce_session_update(
    org_id: u64,
    project_id: u64,
    event_retention: u16,
    client: &Option<String>,
    session: SessionUpdate,
) -> (r: SessionKafkaMessage)
    ensures
        r == update_message(org_id, project_id, event_retention, *client, session),
{
    let distinct_id = opt_distinct_id_exec(&session.distinct_id);
    let lo: u64 = if session.status == SessionStatus::Crashed {
        1
    } else {
        0
    };
    let errors: u16 = if session.errors < lo {
        lo as u16
    } else if session.errors > u16::MAX as u64 {
        u16::MAX
    } else {
        session.errors as u16
    };
    SessionKafkaMessage {
        org_id,
        project_id,
        session_id: session.session_id,
        distinct_id,
        quantity: 1,
        seq: if session.init {
            0
        } else {
            session.sequence
        },
        received: session.timestamp,
        started: session.started,
        duration: session.duration,
        status: session.status,
        errors,
        release: session.release,
        environment: session.environment,
        sdk: clone_opt(client),
        retention_days: event_retention,
    }
}

fn copy_session_update(s: &SessionUpdate) -> (r: SessionUpdate)
    ensures
        r == *s,
{
    SessionUpdate {
        session_id: s.session_id,
        distinct_id: clone_opt(&s.distinct_id),
        sequence: s.sequence,
        init: s.init,
        timestamp: s.timestamp,
        started: s.started,
        duration: s.duration,
        status: s.status,
        errors: s.errors,
        release: s.release.clone(),
        environment: clone_opt(&s.environment),
    }
}

/// A single update never publishes `Errored`: it becomes `Exited`.
pub open spec fn individual_status(s: SessionStatus) -> SessionStatus {
    if s == SessionStatus::Errored {
        SessionStatus::Exited
    } else {
        s
    }
}

/// The message for a single session update, with `Errored` rewritten to `Exited`.
pub fn produce_session(
    org_id: u64,
    project_id: u64,
    event_retention: u16,
    client: &Option<String>,
    session: SessionUpdate,
) -> (r: SessionKafkaMessage)
    ensures
        r == update_message(
            org_id,
            project_id,
            event_retention,
            *client,
            SessionUpdate { status: individual_status(session.status), ..session },
        ),
{
    let mut session = session;
    if session.status == SessionStatus::Errored {
        session.status = SessionStatus::Exited;
    }
    produce_session_update(org_id, project_id, event_retention, client, session)
}

/// The messages of one aggregate item: one per nonzero count, in the order exited,
/// errored, abnormal, crashed.
pub open spec fn item_messages(base: SessionKafkaMessage, it: SessionAggregateItem) -> Seq<SessionKafkaMessage> {
    let m = SessionKafkaMessage { started: it.started, distinct_id: opt_distinct_id(it.distinct_id), ..base };
    (if it.exited > 0 {
        seq![SessionKafkaMessage { errors: 0, quantity: it.exited, ..m }]
    } else {
        Seq::empty()
    }) + (if it.errored > 0 {
        seq![SessionKafkaMessage { errors: 1, status: SessionStatus::Errored, quantity: it.errored, ..m }]
    } else {
        Seq::empty()
    }) + (if it.abnormal > 0 {
        seq![SessionKafkaMessage { errors: 1, status: SessionStatus::Abnormal, quantity: it.abnormal, ..m }]
    } else {
        Seq::empty()
    }) + (if it.crashed > 0 {
        seq![SessionKafkaMessage { errors: 1, status: SessionStatus::Crashed, quantity: it.crashed, ..m }]
    } else {
        Seq::empty()
    })
}

pub open spec fn explode(base: SessionKafkaMessage, items: Seq<SessionAggregateItem>) -> Seq<SessionKafkaMessage>
    decreases items.len(),
{
    if items.len() == 0 {
        Seq::empty()
    } else {
        explode(base, items.drop_last()) + item_messages(base, items.last())
    }
}

pub open spec fn aggregate_base(
    org_id: u64,
    project_id: u64,
    retention: u16,
    sdk: Option<String>,
    received: i64,
    release: String,
    environment: Option<String>,
) -> SessionKafkaMessage {
    SessionKafkaMessage {
        org_id,
        project_id,
        session_id: 0,
        distinct_id: 0,
        quantity: 1,
        seq: 0,
        received,
        started: 0,
        duration: None,
        status: SessionStatus::Exited,
        errors: 0,
        release,
        environment,
        sdk,
        retention_days: retention,
    }
}

fn with_counts(m: &SessionKafkaMessage, errors: u16, status: SessionStatus, quantity: u32) -> (r: SessionKafkaMessage)
    ensures
        r == (SessionKafkaMessage { errors, status, quantity, ..*m }),
{
    SessionKafkaMessage {
        org_id: m.org_id,
        project_id: m.project_id,
        session_id: m.session_id,
        distinct_id: m.distinct_id,
        quantity,
        seq: m.seq,
        received: m.received,
        started: m.started,
        duration: m.duration,
        status,
        errors,
        release: m.release.clone(),
        environment: clone_opt(&m.environment),
        sdk: clone_opt(&m.sdk),
        retention_days: m.retention_days,
    }
}

/// Explodes session aggregates into per-status messages, for at most
/// `MAX_EXPLODED_SESSIONS` aggregate items; later items are dropped.
pub fn produce_sessions_from_aggregate(
    org_id: u64,
    project_id: u64,
    event_retention: u16,
    client: &Option<String>,
    received: i64,
    aggregates: &SessionAggregates,
) -> (r: Vec<SessionKafkaMessage>)
    ensures
        r@ == explode(
            aggregate_base(
                org_id,
                project_id,
                event_retention,
                *client,
                received,
                aggregates.release,
                aggregates.environment,
            ),
            aggregates.aggregates@.take(
                if aggregates.aggregates@.len() < MAX_EXPLODED_SESSIONS {
                    aggregates.aggregates@.len() as int
                } else {
                    MAX_EXPLODED_SESSIONS as int
                },
            ),
        ),
{
    let ghost items = aggregates.aggregates@;
    let base = SessionKafkaMessage {
        org_id,
        project_id,
        session_id: 0,
        distinct_id: 0,
        quantity: 1,
        seq: 0,
        received,
        started: 0,
        duration: None,
        status: SessionStatus::Exited,
        errors: 0,
        release: aggregates.release.clone(),
        environment: clone_opt(&aggregates.environment),
        sdk: clone_opt(client),
        retention_days: event_retention,
    };
    let n = if aggregates.aggregates.len() < MAX_EXPLODED_SESSIONS {
        aggregates.aggregates.len()
    } else {
        MAX_EXPLODED_SESSIONS
    };
    let mut out: Vec<SessionKafkaMessage> = Vec::new();
    let mut i: usize = 0;
    while i < n
        invariant
            n <= items.len(),
            items == aggregates.aggregates@,
            i <= n,
            out@ == explode(base, items.take(i as int)),
        decreases n - i,
    {
        let it = &aggregates.aggregates[i];
        let mut m = with_counts(&base, base.errors, base.status, base.quantity);
        m.started = it.started;
        m.distinct_id = opt_distinct_id_exec(&it.distinct_id);
        let ghost before = out@;
        let ghost mm = m;
        if it.exited > 0 {
            out.push(with_counts(&m, 0, m.status, it.exited));
        }
        if it.errored > 0 {
            out.push(with_counts(&m, 1, SessionStatus::Errored, it.errored));
        }
        if it.abnormal > 0 {
            out.push(with_counts(&m, 1, SessionStatus::Abnormal, it.abnormal));
        }
        if it.crashed > 0 {
            out.push(with_counts(&m, 1, SessionStatus::Crashed, it.crashed));
        }
        proof {
            assert(items.take(i + 1).drop_last() =~= items.take(i as int));
            assert(items.take(i + 1).last() == *it);
            assert(mm == (SessionKafkaMessage {
                started: it.started,
                distinct_id: opt_distinct_id(it.distinct_id),
                ..base
            }));
            assert(out@ =~= before + item_messages(base, *it));
        }
        i = i + 1;
    }
    out
}

/// The namespace of a metric name `type:namespace/name@unit`.
#[derive(Clone, Copy, Debug, PartialEq, Eq, Structural)]
pub enum MetricNamespace {
    Transactions,
    Sessions,
    Unsupported,
}

/// The characters between the first `:` and the following `/`, if both exist.
pub open spec fn namespace_text(name: Seq<char>) -> Option<Seq<char>> {
    if exists|c: int, sl: int|
        0 <= c < sl < name.len() && name[c] == ':' && name[sl] == '/' && (forall|k: int|
            0 <= k < c ==> name[k] != ':') && (forall|k: int| c < k < sl ==> name[k] != '/') {
        let (c, sl) = choose|c: int, sl: int|
            0 <= c < sl < name.len() && name[c] == ':' && name[sl] == '/' && (forall|k: int|
                0 <= k < c ==> name[k] != ':') && (forall|k: int| c < k < sl ==> name[k] != '/');
        Some(name.subrange(c + 1, sl))
    } else {
        None
    }
}

pub open spec fn spec_namespace(name: Seq<char>) -> MetricNamespace {
    match namespace_text(name) {
        Some(t) => if t == "transactions"@ {
            MetricNamespace::Transactions
        } else if t == "sessions"@ {
            MetricNamespace::Sessions
        } else {
            MetricNamespace::Unsupported
        },
        None => MetricNamespace::Unsupported,
    }
}

fn find_char(v: &Vec<char>, from: usize, c: char) -> (r: Option<usize>)
    requires
        from <= v@.len(),
    ensures
        match r {
            Some(i) => from <= i < v@.len() && v@[i as int] == c && forall|k: int| from <= k < i ==> v@[k] != c,
            None => forall|k: int| from <= k < v@.len() ==> v@[k] != c,
        },
{
    let mut i = from;
    while i < v.len()
        invariant
            from <= i <= v@.len(),
            forall|k: int| from <= k < i ==> v@[k] != c,
        decreases v@.len() - i,
    {
        if v[i] == c {
            return Some(i);
        }
        i = i + 1;
    }
    None
}

fn range_equals(v: &Vec<char>, a: usize, b: usize, t: &str) -> (r: bool)
    requires
        a <= b <= v@.len(),
    ensures
        r == (v@.subrange(a as int, b as int) == t@),
{
    let n = t.unicode_len();
    if b - a != n {
        return false;
    }
    let mut i: usize = 0;
    while i < n
        invariant
            n == t@.len(),
            b - a == n,
            a <= b <= v@.len(),
            i <= n,
            forall|k: int| 0 <= k < i ==> v@[a + k] == t@[k],
        decreases n - i,
    {
        if v[a + i] != t.get_char(i) {
            assert(v@.subrange(a as int, b as int)[i as int] != t@[i as int]);
            return false;
        }
        i = i + 1;
    }
    assert(v@.subrange(a as int, b as int) =~= t@);
    true
}

/// The namespace of a metric name.
pub fn metric_namespace(name: &str) -> (r: MetricNamespace)
    ensures
        r == spec_namespace(name@),
{
    let v = crate::project_state::chars_of(name);
    let c = match find_char(&v, 0, ':') {
        Some(c) => c,
        None => {
            assert(namespace_text(name@) is None);
            return MetricNamespace::Unsupported;
        },
    };
    let len: usize = v.len();
    assert(c < len);
    let sl = match find_char(&v, c + 1, '/') {
        Some(sl) => sl,
        None => {
            assert(namespace_text(name@) is None) by {
                if exists|c2: int, sl2: int|
                    0 <= c2 < sl2 < name@.len() && name@[c2] == ':' && name@[sl2] == '/' && (forall|k: int|
                        0 <= k < c2 ==> name@[k] != ':') && (forall|k: int| c2 < k < sl2 ==> name@[k] != '/') {
                    let (c2, sl2) = choose|c2: int, sl2: int|
                        0 <= c2 < sl2 < name@.len() && name@[c2] == ':' && name@[sl2] == '/' && (forall|k: int|
                            0 <= k < c2 ==> name@[k] != ':') && (forall|k: int| c2 < k < sl2 ==> name@[k] != '/');
                    assert(c2 == c);
                }
            }
            return MetricNamespace::Unsupported;
        },
    };
    proof {
        let (c2, sl2) = choose|c2: int, sl2: int|
            0 <= c2 < sl2 < name@.len() && name@[c2] == ':' && name@[sl2] == '/' && (forall|k: int|
                0 <= k < c2 ==> name@[k] != ':') && (forall|k: int| c2 < k < sl2 ==> name@[k] != '/');
        assert(c2 == c as int);
        assert(sl2 == sl as int);
    }
    if range_equals(&v, c + 1, sl, "transactions") {
        MetricNamespace::Transactions
    } else if range_equals(&v, c + 1, sl, "sessions") {
        MetricNamespace::Sessions
    } else {
        MetricNamespace::Unsupported
    }
}

/// The topic for a metric: by namespace; unsupported metrics are not published.
pub fn metric_topic(name: &str) -> (r: Option<KafkaTopic>)
    ensures
        r == match spec_namespace(name@) {
            MetricNamespace::Transactions => Some(KafkaTopic::MetricsTransactions),
            MetricNamespace::Sessions => Some(KafkaTopic::MetricsSessions),
            MetricNamespace::Unsupported => None,
        },
{
    match metric_namespace(name) {
        MetricNamespace::Transactions => Some(KafkaTopic::MetricsTransactions),
        MetricNamespace::Sessions => Some(KafkaTopic::MetricsSessions),
        MetricNamespace::Unsupported => None,
    }
}

/// A message together with its topic and the organization it belongs to.
#[derive(Clone, Debug, PartialEq, Eq)]
pub struct Produced {
    pub topic: KafkaTopic,
    pub organization_id: u64,
    pub message: KafkaMessage,
}

/// The name and timestamp of one metric bucket parsed from an item.
#[derive(Clone, Debug, PartialEq, Eq)]
pub struct BucketRef {
    pub name: String,
    pub timestamp: u64,
}

/// What the caller decoded from an item's payload.
#[derive(Clone, Debug, PartialEq, Eq)]
pub enum ParsedPayload {
    /// Nothing to decode for this item type.
    Raw,
    /// The payload could not be decoded; the item is skipped.
    Malformed,
    Session(SessionUpdate),
    Aggregates(SessionAggregates),
    Buckets(Vec<BucketRef>),
}

pub open spec fn needs_event_id(ty: ItemType) -> bool {
    ty == ItemType::Attachment || ty == ItemType::UserReport || ty == ItemType::ReplayEvent || ty
        == ItemType::ReplayRecording
}

/// Publishing fails exactly when the envelope has no event id but an item or its event
/// needs one.
pub open spec fn missing_event_id(envelope: Envelope) -> bool {
    envelope.event_id is None && ((exists|i: int|
        0 <= i < envelope.items@.len() && needs_event_id(#[trigger] envelope.items@[i].ty)) || first_event(
        envelope.items@,
    ) is Some)
}

/// The chunk messages of a payload, as they are appended to the output.
pub open spec fn chunk_messages_at(
    out: Seq<Produced>,
    start: int,
    topic: KafkaTopic,
    organization_id: u64,
    chunks: Seq<Seq<u8>>,
    id: Seq<char>,
    event_id: u128,
    project_id: u64,
    replay: bool,
) -> bool {
    &&& out.len() >= start + chunks.len()
    &&& forall|k: int|
        0 <= k < chunks.len() ==> {
            let p = #[trigger] out[start + k];
            &&& p.topic == topic
            &&& p.organization_id == organization_id
            &&& if replay {
                p.message matches KafkaMessage::ReplayRecordingChunk(m) && m.payload@ == chunks[k]
                    && m.chunk_index == k && m.id@ == id && m.replay_id == event_id && m.project_id
                    == project_id
            } else {
                p.message matches KafkaMessage::AttachmentChunk(m) && m.payload@ == chunks[k]
                    && m.chunk_index == k && m.id@ == id && m.event_id == event_id && m.project_id
                    == project_id
            }
        }
}

fn push_chunks(
    out: &mut Vec<Produced>,
    topic: KafkaTopic,
    organization_id: u64,
    payload: &Vec<u8>,
    chunk_size: usize,
    id: &String,
    event_id: u128,
    project_id: u64,
    replay: bool,
) -> (n: usize)
    requires
        chunk_size > 0,
    ensures
        n == chunks_from(payload@, chunk_size as nat, 0).len(),
        final(out)@.len() == old(out)@.len() + n,
        final(out)@.take(old(out)@.len() as int) == old(out)@,
        chunk_messages_at(
            final(out)@,
            old(out)@.len() as int,
            topic,
            organization_id,
            chunks_from(payload@, chunk_size as nat, 0),
            id@,
            event_id,
            project_id,
            replay,
        ),
{
    let ghost start = out@.len() as int;
    let ghost o0 = out@;
    let ghost all = chunks_from(payload@, chunk_size as nat, 0);
    let mut chunks = split_chunks(payload, chunk_size);
    let n = chunks.len();
    let mut k: usize = 0;
    while chunks.len() > 0
        invariant
            k <= n,
            n == all.len(),
            chunks@.len() == n - k,
            forall|j: int| 0 <= j < chunks@.len() ==> (#[trigger] chunks@[j])@ == all[k + j],
            out@.len() == start + k,
            out@.take(start) == o0,
            o0.len() == start,
            chunk_messages_at(out@, start, topic, organization_id, all.take(k as int), id@, event_id, project_id, replay),
        decreases chunks@.len(),
    {
        let ghost cs0 = chunks@;
        let piece = chunks.remove(0);
        proof {
            assert(piece@ == all[k as int]) by {
                assert(cs0[0]@ == all[k + 0]);
            }
            assert forall|j: int| 0 <= j < chunks@.len() implies (#[trigger] chunks@[j])@ == all[k + 1 + j] by {
                assert(chunks@[j] == cs0[j + 1]);
                assert(cs0[j + 1]@ == all[k + (j + 1)]);
            }
        }
        let message = if replay {
            KafkaMessage::ReplayRecordingChunk(
                ReplayRecordingChunkKafkaMessage {
                    payload: piece,
                    replay_id: event_id,
                    project_id,
                    id: id.clone(),
                    chunk_index: k,
                },
            )
        } else {
            KafkaMessage::AttachmentChunk(
                AttachmentChunkKafkaMessage {
                    payload: piece,
                    event_id,
                    project_id,
                    id: id.clone(),
                    chunk_index: k,
                },
            )
        };
        let ghost before = out@;
        out.push(Produced { topic, organization_id, message });
        proof {
            assert(out@.take(start) =~= before.take(start));
            let t = all.take(k + 1);
            assert forall|j: int| 0 <= j < t.len() implies {
                let p = #[trigger] out@[start + j];
                &&& p.topic == topic
                &&& p.organization_id == organization_id
                &&& if replay {
                    p.message matches KafkaMessage::ReplayRecordingChunk(m) && m.payload@ == t[j]
                        && m.chunk_index == j && m.id@ == id@ && m.replay_id == event_id && m.project_id
                        == project_id
                } else {
                    p.message matches KafkaMessage::AttachmentChunk(m) && m.payload@ == t[j]
                        && m.chunk_index == j && m.id@ == id@ && m.event_id == event_id && m.project_id
                        == project_id
                }
            } by {
                if j < k {
                    assert(out@[start + j] == before[start + j]);
                    assert(t[j] == all.take(k as int)[j]);
                }
            }
        }
        k = k + 1;
    }
    assert(all.take(n as int) =~= all);
    n
}

/// Publishes the settings of the store: the chunk size for attachments.
#[derive(Clone, Copy, Debug, PartialEq, Eq, Structural)]
pub struct StoreService {
    pub attachment_chunk_size: usize,
}

pub open spec fn opt_str_or(s: Option<String>, d: Seq<char>) -> Seq<char> {
    match s {
        Some(v) => v@,
        None => d,
    }
}

impl StoreService {
    pub open spec fn wf(&self) -> bool {
        self.attachment_chunk_size > 0
    }

    /// A store that splits attachments into chunks of `attachment_chunk_size` bytes.
    pub fn create(attachment_chunk_size: usize) -> (r: StoreService)
        requires
            attachment_chunk_size > 0,
        ensures
            r.wf(),
            r.attachment_chunk_size == attachment_chunk_size,
    {
        StoreService { attachment_chunk_size }
    }

    /// Publishes an attachment as chunks on the attachments topic and describes it; an
    /// empty attachment has no chunks.
    pub fn produce_attachment_chunks(
        &self,
        event_id: u128,
        organization_id: u64,
        project_id: u64,
        item: &Item,
        id: String,
        out: &mut Vec<Produced>,
    ) -> (r: ChunkedAttachment)
        requires
            self.wf(),
        ensures
            final(out)@.take(old(out)@.len() as int) == old(out)@,
            final(out)@.len() == old(out)@.len() + r.chunks,
            chunk_messages_at(
                final(out)@,
                old(out)@.len() as int,
                KafkaTopic::Attachments,
                organization_id,
                chunks_from(item.payload@, self.attachment_chunk_size as nat, 0),
                id@,
                event_id,
                project_id,
                false,
            ),
            r.chunks == chunks_from(item.payload@, self.attachment_chunk_size as nat, 0).len(),
            r.id@ == id@,
            r.name@ == opt_str_or(item.filename, UNNAMED_ATTACHMENT@),
            r.content_type == item.content_type,
            r.attachment_type == match item.attachment_type {
                Some(t) => t,
                None => AttachmentType::Attachment,
            },
            r.size == Some(item.payload@.len() as usize),
            r.rate_limited == Some(item.rate_limited),
    {
        let chunks = push_chunks(
            out,
            KafkaTopic::Attachments,
            organization_id,
            &item.payload,
            self.attachment_chunk_size,
            &id,
            event_id,
            project_id,
            false,
        );
        let name = match &item.filename {
            Some(n) => n.clone(),
            None => UNNAMED_ATTACHMENT.to_owned(),
        };
        ChunkedAttachment {
            id,
            name,
            content_type: clone_opt(&item.content_type),
            attachment_type: match item.attachment_type {
                Some(t) => t,
                None => AttachmentType::Attachment,
            },
            chunks,
            size: Some(item.payload.len()),
            rate_limited: Some(item.rate_limited),
        }
    }
}

/// Publishes a replay recording: in one message when it is at most `MAX_REPLAY_PAYLOAD`
/// bytes, else as chunks followed by a summary that counts them.
pub fn produce_replay_recording(
    event_id: Option<u128>,
    scoping: &Scoping,
    item: &Item,
    start_time: u64,
    retention: u16,
    id: String,
    out: &mut Vec<Produced>,
) -> (r: Result<(), StoreError>)
    ensures
        event_id is None ==> r == Err::<(), StoreError>(StoreError::NoEventId) && final(out)@ == old(out)@,
        event_id is Some ==> r is Ok,
        final(out)@.take(old(out)@.len() as int) == old(out)@,
        (event_id is Some && item.payload@.len() <= MAX_REPLAY_PAYLOAD) ==> ({
            &&& final(out)@.len() == old(out)@.len() + 1
            &&& final(out)@.last() matches Produced {
                topic: KafkaTopic::ReplayRecordings,
                organization_id: o,
                message: KafkaMessage::ReplayRecordingNotChunked(m),
            }
            &&& o == scoping.organization_id && m.payload@ == item.payload@ && m.replay_id == event_id.unwrap()
            &&& m.key_id == scoping.key_id && m.org_id == scoping.organization_id
            &&& m.project_id == scoping.project_id && m.received == start_time && m.retention_days == retention
        }),
        (event_id is Some && item.payload@.len() > MAX_REPLAY_PAYLOAD) ==> ({
            let chunks = chunks_from(item.payload@, MAX_REPLAY_PAYLOAD as nat, 0);
            &&& final(out)@.len() == old(out)@.len() + chunks.len() + 1
            &&& chunk_messages_at(
                final(out)@,
                old(out)@.len() as int,
                KafkaTopic::ReplayRecordings,
                scoping.organization_id,
                chunks,
                id@,
                event_id.unwrap(),
                scoping.project_id,
                true,
            )
            &&& final(out)@.last() matches Produced {
                topic: KafkaTopic::ReplayRecordings,
                organization_id: o,
                message: KafkaMessage::ReplayRecording(m),
            } && o == scoping.organization_id && m.replay_id == event_id.unwrap() && m.replay_recording.chunks
                == chunks.len() && m.replay_recording.size == Some(item.payload@.len() as usize)
                && m.replay_recording.id@ == id@ && m.key_id == scoping.key_id && m.received == start_time
                && m.retention_days == retention && m.org_id == scoping.organization_id && m.project_id
                == scoping.project_id
        }),
{
    let replay_id = match event_id {
        Some(e) => e,
        None => return Err(StoreError::NoEventId),
    };
    let size = item.payload.len();
    if size <= MAX_REPLAY_PAYLOAD {
        let ghost o0 = out@;
        out.push(
            Produced {
                topic: KafkaTopic::ReplayRecordings,
                organization_id: scoping.organization_id,
                message: KafkaMessage::ReplayRecordingNotChunked(
                    ReplayRecordingNotChunkedKafkaMessage {
                        replay_id,
                        key_id: scoping.key_id,
                        org_id: scoping.organization_id,
                        project_id: scoping.project_id,
                        received: start_time,
                        retention_days: retention,
                        payload: copy_range(&item.payload, 0, size),
                    },
                ),
            },
        );
        assert(item.payload@.subrange(0, size as int) =~= item.payload@);
        assert(out@.take(o0.len() as int) =~= o0);
    } else {
        let ghost o0 = out@;
        let chunks = push_chunks(
            out,
            KafkaTopic::ReplayRecordings,
            scoping.organization_id,
            &item.payload,
            MAX_REPLAY_PAYLOAD,
            &id,
            replay_id,
            scoping.project_id,
            true,
        );
        let ghost o1 = out@;
        out.push(
            Produced {
                topic: KafkaTopic::ReplayRecordings,
                organization_id: scoping.organization_id,
                message: KafkaMessage::ReplayRecording(
                    ReplayRecordingKafkaMessage {
                        replay_id,
                        key_id: scoping.key_id,
                        org_id: scoping.organization_id,
                        project_id: scoping.project_id,
                        received: start_time,
                        retention_days: retention,
                        replay_recording: ReplayRecordingChunkMeta { id, chunks, size: Some(size) },
                    },
                ),
            },
        );
        proof {
            assert(out@.take(o0.len() as int) =~= o1.take(o0.len() as int));
            let all = chunks_from(item.payload@, MAX_REPLAY_PAYLOAD as nat, 0);
            assert forall|k: int| 0 <= k < all.len() implies #[trigger] out@[o0.len() + k] == o1[o0.len() + k] by {}
        }
    }
    Ok(())
}

/// A user report, published on the attachments topic.
pub fn produce_user_report(
    event_id: u128,
    organization_id: u64,
    project_id: u64,
    start_time: u64,
    item: &Item,
) -> (r: Produced)
    ensures
        r.topic == KafkaTopic::Attachments,
        r.organization_id == organization_id,
        r.message matches KafkaMessage::UserReport(m) && m.project_id == project_id && m.start_time == start_time
            && m.payload@ == item.payload@ && m.event_id == event_id,
{
    let payload = copy_range(&item.payload, 0, item.payload.len());
    assert(item.payload@.subrange(0, item.payload@.len() as int) =~= item.payload@);
    Produced {
        topic: KafkaTopic::Attachments,
        organization_id,
        message: KafkaMessage::UserReport(UserReportKafkaMessage { project_id, start_time, payload, event_id }),
    }
}

/// A profile, published on the profiles topic.
pub fn produce_profile(
    organization_id: u64,
    project_id: u64,
    key_id: Option<u64>,
    start_time: u64,
    item: &Item,
) -> (r: Produced)
    ensures
        r.topic == KafkaTopic::Profiles,
        r.organization_id == organization_id,
        r.message matches KafkaMessage::Profile(m) && m.organization_id == organization_id && m.project_id
            == project_id && m.key_id == key_id && m.received == start_time && m.payload@ == item.payload@,
{
    let payload = copy_range(&item.payload, 0, item.payload.len());
    assert(item.payload@.subrange(0, item.payload@.len() as int) =~= item.payload@);
    Produced {
        topic: KafkaTopic::Profiles,
        organization_id,
        message: KafkaMessage::Profile(
            ProfileKafkaMessage { organization_id, project_id, key_id, received: start_time, payload },
        ),
    }
}

/// A replay event, published on the replay events topic.
pub fn produce_replay_event(
    replay_id: u128,
    organization_id: u64,
    project_id: u64,
    start_time: u64,
    retention_days: u16,
    item: &Item,
) -> (r: Produced)
    ensures
        r.topic == KafkaTopic::ReplayEvents,
        r.organization_id == organization_id,
        r.message matches KafkaMessage::ReplayEvent(m) && m.payload@ == item.payload@ && m.start_time == start_time
            && m.replay_id == replay_id && m.project_id == project_id && m.retention_days == retention_days,
{
    let payload = copy_range(&item.payload, 0, item.payload.len());
    assert(item.payload@.subrange(0, item.payload@.len() as int) =~= item.payload@);
    Produced {
        topic: KafkaTopic::ReplayEvents,
        organization_id,
        message: KafkaMessage::ReplayEvent(
            ReplayEventKafkaMessage { payload, start_time, replay_id, project_id, retention_days },
        ),
    }
}

/// A publication request for one envelope: the envelope, when it arrived (seconds since
/// the epoch), and its scoping.
#[derive(Clone, Debug)]
pub struct StoreEnvelope {
    pub envelope: Envelope,
    pub start_time: u64,
    pub scoping: Scoping,
}

fn push_all_sessions(out: &mut Vec<Produced>, organization_id: u64, messages: Vec<SessionKafkaMessage>)
    ensures
        final(out)@.len() == old(out)@.len() + messages@.len(),
        final(out)@.take(old(out)@.len() as int) == old(out)@,
        forall|k: int|
            0 <= k < messages@.len() ==> #[trigger] final(out)@[old(out)@.len() + k] == (Produced {
                topic: KafkaTopic::Sessions,
                organization_id,
                message: KafkaMessage::Session(messages@[k]),
            }),
{
    let ghost o0 = out@;
    let ghost ms = messages@;
    let mut rest = messages;
    let ghost mut k: int = 0;
    while rest.len() > 0
        invariant
            0 <= k <= ms.len(),
            rest@ == ms.subrange(k, ms.len() as int),
            out@.len() == o0.len() + k,
            out@.take(o0.len() as int) == o0,
            forall|j: int|
                0 <= j < k ==> #[trigger] out@[o0.len() + j] == (Produced {
                    topic: KafkaTopic::Sessions,
                    organization_id,
                    message: KafkaMessage::Session(ms[j]),
                }),
        decreases rest@.len(),
    {
        let m = rest.remove(0);
        let ghost before = out@;
        out.push(Produced { topic: KafkaTopic::Sessions, organization_id, message: KafkaMessage::Session(m) });
        proof {
            assert(out@.take(o0.len() as int) =~= before.take(o0.len() as int));
            assert forall|j: int| 0 <= j < k + 1 implies #[trigger] out@[o0.len() + j] == (Produced {
                topic: KafkaTopic::Sessions,
                organization_id,
                message: KafkaMessage::Session(ms[j]),
            }) by {
                if j < k {
                    assert(out@[o0.len() + j] == before[o0.len() + j]);
                }
            }
            k = k + 1;
            assert(rest@ =~= ms.subrange(k, ms.len() as int));
        }
    }
}

pub open spec fn flatten(ss: Seq<Seq<Produced>>) -> Seq<Produced>
    decreases ss.len(),
{
    if ss.len() == 0 {
        Seq::empty()
    } else {
        flatten(ss.drop_last()) + ss.last()
    }
}

pub open spec fn retention_of(e: Envelope) -> u16 {
    match e.retention {
        Some(d) => d,
        None => crate::envelope::DEFAULT_RETENTION,
    }
}

/// The metric messages for the buckets of item `i`: one per bucket with a supported
/// namespace, in order.
pub open spec fn metric_messages(bs: Seq<BucketRef>, org: u64, pid: u64, i: int) -> Seq<Produced>
    decreases bs.len(),
{
    if bs.len() == 0 {
        Seq::empty()
    } else {
        let prev = metric_messages(bs.drop_last(), org, pid, i);
        let b = bs.last();
        let m = KafkaMessage::Metric(
            MetricKafkaMessage {
                org_id: org,
                project_id: pid,
                name: b.name,
                timestamp: b.timestamp,
                item_index: i as usize,
                bucket_index: (bs.len() - 1) as usize,
            },
        );
        match spec_namespace(b.name@) {
            MetricNamespace::Transactions => prev.push(
                Produced { topic: KafkaTopic::MetricsTransactions, organization_id: org, message: m },
            ),
            MetricNamespace::Sessions => prev.push(
                Produced { topic: KafkaTopic::MetricsSessions, organization_id: org, message: m },
            ),
            MetricNamespace::Unsupported => prev,
        }
    }
}

/// The messages of a replay recording: one message up to `MAX_REPLAY_PAYLOAD` bytes,
/// else its chunks and then a summary.
pub open spec fn replay_segment(
    seg: Seq<Produced>,
    it: Item,
    id: Seq<char>,
    eid: u128,
    scoping: Scoping,
    start_time: u64,
    retention: u16,
) -> bool {
    let org = scoping.organization_id;
    if it.payload@.len() <= MAX_REPLAY_PAYLOAD {
        &&& seg.len() == 1
        &&& seg[0] matches Produced {
            topic: KafkaTopic::ReplayRecordings,
            organization_id: o,
            message: KafkaMessage::ReplayRecordingNotChunked(m),
        }
        &&& o == org && m.payload@ == it.payload@ && m.replay_id == eid && m.key_id == scoping.key_id
        &&& m.org_id == org && m.project_id == scoping.project_id && m.received == start_time
        &&& m.retention_days == retention
    } else {
        let ch = chunks_from(it.payload@, MAX_REPLAY_PAYLOAD as nat, 0);
        &&& seg.len() == ch.len() + 1
        &&& chunk_messages_at(seg, 0, KafkaTopic::ReplayRecordings, org, ch, id, eid, scoping.project_id, true)
        &&& seg.last() matches Produced {
            topic: KafkaTopic::ReplayRecordings,
            organization_id: o,
            message: KafkaMessage::ReplayRecording(m),
        }
        &&& o == org && m.replay_id == eid && m.replay_recording.chunks == ch.len()
        &&& m.replay_recording.size == Some(it.payload@.len() as usize) && m.replay_recording.id@ == id
        &&& m.key_id == scoping.key_id && m.received == start_time && m.retention_days == retention
        &&& m.org_id == org && m.project_id == scoping.project_id
    }
}

/// The messages that item `i` of an envelope publishes, given what was decoded from it
/// and its fresh id.
pub open spec fn item_segment(
    seg: Seq<Produced>,
    it: Item,
    p: ParsedPayload,
    id: Seq<char>,
    i: int,
    cs: nat,
    env: Envelope,
    scoping: Scoping,
    start_time: u64,
    received: i64,
) -> bool {
    let org = scoping.organization_id;
    let pid = scoping.project_id;
    let eid = env.event_id.unwrap();
    let retention = retention_of(env);
    match it.ty {
        ItemType::Attachment => {
            let ch = chunks_from(it.payload@, cs, 0);
            seg.len() == ch.len() && chunk_messages_at(seg, 0, KafkaTopic::Attachments, org, ch, id, eid, pid, false)
        },
        ItemType::UserReport => {
            &&& seg.len() == 1
            &&& seg[0].topic == KafkaTopic::Attachments && seg[0].organization_id == org
            &&& seg[0].message matches KafkaMessage::UserReport(m)
            &&& m.project_id == pid && m.start_time == start_time && m.payload@ == it.payload@ && m.event_id == eid
        },
        ItemType::Session => match p {
            ParsedPayload::Session(s) => seg == seq![
                Produced {
                    topic: KafkaTopic::Sessions,
                    organization_id: org,
                    message: KafkaMessage::Session(
                        update_message(
                            org,
                            pid,
                            retention,
                            env.meta.client,
                            SessionUpdate { status: individual_status(s.status), ..s },
                        ),
                    ),
                },
            ],
            _ => seg.len() == 0,
        },
        ItemType::Sessions => match p {
            ParsedPayload::Aggregates(a) => {
                let n: int = if a.aggregates@.len() < MAX_EXPLODED_SESSIONS {
                    a.aggregates@.len() as int
                } else {
                    MAX_EXPLODED_SESSIONS as int
                };
                let ms = explode(
                    aggregate_base(org, pid, retention, env.meta.client, received, a.release, a.environment),
                    a.aggregates@.take(n),
                );
                &&& seg.len() == ms.len()
                &&& forall|k: int|
                    0 <= k < ms.len() ==> #[trigger] seg[k] == (Produced {
                        topic: KafkaTopic::Sessions,
                        organization_id: org,
                        message: KafkaMessage::Session(ms[k]),
                    })
            },
            _ => seg.len() == 0,
        },
        ItemType::MetricBuckets => match p {
            ParsedPayload::Buckets(bs) => seg == metric_messages(bs@, org, pid, i),
            _ => seg.len() == 0,
        },
        ItemType::Profile => {
            &&& seg.len() == 1
            &&& seg[0].topic == KafkaTopic::Profiles && seg[0].organization_id == org
            &&& seg[0].message matches KafkaMessage::Profile(m)
            &&& m.organization_id == org && m.project_id == pid && m.key_id == scoping.key_id
            &&& m.received == start_time && m.payload@ == it.payload@
        },
        ItemType::ReplayRecording => replay_segment(seg, it, id, eid, scoping, start_time, retention),
        ItemType::ReplayEvent => {
            &&& seg.len() == 1
            &&& seg[0].topic == KafkaTopic::ReplayEvents && seg[0].organization_id == org
            &&& seg[0].message matches KafkaMessage::ReplayEvent(m)
            &&& m.payload@ == it.payload@ && m.start_time == start_time && m.replay_id == eid
            &&& m.project_id == pid && m.retention_days == retention
        },
        _ => seg.len() == 0,
    }
}

/// Indices of the attachment items, in order.
pub open spec fn attachment_indices(items: Seq<Item>) -> Seq<int>
    decreases items.len(),
{
    if items.len() == 0 {
        Seq::empty()
    } else {
        let prev = attachment_indices(items.drop_last());
        if items.last().ty == ItemType::Attachment {
            prev.push(items.len() - 1)
        } else {
            prev
        }
    }
}

/// The description of an attachment published with fresh id `id` in chunks of `cs` bytes.
pub open spec fn attachment_ok(a: ChunkedAttachment, it: Item, id: Seq<char>, cs: nat) -> bool {
    &&& a.chunks == chunks_from(it.payload@, cs, 0).len()
    &&& a.id@ == id
    &&& a.name@ == opt_str_or(it.filename, UNNAMED_ATTACHMENT@)
    &&& a.content_type == it.content_type
    &&& a.attachment_type == match it.attachment_type {
        Some(t) => t,
        None => AttachmentType::Attachment,
    }
    &&& a.size == Some(it.payload@.len() as usize)
    &&& a.rate_limited == Some(it.rate_limited)
}

/// What follows the items' messages: the event listing every attachment, or without an
/// event one message per attachment.
pub open spec fn tail_ok(t: Seq<Produced>, env: Envelope, ids: Seq<String>, scoping: Scoping, cs: nat, start_time: u64) -> bool {
    let items = env.items@;
    let ai = attachment_indices(items);
    let eid = env.event_id.unwrap();
    match first_event(items) {
        Some(k) => {
            &&& t.len() == 1
            &&& t[0] matches Produced { topic: tp, organization_id: o, message: KafkaMessage::Event(m) }
            &&& tp == spec_topic(items) && o == scoping.organization_id
            &&& m.payload@ == items[k].payload@ && m.event_id == eid && m.project_id == scoping.project_id
            &&& m.start_time == start_time && m.remote_addr == env.meta.client_addr
            &&& m.attachments@.len() == ai.len()
            &&& forall|q: int|
                0 <= q < ai.len() ==> attachment_ok(#[trigger] m.attachments@[q], items[ai[q]], ids[ai[q]]@, cs)
        },
        None => {
            &&& t.len() == ai.len()
            &&& forall|q: int| 0 <= q < ai.len() ==> standalone_ok(#[trigger] t[q], env, ids, scoping, cs, ai[q])
        },
    }
}

pub open spec fn standalone_ok(p: Produced, env: Envelope, ids: Seq<String>, scoping: Scoping, cs: nat, idx: int) -> bool {
    &&& p.topic == spec_topic(env.items@) && p.organization_id == scoping.organization_id
    &&& p.message matches KafkaMessage::Attachment(am)
    &&& am.event_id == env.event_id.unwrap() && am.project_id == scoping.project_id
    &&& attachment_ok(am.attachment, env.items@[idx], ids[idx]@, cs)
}

proof fn lemma_chunks_shift(
    out: Seq<Produced>,
    start: int,
    topic: KafkaTopic,
    org: u64,
    ch: Seq<Seq<u8>>,
    id: Seq<char>,
    eid: u128,
    pid: u64,
    replay: bool,
)
    requires
        0 <= start <= out.len(),
        chunk_messages_at(out, start, topic, org, ch, id, eid, pid, replay),
    ensures
        chunk_messages_at(out.subrange(start, out.len() as int), 0, topic, org, ch, id, eid, pid, replay),
{
    let seg = out.subrange(start, out.len() as int);
    assert forall|k: int| 0 <= k < ch.len() implies #[trigger] seg[0 + k] == out[start + k] by {}
}

proof fn lemma_no_attachments(items: Seq<Item>)
    requires
        forall|j: int| 0 <= j < items.len() ==> !needs_event_id(#[trigger] items[j].ty),
    ensures
        attachment_indices(items).len() == 0,
    decreases items.len(),
{
    if items.len() > 0 {
        let p = items.drop_last();
        assert forall|j: int| 0 <= j < p.len() implies !needs_event_id(#[trigger] p[j].ty) by {
            assert(p[j] == items[j]);
        }
        lemma_no_attachments(p);
        assert(!needs_event_id(items[items.len() - 1].ty));
    }
}

impl StoreService {
    /// Publishes the items of an envelope and then its event.
    ///
    /// Items are published in order: attachments as chunks, user reports, sessions,
    /// metric buckets, profiles, replay recordings and replay events, each to its topic.
    /// Then the event, on the topic that `select_topic` gives, lists the attachments; an
    /// envelope without event publishes each attachment on its own. `parsed` holds what
    /// the caller decoded from each item's payload, and `ids` a fresh random id for each
    /// item, used for chunked payloads. Fails when an item or the event needs the event
    /// id and the envelope has none.
    pub fn handle_store_envelope(
        &self,
        message: &StoreEnvelope,
        parsed: &Vec<ParsedPayload>,
        ids: &Vec<String>,
        received: i64,
        out: &mut Vec<Produced>,
    ) -> (r: Result<(), StoreError>)
        requires
            self.wf(),
            parsed@.len() == message.envelope.items@.len(),
            ids@.len() == message.envelope.items@.len(),
        ensures
            r is Err <==> missing_event_id(message.envelope),
            r is Err ==> r == Err::<(), StoreError>(StoreError::NoEventId),
            final(out)@.take(old(out)@.len() as int) == old(out)@,
            r is Ok ==> exists|segs: Seq<Seq<Produced>>|
                #![trigger flatten(segs)]
                {
                    let items = message.envelope.items@;
                    let before = (old(out)@.len() + flatten(segs).len()) as int;
                    &&& segs.len() == items.len()
                    &&& forall|j: int|
                        0 <= j < segs.len() ==> item_segment(
                            #[trigger] segs[j],
                            items[j],
                            parsed@[j],
                            ids@[j]@,
                            j,
                            self.attachment_chunk_size as nat,
                            message.envelope,
                            message.scoping,
                            message.start_time,
                            received,
                        )
                    &&& final(out)@.len() >= before
                    &&& final(out)@.take(before) == old(out)@ + flatten(segs)
                    &&& tail_ok(
                        final(out)@.subrange(before, final(out)@.len() as int),
                        message.envelope,
                        ids@,
                        message.scoping,
                        self.attachment_chunk_size as nat,
                        message.start_time,
                    )
                },
    {
        let envelope = &message.envelope;
        let start_time = message.start_time;
        let scoping = &message.scoping;
        let ghost o0 = out@;
        let ghost items = envelope.items@;
        let ghost cs = self.attachment_chunk_size as nat;
        let org = scoping.organization_id;
        let project_id = scoping.project_id;
        let retention = envelope.retention();
        let event_index = event_item_index(&envelope.items);
        proof {
            lemma_first_event(items, 0);
        }
        let topic = select_topic(&envelope.items);
        let mut attachments: Vec<ChunkedAttachment> = Vec::new();
        let ghost mut segs: Seq<Seq<Produced>> = Seq::empty();
        let mut i: usize = 0;
        while i < envelope.items.len()
            invariant
                self.wf(),
                cs == self.attachment_chunk_size as nat,
                *envelope == message.envelope,
                *scoping == message.scoping,
                start_time == message.start_time,
                org == scoping.organization_id,
                project_id == scoping.project_id,
                retention == retention_of(*envelope),
                items == envelope.items@,
                parsed@.len() == items.len(),
                ids@.len() == items.len(),
                i <= items.len(),
                old(out)@ == o0,
                segs.len() == i,
                out@ == o0 + flatten(segs),
                forall|j: int|
                    0 <= j < i ==> item_segment(
                        #[trigger] segs[j],
                        items[j],
                        parsed@[j],
                        ids@[j]@,
                        j,
                        cs,
                        *envelope,
                        *scoping,
                        start_time,
                        received,
                    ),
                attachments@.len() == attachment_indices(items.take(i as int)).len(),
                forall|q: int|
                    0 <= q < attachments@.len() ==> 0 <= #[trigger] attachment_indices(items.take(i as int))[q] < i
                        && attachment_ok(
                        attachments@[q],
                        items[attachment_indices(items.take(i as int))[q]],
                        ids@[attachment_indices(items.take(i as int))[q]]@,
                        cs,
                    ),
                envelope.event_id is None ==> forall|j: int| 0 <= j < i ==> !needs_event_id(#[trigger] items[j].ty),
            decreases items.len() - i,
        {
            let item = &envelope.items[i];
            proof {
                assert(items.take(i + 1).drop_last() =~= items.take(i as int));
                assert(items.take(i + 1).last() == items[i as int]);
            }
            let ghost before = out@;
            let ghost att_before = attachments@;
            match item.ty {
                ItemType::Attachment => {
                    let event_id = match envelope.event_id {
                        Some(e) => e,
                        None => {
                            assert(missing_event_id(*envelope)) by {
                                assert(needs_event_id(items[i as int].ty));
                            }
                            assert(out@.take(o0.len() as int) =~= o0);
                            return Err(StoreError::NoEventId);
                        },
                    };
                    let attachment = self.produce_attachment_chunks(
                        event_id,
                        org,
                        project_id,
                        item,
                        ids[i].clone(),
                        out,
                    );
                    proof {
                        lemma_chunks_shift(
                            out@,
                            before.len() as int,
                            KafkaTopic::Attachments,
                            org,
                            chunks_from(item.payload@, cs, 0),
                            ids@[i as int]@,
                            event_id,
                            project_id,
                            false,
                        );
                    }
                    attachments.push(attachment);
                    proof {
                        let ai0 = attachment_indices(items.take(i as int));
                        let ai1 = attachment_indices(items.take(i + 1));
                        assert(ai1 == ai0.push(i as int));
                        assert forall|q: int| 0 <= q < attachments@.len() implies 0 <= #[trigger] ai1[q] < i + 1
                            && attachment_ok(attachments@[q], items[ai1[q]], ids@[ai1[q]]@, cs) by {
                            if q < att_before.len() {
                                assert(ai1[q] == ai0[q]);
                                assert(attachments@[q] == att_before[q]);
                            }
                        }
                    }
                },
                ItemType::UserReport => {
                    let event_id = match envelope.event_id {
                        Some(e) => e,
                        None => {
                            assert(missing_event_id(*envelope)) by {
                                assert(needs_event_id(items[i as int].ty));
                            }
                            assert(out@.take(o0.len() as int) =~= o0);
                            return Err(StoreError::NoEventId);
                        },
                    };
                    out.push(produce_user_report(event_id, org, project_id, start_time, item));
                    assert(out@.subrange(before.len() as int, out@.len() as int) =~= seq![out@.last()]);
                },
                ItemType::Session | ItemType::Sessions => {
                    match &parsed[i] {
                        ParsedPayload::Session(session) => {
                            if item.ty == ItemType::Session {
                                let m = produce_session(
                                    org,
                                    project_id,
                                    retention,
                                    &envelope.meta.client,
                                    copy_session_update(session),
                                );
                                out.push(
                                    Produced {
                                        topic: KafkaTopic::Sessions,
                                        organization_id: org,
                                        message: KafkaMessage::Session(m),
                                    },
                                );
                                assert(out@.subrange(before.len() as int, out@.len() as int) =~= seq![out@.last()]);
                            }
                        },
                        ParsedPayload::Aggregates(aggregates) => {
                            if item.ty == ItemType::Sessions {
                                let ms = produce_sessions_from_aggregate(
                                    org,
                                    project_id,
                                    retention,
                                    &envelope.meta.client,
                                    received,
                                    aggregates,
                                );
                                push_all_sessions(out, org, ms);
                                proof {
                                    let seg = out@.subrange(before.len() as int, out@.len() as int);
                                    assert forall|k: int| 0 <= k < ms@.len() implies #[trigger] seg[k] == (Produced {
                                        topic: KafkaTopic::Sessions,
                                        organization_id: org,
                                        message: KafkaMessage::Session(ms@[k]),
                                    }) by {
                                        assert(seg[k] == out@[before.len() + k]);
                                    }
                                }
                            }
                        },
                        _ => {},
                    }
                },
                ItemType::MetricBuckets => {
                    match &parsed[i] {
                        ParsedPayload::Buckets(buckets) => {
                            let mut j: usize = 0;
                            while j < buckets.len()
                                invariant
                                    j <= buckets@.len(),
                                    out@ == before + metric_messages(buckets@.take(j as int), org, project_id, i as int),
                                decreases buckets@.len() - j,
                            {
                                let b = &buckets[j];
                                proof {
                                    assert(buckets@.take(j + 1).drop_last() =~= buckets@.take(j as int));
                                    assert(buckets@.take(j + 1).last() == *b);
                                }
                                match metric_topic(b.name.as_str()) {
                                    Some(t) => {
                                        out.push(
                                            Produced {
                                                topic: t,
                                                organization_id: org,
                                                message: KafkaMessage::Metric(
                                                    MetricKafkaMessage {
                                                        org_id: org,
                                                        project_id,
                                                        name: b.name.clone(),
                                                        timestamp: b.timestamp,
                                                        item_index: i,
                                                        bucket_index: j,
                                                    },
                                                ),
                                            },
                                        );
                                    },
                                    None => {},
                                }
                                j = j + 1;
                                assert(out@ =~= before + metric_messages(buckets@.take(j as int), org, project_id, i as int));
                            }
                            assert(buckets@.take(buckets@.len() as int) =~= buckets@);
                            assert(out@.subrange(before.len() as int, out@.len() as int) =~= metric_messages(
                                buckets@,
                                org,
                                project_id,
                                i as int,
                            ));
                        },
                        _ => {},
                    }
                },
                ItemType::Profile => {
                    out.push(produce_profile(org, project_id, scoping.key_id, start_time, item));
                    assert(out@.subrange(before.len() as int, out@.len() as int) =~= seq![out@.last()]);
                },
                ItemType::ReplayRecording => {
                    if envelope.event_id.is_none() {
                        assert(missing_event_id(*envelope)) by {
                            assert(needs_event_id(items[i as int].ty));
                        }
                    }
                    match produce_replay_recording(
                        envelope.event_id,
                        scoping,
                        item,
                        start_time,
                        retention,
                        ids[i].clone(),
                        out,
                    ) {
                        Ok(()) => {},
                        Err(e) => {
                            assert(out@.take(o0.len() as int) =~= o0);
                            return Err(e);
                        },
                    }
                    proof {
                        let seg = out@.subrange(before.len() as int, out@.len() as int);
                        if item.payload@.len() <= MAX_REPLAY_PAYLOAD {
                            assert(seg =~= seq![out@.last()]);
                        } else {
                            assert(seg.last() == out@.last());
                            lemma_chunks_shift(
                                out@,
                                before.len() as int,
                                KafkaTopic::ReplayRecordings,
                                org,
                                chunks_from(item.payload@, MAX_REPLAY_PAYLOAD as nat, 0),
                                ids@[i as int]@,
                                envelope.event_id.unwrap(),
                                project_id,
                                true,
                            );
                        }
                    }
                },
                ItemType::ReplayEvent => {
                    let replay_id = match envelope.event_id {
                        Some(e) => e,
                        None => {
                            assert(missing_event_id(*envelope)) by {
                                assert(needs_event_id(items[i as int].ty));
                            }
                            assert(out@.take(o0.len() as int) =~= o0);
                            return Err(StoreError::NoEventId);
                        },
                    };
                    out.push(produce_replay_event(replay_id, org, project_id, start_time, retention, item));
                    assert(out@.subrange(before.len() as int, out@.len() as int) =~= seq![out@.last()]);
                },
                _ => {},
            }
            proof {
                let seg = out@.subrange(before.len() as int, out@.len() as int);
                assert(out@.take(before.len() as int) =~= before);
                assert(out@ =~= before + seg);
                assert(item_segment(
                    seg,
                    items[i as int],
                    parsed@[i as int],
                    ids@[i as int]@,
                    i as int,
                    cs,
                    *envelope,
                    *scoping,
                    start_time,
                    received,
                ));
                if item.ty != ItemType::Attachment {
                    assert(attachment_indices(items.take(i + 1)) == attachment_indices(items.take(i as int)));
                    assert(attachments@ == att_before);
                }
                let segs2 = segs.push(seg);
                assert(segs2.drop_last() =~= segs);
                assert(flatten(segs2) == flatten(segs) + seg);
                assert(out@ =~= o0 + flatten(segs2));
                segs = segs2;
            }
            i = i + 1;
        }
        assert(items.take(items.len() as int) =~= items);
        let ghost oe = out@;
        let ghost ai = attachment_indices(items);
        let ghost atts = attachments@;
        match event_index {
            Some(k) => {
                let event_id = match envelope.event_id {
                    Some(e) => e,
                    None => {
                        assert(missing_event_id(*envelope));
                        assert(out@.take(o0.len() as int) =~= o0);
                        return Err(StoreError::NoEventId);
                    },
                };
                let event_item = &envelope.items[k];
                let remote_addr = clone_opt(&envelope.meta.client_addr);
                out.push(
                    Produced {
                        topic,
                        organization_id: org,
                        message: KafkaMessage::Event(
                            EventKafkaMessage {
                                payload: copy_range(&event_item.payload, 0, event_item.payload.len()),
                                start_time,
                                event_id,
                                project_id,
                                remote_addr,
                                attachments,
                            },
                        ),
                    },
                );
                assert(event_item.payload@.subrange(0, event_item.payload@.len() as int) =~= event_item.payload@);
                proof {
                    let t = out@.subrange(oe.len() as int, out@.len() as int);
                    assert(t =~= seq![out@.last()]);
                    assert(out@.take(oe.len() as int) =~= oe);
                    assert(tail_ok(t, *envelope, ids@, *scoping, cs, start_time));
                }
            },
            None => {
                proof {
                    if envelope.event_id is None {
                        lemma_no_attachments(items);
                    }
                }
                let mut rest = attachments;
                let ghost mut q: int = 0;
                while rest.len() > 0
                    invariant
                        old(out)@ == o0,
                        *envelope == message.envelope,
                        *scoping == message.scoping,
                        items == envelope.items@,
                        ids@.len() == items.len(),
                        org == scoping.organization_id,
                        project_id == scoping.project_id,
                        topic == spec_topic(items),
                        cs == self.attachment_chunk_size as nat,
                        first_event(items) is None,
                        ai == attachment_indices(items),
                        atts.len() == ai.len(),
                        forall|x: int|
                            0 <= x < atts.len() ==> 0 <= #[trigger] ai[x] < items.len() && attachment_ok(
                                atts[x],
                                items[ai[x]],
                                ids@[ai[x]]@,
                                cs,
                            ),
                        0 <= q <= atts.len(),
                        rest@ == atts.subrange(q, atts.len() as int),
                        out@.len() == oe.len() + q,
                        out@.take(oe.len() as int) == oe,
                        forall|x: int|
                            0 <= x < q ==> standalone_ok(#[trigger] out@[oe.len() + x], *envelope, ids@, *scoping, cs, ai[x]),
                        envelope.event_id is None ==> rest@.len() == 0,
                    decreases rest@.len(),
                {
                    let attachment = rest.remove(0);
                    let event_id = match envelope.event_id {
                        Some(e) => e,
                        None => return Err(StoreError::NoEventId),
                    };
                    let ghost ob = out@;
                    out.push(
                        Produced {
                            topic,
                            organization_id: org,
                            message: KafkaMessage::Attachment(
                                AttachmentKafkaMessage { event_id, project_id, attachment },
                            ),
                        },
                    );
                    proof {
                        assert(attachment == atts[q]);
                        assert(out@.take(oe.len() as int) =~= ob.take(oe.len() as int));
                        assert forall|x: int| 0 <= x < q + 1 implies standalone_ok(
                            #[trigger] out@[oe.len() + x],
                            *envelope,
                            ids@,
                            *scoping,
                            cs,
                            ai[x],
                        ) by {
                            if x < q {
                                assert(out@[oe.len() + x] == ob[oe.len() + x]);
                            }
                        }
                        q = q + 1;
                        assert(rest@ =~= atts.subrange(q, atts.len() as int));
                    }
                }
                proof {
                    let t = out@.subrange(oe.len() as int, out@.len() as int);
                    assert forall|x: int| 0 <= x < ai.len() implies standalone_ok(
                        #[trigger] t[x],
                        *envelope,
                        ids@,
                        *scoping,
                        cs,
                        ai[x],
                    ) by {
                        assert(t[x] == out@[oe.len() + x]);
                    }
                    assert(tail_ok(t, *envelope, ids@, *scoping, cs, start_time));
                }
            },
        }
        proof {
            if envelope.event_id is None {
                assert(!missing_event_id(*envelope));
            }
            assert(out@.take(o0.len() as int) =~= o0);
            let before = o0.len() + flatten(segs).len();
            assert(before == oe.len());
        }
        Ok(())
    }
}

} // verus!
