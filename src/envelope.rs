//! Envelopes, their items, and enforcement of rate limits on them.
use vstd::prelude::*;
use crate::project_state::RequestMeta;
use crate::quota::{DataCategory, ItemScoping, ProjectKey, Quota, Scoping};
use crate::counter_store::{Counter, CounterStore};
use crate::limiter::{rate_limited_outcome, RedisRateLimiter};
use crate::rate_limit::{
    applies_view, contains_category, sat_add, spec_merge, zero_quota_limits, RateLimitView, RateLimits,
    RetryAfter, REJECT_ALL_SECS,
};

verus! {

/// The type of an envelope item.
#[derive(Clone, Copy, Debug, PartialEq, Eq, Structural, Hash)]
pub enum ItemType {
    Event,
    Transaction,
    Security,
    Attachment,
    UserReport,
    Session,
    Sessions,
    Metrics,
    MetricBuckets,
    Profile,
    ReplayEvent,
    ReplayRecording,
    ClientReport,
    Unknown,
}

/// The kind of an attachment, as the processing pipeline uses it.
#[derive(Clone, Copy, Debug, PartialEq, Eq, Structural, Hash)]
pub enum AttachmentType {
    Attachment,
    Minidump,
    AppleCrashReport,
    EventPayload,
    Breadcrumbs,
    UnrealContext,
    UnrealLogs,
}

impl ItemType {
    pub open spec fn spec_category(self) -> Option<DataCategory> {
        match self {
            ItemType::Event => Some(DataCategory::Error),
            ItemType::Transaction => Some(DataCategory::Transaction),
            ItemType::Security => Some(DataCategory::Security),
            ItemType::Attachment => Some(DataCategory::Attachment),
            ItemType::UserReport => Some(DataCategory::UserReport),
            ItemType::Session | ItemType::Sessions => Some(DataCategory::Session),
            ItemType::Metrics | ItemType::MetricBuckets => Some(DataCategory::MetricBucket),
            ItemType::Profile => Some(DataCategory::Profile),
            ItemType::ReplayEvent => Some(DataCategory::Replay),
            ItemType::ReplayRecording => Some(DataCategory::ReplayRecording),
            ItemType::ClientReport | ItemType::Unknown => None,
        }
    }

    /// The data category that items of this type count toward, if any.
    pub fn category(&self) -> (r: Option<DataCategory>)
        ensures
            r == self.spec_category(),
    {
        match self {
            ItemType::Event => Some(DataCategory::Error),
            ItemType::Transaction => Some(DataCategory::Transaction),
            ItemType::Security => Some(DataCategory::Security),
            ItemType::Attachment => Some(DataCategory::Attachment),
            ItemType::UserReport => Some(DataCategory::UserReport),
            ItemType::Session | ItemType::Sessions => Some(DataCategory::Session),
            ItemType::Metrics | ItemType::MetricBuckets => Some(DataCategory::MetricBucket),
            ItemType::Profile => Some(DataCategory::Profile),
            ItemType::ReplayEvent => Some(DataCategory::Replay),
            ItemType::ReplayRecording => Some(DataCategory::ReplayRecording),
            ItemType::ClientReport | ItemType::Unknown => None,
        }
    }
}

/// One item of an envelope: a typed payload with headers.
#[derive(Clone, Debug, PartialEq, Eq)]
pub struct Item {
    pub ty: ItemType,
    pub payload: Vec<u8>,
    pub filename: Option<String>,
    pub content_type: Option<String>,
    pub attachment_type: Option<AttachmentType>,
    pub rate_limited: bool,
}

/// A container of items sent by a client, with what the request stated.
#[derive(Clone, Debug)]
pub struct Envelope {
    pub event_id: Option<u128>,
    pub items: Vec<Item>,
    pub meta: RequestMeta,
    /// Retention in days stated by the envelope.
    pub retention: Option<u16>,
    /// The project key whose state decides dynamic sampling, if the envelope names one.
    pub sampling_key: Option<ProjectKey>,
}

/// Retention used when an envelope states none.
pub const DEFAULT_RETENTION: u16 = 90;

impl Envelope {
    pub fn is_empty(&self) -> (r: bool)
        ensures
            r == (self.items@.len() == 0),
    {
        self.items.len() == 0
    }

    pub fn retention(&self) -> (r: u16)
        ensures
            r == match self.retention {
                Some(d) => d,
                None => DEFAULT_RETENTION,
            },
    {
        match self.retention {
            Some(d) => d,
            None => DEFAULT_RETENTION,
        }
    }
}

/// The rate limits that hold for an item of the given scoping, from the cached limits
/// and the zero-limit quotas.
pub open spec fn cached_check(cached: Seq<RateLimitView>, quotas: Seq<Quota>, item: ItemScoping, now: u64) -> Seq<
    RateLimitView,
> {
    spec_merge(
        spec_merge(
            Seq::empty(),
            zero_quota_limits(quotas, item, RetryAfter { when: sat_add(now, REJECT_ALL_SECS) }),
        ),
        cached.filter(|v: RateLimitView| applies_view(v, item)),
    )
}

pub open spec fn active(s: Seq<RateLimitView>, now: u64) -> bool {
    exists|i: int| 0 <= i < s.len() && s[i].retry_after.when > now
}

/// Whether an item is dropped: its category is limited at `now`.
pub open spec fn item_limited(it: Item, cached: Seq<RateLimitView>, quotas: Seq<Quota>, scoping: Scoping, now: u64) -> bool {
    match it.ty.spec_category() {
        Some(c) => active(cached_check(cached, quotas, ItemScoping { category: c, scoping }, now), now),
        None => false,
    }
}

/// The items kept, the categories of the dropped items, and the rate limits that
/// dropped them, for the items of `items` in order.
pub open spec fn enforce_spec(
    items: Seq<Item>,
    cached: Seq<RateLimitView>,
    quotas: Seq<Quota>,
    scoping: Scoping,
    now: u64,
) -> (Seq<Item>, Seq<DataCategory>, Seq<RateLimitView>)
    decreases items.len(),
{
    if items.len() == 0 {
        (Seq::empty(), Seq::empty(), Seq::empty())
    } else {
        let prev = enforce_spec(items.drop_last(), cached, quotas, scoping, now);
        let it = items.last();
        if item_limited(it, cached, quotas, scoping, now) {
            let c = it.ty.spec_category().unwrap();
            (
                prev.0,
                prev.1.push(c),
                spec_merge(prev.2, cached_check(cached, quotas, ItemScoping { category: c, scoping }, now)),
            )
        } else {
            (prev.0.push(it), prev.1, prev.2)
        }
    }
}

/// Applies cached rate limits to the items of an envelope.
pub struct EnvelopeLimiter;

impl EnvelopeLimiter {
    /// Drops every item whose category is limited at `now`, keeping the order of the
    /// rest; returns the categories of the dropped items and the rate limits that apply.
    pub fn enforce(
        envelope: &mut Envelope,
        scoping: &Scoping,
        cached: &RateLimits,
        quotas: &[Quota],
        now: u64,
    ) -> (r: (Vec<DataCategory>, RateLimits))
        requires
            cached.wf(),
        ensures
            final(envelope).items@ == enforce_spec(old(envelope).items@, cached@, quotas@, *scoping, now).0,
            r.0@ == enforce_spec(old(envelope).items@, cached@, quotas@, *scoping, now).1,
            r.1@ == enforce_spec(old(envelope).items@, cached@, quotas@, *scoping, now).2,
            r.1.wf(),
            final(envelope).event_id == old(envelope).event_id,
            final(envelope).meta == old(envelope).meta,
            final(envelope).retention == old(envelope).retention,
            final(envelope).sampling_key == old(envelope).sampling_key,
    {
        let ghost items0 = envelope.items@;
        let mut rest: Vec<Item> = Vec::new();
        std::mem::swap(&mut rest, &mut envelope.items);
        let mut kept: Vec<Item> = Vec::new();
        let mut dropped: Vec<DataCategory> = Vec::new();
        let mut limits = RateLimits::new();
        let ghost mut i: int = 0;
        while rest.len() > 0
            invariant
                0 <= i <= items0.len(),
                rest@ == items0.subrange(i, items0.len() as int),
                limits.wf(),
                cached.wf(),
                kept@ == enforce_spec(items0.take(i), cached@, quotas@, *scoping, now).0,
                dropped@ == enforce_spec(items0.take(i), cached@, quotas@, *scoping, now).1,
                limits@ == enforce_spec(items0.take(i), cached@, quotas@, *scoping, now).2,
            decreases rest@.len(),
        {
            let it = rest.remove(0);
            proof {
                assert(it == items0[i]);
                assert(items0.take(i + 1).drop_last() =~= items0.take(i));
                assert(items0.take(i + 1).last() == it);
            }
            let mut drop_it = false;
            match it.ty.category() {
                Some(c) => {
                    let item_scoping = ItemScoping { category: c, scoping: *scoping };
                    let applied = cached.check_with_quotas(quotas, &item_scoping, now);
                    if applied.is_limited(now) {
                        drop_it = true;
                        dropped.push(c);
                        limits.merge(applied);
                    }
                },
                None => {},
            }
            if !drop_it {
                kept.push(it);
            }
            proof {
                i = i + 1;
                assert(rest@ =~= items0.subrange(i, items0.len() as int));
            }
        }
        assert(items0.take(items0.len() as int) =~= items0);
        envelope.items = kept;
        (dropped, limits)
    }
}

/// The order in which categories are checked against the counter store.
pub open spec fn category_order() -> Seq<DataCategory> {
    seq![
        DataCategory::Error,
        DataCategory::Security,
        DataCategory::Transaction,
        DataCategory::Attachment,
        DataCategory::Session,
        DataCategory::Profile,
        DataCategory::Replay,
        DataCategory::ReplayRecording,
        DataCategory::MetricBucket,
        DataCategory::UserReport,
    ]
}

fn category_order_exec() -> (r: Vec<DataCategory>)
    ensures
        r@ == category_order(),
{
    let v = vec![
        DataCategory::Error,
        DataCategory::Security,
        DataCategory::Transaction,
        DataCategory::Attachment,
        DataCategory::Session,
        DataCategory::Profile,
        DataCategory::Replay,
        DataCategory::ReplayRecording,
        DataCategory::MetricBucket,
        DataCategory::UserReport,
    ];
    assert(v@ =~= category_order());
    v
}

/// The number of items of a category.
pub open spec fn count_category(items: Seq<Item>, c: DataCategory) -> nat
    decreases items.len(),
{
    if items.len() == 0 {
        0
    } else {
        count_category(items.drop_last(), c) + if items.last().ty.spec_category() == Some(c) {
            1nat
        } else {
            0nat
        }
    }
}

proof fn lemma_count_bound(items: Seq<Item>, c: DataCategory)
    ensures
        count_category(items, c) <= items.len(),
    decreases items.len(),
{
    if items.len() > 0 {
        lemma_count_bound(items.drop_last(), c);
    }
}

fn count_items(items: &Vec<Item>, c: DataCategory) -> (r: usize)
    ensures
        r == count_category(items@, c),
{
    let mut n: usize = 0;
    let mut i: usize = 0;
    while i < items.len()
        invariant
            i <= items@.len(),
            n == count_category(items@.take(i as int), c),
        decreases items@.len() - i,
    {
        proof {
            assert(items@.take(i + 1).drop_last() =~= items@.take(i as int));
            assert(items@.take(i + 1).last() == items@[i as int]);
            lemma_count_bound(items@.take(i as int), c);
        }
        if items[i].ty.category() == Some(c) {
            n = n + 1;
        }
        i = i + 1;
    }
    assert(items@.take(items@.len() as int) =~= items@);
    n
}

/// Checking categories in turn: a category present in the envelope is limited when the
/// cached limits hold for it, or else when the counter store rejects its item count. The
/// result: the limited categories, the rate limits met, and the store afterwards.
pub open spec fn category_pass(
    cats: Seq<DataCategory>,
    items: Seq<Item>,
    cached: Seq<RateLimitView>,
    quotas: Seq<Quota>,
    scoping: Scoping,
    max_limit: Option<u64>,
    over: bool,
    m: Map<Seq<char>, Counter>,
    now: u64,
) -> (Seq<DataCategory>, Seq<RateLimitView>, Map<Seq<char>, Counter>)
    decreases cats.len(),
{
    if cats.len() == 0 {
        (Seq::empty(), Seq::empty(), m)
    } else {
        let prev = category_pass(cats.drop_last(), items, cached, quotas, scoping, max_limit, over, m, now);
        let c = cats.last();
        let n = count_category(items, c);
        let item = ItemScoping { category: c, scoping };
        let local = cached_check(cached, quotas, item, now);
        if n == 0 {
            prev
        } else if active(local, now) {
            (prev.0.push(c), spec_merge(prev.1, local), prev.2)
        } else {
            let out = rate_limited_outcome(max_limit, prev.2, quotas, item, n as u64, over, now);
            if active(out.0, now) {
                (prev.0.push(c), spec_merge(prev.1, out.0), out.1)
            } else {
                (prev.0, prev.1, out.1)
            }
        }
    }
}

pub open spec fn in_limited(it: Item, limited: Seq<DataCategory>) -> bool {
    match it.ty.spec_category() {
        Some(c) => limited.contains(c),
        None => false,
    }
}

impl EnvelopeLimiter {
    /// Applies cached rate limits and the counter store to an envelope.
    ///
    /// Categories are taken in a fixed order; each category present is checked first
    /// against the cached limits and, if those let it pass, counted in the store with the
    /// number of its items. Items of limited categories are dropped, keeping the order of
    /// the rest. Returns the limited categories and the rate limits met.
    pub fn enforce_with_store(
        envelope: &mut Envelope,
        scoping: &Scoping,
        cached: &RateLimits,
        quotas: &[Quota],
        limiter: &RedisRateLimiter,
        store: &mut CounterStore,
        over_accept_once: bool,
        now: u64,
    ) -> (r: (Vec<DataCategory>, RateLimits))
        requires
            cached.wf(),
        ensures
            ({
                let pass = category_pass(
                    category_order(),
                    old(envelope).items@,
                    cached@,
                    quotas@,
                    *scoping,
                    limiter.max_limit,
                    over_accept_once,
                    old(store).model(),
                    now,
                );
                &&& r.0@ == pass.0
                &&& r.1@ == pass.1
                &&& final(store).model() == pass.2
                &&& final(envelope).items@ == old(envelope).items@.filter(|it: Item| !in_limited(it, pass.0))
            }),
            r.1.wf(),
            final(envelope).event_id == old(envelope).event_id,
            final(envelope).meta == old(envelope).meta,
            final(envelope).sampling_key == old(envelope).sampling_key,
    {
        let order = category_order_exec();
        let ghost items0 = envelope.items@;
        let ghost m0 = store.model();
        let mut limited: Vec<DataCategory> = Vec::new();
        let mut limits = RateLimits::new();
        let mut k: usize = 0;
        while k < order.len()
            invariant
                order@ == category_order(),
                k <= order@.len(),
                envelope.items@ == items0,
                cached.wf(),
                limits.wf(),
                ({
                    let pass = category_pass(
                        order@.take(k as int),
                        items0,
                        cached@,
                        quotas@,
                        *scoping,
                        limiter.max_limit,
                        over_accept_once,
                        m0,
                        now,
                    );
                    limited@ == pass.0 && limits@ == pass.1 && store.model() == pass.2
                }),
            decreases order@.len() - k,
        {
            let c = order[k];
            proof {
                assert(order@.take(k + 1).drop_last() =~= order@.take(k as int));
                assert(order@.take(k + 1).last() == c);
            }
            let n = count_items(&envelope.items, c);
            if n > 0 {
                let item = ItemScoping { category: c, scoping: *scoping };
                let local = cached.check_with_quotas(quotas, &item, now);
                if local.is_limited(now) {
                    limited.push(c);
                    limits.merge(local);
                } else {
                    match limiter.is_rate_limited(store, quotas, &item, n, over_accept_once, now) {
                        Ok(remote) => {
                            if remote.is_limited(now) {
                                limited.push(c);
                                limits.merge(remote);
                            }
                        },
                        Err(_) => {},
                    }
                }
            }
            k = k + 1;
        }
        assert(order@.take(order@.len() as int) =~= order@);
        let ghost lim = limited@;
        let mut rest: Vec<Item> = Vec::new();
        std::mem::swap(&mut rest, &mut envelope.items);
        let mut kept: Vec<Item> = Vec::new();
        let ghost mut i: int = 0;
        while rest.len() > 0
            invariant
                0 <= i <= items0.len(),
                rest@ == items0.subrange(i, items0.len() as int),
                lim == limited@,
                kept@ == items0.take(i).filter(|it: Item| !in_limited(it, lim)),
            decreases rest@.len(),
        {
            let it = rest.remove(0);
            proof {
                assert(it == items0[i]);
                assert(items0.take(i + 1).drop_last() =~= items0.take(i));
                assert(items0.take(i + 1).last() == it);
                reveal_with_fuel(Seq::filter, 1);
            }
            let drop_it = match it.ty.category() {
                Some(c) => contains_category(&limited, c),
                None => false,
            };
            if !drop_it {
                kept.push(it);
            }
            proof {
                i = i + 1;
                assert(rest@ =~= items0.subrange(i, items0.len() as int));
            }
        }
        assert(items0.take(items0.len() as int) =~= items0);
        envelope.items = kept;
        (limited, limits)
    }
}

} // verus!
