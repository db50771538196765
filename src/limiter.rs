//! Quota enforcement against the shared counter store.
use vstd::prelude::*;
use crate::counter_store::{
    after_calls, entry_views, law_counts_up_to_limit, read, rejects, script_reply, script_state, Counter,
    CounterStore, ScriptEntry, ScriptEntryView,
};
use crate::quota::{ItemScoping, Quota, QuotaScope};
use crate::rate_limit::{
    spec_add,
    sat_add, spec_merge, zero_quota_limits, RateLimit, RateLimitView, RateLimits, RetryAfter,
    REJECT_ALL_SECS,
};
use crate::text::{decimal, push_char, push_decimal};

verus! {

/// Seconds added to a counter's expiry to absorb clock skew between the store and callers.
pub const GRACE: u64 = 60;

/// Error of the counter store.
#[derive(Clone, Copy, Debug, PartialEq, Eq, Structural)]
pub enum RateLimitingError {
    /// The store could not be reached or answered with a malformed reply.
    Backend,
}

/// The refund key that belongs to a counter key.
pub open spec fn refund_key_of(k: Seq<char>) -> Seq<char> {
    seq!['r', ':'] + k
}

/// Returns the key of the refund counter that belongs to `counter_key`.
pub fn get_refunded_quota_key(counter_key: &str) -> (r: String)
    ensures
        r@ == refund_key_of(counter_key@),
{
    let mut s = String::new();
    push_char(&mut s, 'r');
    push_char(&mut s, ':');
    s.append(counter_key);
    assert(s@ =~= refund_key_of(counter_key@));
    s
}

pub open spec fn shift_of(org: u64, window: u64) -> nat {
    (org % window) as nat
}

/// The window slot of `ts`: windows of an organization are shifted by `org mod window`.
pub open spec fn slot_of(ts: u64, org: u64, window: u64) -> nat {
    if ts >= shift_of(org, window) {
        ((ts - shift_of(org, window)) / window as int) as nat
    } else {
        0
    }
}

/// The end of the slot of `ts`, in seconds since the epoch, capped at `u64::MAX`.
pub open spec fn slot_end(ts: u64, org: u64, window: u64) -> u64 {
    let e = (slot_of(ts, org, window) + 1) * window + shift_of(org, window);
    if e > u64::MAX {
        u64::MAX
    } else {
        e as u64
    }
}

/// `quota:{id}{{org}}{subscope}:{slot}`.
pub open spec fn quota_key(id: Seq<char>, org: u64, subscope: Option<u64>, slot: nat) -> Seq<char> {
    seq!['q', 'u', 'o', 't', 'a', ':'] + id + seq!['{'] + decimal(org as nat) + seq!['}'] + match subscope {
        Some(s) => decimal(s as nat),
        None => Seq::empty(),
    } + seq![':'] + decimal(slot)
}

/// The subscope segment of a key: empty for organization quotas.
pub open spec fn subscope_of(scope: QuotaScope, item: ItemScoping) -> Option<u64> {
    match scope {
        QuotaScope::Organization => None,
        _ => item.spec_scope_id(scope),
    }
}

/// The limit argument of the script: `-1` for unlimited, capped at `i64::MAX`.
pub open spec fn limit_arg(limit: Option<u64>) -> i64 {
    match limit {
        None => -1i64,
        Some(l) => if l > i64::MAX as u64 {
            i64::MAX
        } else {
            l as i64
        },
    }
}

/// A quota that can be counted in the counter store: it has an id and a nonzero window.
pub open spec fn trackable(q: Quota) -> bool {
    q.id is Some && q.window is Some && q.window.unwrap() > 0
}

/// A quota counted in the store for an item: it applies, does not reject everything,
/// and can be counted.
pub open spec fn is_counted(q: Quota, item: ItemScoping) -> bool {
    q.spec_matches(item) && q.limit != Some(0u64) && trackable(q)
}

pub open spec fn key_for(q: Quota, item: ItemScoping, ts: u64) -> Seq<char> {
    let w = q.window.unwrap();
    let org = item.scoping.organization_id;
    quota_key(q.id.unwrap()@, org, subscope_of(q.scope, item), slot_of(ts, org, w))
}

/// The script entry sent for a counted quota.
pub open spec fn entry_for(q: Quota, item: ItemScoping, quantity: u64, over: bool, ts: u64) -> ScriptEntryView {
    let key = key_for(q, item, ts);
    ScriptEntryView {
        counter_key: key,
        refund_key: refund_key_of(key),
        limit: limit_arg(q.limit),
        expiry: sat_add(slot_end(ts, item.scoping.organization_id, q.window.unwrap()), GRACE),
        quantity,
        over_accept_once: over,
    }
}

/// Seconds bounded by the maximum, if one is set.
pub open spec fn capped(max_limit: Option<u64>, secs: u64) -> u64 {
    match max_limit {
        Some(m) => if secs < m {
            secs
        } else {
            m
        },
        None => secs,
    }
}

/// The rate limit issued when the store rejects a counted quota.
pub open spec fn reject_for(q: Quota, item: ItemScoping, ts: u64, max_limit: Option<u64>) -> RateLimitView {
    let end = slot_end(ts, item.scoping.organization_id, q.window.unwrap());
    let secs = if end > ts {
        (end - ts) as u64
    } else {
        0
    };
    RateLimit::spec_from_quota(q, item, RetryAfter { when: sat_add(ts, capped(max_limit, secs)) })@
}

/// The entries of the batch for `quotas`: one per counted quota, in order.
pub open spec fn planned_entries(quotas: Seq<Quota>, item: ItemScoping, quantity: u64, over: bool, ts: u64) -> Seq<
    ScriptEntryView,
>
    decreases quotas.len(),
{
    if quotas.len() == 0 {
        Seq::empty()
    } else {
        let prev = planned_entries(quotas.drop_last(), item, quantity, over, ts);
        if is_counted(quotas.last(), item) {
            prev.push(entry_for(quotas.last(), item, quantity, over, ts))
        } else {
            prev
        }
    }
}

/// The rate limits that rejections of the batch would issue, aligned with its entries.
pub open spec fn planned_rejections(quotas: Seq<Quota>, item: ItemScoping, ts: u64, max_limit: Option<u64>) -> Seq<
    RateLimitView,
>
    decreases quotas.len(),
{
    if quotas.len() == 0 {
        Seq::empty()
    } else {
        let prev = planned_rejections(quotas.drop_last(), item, ts, max_limit);
        if is_counted(quotas.last(), item) {
            prev.push(reject_for(quotas.last(), item, ts, max_limit))
        } else {
            prev
        }
    }
}

/// The entries of `ls` whose flag is set.
pub open spec fn pick(ls: Seq<RateLimitView>, flags: Seq<bool>) -> Seq<RateLimitView>
    decreases ls.len(),
{
    if ls.len() == 0 || flags.len() == 0 {
        Seq::empty()
    } else {
        let prev = pick(ls.drop_last(), flags.drop_last());
        if flags.last() {
            prev.push(ls.last())
        } else {
            prev
        }
    }
}

pub open spec fn limit_views(s: Seq<RateLimit>) -> Seq<RateLimitView> {
    Seq::new(s.len(), |i: int| s[i]@)
}

/// Information for tracking one quota in the counter store.
#[derive(Clone, Debug)]
pub struct RedisQuota {
    pub prefix: String,
    pub scope: QuotaScope,
    pub limit: Option<u64>,
    pub window: u64,
    pub scoping: ItemScoping,
    pub timestamp: u64,
}

impl RedisQuota {
    /// Tracking information for a quota with an id and a nonzero window.
    pub fn new(quota: &Quota, scoping: &ItemScoping, timestamp: u64) -> (r: Option<RedisQuota>)
        ensures
            r is Some <==> trackable(*quota),
            r matches Some(rq) ==> rq.prefix@ == quota.id.unwrap()@ && rq.window == quota.window.unwrap()
                && rq.scope == quota.scope && rq.limit == quota.limit && rq.scoping == *scoping
                && rq.timestamp == timestamp,
    {
        let prefix = match &quota.id {
            Some(id) => id.clone(),
            None => return None,
        };
        let window = match quota.window {
            Some(w) => w,
            None => return None,
        };
        if window == 0 {
            return None;
        }
        Some(RedisQuota { prefix, scope: quota.scope, limit: quota.limit, window, scoping: *scoping, timestamp })
    }

    pub open spec fn wf(&self) -> bool {
        self.window > 0
    }

    /// The limit argument: `-1` for unlimited.
    pub fn limit(&self) -> (r: i64)
        ensures
            r == limit_arg(self.limit),
    {
        match self.limit {
            None => -1,
            Some(l) => if l > i64::MAX as u64 {
                i64::MAX
            } else {
                l as i64
            },
        }
    }

    pub fn shift(&self) -> (r: u64)
        requires
            self.wf(),
        ensures
            r == shift_of(self.scoping.scoping.organization_id, self.window),
    {
        self.scoping.scoping.organization_id % self.window
    }

    pub fn slot(&self) -> (r: u64)
        requires
            self.wf(),
        ensures
            r == slot_of(self.timestamp, self.scoping.scoping.organization_id, self.window),
    {
        let shift = self.shift();
        if self.timestamp >= shift {
            (self.timestamp - shift) / self.window
        } else {
            0
        }
    }

    /// The end of the current slot, when the counter of this slot lapses.
    pub fn expiry(&self) -> (r: u64)
        requires
            self.wf(),
        ensures
            r == slot_end(self.timestamp, self.scoping.scoping.organization_id, self.window),
    {
        let slot = self.slot();
        let shift = self.shift();
        let w = self.window;
        let ts = self.timestamp;
        proof {
            let s = slot as int;
            let sh = shift as int;
            if ts >= shift {
                assert(s * w <= ts - sh) by (nonlinear_arith)
                    requires
                        s == (ts - sh) / (w as int),
                        ts - sh >= 0,
                        w > 0,
                ;
            } else {
                assert(s == 0);
            }
            assert((s + 1) * w == s * w + w) by (nonlinear_arith);
        }
        let end: u128 = (slot as u128 + 1) * (w as u128) + shift as u128;
        if end > u64::MAX as u128 {
            u64::MAX
        } else {
            end as u64
        }
    }

    pub open spec fn spec_key(&self) -> Seq<char> {
        let org = self.scoping.scoping.organization_id;
        quota_key(
            self.prefix@,
            org,
            subscope_of(self.scope, self.scoping),
            slot_of(self.timestamp, org, self.window),
        )
    }

    /// The counter key: `quota:{id}{{org}}{subscope}:{slot}`.
    pub fn key(&self) -> (r: String)
        requires
            self.wf(),
        ensures
            r@ == self.spec_key(),
    {
        let subscope = match self.scope {
            QuotaScope::Organization => None,
            scope => self.scoping.scope_id(scope),
        };
        let slot = self.slot();
        let mut s = String::new();
        push_char(&mut s, 'q');
        push_char(&mut s, 'u');
        push_char(&mut s, 'o');
        push_char(&mut s, 't');
        push_char(&mut s, 'a');
        push_char(&mut s, ':');
        s.append(self.prefix.as_str());
        push_char(&mut s, '{');
        push_decimal(&mut s, self.scoping.scoping.organization_id);
        push_char(&mut s, '}');
        match subscope {
            Some(id) => push_decimal(&mut s, id),
            None => {},
        }
        push_char(&mut s, ':');
        push_decimal(&mut s, slot);
        assert(s@ =~= self.spec_key());
        s
    }
}

/// A prepared invocation of the script: rejections known before contacting the store,
/// the batch to send, and the rate limit to issue for each rejected entry.
pub struct Invocation {
    pub rate_limits: RateLimits,
    pub entries: Vec<ScriptEntry>,
    pub on_reject: Vec<RateLimit>,
}

impl Invocation {
    pub open spec fn wf(&self) -> bool {
        self.rate_limits.wf() && self.entries@.len() == self.on_reject@.len()
    }

    /// Combines the store's reply with the rejections known beforehand; a reply that does
    /// not have one flag per entry is a backend error.
    pub fn complete(self, reply: &Vec<bool>) -> (r: Result<RateLimits, RateLimitingError>)
        requires
            self.wf(),
        ensures
            reply@.len() != self.entries@.len() ==> r == Err::<RateLimits, RateLimitingError>(
                RateLimitingError::Backend,
            ),
            reply@.len() == self.entries@.len() ==> (r matches Ok(rl) && rl.wf() && rl@ == spec_merge(
                self.rate_limits@,
                pick(limit_views(self.on_reject@), reply@),
            )),
    {
        if reply.len() != self.entries.len() {
            return Err(RateLimitingError::Backend);
        }
        let Invocation { rate_limits, entries, on_reject } = self;
        let mut out = rate_limits;
        let ghost base = out@;
        let ghost lv = limit_views(on_reject@);
        let mut i: usize = 0;
        while i < reply.len()
            invariant
                out.wf(),
                i <= reply@.len(),
                reply@.len() == on_reject@.len(),
                lv == limit_views(on_reject@),
                out@ == spec_merge(base, pick(lv.take(i as int), reply@.take(i as int))),
            decreases reply@.len() - i,
        {
            proof {
                assert(lv.take(i + 1).drop_last() =~= lv.take(i as int));
                assert(reply@.take(i + 1).drop_last() =~= reply@.take(i as int));
                assert(reply@.take(i + 1).last() == reply@[i as int]);
                assert(lv.take(i + 1).last() == on_reject@[i as int]@);
            }
            if reply[i] {
                let rl = on_reject[i].duplicate();
                proof {
                    let p = pick(lv.take(i as int), reply@.take(i as int));
                    assert(pick(lv.take(i + 1), reply@.take(i + 1)) == p.push(rl@));
                    assert(p.push(rl@).drop_last() =~= p);
                }
                out.add(rl);
            }
            i = i + 1;
        }
        assert(lv.take(reply@.len() as int) =~= lv);
        assert(reply@.take(reply@.len() as int) =~= reply@);
        Ok(out)
    }
}

/// The outcome of checking quotas for an item at `ts` against the store state `m`.
pub open spec fn rate_limited_outcome(
    max_limit: Option<u64>,
    m: Map<Seq<char>, crate::counter_store::Counter>,
    quotas: Seq<Quota>,
    item: ItemScoping,
    quantity: u64,
    over: bool,
    ts: u64,
) -> (Seq<RateLimitView>, Map<Seq<char>, crate::counter_store::Counter>) {
    let zero = spec_merge(
        Seq::empty(),
        zero_quota_limits(quotas, item, RetryAfter { when: sat_add(ts, capped(max_limit, REJECT_ALL_SECS)) }),
    );
    let es = planned_entries(quotas, item, quantity, over, ts);
    if es.len() == 0 || exists|i: int| 0 <= i < zero.len() && zero[i].retry_after.when > ts {
        (zero, m)
    } else {
        (
            spec_merge(zero, pick(planned_rejections(quotas, item, ts, max_limit), script_reply(m, es, ts))),
            script_state(m, es, ts),
        )
    }
}

/// Checks quotas against the shared counter store and counts consumption.
#[derive(Clone, Copy, Debug)]
pub struct RedisRateLimiter {
    pub max_limit: Option<u64>,
}

impl RedisRateLimiter {
    /// A rate limiter without a bound on retry times.
    pub fn new() -> (r: RedisRateLimiter)
        ensures
            r.max_limit is None,
    {
        RedisRateLimiter { max_limit: None }
    }

    /// Bounds the retry time of issued rate limits by `max_limit` seconds.
    pub fn max_limit(self, max_limit: Option<u64>) -> (r: RedisRateLimiter)
        ensures
            r.max_limit == max_limit,
    {
        RedisRateLimiter { max_limit }
    }

    /// A retry time `secs` after `now`, bounded by `max_limit`.
    pub fn retry_after(&self, now: u64, secs: u64) -> (r: RetryAfter)
        ensures
            r.when == sat_add(now, capped(self.max_limit, secs)),
    {
        let secs = match self.max_limit {
            Some(m) => if secs < m {
                secs
            } else {
                m
            },
            None => secs,
        };
        RetryAfter::from_secs(now, secs)
    }

    /// Classifies the quotas for an item: zero-limit quotas that apply reject at once,
    /// counted quotas go into the batch for the store, the rest are skipped.
    pub fn prepare(
        &self,
        quotas: &[Quota],
        item: &ItemScoping,
        quantity: u64,
        over_accept_once: bool,
        timestamp: u64,
    ) -> (r: Invocation)
        ensures
            r.wf(),
            r.rate_limits@ == spec_merge(
                Seq::empty(),
                zero_quota_limits(
                    quotas@,
                    *item,
                    RetryAfter { when: sat_add(timestamp, capped(self.max_limit, REJECT_ALL_SECS)) },
                ),
            ),
            entry_views(r.entries@) == planned_entries(quotas@, *item, quantity, over_accept_once, timestamp),
            limit_views(r.on_reject@) == planned_rejections(quotas@, *item, timestamp, self.max_limit),
    {
        let reject_all = self.retry_after(timestamp, REJECT_ALL_SECS);
        let mut rate_limits = RateLimits::new();
        let mut entries: Vec<ScriptEntry> = Vec::new();
        let mut on_reject: Vec<RateLimit> = Vec::new();
        let mut i: usize = 0;
        while i < quotas.len()
            invariant
                i <= quotas@.len(),
                rate_limits.wf(),
                reject_all.when == sat_add(timestamp, capped(self.max_limit, REJECT_ALL_SECS)),
                rate_limits@ == spec_merge(
                    Seq::empty(),
                    zero_quota_limits(quotas@.take(i as int), *item, reject_all),
                ),
                entry_views(entries@) == planned_entries(
                    quotas@.take(i as int),
                    *item,
                    quantity,
                    over_accept_once,
                    timestamp,
                ),
                limit_views(on_reject@) == planned_rejections(quotas@.take(i as int), *item, timestamp, self.max_limit),
            decreases quotas@.len() - i,
        {
            let quota = &quotas[i];
            let ghost t0 = quotas@.take(i as int);
            let ghost t1 = quotas@.take(i + 1);
            assert(t1.drop_last() =~= t0);
            assert(t1.last() == *quota);
            let ghost z0 = zero_quota_limits(t0, *item, reject_all);
            let ghost z1 = zero_quota_limits(t1, *item, reject_all);
            let applies = quota.matches(item);
            if !applies {
                assert(z1 == z0);
            } else if quota.limit == Some(0u64) {
                let rl = RateLimit::from_quota(quota, item, reject_all);
                proof {
                    assert(z1 == z0.push(rl@));
                    assert(z1.drop_last() =~= z0);
                }
                rate_limits.add(rl);
            } else {
                assert(z1 == z0);
                match RedisQuota::new(quota, item, timestamp) {
                    Some(rq) => {
                        let key = rq.key();
                        let refund_key = get_refunded_quota_key(key.as_str());
                        let end = rq.expiry();
                        let entry = ScriptEntry {
                            counter_key: key,
                            refund_key,
                            limit: rq.limit(),
                            expiry: end.saturating_add(GRACE),
                            quantity,
                            over_accept_once,
                        };
                        let secs = if end > timestamp {
                            end - timestamp
                        } else {
                            0
                        };
                        let rl = RateLimit::from_quota(quota, item, self.retry_after(timestamp, secs));
                        let ghost e0 = entries@;
                        let ghost o0 = on_reject@;
                        proof {
                            assert(entry@ == entry_for(*quota, *item, quantity, over_accept_once, timestamp));
                            assert(rl@ == reject_for(*quota, *item, timestamp, self.max_limit));
                        }
                        entries.push(entry);
                        on_reject.push(rl);
                        proof {
                            assert(entry_views(entries@) =~= entry_views(e0).push(entry@));
                            assert(limit_views(on_reject@) =~= limit_views(o0).push(rl@));
                        }
                    },
                    None => {},
                }
            }
            i = i + 1;
        }
        assert(quotas@.take(quotas@.len() as int) =~= quotas@);
        proof {
            assert(entries@.len() == entry_views(entries@).len());
            assert(on_reject@.len() == limit_views(on_reject@).len());
            lemma_planned_aligned(quotas@, *item, quantity, over_accept_once, timestamp, self.max_limit);
        }
        Invocation { rate_limits, entries, on_reject }
    }

    /// Checks the quotas that apply to an item and counts `quantity` against them.
    ///
    /// Zero-limit quotas reject without contacting the store. Otherwise the counted quotas
    /// are sent to the store in one batch, which counts them only if none rejects; each
    /// rejection issues a rate limit until the end of its window.
    pub fn is_rate_limited(
        &self,
        store: &mut CounterStore,
        quotas: &[Quota],
        item: &ItemScoping,
        quantity: usize,
        over_accept_once: bool,
        timestamp: u64,
    ) -> (r: Result<RateLimits, RateLimitingError>)
        ensures
            r matches Ok(rl) && rl.wf() && ({
                let out = rate_limited_outcome(
                    self.max_limit,
                    old(store).model(),
                    quotas@,
                    *item,
                    quantity as u64,
                    over_accept_once,
                    timestamp,
                );
                rl@ == out.0 && final(store).model() == out.1
            }),
    {
        let invocation = self.prepare(quotas, item, quantity as u64, over_accept_once, timestamp);
        if invocation.entries.len() == 0 || invocation.rate_limits.is_limited(timestamp) {
            return Ok(invocation.rate_limits);
        }
        let reply = store.evaluate(invocation.entries.as_slice(), timestamp);
        invocation.complete(&reply)
    }
}

proof fn lemma_planned_aligned(
    quotas: Seq<Quota>,
    item: ItemScoping,
    quantity: u64,
    over: bool,
    ts: u64,
    max_limit: Option<u64>,
)
    ensures
        planned_entries(quotas, item, quantity, over, ts).len() == planned_rejections(quotas, item, ts, max_limit).len(),
    decreases quotas.len(),
{
    if quotas.len() > 0 {
        lemma_planned_aligned(quotas.drop_last(), item, quantity, over, ts, max_limit);
    }
}

proof fn lemma_zero_limits(quotas: Seq<Quota>, item: ItemScoping, ra: RetryAfter)
    ensures
        forall|j: int| 0 <= j < zero_quota_limits(quotas, item, ra).len() ==> (#[trigger] zero_quota_limits(
            quotas,
            item,
            ra,
        )[j]).retry_after == ra,
        (exists|i: int| 0 <= i < quotas.len() && quotas[i].limit == Some(0u64) && quotas[i].spec_matches(item))
            ==> zero_quota_limits(quotas, item, ra).len() > 0,
    decreases quotas.len(),
{
    if quotas.len() > 0 {
        let p = quotas.drop_last();
        lemma_zero_limits(p, item, ra);
        if exists|i: int| 0 <= i < quotas.len() && quotas[i].limit == Some(0u64) && quotas[i].spec_matches(item) {
            let i = choose|i: int| 0 <= i < quotas.len() && quotas[i].limit == Some(0u64) && quotas[i].spec_matches(item);
            if i < p.len() {
                assert(p[i] == quotas[i]);
            }
        }
    }
}

proof fn lemma_merge_uniform(s: Seq<RateLimitView>, zs: Seq<RateLimitView>, ra: RetryAfter)
    requires
        forall|j: int| 0 <= j < s.len() ==> (#[trigger] s[j]).retry_after == ra,
        forall|j: int| 0 <= j < zs.len() ==> (#[trigger] zs[j]).retry_after == ra,
    ensures
        forall|j: int| 0 <= j < spec_merge(s, zs).len() ==> (#[trigger] spec_merge(s, zs)[j]).retry_after == ra,
        s.len() > 0 || zs.len() > 0 ==> spec_merge(s, zs).len() > 0,
    decreases zs.len(),
{
    if zs.len() > 0 {
        let p = zs.drop_last();
        assert forall|j: int| 0 <= j < p.len() implies (#[trigger] p[j]).retry_after == ra by {
            assert(p[j] == zs[j]);
        }
        lemma_merge_uniform(s, p, ra);
        assert(zs.last().retry_after == ra) by {
            assert(zs[zs.len() - 1].retry_after == ra);
        }
    }
}

/// A zero-limit quota that applies to the item rejects it without touching any counter,
/// as long as its rejection lasts a positive time.
pub proof fn law_zero_quota_rejects(
    max_limit: Option<u64>,
    m: Map<Seq<char>, crate::counter_store::Counter>,
    quotas: Seq<Quota>,
    item: ItemScoping,
    quantity: u64,
    over: bool,
    ts: u64,
    i: int,
)
    requires
        0 <= i < quotas.len(),
        quotas[i].limit == Some(0u64),
        quotas[i].spec_matches(item),
        capped(max_limit, REJECT_ALL_SECS) > 0,
        ts < u64::MAX,
    ensures
        rate_limited_outcome(max_limit, m, quotas, item, quantity, over, ts).1 == m,
        exists|j: int|
            0 <= j < rate_limited_outcome(max_limit, m, quotas, item, quantity, over, ts).0.len()
                && (#[trigger] rate_limited_outcome(max_limit, m, quotas, item, quantity, over, ts).0[j]).retry_after.when
                > ts,
{
    let ra = RetryAfter { when: sat_add(ts, capped(max_limit, REJECT_ALL_SECS)) };
    let zs = zero_quota_limits(quotas, item, ra);
    lemma_zero_limits(quotas, item, ra);
    lemma_merge_uniform(Seq::empty(), zs, ra);
    let zero = spec_merge(Seq::empty(), zs);
    assert(zero.len() > 0);
    assert(zero[0].retry_after.when > ts);
    let out = rate_limited_outcome(max_limit, m, quotas, item, quantity, over, ts);
    assert(out.0 == zero);
    assert(out.0[0].retry_after.when > ts);
}

/// The counter key of a quota is `quota:{id}{{org}}{subscope}:{slot}` with the slot
/// `(t - org mod window) / window`: the subscope is the project id for a project quota and
/// empty for an organization quota.
pub proof fn law_key_format(q: Quota, item: ItemScoping, t: u64)
    requires
        trackable(q),
        t >= item.scoping.organization_id % q.window.unwrap(),
    ensures
        ({
            let org = item.scoping.organization_id;
            let w = q.window.unwrap();
            let slot = decimal(((t - org % w) / (w as int)) as nat);
            let head = seq!['q', 'u', 'o', 't', 'a', ':'] + q.id.unwrap()@ + seq!['{'] + decimal(org as nat)
                + seq!['}'];
            &&& q.scope == QuotaScope::Project ==> key_for(q, item, t) == head + decimal(
                item.scoping.project_id as nat,
            ) + seq![':'] + slot
            &&& q.scope == QuotaScope::Organization ==> key_for(q, item, t) == head + seq![':'] + slot
        }),
{
    let org = item.scoping.organization_id;
    let w = q.window.unwrap();
    let slot = decimal(((t - org % w) / (w as int)) as nat);
    let head = seq!['q', 'u', 'o', 't', 'a', ':'] + q.id.unwrap()@ + seq!['{'] + decimal(org as nat) + seq!['}'];
    if q.scope == QuotaScope::Project {
        assert(key_for(q, item, t) =~= head + decimal(item.scoping.project_id as nat) + seq![':'] + slot);
    }
    if q.scope == QuotaScope::Organization {
        assert(key_for(q, item, t) =~= head + seq![':'] + slot);
    }
}

/// Whether any of the rate limits holds after `ts`.
pub open spec fn limits_active(s: Seq<RateLimitView>, ts: u64) -> bool {
    exists|i: int| 0 <= i < s.len() && s[i].retry_after.when > ts
}

/// Conditions under which one counted quota is checked alone: it applies to the item,
/// has a positive limit, its window does not overflow, and retry times are not bounded
/// to zero.
pub open spec fn single_quota(max_limit: Option<u64>, q: Quota, item: ItemScoping, ts: u64) -> bool {
    &&& trackable(q)
    &&& q.spec_matches(item)
    &&& q.limit matches Some(l) && 0 < l <= i64::MAX as u64
    &&& ts >= item.scoping.organization_id % q.window.unwrap()
    &&& ts + q.window.unwrap() <= u64::MAX
    &&& (max_limit is None || max_limit.unwrap() > 0)
}

proof fn lemma_single_quota(
    max_limit: Option<u64>,
    m: Map<Seq<char>, Counter>,
    q: Quota,
    item: ItemScoping,
    qn: u64,
    over: bool,
    ts: u64,
)
    requires
        single_quota(max_limit, q, item, ts),
    ensures
        rate_limited_outcome(max_limit, m, seq![q], item, qn, over, ts).1 == script_state(
            m,
            seq![entry_for(q, item, qn, over, ts)],
            ts,
        ),
        limits_active(rate_limited_outcome(max_limit, m, seq![q], item, qn, over, ts).0, ts) == rejects(
            m,
            entry_for(q, item, qn, over, ts),
            ts,
        ),
        slot_end(ts, item.scoping.organization_id, q.window.unwrap()) > ts,
{
    let qs = seq![q];
    let e = entry_for(q, item, qn, over, ts);
    let rf = reject_for(q, item, ts, max_limit);
    let ra = RetryAfter { when: sat_add(ts, capped(max_limit, REJECT_ALL_SECS)) };
    assert(qs.drop_last() =~= Seq::<Quota>::empty());
    assert(qs.last() == q);
    assert(zero_quota_limits(Seq::<Quota>::empty(), item, ra) == Seq::<RateLimitView>::empty());
    assert(zero_quota_limits(qs, item, ra) == Seq::<RateLimitView>::empty());
    assert(spec_merge(Seq::<RateLimitView>::empty(), Seq::<RateLimitView>::empty()) == Seq::<RateLimitView>::empty());
    assert(planned_entries(Seq::<Quota>::empty(), item, qn, over, ts) == Seq::<ScriptEntryView>::empty());
    assert(planned_entries(qs, item, qn, over, ts) =~= seq![e]);
    assert(planned_rejections(Seq::<Quota>::empty(), item, ts, max_limit) == Seq::<RateLimitView>::empty());
    assert(planned_rejections(qs, item, ts, max_limit) =~= seq![rf]);
    let b = rejects(m, e, ts);
    let reply = script_reply(m, seq![e], ts);
    assert(reply =~= seq![b]);
    assert(reply.drop_last() =~= Seq::<bool>::empty());
    assert(seq![rf].drop_last() =~= Seq::<RateLimitView>::empty());
    assert(pick(Seq::<RateLimitView>::empty(), Seq::<bool>::empty()) == Seq::<RateLimitView>::empty());
    let picked = pick(seq![rf], reply);
    let out = spec_merge(Seq::<RateLimitView>::empty(), picked);
    // the window of `ts` ends after `ts`
    let w = q.window.unwrap();
    let org = item.scoping.organization_id;
    let sh = shift_of(org, w) as int;
    let sl = slot_of(ts, org, w) as int;
    assert(sl * w > ts - sh - w) by (nonlinear_arith)
        requires
            sl == (ts - sh) / (w as int),
            ts - sh >= 0,
            w > 0,
    ;
    assert(sl * w <= ts - sh) by (nonlinear_arith)
        requires
            sl == (ts - sh) / (w as int),
            ts - sh >= 0,
            w > 0,
    ;
    assert((sl + 1) * w == sl * w + w) by (nonlinear_arith);
    assert(slot_end(ts, org, w) > ts);
    if b {
        assert(picked =~= seq![rf]);
        assert(seq![rf].drop_last() =~= Seq::<RateLimitView>::empty());
        assert(spec_merge(Seq::<RateLimitView>::empty(), seq![rf]) == spec_add(Seq::<RateLimitView>::empty(), rf));
        assert(spec_add(Seq::<RateLimitView>::empty(), rf) =~= seq![rf]);
        assert(out[0].retry_after.when > ts);
    } else {
        assert(picked =~= Seq::<RateLimitView>::empty());
        assert(out =~= Seq::<RateLimitView>::empty());
    }
}

/// The store after `n` successive checks of the single quota `q`, each counting one item.
pub open spec fn after_checks(
    max_limit: Option<u64>,
    m: Map<Seq<char>, Counter>,
    q: Quota,
    item: ItemScoping,
    ts: u64,
    n: nat,
) -> Map<Seq<char>, Counter>
    decreases n,
{
    if n == 0 {
        m
    } else {
        rate_limited_outcome(max_limit, after_checks(max_limit, m, q, item, ts, (n - 1) as nat), seq![q], item, 1, false, ts).1
    }
}

proof fn lemma_after_checks(max_limit: Option<u64>, m: Map<Seq<char>, Counter>, q: Quota, item: ItemScoping, ts: u64, n: nat)
    requires
        single_quota(max_limit, q, item, ts),
    ensures
        after_checks(max_limit, m, q, item, ts, n) == after_calls(m, entry_for(q, item, 1, false, ts), ts, n),
    decreases n,
{
    if n > 0 {
        lemma_after_checks(max_limit, m, q, item, ts, (n - 1) as nat);
        lemma_single_quota(max_limit, after_checks(max_limit, m, q, item, ts, (n - 1) as nat), q, item, 1, false, ts);
    }
}

/// Successive checks of one quota with limit `L`, each counting one item without
/// over-accepting, starting from unused counters within one window: after `n` checks the
/// counter holds `min(n, L)`, and the next check is limited exactly when `n` has reached `L`.
pub proof fn law_checks_up_to_limit(
    max_limit: Option<u64>,
    m: Map<Seq<char>, Counter>,
    q: Quota,
    item: ItemScoping,
    ts: u64,
    n: nat,
)
    requires
        single_quota(max_limit, q, item, ts),
        read(m, key_for(q, item, ts), ts) == 0,
        read(m, refund_key_of(key_for(q, item, ts)), ts) == 0,
    ensures
        ({
            let l = q.limit.unwrap();
            let mn = after_checks(max_limit, m, q, item, ts, n);
            &&& read(mn, key_for(q, item, ts), ts) == if n <= l {
                n as int
            } else {
                l as int
            }
            &&& limits_active(rate_limited_outcome(max_limit, mn, seq![q], item, 1, false, ts).0, ts) <==> n >= l
        }),
{
    let e = entry_for(q, item, 1, false, ts);
    let k = key_for(q, item, ts);
    assert(refund_key_of(k).len() == k.len() + 2);
    assert(e.limit == q.limit.unwrap() as i64);
    lemma_after_checks(max_limit, m, q, item, ts, n);
    lemma_single_quota(max_limit, m, q, item, 1, false, ts);
    assert(ts < e.expiry);
    law_counts_up_to_limit(m, e, ts, n);
    lemma_single_quota(max_limit, after_checks(max_limit, m, q, item, ts, n), q, item, 1, false, ts);
}

/// With a limit of two and over-accepting, checking one item and then two on unused
/// counters are both accepted, and every later check of the quota is limited.
pub proof fn law_checks_over_accept_once(
    max_limit: Option<u64>,
    m: Map<Seq<char>, Counter>,
    q: Quota,
    item: ItemScoping,
    later: u64,
    later_over: bool,
    ts: u64,
)
    requires
        single_quota(max_limit, q, item, ts),
        q.limit == Some(2u64),
        read(m, key_for(q, item, ts), ts) == 0,
        read(m, refund_key_of(key_for(q, item, ts)), ts) == 0,
    ensures
        ({
            let o1 = rate_limited_outcome(max_limit, m, seq![q], item, 1, true, ts);
            let o2 = rate_limited_outcome(max_limit, o1.1, seq![q], item, 2, true, ts);
            let o3 = rate_limited_outcome(max_limit, o2.1, seq![q], item, later, later_over, ts);
            &&& !limits_active(o1.0, ts)
            &&& !limits_active(o2.0, ts)
            &&& limits_active(o3.0, ts)
        }),
{
    let e1 = entry_for(q, item, 1, true, ts);
    let e2 = entry_for(q, item, 2, true, ts);
    let e3 = entry_for(q, item, later, later_over, ts);
    let k = key_for(q, item, ts);
    assert(refund_key_of(k).len() == k.len() + 2);
    lemma_single_quota(max_limit, m, q, item, 1, true, ts);
    let o1 = rate_limited_outcome(max_limit, m, seq![q], item, 1, true, ts);
    lemma_single_quota(max_limit, o1.1, q, item, 2, true, ts);
    let o2 = rate_limited_outcome(max_limit, o1.1, seq![q], item, 2, true, ts);
    lemma_single_quota(max_limit, o2.1, q, item, later, later_over, ts);
    crate::counter_store::law_over_accept_once(m, e1, e2, e3, ts);
}

/// When any counted quota of a check rejects, no counter is incremented, so a quota that
/// did not reject is not counted either.
pub proof fn law_checks_no_partial_increment(
    max_limit: Option<u64>,
    m: Map<Seq<char>, Counter>,
    quotas: Seq<Quota>,
    item: ItemScoping,
    quantity: u64,
    over: bool,
    ts: u64,
    i: int,
)
    requires
        0 <= i < planned_entries(quotas, item, quantity, over, ts).len(),
        rejects(m, planned_entries(quotas, item, quantity, over, ts)[i], ts),
    ensures
        rate_limited_outcome(max_limit, m, quotas, item, quantity, over, ts).1 == m,
{
}

/// A check of one quota is limited exactly when the counter minus the refund counter
/// leaves no room for the quantity (or, for a zero quantity, has reached the limit), unless
/// over-accepting applies.
pub proof fn law_checks_refund(
    max_limit: Option<u64>,
    m: Map<Seq<char>, Counter>,
    q: Quota,
    item: ItemScoping,
    quantity: u64,
    over: bool,
    ts: u64,
)
    requires
        single_quota(max_limit, q, item, ts),
    ensures
        ({
            let k = key_for(q, item, ts);
            let c = read(m, k, ts) - read(m, refund_key_of(k), ts);
            let l = q.limit.unwrap() as i64;
            limits_active(rate_limited_outcome(max_limit, m, seq![q], item, quantity, over, ts).0, ts) == (
            crate::counter_store::exceeds(c, l, quantity) && !(over && c <= l))
        }),
{
    lemma_single_quota(max_limit, m, q, item, quantity, over, ts);
}

} // verus!
