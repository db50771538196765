//! Active rejections with their retry times, merged by category set and scope.
use vstd::prelude::*;
use crate::quota::{DataCategory, ItemScoping, ProjectKey, Quota, QuotaScope, Scoping};

verus! {

/// Seconds for which a quota with a zero limit rejects.
pub const REJECT_ALL_SECS: u64 = 60;

pub open spec fn sat_add(a: u64, b: u64) -> u64 {
    if a + b > u64::MAX {
        u64::MAX
    } else {
        (a + b) as u64
    }
}

/// The instant (in seconds since the Unix epoch) until which a rate limit holds.
#[derive(Clone, Copy, Debug, PartialEq, Eq, Structural, Hash)]
pub struct RetryAfter {
    pub when: u64,
}

impl RetryAfter {
    /// A retry time `secs` seconds after `now`.
    pub fn from_secs(now: u64, secs: u64) -> (r: RetryAfter)
        ensures
            r.when == sat_add(now, secs),
    {
        RetryAfter { when: now.saturating_add(secs) }
    }

    /// Seconds left until the rate limit lifts, as seen at `now`.
    pub fn remaining_seconds(&self, now: u64) -> (r: u64)
        ensures
            r == if self.when > now { (self.when - now) as u64 } else { 0 },
    {
        if self.when > now {
            self.when - now
        } else {
            0
        }
    }

    pub open spec fn spec_expired(self, now: u64) -> bool {
        self.when <= now
    }

    /// Whether the rate limit has lifted at `now`.
    pub fn expired(&self, now: u64) -> (r: bool)
        ensures
            r == self.spec_expired(now),
    {
        self.when <= now
    }
}

/// The scope that a rate limit applies to, with the identifier of that scope.
#[derive(Clone, Copy, Debug, PartialEq, Eq, Structural, Hash)]
pub enum RateLimitScope {
    Organization(u64),
    Project(u64),
    Key(ProjectKey),
}

impl RateLimitScope {
    pub open spec fn spec_for_quota(scoping: Scoping, scope: QuotaScope) -> RateLimitScope {
        match scope {
            QuotaScope::Organization => RateLimitScope::Organization(scoping.organization_id),
            QuotaScope::Project => RateLimitScope::Project(scoping.project_id),
            QuotaScope::Key => RateLimitScope::Key(scoping.project_key),
        }
    }

    /// The scope of a quota, filled in with the identifiers of `scoping`.
    pub fn for_quota(scoping: &Scoping, scope: QuotaScope) -> (r: RateLimitScope)
        ensures
            r == Self::spec_for_quota(*scoping, scope),
    {
        match scope {
            QuotaScope::Organization => RateLimitScope::Organization(scoping.organization_id),
            QuotaScope::Project => RateLimitScope::Project(scoping.project_id),
            QuotaScope::Key => RateLimitScope::Key(scoping.project_key),
        }
    }

    pub open spec fn spec_applies(self, scoping: Scoping) -> bool {
        match self {
            RateLimitScope::Organization(o) => o == scoping.organization_id,
            RateLimitScope::Project(p) => p == scoping.project_id,
            RateLimitScope::Key(k) => k == scoping.project_key,
        }
    }
}

/// A rejection of some categories within a scope, until `retry_after`.
#[derive(Clone, Debug, PartialEq, Eq)]
pub struct RateLimit {
    /// Rejected categories; empty means all categories.
    pub categories: Vec<DataCategory>,
    pub scope: RateLimitScope,
    pub reason_code: Option<String>,
    pub retry_after: RetryAfter,
}

/// Two category lists hold the same set of categories.
pub open spec fn same_categories(a: Seq<DataCategory>, b: Seq<DataCategory>) -> bool {
    forall|c: DataCategory| a.contains(c) <==> b.contains(c)
}

/// Two rate limits are equivalent when their category sets and scopes agree.
pub open spec fn equivalent(a: RateLimit, b: RateLimit) -> bool {
    same_categories(a.categories@, b.categories@) && a.scope == b.scope
}

pub open spec fn applies_to(rl: RateLimit, item: ItemScoping) -> bool {
    (rl.categories@.len() == 0 || rl.categories@.contains(item.category))
        && rl.scope.spec_applies(item.scoping)
}

fn copy_categories(v: &Vec<DataCategory>) -> (r: Vec<DataCategory>)
    ensures
        r@ == v@,
{
    let mut out: Vec<DataCategory> = Vec::new();
    let mut i: usize = 0;
    while i < v.len()
        invariant
            i <= v@.len(),
            out@ == v@.take(i as int),
        decreases v@.len() - i,
    {
        out.push(v[i]);
        i = i + 1;
        assert(out@ =~= v@.take(i as int));
    }
    assert(v@.take(v@.len() as int) =~= v@);
    out
}

/// Whether `c` occurs in `v`.
pub fn contains_category(v: &Vec<DataCategory>, c: DataCategory) -> (r: bool)
    ensures
        r == v@.contains(c),
{
    let mut i: usize = 0;
    while i < v.len()
        invariant
            i <= v@.len(),
            forall|j: int| 0 <= j < i ==> v@[j] != c,
        decreases v@.len() - i,
    {
        if v[i] == c {
            return true;
        }
        i = i + 1;
    }
    false
}

fn subset_categories(a: &Vec<DataCategory>, b: &Vec<DataCategory>) -> (r: bool)
    ensures
        r == (forall|c: DataCategory| a@.contains(c) ==> b@.contains(c)),
{
    let mut i: usize = 0;
    while i < a.len()
        invariant
            i <= a@.len(),
            forall|j: int| 0 <= j < i ==> b@.contains(#[trigger] a@[j]),
        decreases a@.len() - i,
    {
        if !contains_category(b, a[i]) {
            assert(a@.contains(a@[i as int]));
            return false;
        }
        i = i + 1;
    }
    true
}

pub fn clone_reason(r: &Option<String>) -> (o: Option<String>)
    ensures
        o == *r,
{
    match r {
        Some(s) => Some(s.clone()),
        None => None,
    }
}

impl RateLimit {
    pub open spec fn spec_from_quota(quota: Quota, item: ItemScoping, retry_after: RetryAfter) -> RateLimit {
        RateLimit {
            categories: quota.categories,
            scope: RateLimitScope::spec_for_quota(item.scoping, quota.scope),
            reason_code: quota.reason_code,
            retry_after,
        }
    }

    /// The rate limit that a rejecting quota issues for an item.
    pub fn from_quota(quota: &Quota, item: &ItemScoping, retry_after: RetryAfter) -> (r: RateLimit)
        ensures
            r@ == Self::spec_from_quota(*quota, *item, retry_after)@,
    {
        RateLimit {
            categories: copy_categories(&quota.categories),
            scope: RateLimitScope::for_quota(&item.scoping, quota.scope),
            reason_code: clone_reason(&quota.reason_code),
            retry_after,
        }
    }

    /// A copy of this rate limit.
    pub fn duplicate(&self) -> (r: RateLimit)
        ensures
            r@ == self@,
    {
        RateLimit {
            categories: copy_categories(&self.categories),
            scope: self.scope,
            reason_code: clone_reason(&self.reason_code),
            retry_after: self.retry_after,
        }
    }

    /// Whether this rate limit holds for the given item.
    pub fn applies(&self, item: &ItemScoping) -> (r: bool)
        ensures
            r == applies_to(*self, *item),
    {
        let in_categories = self.categories.len() == 0 || contains_category(
            &self.categories,
            item.category,
        );
        let in_scope = match self.scope {
            RateLimitScope::Organization(o) => o == item.scoping.organization_id,
            RateLimitScope::Project(p) => p == item.scoping.project_id,
            RateLimitScope::Key(k) => k == item.scoping.project_key,
        };
        in_categories && in_scope
    }

    /// Whether `self` and `other` cover the same categories and scope.
    pub fn is_equivalent(&self, other: &RateLimit) -> (r: bool)
        ensures
            r == equivalent(*self, *other),
    {
        self.scope == other.scope && subset_categories(&self.categories, &other.categories)
            && subset_categories(&other.categories, &self.categories)
    }
}

/// The mathematical value of a rate limit: its fields as plain values.
pub struct RateLimitView {
    pub categories: Seq<DataCategory>,
    pub scope: RateLimitScope,
    pub reason_code: Option<Seq<char>>,
    pub retry_after: RetryAfter,
}

impl View for RateLimit {
    type V = RateLimitView;

    open spec fn view(&self) -> RateLimitView {
        RateLimitView {
            categories: self.categories@,
            scope: self.scope,
            reason_code: crate::quota::opt_view(self.reason_code),
            retry_after: self.retry_after,
        }
    }
}

pub open spec fn equivalent_view(a: RateLimitView, b: RateLimitView) -> bool {
    same_categories(a.categories, b.categories) && a.scope == b.scope
}

pub open spec fn applies_view(rl: RateLimitView, item: ItemScoping) -> bool {
    (rl.categories.len() == 0 || rl.categories.contains(item.category))
        && rl.scope.spec_applies(item.scoping)
}

/// No two entries of `s` are equivalent.
pub open spec fn distinct_limits(s: Seq<RateLimitView>) -> bool {
    forall|i: int, j: int|
        0 <= i < s.len() && 0 <= j < s.len() && i != j ==> !equivalent_view(s[i], s[j])
}

/// Adding a rate limit: an equivalent entry is replaced when the new one lasts longer,
/// and kept otherwise; without an equivalent entry the new one is appended.
pub open spec fn spec_add(s: Seq<RateLimitView>, r: RateLimitView) -> Seq<RateLimitView> {
    if exists|j: int| 0 <= j < s.len() && equivalent_view(s[j], r) {
        let j = choose|j: int| 0 <= j < s.len() && equivalent_view(s[j], r);
        if s[j].retry_after.when < r.retry_after.when {
            s.update(j, r)
        } else {
            s
        }
    } else {
        s.push(r)
    }
}

/// Adding each of `others` in order.
pub open spec fn spec_merge(s: Seq<RateLimitView>, others: Seq<RateLimitView>) -> Seq<RateLimitView>
    decreases others.len(),
{
    if others.len() == 0 {
        s
    } else {
        spec_add(spec_merge(s, others.drop_last()), others.last())
    }
}

/// The entries of `s` that still hold at `now`, in order.
pub open spec fn spec_active(s: Seq<RateLimitView>, now: u64) -> Seq<RateLimitView>
    decreases s.len(),
{
    if s.len() == 0 {
        s
    } else if s.last().retry_after.when > now {
        spec_active(s.drop_last(), now).push(s.last())
    } else {
        spec_active(s.drop_last(), now)
    }
}

proof fn lemma_active(s: Seq<RateLimitView>, now: u64)
    requires
        distinct_limits(s),
    ensures
        distinct_limits(spec_active(s, now)),
        forall|x: RateLimitView| spec_active(s, now).contains(x) ==> s.contains(x),
    decreases s.len(),
{
    if s.len() > 0 {
        let p = s.drop_last();
        let l = s.last();
        assert(distinct_limits(p)) by {
            assert forall|i: int, j: int|
                0 <= i < p.len() && 0 <= j < p.len() && i != j implies !equivalent_view(p[i], p[j]) by {
                assert(p[i] == s[i] && p[j] == s[j]);
            }
        }
        lemma_active(p, now);
        let a = spec_active(s, now);
        let ap = spec_active(p, now);
        assert forall|x: RateLimitView| a.contains(x) implies s.contains(x) by {
            if ap.contains(x) {
                assert(p.contains(x));
                let m = choose|m: int| 0 <= m < p.len() && p[m] == x;
                assert(s[m] == x);
            } else {
                assert(s[s.len() - 1] == x);
            }
        }
        if l.retry_after.when > now {
            assert(a == ap.push(l));
            assert forall|i: int, j: int|
                0 <= i < a.len() && 0 <= j < a.len() && i != j implies !equivalent_view(a[i], a[j]) by {
                if i < ap.len() && j < ap.len() {
                    assert(a[i] == ap[i] && a[j] == ap[j]);
                } else {
                    let k = if i < ap.len() { i } else { j };
                    assert(a[k] == ap[k]);
                    assert(ap.contains(ap[k]));
                    assert(p.contains(ap[k]));
                    let m = choose|m: int| 0 <= m < p.len() && p[m] == ap[k];
                    assert(s[m] == ap[k]);
                    assert(!equivalent_view(s[m], s[s.len() - 1]));
                    assert(!equivalent_view(s[s.len() - 1], s[m]));
                }
            }
        }
    }
}

/// The rate limits currently known, with no two entries equivalent.
#[derive(Clone, Debug, PartialEq, Eq)]
pub struct RateLimits {
    pub limits: Vec<RateLimit>,
}

impl View for RateLimits {
    type V = Seq<RateLimitView>;

    open spec fn view(&self) -> Seq<RateLimitView> {
        Seq::new(self.limits@.len(), |i: int| self.limits@[i]@)
    }
}

impl RateLimits {
    pub open spec fn wf(&self) -> bool {
        distinct_limits(self@)
    }

    /// An empty set of rate limits.
    pub fn new() -> (r: RateLimits)
        ensures
            r@ == Seq::<RateLimitView>::empty(),
            r.wf(),
    {
        RateLimits { limits: Vec::new() }
    }

    /// Whether any rate limit holds at `now`.
    pub fn is_limited(&self, now: u64) -> (r: bool)
        ensures
            r == exists|i: int| 0 <= i < self@.len() && self@[i].retry_after.when > now,
    {
        let mut i: usize = 0;
        while i < self.limits.len()
            invariant
                i <= self.limits@.len(),
                forall|j: int| 0 <= j < i ==> self@[j].retry_after.when <= now,
            decreases self.limits@.len() - i,
        {
            if self.limits[i].retry_after.when > now {
                assert(self@[i as int].retry_after.when > now);
                return true;
            }
            i = i + 1;
        }
        false
    }

    /// Number of rate limits held.
    pub fn len(&self) -> (r: usize)
        ensures
            r == self@.len(),
    {
        self.limits.len()
    }

    /// Whether no rate limit is held.
    pub fn is_empty(&self) -> (r: bool)
        ensures
            r == (self@.len() == 0),
    {
        self.limits.len() == 0
    }

    /// Adds a rate limit, merging it with an equivalent one.
    pub fn add(&mut self, limit: RateLimit)
        requires
            old(self).wf(),
        ensures
            final(self)@ == spec_add(old(self)@, limit@),
            final(self).wf(),
    {
        let ghost s = self@;
        let ghost r = limit@;
        let mut i: usize = 0;
        while i < self.limits.len()
            invariant
                self@ == s,
                old(self)@ == s,
                r == limit@,
                distinct_limits(s),
                i <= s.len(),
                forall|j: int| 0 <= j < i ==> !equivalent_view(s[j], r),
            decreases s.len() - i,
        {
            if self.limits[i].is_equivalent(&limit) {
                proof {
                    assert(exists|j: int| 0 <= j < s.len() && equivalent_view(s[j], r)) by {
                        assert(equivalent_view(s[i as int], r));
                    }
                    let c = choose|j: int| 0 <= j < s.len() && equivalent_view(s[j], r);
                    if c != i {
                        assert(equivalent_view(s[c], s[i as int]));
                    }
                    assert(c == i);
                    assert(spec_add(s, r) == (if s[i as int].retry_after.when < r.retry_after.when {
                        s.update(i as int, r)
                    } else {
                        s
                    }));
                }
                if self.limits[i].retry_after.when < limit.retry_after.when {
                    self.limits.set(i, limit);
                    proof {
                        assert(self@ =~= s.update(i as int, r));
                        assert forall|a: int, b: int|
                            0 <= a < self@.len() && 0 <= b < self@.len() && a != b implies !equivalent_view(
                            self@[a],
                            self@[b],
                        ) by {
                            if a == i {
                                if equivalent_view(self@[a], self@[b]) {
                                    assert(equivalent_view(s[i as int], s[b]));
                                }
                            } else if b == i {
                                if equivalent_view(self@[a], self@[b]) {
                                    assert(equivalent_view(s[a], s[i as int]));
                                }
                            }
                        }
                    }
                    assert(self@ == spec_add(s, r));
                } else {
                    assert(self@ == spec_add(s, r));
                }
                return;
            }
            i = i + 1;
        }
        self.limits.push(limit);
        proof {
            assert(self@ =~= s.push(r));
            assert forall|a: int, b: int|
                0 <= a < self@.len() && 0 <= b < self@.len() && a != b implies !equivalent_view(
                self@[a],
                self@[b],
            ) by {
                if a == s.len() {
                    if equivalent_view(self@[a], self@[b]) {
                        assert(equivalent_view(s[b], r));
                    }
                } else if b == s.len() {
                    assert(!equivalent_view(s[a], r));
                }
            }
        }
    }

    /// Adds every rate limit of `other`, in order.
    pub fn merge(&mut self, other: RateLimits)
        requires
            old(self).wf(),
        ensures
            final(self)@ == spec_merge(old(self)@, other@),
            final(self).wf(),
    {
        let ghost s0 = self@;
        let mut i: usize = 0;
        while i < other.limits.len()
            invariant
                self.wf(),
                i <= other@.len(),
                self@ == spec_merge(s0, other@.take(i as int)),
            decreases other@.len() - i,
        {
            let item = other.limits[i].duplicate();
            self.add(item);
            proof {
                assert(other@.take(i + 1).drop_last() =~= other@.take(i as int));
            }
            i = i + 1;
        }
        assert(other@.take(other@.len() as int) =~= other@);
    }

    /// Removes the rate limits that have lifted at `now`, keeping the order of the rest.
    pub fn clean_expired(&mut self, now: u64)
        requires
            old(self).wf(),
        ensures
            final(self)@ == spec_active(old(self)@, now),
            final(self).wf(),
    {
        let ghost s = self@;
        let mut kept: Vec<RateLimit> = Vec::new();
        let mut i: usize = 0;
        while i < self.limits.len()
            invariant
                self@ == s,
                i <= s.len(),
                Seq::new(kept@.len(), |k: int| kept@[k]@) == spec_active(s.take(i as int), now),
            decreases s.len() - i,
        {
            let ghost before = kept@;
            if self.limits[i].retry_after.when > now {
                kept.push(self.limits[i].duplicate());
            }
            proof {
                assert(s.take(i + 1).drop_last() =~= s.take(i as int));
                assert(Seq::new(kept@.len(), |k: int| kept@[k]@) =~= spec_active(s.take(i + 1), now));
            }
            i = i + 1;
        }
        assert(s.take(s.len() as int) =~= s);
        self.limits = kept;
        proof {
            lemma_active(s, now);
        }
    }

    /// The rate limits that hold for an item, together with rejections from zero-limit
    /// quotas that count it.
    pub fn check_with_quotas(&self, quotas: &[Quota], item: &ItemScoping, now: u64) -> (r: RateLimits)
        ensures
            r.wf(),
            r@ == spec_merge(
                spec_merge(
                    Seq::empty(),
                    zero_quota_limits(quotas@, *item, RetryAfter { when: sat_add(now, REJECT_ALL_SECS) }),
                ),
                self@.filter(|v: RateLimitView| applies_view(v, *item)),
            ),
    {
        let retry_after = RetryAfter::from_secs(now, REJECT_ALL_SECS);
        let mut applied = RateLimits::new();
        let ghost zs = zero_quota_limits(quotas@, *item, retry_after);
        let mut i: usize = 0;
        while i < quotas.len()
            invariant
                applied.wf(),
                i <= quotas@.len(),
                applied@ == spec_merge(Seq::empty(), zero_quota_limits(quotas@.take(i as int), *item, retry_after)),
            decreases quotas@.len() - i,
        {
            let quota = &quotas[i];
            assert(quotas@.take(i + 1).drop_last() =~= quotas@.take(i as int));
            let ghost prev = zero_quota_limits(quotas@.take(i as int), *item, retry_after);
            let ghost next = zero_quota_limits(quotas@.take(i + 1), *item, retry_after);
            assert(quotas@.take(i + 1).last() == quotas@[i as int]);
            if quota.limit == Some(0u64) && quota.matches(item) {
                let rl = RateLimit::from_quota(quota, item, retry_after);
                proof {
                    assert(next == prev.push(rl@));
                    assert(next.drop_last() =~= prev);
                }
                applied.add(rl);
            } else {
                assert(next == prev);
            }
            i = i + 1;
        }
        assert(quotas@.take(quotas@.len() as int) =~= quotas@);
        let ghost base = applied@;
        let ghost mine = self@;
        let mut k: usize = 0;
        while k < self.limits.len()
            invariant
                applied.wf(),
                k <= mine.len(),
                mine == self@,
                applied@ == spec_merge(base, mine.take(k as int).filter(|v: RateLimitView| applies_view(v, *item))),
            decreases mine.len() - k,
        {
            proof {
                assert(mine.take(k + 1).drop_last() =~= mine.take(k as int));
                reveal_with_fuel(Seq::filter, 1);
                assert(mine.take(k + 1).last() == mine[k as int]);
            }
            if self.limits[k].applies(item) {
                let rl = self.limits[k].duplicate();
                proof {
                    let f = mine.take(k as int).filter(|v: RateLimitView| applies_view(v, *item));
                    let g = mine.take(k + 1).filter(|v: RateLimitView| applies_view(v, *item));
                    assert(g == f.push(mine[k as int]));
                    assert(g.drop_last() =~= f);
                }
                applied.add(rl);
            } else {
                proof {
                    let f = mine.take(k as int).filter(|v: RateLimitView| applies_view(v, *item));
                    let g = mine.take(k + 1).filter(|v: RateLimitView| applies_view(v, *item));
                    assert(g == f);
                }
            }
            k = k + 1;
        }
        assert(mine.take(mine.len() as int) =~= mine);
        applied
    }
}

/// The rejections issued by the zero-limit quotas among `quotas` that count `item`.
pub open spec fn zero_quota_limits(quotas: Seq<Quota>, item: ItemScoping, retry_after: RetryAfter) -> Seq<RateLimitView>
    decreases quotas.len(),
{
    if quotas.len() == 0 {
        Seq::empty()
    } else {
        let q = quotas.last();
        let prev = zero_quota_limits(quotas.drop_last(), item, retry_after);
        if q.limit == Some(0u64) && q.spec_matches(item) {
            prev.push(RateLimit::spec_from_quota(q, item, retry_after)@)
        } else {
            prev
        }
    }
}

} // verus!
