//! The shared counter store and the atomic script that checks and counts quota usage.
//!
//! A batch of entries is evaluated in two passes: first every entry is checked against
//! the current counters; only if none of them rejects are the counters incremented.
use vstd::prelude::*;
use crate::text::str_eq;

verus! {

/// One quota of a script invocation: its two keys and four arguments.
#[derive(Clone, Debug, PartialEq, Eq)]
pub struct ScriptEntry {
    pub counter_key: String,
    pub refund_key: String,
    /// The limit; a negative value means unlimited.
    pub limit: i64,
    /// Absolute expiry (seconds since the epoch) given to a counter when it is created.
    pub expiry: u64,
    pub quantity: u64,
    pub over_accept_once: bool,
}

/// The plain values of a script entry.
pub struct ScriptEntryView {
    pub counter_key: Seq<char>,
    pub refund_key: Seq<char>,
    pub limit: i64,
    pub expiry: u64,
    pub quantity: u64,
    pub over_accept_once: bool,
}

impl View for ScriptEntry {
    type V = ScriptEntryView;

    open spec fn view(&self) -> ScriptEntryView {
        ScriptEntryView {
            counter_key: self.counter_key@,
            refund_key: self.refund_key@,
            limit: self.limit,
            expiry: self.expiry,
            quantity: self.quantity,
            over_accept_once: self.over_accept_once,
        }
    }
}

pub open spec fn entry_views(es: Seq<ScriptEntry>) -> Seq<ScriptEntryView> {
    Seq::new(es.len(), |i: int| es[i]@)
}

/// A stored counter value with its optional absolute expiry.
#[derive(Clone, Copy, Debug, PartialEq, Eq, Structural)]
pub struct Counter {
    pub value: i64,
    pub expires_at: Option<u64>,
}

#[derive(Clone, Debug, PartialEq, Eq)]
pub struct CounterSlot {
    pub key: String,
    pub counter: Counter,
}

/// In-memory counter store with the script's semantics.
#[derive(Clone, Debug)]
pub struct CounterStore {
    slots: Vec<CounterSlot>,
}

pub open spec fn model_of(s: Seq<CounterSlot>) -> Map<Seq<char>, Counter>
    decreases s.len(),
{
    if s.len() == 0 {
        Map::empty()
    } else {
        model_of(s.drop_last()).insert(s.last().key@, s.last().counter)
    }
}

pub open spec fn live(c: Counter, now: u64) -> bool {
    match c.expires_at {
        None => true,
        Some(t) => now < t,
    }
}

/// The value of a key at `now`; absent and expired keys read as zero.
pub open spec fn read(m: Map<Seq<char>, Counter>, k: Seq<char>, now: u64) -> int {
    if m.contains_key(k) && live(m[k], now) {
        m[k].value as int
    } else {
        0
    }
}

/// Consumption of an entry: its counter minus its refund counter.
pub open spec fn consumed(m: Map<Seq<char>, Counter>, e: ScriptEntryView, now: u64) -> int {
    read(m, e.counter_key, now) - read(m, e.refund_key, now)
}

/// Whether `quantity` more would exceed `limit`; with a zero quantity, whether the
/// limit is already reached.
pub open spec fn exceeds(consumed: int, limit: i64, quantity: u64) -> bool {
    limit >= 0 && if quantity == 0 {
        consumed >= limit
    } else {
        consumed + quantity > limit
    }
}

/// Whether the script rejects an entry in the state `m`.
pub open spec fn rejects(m: Map<Seq<char>, Counter>, e: ScriptEntryView, now: u64) -> bool {
    let c = consumed(m, e, now);
    exceeds(c, e.limit, e.quantity) && !(e.over_accept_once && c <= e.limit)
}

pub open spec fn sat_i64(x: int) -> i64 {
    if x > i64::MAX {
        i64::MAX
    } else {
        x as i64
    }
}

/// Incrementing a key by `q`: a live counter keeps its expiry, a new one gets `expiry`.
pub open spec fn bump(m: Map<Seq<char>, Counter>, k: Seq<char>, q: u64, expiry: u64, now: u64) -> Map<
    Seq<char>,
    Counter,
> {
    if q == 0 {
        m
    } else if m.contains_key(k) && live(m[k], now) {
        m.insert(k, Counter { value: sat_i64(m[k].value + q), expires_at: m[k].expires_at })
    } else {
        m.insert(k, Counter { value: sat_i64(q as int), expires_at: Some(expiry) })
    }
}

/// Incrementing the counters of all entries, in order.
pub open spec fn apply_all(m: Map<Seq<char>, Counter>, es: Seq<ScriptEntryView>, now: u64) -> Map<
    Seq<char>,
    Counter,
>
    decreases es.len(),
{
    if es.len() == 0 {
        m
    } else {
        let e = es.last();
        bump(apply_all(m, es.drop_last(), now), e.counter_key, e.quantity, e.expiry, now)
    }
}

pub open spec fn any_rejects(m: Map<Seq<char>, Counter>, es: Seq<ScriptEntryView>, now: u64) -> bool {
    exists|i: int| 0 <= i < es.len() && rejects(m, es[i], now)
}

/// The reply of the script: one flag per entry, `true` for a rejection.
pub open spec fn script_reply(m: Map<Seq<char>, Counter>, es: Seq<ScriptEntryView>, now: u64) -> Seq<bool> {
    Seq::new(es.len(), |i: int| rejects(m, es[i], now))
}

/// The store after the script: unchanged if any entry rejects, else all counters incremented.
pub open spec fn script_state(m: Map<Seq<char>, Counter>, es: Seq<ScriptEntryView>, now: u64) -> Map<
    Seq<char>,
    Counter,
> {
    if any_rejects(m, es, now) {
        m
    } else {
        apply_all(m, es, now)
    }
}

proof fn lemma_lookup_last(s: Seq<CounterSlot>, k: Seq<char>, j: int)
    requires
        0 <= j < s.len(),
        s[j].key@ == k,
        forall|t: int| j < t < s.len() ==> (#[trigger] s[t]).key@ != k,
    ensures
        model_of(s).contains_key(k),
        model_of(s)[k] == s[j].counter,
    decreases s.len(),
{
    if j < s.len() - 1 {
        let p = s.drop_last();
        assert forall|t: int| j < t < p.len() implies (#[trigger] p[t]).key@ != k by {
            assert(p[t] == s[t]);
        }
        lemma_lookup_last(p, k, j);
        assert(s[s.len() - 1].key@ != k);
    }
}

proof fn lemma_absent(s: Seq<CounterSlot>, k: Seq<char>)
    requires
        forall|t: int| 0 <= t < s.len() ==> (#[trigger] s[t]).key@ != k,
    ensures
        !model_of(s).contains_key(k),
    decreases s.len(),
{
    if s.len() > 0 {
        let p = s.drop_last();
        assert forall|t: int| 0 <= t < p.len() implies (#[trigger] p[t]).key@ != k by {
            assert(p[t] == s[t]);
        }
        lemma_absent(p, k);
        assert(s[s.len() - 1].key@ != k);
    }
}

proof fn lemma_update_last(s: Seq<CounterSlot>, j: int, slot: CounterSlot)
    requires
        0 <= j < s.len(),
        s[j].key@ == slot.key@,
        forall|t: int| j < t < s.len() ==> (#[trigger] s[t]).key@ != slot.key@,
    ensures
        model_of(s.update(j, slot)) == model_of(s).insert(slot.key@, slot.counter),
    decreases s.len(),
{
    let u = s.update(j, slot);
    let p = s.drop_last();
    if j == s.len() - 1 {
        assert(u.drop_last() =~= p);
        assert(model_of(u) =~= model_of(s).insert(slot.key@, slot.counter));
    } else {
        assert(u.drop_last() =~= p.update(j, slot));
        assert forall|t: int| j < t < p.len() implies (#[trigger] p[t]).key@ != slot.key@ by {
            assert(p[t] == s[t]);
        }
        lemma_update_last(p, j, slot);
        assert(s[s.len() - 1].key@ != slot.key@);
        assert(model_of(u) =~= model_of(s).insert(slot.key@, slot.counter));
    }
}

impl CounterStore {
    pub closed spec fn model(&self) -> Map<Seq<char>, Counter> {
        model_of(self.slots@)
    }

    /// An empty store.
    pub fn new() -> (r: CounterStore)
        ensures
            r.model() == Map::<Seq<char>, Counter>::empty(),
    {
        CounterStore { slots: Vec::new() }
    }

    fn find_last(&self, key: &str) -> (r: Option<usize>)
        ensures
            match r {
                Some(j) => j < self.slots@.len() && self.slots@[j as int].key@ == key@ && forall|t: int|
                    j < t < self.slots@.len() ==> (#[trigger] self.slots@[t]).key@ != key@,
                None => forall|t: int|
                    0 <= t < self.slots@.len() ==> (#[trigger] self.slots@[t]).key@ != key@,
            },
    {
        let mut i: usize = self.slots.len();
        while i > 0
            invariant
                i <= self.slots@.len(),
                forall|t: int| i <= t < self.slots@.len() ==> (#[trigger] self.slots@[t]).key@ != key@,
            decreases i,
        {
            i = i - 1;
            if str_eq(self.slots[i].key.as_str(), key) {
                return Some(i);
            }
        }
        None
    }

    /// The value of `key` at `now`; absent and expired keys read as zero.
    pub fn get(&self, key: &str, now: u64) -> (r: i64)
        ensures
            r as int == read(self.model(), key@, now),
    {
        match self.find_last(key) {
            Some(j) => {
                proof {
                    lemma_lookup_last(self.slots@, key@, j as int);
                }
                let c = self.slots[j].counter;
                let alive = match c.expires_at {
                    None => true,
                    Some(t) => now < t,
                };
                if alive {
                    c.value
                } else {
                    0
                }
            },
            None => {
                proof {
                    lemma_absent(self.slots@, key@);
                }
                0
            },
        }
    }

    /// Seconds until `key` expires, for a live key with an expiry.
    pub fn ttl(&self, key: &str, now: u64) -> (r: Option<u64>)
        ensures
            r == (if self.model().contains_key(key@) && live(self.model()[key@], now) {
                match self.model()[key@].expires_at {
                    Some(t) => Some((t - now) as u64),
                    None => None,
                }
            } else {
                None
            }),
    {
        match self.find_last(key) {
            Some(j) => {
                proof {
                    lemma_lookup_last(self.slots@, key@, j as int);
                }
                match self.slots[j].counter.expires_at {
                    Some(t) => if now < t {
                        Some(t - now)
                    } else {
                        None
                    },
                    None => None,
                }
            },
            None => {
                proof {
                    lemma_absent(self.slots@, key@);
                }
                None
            },
        }
    }

    fn put(&mut self, key: &str, counter: Counter)
        ensures
            final(self).model() == old(self).model().insert(key@, counter),
    {
        let slot = CounterSlot { key: key.to_owned(), counter };
        match self.find_last(key) {
            Some(j) => {
                proof {
                    lemma_update_last(self.slots@, j as int, slot);
                }
                self.slots.set(j, slot);
            },
            None => {
                let ghost s = self.slots@;
                self.slots.push(slot);
                assert(self.slots@.drop_last() =~= s);
            },
        }
    }

    /// Stores `value` under `key`, with an optional absolute expiry.
    pub fn set(&mut self, key: &str, value: i64, expires_at: Option<u64>)
        ensures
            final(self).model() == old(self).model().insert(key@, Counter { value, expires_at }),
    {
        self.put(key, Counter { value, expires_at });
    }

    fn increment(&mut self, key: &str, q: u64, expiry: u64, now: u64)
        ensures
            final(self).model() == bump(old(self).model(), key@, q, expiry, now),
    {
        if q == 0 {
            return;
        }
        let current = match self.find_last(key) {
            Some(j) => {
                proof {
                    lemma_lookup_last(self.slots@, key@, j as int);
                }
                let c = self.slots[j].counter;
                let alive = match c.expires_at {
                    None => true,
                    Some(t) => now < t,
                };
                if alive {
                    Some(c)
                } else {
                    None
                }
            },
            None => {
                proof {
                    lemma_absent(self.slots@, key@);
                }
                None
            },
        };
        match current {
            Some(c) => {
                let sum: i128 = c.value as i128 + q as i128;
                let value: i64 = if sum > i64::MAX as i128 {
                    i64::MAX
                } else {
                    sum as i64
                };
                self.put(key, Counter { value, expires_at: c.expires_at });
            },
            None => {
                let value: i64 = if q > i64::MAX as u64 {
                    i64::MAX
                } else {
                    q as i64
                };
                self.put(key, Counter { value, expires_at: Some(expiry) });
            },
        }
    }

    /// Runs the script on a batch: replies one rejection flag per entry and, when no
    /// entry rejects, increments every entry's counter by its quantity.
    pub fn evaluate(&mut self, entries: &[ScriptEntry], now: u64) -> (r: Vec<bool>)
        ensures
            r@ == script_reply(old(self).model(), entry_views(entries@), now),
            final(self).model() == script_state(old(self).model(), entry_views(entries@), now),
    {
        let ghost m = self.model();
        let mut reply: Vec<bool> = Vec::new();
        let mut failed = false;
        let mut i: usize = 0;
        while i < entries.len()
            invariant
                self.model() == m,
                i <= entries@.len(),
                reply@ == Seq::new(i as nat, |j: int| rejects(m, entries@[j]@, now)),
                failed == exists|j: int| 0 <= j < i && rejects(m, entries@[j]@, now),
            decreases entries@.len() - i,
        {
            let e = &entries[i];
            let counted = self.get(e.counter_key.as_str(), now);
            let refunded = self.get(e.refund_key.as_str(), now);
            let c: i128 = counted as i128 - refunded as i128;
            let over = e.limit >= 0 && if e.quantity == 0 {
                c >= e.limit as i128
            } else {
                c + e.quantity as i128 > e.limit as i128
            };
            let rejected = over && !(e.over_accept_once && c <= e.limit as i128);
            assert(rejected == rejects(m, entries@[i as int]@, now));
            reply.push(rejected);
            if rejected {
                failed = true;
            }
            i = i + 1;
            assert(reply@ =~= Seq::new(i as nat, |j: int| rejects(m, entries@[j]@, now)));
        }
        let ghost ev = entry_views(entries@);
        assert(failed == any_rejects(m, ev, now)) by {
            if failed {
                let j = choose|j: int| 0 <= j < entries@.len() && rejects(m, entries@[j]@, now);
                assert(ev[j] == entries@[j]@);
            } else {
                assert forall|j: int| 0 <= j < ev.len() implies !rejects(m, ev[j], now) by {
                    assert(ev[j] == entries@[j]@);
                }
            }
        }
        if !failed {
            let mut k: usize = 0;
            while k < entries.len()
                invariant
                    k <= entries@.len(),
                    self.model() == apply_all(m, entry_views(entries@.take(k as int)), now),
                decreases entries@.len() - k,
            {
                let e = &entries[k];
                self.increment(e.counter_key.as_str(), e.quantity, e.expiry, now);
                assert(entry_views(entries@.take(k + 1)).drop_last() =~= entry_views(entries@.take(k as int)));
                k = k + 1;
            }
            assert(entry_views(entries@.take(entries@.len() as int)) =~= entry_views(entries@));
        }
        assert(reply@ =~= script_reply(m, entry_views(entries@), now));
        reply
    }
}

/// The store after `n` successive invocations with the single entry `e`.
pub open spec fn after_calls(m: Map<Seq<char>, Counter>, e: ScriptEntryView, now: u64, n: nat) -> Map<
    Seq<char>,
    Counter,
>
    decreases n,
{
    if n == 0 {
        m
    } else {
        script_state(after_calls(m, e, now, (n - 1) as nat), seq![e], now)
    }
}

proof fn lemma_bump_reads(m: Map<Seq<char>, Counter>, k: Seq<char>, q: u64, expiry: u64, now: u64, other: Seq<char>)
    requires
        q > 0,
        now < expiry || (m.contains_key(k) && live(m[k], now)),
        read(m, k, now) + q <= i64::MAX,
        other != k,
    ensures
        read(bump(m, k, q, expiry, now), k, now) == read(m, k, now) + q,
        read(bump(m, k, q, expiry, now), other, now) == read(m, other, now),
{
}

proof fn lemma_single(m: Map<Seq<char>, Counter>, e: ScriptEntryView, now: u64)
    ensures
        any_rejects(m, seq![e], now) == rejects(m, e, now),
        apply_all(m, seq![e], now) == bump(m, e.counter_key, e.quantity, e.expiry, now),
{
    assert(seq![e].drop_last() =~= Seq::<ScriptEntryView>::empty());
    assert(seq![e][0] == e);
    assert(apply_all(m, Seq::<ScriptEntryView>::empty(), now) == m);
}

/// Successive single-unit invocations without over-accepting, starting from an unused
/// counter, are accepted exactly up to the limit: after `n` invocations the counter holds
/// `min(n, limit)`, and the next one is rejected exactly when `n` has reached the limit.
pub proof fn law_counts_up_to_limit(m: Map<Seq<char>, Counter>, e: ScriptEntryView, now: u64, n: nat)
    requires
        e.quantity == 1,
        !e.over_accept_once,
        e.limit >= 0,
        now < e.expiry,
        e.counter_key != e.refund_key,
        read(m, e.counter_key, now) == 0,
        read(m, e.refund_key, now) == 0,
    ensures
        read(after_calls(m, e, now, n), e.counter_key, now) == if n <= e.limit {
            n as int
        } else {
            e.limit as int
        },
        read(after_calls(m, e, now, n), e.refund_key, now) == 0,
        rejects(after_calls(m, e, now, n), e, now) <==> n >= e.limit,
    decreases n,
{
    if n > 0 {
        let p = after_calls(m, e, now, (n - 1) as nat);
        law_counts_up_to_limit(m, e, now, (n - 1) as nat);
        lemma_single(p, e, now);
        if (n - 1) < e.limit {
            assert(!rejects(p, e, now));
            lemma_bump_reads(p, e.counter_key, 1, e.expiry, now, e.refund_key);
        }
    }
}

/// With a zero quantity nothing is counted, and the decision is whether the limit is
/// already reached by the current consumption.
pub proof fn law_zero_quantity(m: Map<Seq<char>, Counter>, es: Seq<ScriptEntryView>, now: u64)
    requires
        forall|i: int| 0 <= i < es.len() ==> (#[trigger] es[i]).quantity == 0,
    ensures
        script_state(m, es, now) == m,
        forall|i: int| 0 <= i < es.len() ==> (#[trigger] script_reply(m, es, now)[i]) == ({
            let c = consumed(m, es[i], now);
            es[i].limit >= 0 && c >= es[i].limit && !(es[i].over_accept_once && c <= es[i].limit)
        }),
    decreases es.len(),
{
    if es.len() > 0 {
        let p = es.drop_last();
        assert forall|i: int| 0 <= i < p.len() implies (#[trigger] p[i]).quantity == 0 by {
            assert(p[i] == es[i]);
        }
        law_zero_quantity(m, p, now);
        assert(apply_all(m, p, now) == m) by {
            if !any_rejects(m, p, now) {
            } else {
                lemma_apply_zero(m, p, now);
            }
        }
        assert(es.last().quantity == 0) by {
            assert(es[es.len() - 1].quantity == 0);
        }
    }
}

proof fn lemma_apply_zero(m: Map<Seq<char>, Counter>, es: Seq<ScriptEntryView>, now: u64)
    requires
        forall|i: int| 0 <= i < es.len() ==> (#[trigger] es[i]).quantity == 0,
    ensures
        apply_all(m, es, now) == m,
    decreases es.len(),
{
    if es.len() > 0 {
        let p = es.drop_last();
        assert forall|i: int| 0 <= i < p.len() implies (#[trigger] p[i]).quantity == 0 by {
            assert(p[i] == es[i]);
        }
        lemma_apply_zero(m, p, now);
        assert(es[es.len() - 1].quantity == 0);
    }
}

/// With a limit of two and over-accepting, a unit invocation and then an invocation of
/// two on an unused counter are both accepted, and every later invocation is rejected.
pub proof fn law_over_accept_once(
    m: Map<Seq<char>, Counter>,
    first: ScriptEntryView,
    second: ScriptEntryView,
    later: ScriptEntryView,
    now: u64,
)
    requires
        first.counter_key == second.counter_key,
        first.counter_key == later.counter_key,
        first.refund_key == second.refund_key,
        first.refund_key == later.refund_key,
        first.counter_key != first.refund_key,
        first.limit == 2 && second.limit == 2 && later.limit == 2,
        first.quantity == 1 && second.quantity == 2,
        first.over_accept_once && second.over_accept_once,
        now < first.expiry,
        read(m, first.counter_key, now) == 0,
        read(m, first.refund_key, now) == 0,
    ensures
        !rejects(m, first, now),
        !rejects(script_state(m, seq![first], now), second, now),
        rejects(script_state(script_state(m, seq![first], now), seq![second], now), later, now),
{
    lemma_single(m, first, now);
    assert(!rejects(m, first, now));
    let m1 = script_state(m, seq![first], now);
    lemma_bump_reads(m, first.counter_key, 1, first.expiry, now, first.refund_key);
    lemma_single(m1, second, now);
    assert(!rejects(m1, second, now));
    let m2 = script_state(m1, seq![second], now);
    assert(read(m1, first.counter_key, now) == 1);
    let k = first.counter_key;
    assert(m1.contains_key(k) && live(m1[k], now));
    lemma_bump_reads(m1, k, 2, second.expiry, now, first.refund_key);
    assert(read(m2, k, now) == 3);
}

/// A rejection of any entry leaves every counter as it was, so no other entry of the
/// batch is counted.
pub proof fn law_no_partial_increment(m: Map<Seq<char>, Counter>, es: Seq<ScriptEntryView>, now: u64, i: int)
    requires
        0 <= i < es.len(),
        rejects(m, es[i], now),
    ensures
        script_state(m, es, now) == m,
        forall|j: int|
            0 <= j < es.len() ==> read(script_state(m, es, now), (#[trigger] es[j]).counter_key, now) == read(
                m,
                es[j].counter_key,
                now,
            ),
{
}

/// The refund counter is subtracted from the counter before the limit is checked.
pub proof fn law_refund(m: Map<Seq<char>, Counter>, e: ScriptEntryView, now: u64)
    ensures
        rejects(m, e, now) == ({
            let c = read(m, e.counter_key, now) - read(m, e.refund_key, now);
            exceeds(c, e.limit, e.quantity) && !(e.over_accept_once && c <= e.limit)
        }),
{
}

} // verus!
