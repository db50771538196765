use relay_core::counter_store::{CounterStore, ScriptEntry};
use relay_core::limiter::{get_refunded_quota_key, RateLimitingError, RedisQuota, RedisRateLimiter};
use relay_core::quota::{DataCategory, ItemScoping, ProjectKey, Quota, QuotaScope, Scoping};
use relay_core::rate_limit::{RateLimit, RateLimitScope, RateLimits, RetryAfter};

const NOW: u64 = 1_700_000_000;

fn scoping() -> ItemScoping {
    ItemScoping {
        category: DataCategory::Error,
        scoping: Scoping {
            organization_id: 42,
            project_id: 43,
            project_key: ProjectKey::parse("a94ae32be2584e0bbd7a4cbb95971fee").unwrap(),
            key_id: Some(44),
        },
    }
}

fn quota(id: Option<&str>, limit: Option<u64>, window: Option<u64>, reason: &str) -> Quota {
    Quota {
        id: id.map(|s| s.to_owned()),
        categories: vec![],
        scope: QuotaScope::Organization,
        scope_id: None,
        limit,
        window,
        reason_code: Some(reason.to_owned()),
    }
}

fn check(
    limiter: &RedisRateLimiter,
    store: &mut CounterStore,
    quotas: &[Quota],
    quantity: usize,
    over: bool,
) -> RateLimits {
    limiter
        .is_rate_limited(store, quotas, &scoping(), quantity, over, NOW)
        .expect("rate limiting failed")
}

fn org_limit(reason: &str, retry_after: RetryAfter) -> RateLimit {
    RateLimit {
        categories: vec![],
        scope: RateLimitScope::Organization(42),
        reason_code: Some(reason.to_owned()),
        retry_after,
    }
}

#[test]
fn test_zero_size_quotas() {
    let quotas = [
        quota(None, Some(0), None, "get_lost"),
        quota(Some("42"), None, Some(42), "unlimited"),
    ];
    let mut store = CounterStore::new();
    let rate_limits = check(&RedisRateLimiter::new(), &mut store, &quotas, 1, false).limits;
    assert_eq!(rate_limits, vec![org_limit("get_lost", rate_limits[0].retry_after)]);
    // the zero quota rejected without the store: nothing was counted
    let key = RedisQuota::new(&quotas[1], &scoping(), NOW).unwrap().key();
    assert_eq!(store.get(&key, NOW), 0);
}

#[test]
fn test_simple_quota() {
    let quotas = [quota(Some("test_simple_quota"), Some(5), Some(60), "get_lost")];
    let limiter = RedisRateLimiter::new();
    let mut store = CounterStore::new();
    for i in 0..10 {
        let rate_limits = check(&limiter, &mut store, &quotas, 1, false).limits;
        if i >= 5 {
            assert_eq!(rate_limits, vec![org_limit("get_lost", rate_limits[0].retry_after)]);
        } else {
            assert_eq!(rate_limits, vec![]);
        }
    }
}

#[test]
fn test_quantity_0() {
    let quotas = [quota(Some("test_quantity_0"), Some(1), Some(60), "get_lost")];
    let limiter = RedisRateLimiter::new();
    let mut store = CounterStore::new();
    // limit is 1, so first call not rate limited
    assert!(!check(&limiter, &mut store, &quotas, 1, false).is_limited(NOW));
    // quota is now exhausted
    assert!(check(&limiter, &mut store, &quotas, 1, false).is_limited(NOW));
    // quota is exhausted, regardless of the quantity
    assert!(check(&limiter, &mut store, &quotas, 0, false).is_limited(NOW));
    // quota is exhausted, regardless of the quantity
    assert!(check(&limiter, &mut store, &quotas, 1, false).is_limited(NOW));
}

#[test]
fn test_quota_go_over() {
    let quotas = [quota(Some("test_quota_go_over"), Some(2), Some(60), "get_lost")];
    let limiter = RedisRateLimiter::new();
    let mut store = CounterStore::new();
    // limit is 2, so first call not rate limited
    assert!(!check(&limiter, &mut store, &quotas, 1, true).is_limited(NOW));
    // go over limit, but first call is over-accepted
    assert!(!check(&limiter, &mut store, &quotas, 2, true).is_limited(NOW));
    // quota is exhausted, regardless of the quantity
    assert!(check(&limiter, &mut store, &quotas, 0, true).is_limited(NOW));
    // quota is exhausted, regardless of the quantity
    assert!(check(&limiter, &mut store, &quotas, 1, true).is_limited(NOW));
}

#[test]
fn test_bails_immediately_without_any_quota() {
    let mut store = CounterStore::new();
    let rate_limits = check(&RedisRateLimiter::new(), &mut store, &[], 1, false).limits;
    assert_eq!(rate_limits, vec![]);
}

#[test]
fn test_limited_with_unlimited_quota() {
    let quotas = [
        quota(Some("q0"), None, Some(1), "project_quota0"),
        quota(Some("q1"), Some(1), Some(1), "project_quota1"),
    ];
    let limiter = RedisRateLimiter::new();
    let mut store = CounterStore::new();
    for i in 0..1 {
        let rate_limits = check(&limiter, &mut store, &quotas, 1, false).limits;
        if i == 0 {
            assert_eq!(rate_limits, &[]);
        } else {
            assert_eq!(rate_limits, vec![org_limit("project_quota1", rate_limits[0].retry_after)]);
        }
    }
}

#[test]
fn test_quota_with_quantity() {
    let quotas = [quota(Some("test_quantity_quota"), Some(500), Some(60), "get_lost")];
    let limiter = RedisRateLimiter::new();
    let mut store = CounterStore::new();
    for i in 0..10 {
        let rate_limits = check(&limiter, &mut store, &quotas, 100, false).limits;
        if i >= 5 {
            assert_eq!(rate_limits, vec![org_limit("get_lost", rate_limits[0].retry_after)]);
        } else {
            assert_eq!(rate_limits, vec![]);
        }
    }
}

fn key_scoping() -> ItemScoping {
    ItemScoping {
        category: DataCategory::Error,
        scoping: Scoping {
            organization_id: 69420,
            project_id: 42,
            project_key: ProjectKey::parse("a94ae32be2584e0bbd7a4cbb95971fee").unwrap(),
            key_id: Some(4711),
        },
    }
}

#[test]
fn test_get_redis_key_scoped() {
    let quota = Quota {
        id: Some("foo".to_owned()),
        categories: vec![],
        scope: QuotaScope::Project,
        scope_id: Some("42".to_owned()),
        window: Some(2),
        limit: Some(0),
        reason_code: None,
    };
    let redis_quota = RedisQuota::new(&quota, &key_scoping(), 123_123_123).unwrap();
    assert_eq!(redis_quota.key(), "quota:foo{69420}42:61561561");
}

#[test]
fn test_get_redis_key_unscoped() {
    let quota = Quota {
        id: Some("foo".to_owned()),
        categories: vec![],
        scope: QuotaScope::Organization,
        scope_id: None,
        window: Some(10),
        limit: Some(0),
        reason_code: None,
    };
    let redis_quota = RedisQuota::new(&quota, &key_scoping(), 234_531).unwrap();
    assert_eq!(redis_quota.key(), "quota:foo{69420}:23453");
}

fn entry(key: &str, refund: &str, limit: i64, expiry: u64, quantity: u64, over: bool) -> ScriptEntry {
    ScriptEntry {
        counter_key: key.to_owned(),
        refund_key: refund.to_owned(),
        limit,
        expiry,
        quantity,
        over_accept_once: over,
    }
}

#[test]
fn test_is_rate_limited_script() {
    let now = NOW;
    let mut store = CounterStore::new();
    let foo = format!("foo___{}", now);
    let r_foo = format!("r:foo___{}", now);
    let bar = format!("bar___{}", now);
    let r_bar = format!("r:bar___{}", now);
    let apple = format!("apple___{}", now);
    let orange = format!("orange___{}", now);
    let baz = format!("baz___{}", now);

    let invocation = vec![
        entry(&foo, &r_foo, 1, now + 60, 1, false),
        entry(&bar, &r_bar, 2, now + 120, 1, false),
    ];

    // The item should not be rate limited by either key.
    assert_eq!(store.evaluate(&invocation, now), vec![false, false]);
    // The item should be rate limited by the first key (1).
    assert_eq!(store.evaluate(&invocation, now), vec![true, false]);
    // Still limited by the first key, and the second key is not counted for it.
    assert_eq!(store.evaluate(&invocation, now), vec![true, false]);

    assert_eq!(store.get(&foo, now), 1);
    let ttl = store.ttl(&foo, now).unwrap();
    assert!(ttl >= 59);
    assert!(ttl <= 60);

    assert_eq!(store.get(&bar, now), 1);
    let ttl = store.ttl(&bar, now).unwrap();
    assert!(ttl >= 119);
    assert!(ttl <= 120);

    // make sure "refund/negative" keys haven't been incremented
    assert_eq!(store.get(&r_foo, now), 0);
    assert_eq!(store.ttl(&r_foo, now), None);
    assert_eq!(store.get(&r_bar, now), 0);

    // Test that refunded quotas work
    store.set(&apple, 5, None);

    let invocation = vec![entry(&orange, &baz, 1, now + 60, 1, false)];
    // increment
    assert_eq!(store.evaluate(&invocation, now), vec![false]);
    // test that it's rate limited without refund
    assert_eq!(store.evaluate(&invocation, now), vec![true]);

    let invocation = vec![entry(&orange, &apple, 1, now + 60, 1, false)];
    // test that refund key is used
    assert_eq!(store.evaluate(&invocation, now), vec![false]);
}

#[test]
fn counts_exactly_up_to_the_limit() {
    let mut store = CounterStore::new();
    let e = vec![entry("k", "r:k", 3, NOW + 60, 1, false)];
    let replies: Vec<bool> = (0..6).map(|_| store.evaluate(&e, NOW)[0]).collect();
    assert_eq!(replies, vec![false, false, false, true, true, true]);
    assert_eq!(store.get("k", NOW), 3);
}

#[test]
fn zero_quantity_counts_nothing() {
    let mut store = CounterStore::new();
    let e = vec![entry("k", "r:k", 2, NOW + 60, 0, false)];
    assert_eq!(store.evaluate(&e, NOW), vec![false]);
    assert_eq!(store.get("k", NOW), 0);
    assert_eq!(store.ttl("k", NOW), None);
    store.set("k", 2, Some(NOW + 60));
    assert_eq!(store.evaluate(&e, NOW), vec![true]);
    assert_eq!(store.get("k", NOW), 2);
}

#[test]
fn over_accept_happens_once() {
    let mut store = CounterStore::new();
    let q = |n: u64| vec![entry("k", "r:k", 2, NOW + 60, n, true)];
    assert_eq!(store.evaluate(&q(1), NOW), vec![false]);
    assert_eq!(store.evaluate(&q(2), NOW), vec![false]);
    assert_eq!(store.get("k", NOW), 3);
    assert_eq!(store.evaluate(&q(0), NOW), vec![true]);
    assert_eq!(store.evaluate(&q(1), NOW), vec![true]);
    assert_eq!(store.get("k", NOW), 3);
}

#[test]
fn one_rejection_counts_no_entry() {
    let mut store = CounterStore::new();
    store.set("a", 1, None);
    let batch = vec![entry("a", "r:a", 1, NOW + 60, 1, false), entry("b", "r:b", 5, NOW + 60, 1, false)];
    assert_eq!(store.evaluate(&batch, NOW), vec![true, false]);
    assert_eq!(store.get("b", NOW), 0);
    assert_eq!(store.get("a", NOW), 1);
}

#[test]
fn refund_is_subtracted() {
    let mut store = CounterStore::new();
    store.set("c", 10, None);
    store.set("r:c", 7, None);
    let e = vec![entry("c", "r:c", 5, NOW + 60, 2, false)];
    assert_eq!(store.evaluate(&e, NOW), vec![false]);
    assert_eq!(store.get("c", NOW), 12);
    assert_eq!(store.evaluate(&e, NOW), vec![true]);
}

#[test]
fn counters_lapse_at_their_expiry() {
    let mut store = CounterStore::new();
    let e = vec![entry("k", "r:k", 1, NOW + 10, 1, false)];
    assert_eq!(store.evaluate(&e, NOW), vec![false]);
    assert_eq!(store.evaluate(&e, NOW + 5), vec![true]);
    assert_eq!(store.get("k", NOW + 10), 0);
    assert_eq!(store.evaluate(&e, NOW + 10), vec![false]);
}

#[test]
fn refund_key_has_prefix() {
    assert_eq!(get_refunded_quota_key("quota:x{1}:2"), "r:quota:x{1}:2");
    assert_eq!(get_refunded_quota_key(""), "r:");
}

#[test]
fn key_uses_shifted_slots() {
    // org 7 with window 5: shift 2, slot (103 - 2) / 5 = 20, window ends at 21 * 5 + 2
    let q = Quota {
        id: Some("w".to_owned()),
        categories: vec![],
        scope: QuotaScope::Key,
        scope_id: None,
        window: Some(5),
        limit: Some(3),
        reason_code: None,
    };
    let mut s = key_scoping();
    s.scoping.organization_id = 7;
    let rq = RedisQuota::new(&q, &s, 103).unwrap();
    assert_eq!(rq.shift(), 2);
    assert_eq!(rq.slot(), 20);
    assert_eq!(rq.expiry(), 107);
    assert_eq!(rq.limit(), 3);
    assert_eq!(rq.key(), "quota:w{7}4711:20");
    let unlimited = Quota { limit: None, ..q.clone() };
    assert_eq!(RedisQuota::new(&unlimited, &s, 103).unwrap().limit(), -1);
    let no_window = Quota { window: None, ..q.clone() };
    assert!(RedisQuota::new(&no_window, &s, 103).is_none());
    let zero_window = Quota { window: Some(0), ..q };
    assert!(RedisQuota::new(&zero_window, &s, 103).is_none());
}

#[test]
fn rejection_retries_at_window_end() {
    let quotas = [quota(Some("r"), Some(1), Some(60), "full")];
    let limiter = RedisRateLimiter::new();
    let mut store = CounterStore::new();
    assert!(check(&limiter, &mut store, &quotas, 1, false).is_empty());
    let limits = check(&limiter, &mut store, &quotas, 1, false);
    assert_eq!(limits.len(), 1);
    // shift 42 % 60 = 42; slot (NOW - 42) / 60 = 28_333_332; the window ends at 28_333_333 * 60 + 42
    assert_eq!(limits.limits[0].retry_after.when, 28_333_333 * 60 + 42);
    let bounded = RedisRateLimiter::new().max_limit(Some(5));
    let limits = bounded.is_rate_limited(&mut store, &quotas, &scoping(), 1, false, NOW).unwrap();
    assert_eq!(limits.limits[0].retry_after.when, NOW + 5);
}

#[test]
fn backend_error_on_malformed_reply() {
    let quotas = [quota(Some("b"), Some(3), Some(60), "x")];
    let invocation = RedisRateLimiter::new().prepare(&quotas, &scoping(), 1, false, NOW);
    assert_eq!(invocation.entries.len(), 1);
    assert_eq!(invocation.entries[0].refund_key, format!("r:{}", invocation.entries[0].counter_key));
    assert_eq!(invocation.complete(&vec![]).unwrap_err(), RateLimitingError::Backend);
    let invocation = RedisRateLimiter::new().prepare(&quotas, &scoping(), 1, false, NOW);
    let limits = invocation.complete(&vec![true]).unwrap();
    assert_eq!(limits.len(), 1);
}

#[test]
fn quotas_of_other_categories_or_scopes_do_not_apply() {
    let mut q = quota(Some("t"), Some(0), Some(60), "tx");
    q.categories = vec![DataCategory::Transaction];
    assert!(!q.matches(&scoping()));
    let mut p = quota(Some("p"), Some(0), Some(60), "p");
    p.scope = QuotaScope::Project;
    p.scope_id = Some("43".to_owned());
    assert!(p.matches(&scoping()));
    p.scope_id = Some("44".to_owned());
    assert!(!p.matches(&scoping()));
    let mut store = CounterStore::new();
    let limits = check(&RedisRateLimiter::new(), &mut store, &[q, p], 1, false);
    assert!(limits.is_empty());
}
