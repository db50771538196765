use relay_core::counter_store::CounterStore;
use relay_core::envelope::{Envelope, EnvelopeLimiter, Item, ItemType};
use relay_core::limiter::RedisRateLimiter;
use relay_core::normalize::{NormalizationStep, StoreConfig, StoreProcessor};
use relay_core::project_state::RequestMeta;
use relay_core::quota::{DataCategory, ItemScoping, ParseProjectKeyError, ProjectKey, Quota, QuotaScope, Scoping};
use relay_core::rate_limit::{RateLimit, RateLimitScope, RateLimits, RetryAfter};
use relay_core::text::{decimal_string, str_eq};

fn key() -> ProjectKey {
    ProjectKey::parse("a94ae32be2584e0bbd7a4cbb95971fee").unwrap()
}

#[test]
fn project_keys_parse_from_hex() {
    assert_eq!(key().value, 0xa94ae32be2584e0bbd7a4cbb95971fee);
    assert_eq!(ProjectKey::parse("ffffffffffffffffffffffffffffffff").unwrap().value, u128::MAX);
    assert_eq!(ProjectKey::parse("a94ae32be2584e0bbd7a4cbb95971fe"), Err(ParseProjectKeyError));
    assert_eq!(ProjectKey::parse("A94AE32BE2584E0BBD7A4CBB95971FEE"), Err(ParseProjectKeyError));
    assert_eq!(ProjectKey::parse(""), Err(ParseProjectKeyError));
}

#[test]
fn decimal_text() {
    assert_eq!(decimal_string(0), "0");
    assert_eq!(decimal_string(61561561), "61561561");
    assert_eq!(decimal_string(u64::MAX), "18446744073709551615");
    assert!(str_eq("abc", "abc"));
    assert!(!str_eq("abc", "abd"));
}

fn limit(categories: Vec<DataCategory>, scope: RateLimitScope, when: u64, reason: &str) -> RateLimit {
    RateLimit { categories, scope, reason_code: Some(reason.to_owned()), retry_after: RetryAfter { when } }
}

#[test]
fn rate_limits_merge_by_categories_and_scope() {
    let mut limits = RateLimits::new();
    limits.add(limit(vec![DataCategory::Error, DataCategory::Transaction], RateLimitScope::Organization(1), 10, "a"));
    // same set in another order: keeps the longer retry
    limits.add(limit(vec![DataCategory::Transaction, DataCategory::Error], RateLimitScope::Organization(1), 5, "b"));
    assert_eq!(limits.len(), 1);
    assert_eq!(limits.limits[0].reason_code, Some("a".to_owned()));
    limits.add(limit(vec![DataCategory::Error, DataCategory::Transaction], RateLimitScope::Organization(1), 20, "c"));
    assert_eq!(limits.len(), 1);
    assert_eq!(limits.limits[0].retry_after.when, 20);
    limits.add(limit(vec![DataCategory::Error], RateLimitScope::Organization(1), 30, "d"));
    limits.add(limit(vec![DataCategory::Error], RateLimitScope::Project(1), 30, "e"));
    assert_eq!(limits.len(), 3);
    let mut other = RateLimits::new();
    other.add(limit(vec![DataCategory::Error], RateLimitScope::Project(1), 40, "f"));
    other.add(limit(vec![], RateLimitScope::Organization(2), 1, "g"));
    limits.merge(other);
    assert_eq!(limits.len(), 4);
    assert_eq!(limits.limits[2].reason_code, Some("f".to_owned()));
    assert!(limits.is_limited(39));
    assert!(!limits.is_limited(40));
    limits.clean_expired(20);
    let reasons: Vec<String> = limits.limits.iter().map(|l| l.reason_code.clone().unwrap()).collect();
    assert_eq!(reasons, vec!["d", "f"]);
    assert_eq!(RetryAfter::from_secs(u64::MAX - 1, 5).when, u64::MAX);
    assert_eq!(RetryAfter { when: 10 }.remaining_seconds(4), 6);
    assert_eq!(RetryAfter { when: 10 }.remaining_seconds(14), 0);
}

#[test]
fn check_with_quotas_selects_applicable_limits() {
    let scoping = Scoping { organization_id: 1, project_id: 2, project_key: key(), key_id: None };
    let item = ItemScoping { category: DataCategory::Error, scoping };
    let mut cached = RateLimits::new();
    cached.add(limit(vec![DataCategory::Error], RateLimitScope::Project(2), 100, "p"));
    cached.add(limit(vec![DataCategory::Error], RateLimitScope::Project(3), 100, "other project"));
    cached.add(limit(vec![DataCategory::Session], RateLimitScope::Organization(1), 100, "sessions"));
    cached.add(limit(vec![], RateLimitScope::Key(key()), 100, "key"));
    let zero = Quota {
        id: None,
        categories: vec![],
        scope: QuotaScope::Organization,
        scope_id: None,
        limit: Some(0),
        window: None,
        reason_code: Some("zero".to_owned()),
    };
    let applied = cached.check_with_quotas(&[zero], &item, 50);
    let reasons: Vec<String> = applied.limits.iter().map(|l| l.reason_code.clone().unwrap()).collect();
    assert_eq!(reasons, vec!["zero", "p", "key"]);
    assert_eq!(applied.limits[0].retry_after.when, 110);
}

#[test]
fn envelope_limiter_keeps_order() {
    let scoping = Scoping { organization_id: 1, project_id: 2, project_key: key(), key_id: None };
    let mut cached = RateLimits::new();
    cached.add(limit(vec![DataCategory::Session], RateLimitScope::Organization(1), 100, "s"));
    let it = |ty| Item { ty, payload: vec![], filename: None, content_type: None, attachment_type: None, rate_limited: false };
    let mut envelope = Envelope {
        event_id: None,
        items: vec![it(ItemType::Session), it(ItemType::Event), it(ItemType::ClientReport), it(ItemType::Sessions)],
        meta: RequestMeta { project_id: None, origin: None, public_key: key(), no_cache: false, client: None, client_addr: None },
        retention: Some(30),
        sampling_key: None,
    };
    let (dropped, limits) = EnvelopeLimiter::enforce(&mut envelope, &scoping, &cached, &[], 50);
    assert_eq!(dropped, vec![DataCategory::Session, DataCategory::Session]);
    assert_eq!(limits.len(), 1);
    let left: Vec<ItemType> = envelope.items.iter().map(|i| i.ty).collect();
    assert_eq!(left, vec![ItemType::Event, ItemType::ClientReport]);
    assert_eq!(envelope.retention(), 30);
    assert!(!envelope.is_empty());
}

#[test]
fn normalization_plan() {
    let p = StoreProcessor::new(StoreConfig::default());
    assert_eq!(
        p.process_event(),
        vec![
            NormalizationStep::Legacy,
            NormalizationStep::Normalize,
            NormalizationStep::RemoveOther,
            NormalizationStep::EmitEventErrors,
            NormalizationStep::Trimming,
        ]
    );
    let p = StoreProcessor::new(StoreConfig { is_renormalize: Some(true), enable_trimming: Some(false), ..Default::default() });
    assert_eq!(p.process_event(), vec![NormalizationStep::Legacy]);
    let p = StoreProcessor::new(StoreConfig { is_renormalize: Some(true), remove_other: Some(true), ..Default::default() });
    assert_eq!(p.process_event(), vec![NormalizationStep::Legacy, NormalizationStep::RemoveOther, NormalizationStep::Trimming]);
    assert_eq!(p.config().remove_other, Some(true));
}

#[test]
fn envelope_limiter_counts_categories_in_the_store() {
    let scoping = Scoping { organization_id: 1, project_id: 2, project_key: key(), key_id: None };
    let quota = Quota {
        id: Some("errors".to_owned()),
        categories: vec![DataCategory::Error],
        scope: QuotaScope::Organization,
        scope_id: None,
        limit: Some(3),
        window: Some(60),
        reason_code: Some("too_many".to_owned()),
    };
    let it = |ty| Item { ty, payload: vec![], filename: None, content_type: None, attachment_type: None, rate_limited: false };
    let envelope = || Envelope {
        event_id: Some(1),
        items: vec![it(ItemType::Event), it(ItemType::Transaction), it(ItemType::Event)],
        meta: RequestMeta { project_id: None, origin: None, public_key: key(), no_cache: false, client: None, client_addr: None },
        retention: None,
        sampling_key: None,
    };
    let mut store = CounterStore::new();
    let limiter = RedisRateLimiter::new();
    let cached = RateLimits::new();
    let quotas = [quota];
    let mut first = envelope();
    let (limited, limits) =
        EnvelopeLimiter::enforce_with_store(&mut first, &scoping, &cached, &quotas, &limiter, &mut store, false, 1_000);
    assert!(limited.is_empty());
    assert!(limits.is_empty());
    assert_eq!(first.items.len(), 3);
    // two errors are counted; two more would exceed the limit of three
    let mut second = envelope();
    let (limited, limits) =
        EnvelopeLimiter::enforce_with_store(&mut second, &scoping, &cached, &quotas, &limiter, &mut store, false, 1_000);
    assert_eq!(limited, vec![DataCategory::Error]);
    assert_eq!(limits.len(), 1);
    let left: Vec<ItemType> = second.items.iter().map(|i| i.ty).collect();
    assert_eq!(left, vec![ItemType::Transaction]);
    // the rejected batch was not counted: one more error still fits
    let mut third = envelope();
    third.items.pop();
    let (limited, _) =
        EnvelopeLimiter::enforce_with_store(&mut third, &scoping, &cached, &quotas, &limiter, &mut store, false, 1_000);
    assert!(limited.is_empty());
}
