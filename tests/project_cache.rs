use relay_core::envelope::{Envelope, Item, ItemType};
use relay_core::project::{Bucket, ExpiryState, FlushOutcome, Outcome, Outgoing, Project, StateChannel};
use relay_core::project_state::{
    Config, DiscardReason, Expiry, Feature, ProjectState, PublicKeyConfig, PublicKeys, RequestMeta,
};
use relay_core::quota::{DataCategory, ProjectKey, Quota, QuotaScope};
use relay_core::rate_limit::{RateLimit, RateLimitScope, RateLimits, RetryAfter};

const NOW: u64 = 1_000_000;

fn key() -> ProjectKey {
    ProjectKey::parse("a94ae32be2584e0bbd7a4cbb95971fee").unwrap()
}

fn config(expiry: u64, grace: u64) -> Config {
    Config {
        project_cache_expiry: expiry,
        cache_miss_expiry: expiry,
        project_grace_period: grace,
        override_project_ids: false,
    }
}

fn loaded_state(project_id: u64, at: u64) -> ProjectState {
    let mut state = ProjectState::allowed(at);
    state.project_id = Some(project_id);
    let mut keys = PublicKeys::new();
    keys.push(PublicKeyConfig { public_key: key(), numeric_id: None });
    state.public_keys = keys;
    state
}

#[test]
fn get_state_expired() {
    for expiry in [9999, 0] {
        let config = config(expiry, 0);
        let mut project = Project::new(key(), config, NOW);
        project.state = Some(loaded_state(123, NOW));

        // Direct access should always yield a state:
        assert!(project.state.is_some());

        if expiry > 0 {
            // With long expiry, should get a state
            assert!(project.valid_state(NOW));
        } else {
            // With 0 expiry, project should expire immediately. No state can be set.
            assert!(!project.valid_state(NOW));
        }
    }
}

#[test]
fn test_stale_cache() {
    let mut project = Project::new(key(), config(100, 0), NOW);
    project.state_channel = Some(StateChannel::new());
    project.state = Some(loaded_state(123, NOW));

    // The project ID must be set.
    assert!(!project.state.as_ref().unwrap().invalid());
    // Try to update project with errored project state.
    project.update_state(ProjectState::err(NOW), false, NOW);
    // Since we got invalid project state we still keep the old one meaning there
    // still must be the project id set.
    assert!(!project.state.as_ref().unwrap().invalid());
}

fn create_project(quotas: Vec<Quota>) -> Project {
    let mut project = Project::new(key(), config(300, 0), NOW);
    let mut state = loaded_state(42, NOW);
    state.config.quotas = quotas;
    project.state = Some(state);
    project
}

fn transaction_quota() -> Quota {
    Quota {
        id: Some("foo".to_owned()),
        categories: vec![DataCategory::Transaction],
        scope: QuotaScope::Organization,
        scope_id: None,
        limit: Some(0),
        window: Some(3600),
        reason_code: Some("foo".to_owned()),
    }
}

fn transaction_metric() -> Bucket {
    Bucket { name: "d:transactions/foo".to_owned(), timestamp: NOW / 1000, width: 0 }
}

fn transaction_bucket() -> Bucket {
    Bucket { name: "d:transactions/foo".to_owned(), timestamp: NOW / 1000, width: 10 }
}

#[test]
fn test_rate_limit_incoming_metrics() {
    let project = create_project(vec![]);
    let metrics = project.rate_limit_metrics(vec![transaction_metric()], NOW);
    assert!(metrics.len() == 1);
}

#[test]
fn test_rate_limit_incoming_metrics_no_quota() {
    let project = create_project(vec![transaction_quota()]);
    let metrics = project.rate_limit_metrics(vec![transaction_metric()], NOW);
    assert!(metrics.is_empty());
}

#[test]
fn test_rate_limit_incoming_buckets() {
    let project = create_project(vec![]);
    let metrics = project.rate_limit_metrics(vec![transaction_bucket()], NOW);
    assert!(metrics.len() == 1);
}

#[test]
fn test_rate_limit_incoming_buckets_no_quota() {
    let project = create_project(vec![transaction_quota()]);
    let metrics = project.rate_limit_metrics(vec![transaction_bucket()], NOW);
    assert!(metrics.is_empty());
}

#[test]
fn session_metrics_are_not_limited_by_transaction_quotas() {
    let project = create_project(vec![transaction_quota()]);
    let session = Bucket { name: "c:sessions/session@none".to_owned(), timestamp: 1, width: 10 };
    let kept = project.rate_limit_metrics(vec![session.clone(), transaction_bucket()], NOW);
    assert_eq!(kept, vec![session]);
}

#[test]
fn stale_state_is_served_and_refreshed() {
    // expiry 100 s, grace 0, fetched at 0: at 50 s up to date, at 101 s past expiry and grace
    let mut project = Project::new(key(), config(100, 0), 0);
    project.state = Some(loaded_state(1, 0));
    assert_eq!(project.expiry_state(50_000), ExpiryState::Updated);
    assert!(project.get_cached_state(false, 50_000));
    assert!(project.fetch_requests.is_empty());
    assert_eq!(project.expiry_state(101_000), ExpiryState::Expired);

    // with a grace period the state is stale between expiry and expiry plus grace
    let mut project = Project::new(key(), config(100, 10), 0);
    project.state = Some(loaded_state(1, 0));
    assert_eq!(project.expiry_state(101_000), ExpiryState::Stale);
    assert!(project.get_cached_state(false, 101_000));
    assert_eq!(project.fetch_requests, vec![false]);
    assert!(project.state_channel.is_some());
    assert_eq!(project.expiry_state(110_001), ExpiryState::Expired);
    assert!(!project.get_cached_state(false, 110_001));
    // the fetch in flight is joined, not repeated
    assert_eq!(project.fetch_requests, vec![false]);
}

#[test]
fn no_cache_is_throttled() {
    let mut project = Project::new(key(), config(100, 0), 0);
    project.state = Some(loaded_state(1, 0));
    assert!(!project.get_cached_state(true, 5_000));
    assert!(project.get_cached_state(true, 5_500));
    assert_eq!(project.fetch_requests, vec![true]);
    assert_eq!(project.last_no_cache, 5_000);
    // a full interval later no_cache is honoured again, but the fetch in flight already is
    assert!(!project.get_cached_state(true, 6_000));
    assert_eq!(project.fetch_requests, vec![true]);
}

#[test]
fn no_cache_upgrades_a_plain_fetch() {
    let mut project = Project::new(key(), config(100, 0), 0);
    assert!(!project.get_cached_state(false, 2_000));
    assert!(!project.get_cached_state(true, 3_000));
    assert_eq!(project.fetch_requests, vec![false, true]);
    assert!(project.state_channel.as_ref().unwrap().no_cache);
}

#[test]
fn update_keeps_valid_state_against_invalid_result() {
    let mut project = Project::new(key(), config(100, 0), 0);
    project.state = Some(loaded_state(7, 0));
    assert!(!project.get_state(11, true, 2_000));
    // a plain result does not consume a no_cache fetch
    let receivers = project.update_state(loaded_state(8, 2_500), false, 2_500);
    assert!(receivers.is_empty());
    assert_eq!(project.state.as_ref().unwrap().project_id, Some(7));
    let receivers = project.update_state(ProjectState::err(3_000), true, 3_000);
    assert_eq!(receivers, vec![11]);
    assert_eq!(project.state.as_ref().unwrap().project_id, Some(7));
    assert!(project.state_channel.is_none());
    // without a fetch in flight an update is ignored
    assert!(project.update_state(loaded_state(9, 4_000), false, 4_000).is_empty());
    assert_eq!(project.state.as_ref().unwrap().project_id, Some(7));
}

#[test]
fn update_replaces_expired_state_even_with_invalid_result() {
    let mut project = Project::new(key(), config(1, 0), 0);
    project.state = Some(loaded_state(7, 0));
    assert!(!project.get_cached_state(false, 5_000));
    project.update_state(ProjectState::err(5_000), false, 5_000);
    assert!(project.state.as_ref().unwrap().invalid());
}

fn meta(project_id: Option<u64>, origin: Option<&str>) -> RequestMeta {
    RequestMeta {
        project_id,
        origin: origin.map(|o| o.to_owned()),
        public_key: key(),
        no_cache: false,
        client: None,
        client_addr: None,
    }
}

fn envelope(items: Vec<ItemType>) -> Envelope {
    Envelope {
        event_id: Some(1),
        items: items
            .into_iter()
            .map(|ty| Item {
                ty,
                payload: vec![1, 2, 3],
                filename: None,
                content_type: None,
                attachment_type: None,
                rate_limited: false,
            })
            .collect(),
        meta: meta(Some(42), None),
        retention: None,
        sampling_key: None,
    }
}

#[test]
fn queued_envelopes_are_flushed_on_update() {
    let mut project = Project::new(key(), config(100, 0), 0);
    project.enqueue_validation(envelope(vec![ItemType::Event]), 1_000);
    assert_eq!(project.pending_validations.len(), 1);
    assert_eq!(project.fetch_requests, vec![false]);
    assert_eq!(project.pending_count(), 1);
    project.update_state(loaded_state(42, 1_500), false, 1_500);
    assert_eq!(project.pending_validations.len(), 0);
    assert_eq!(project.outgoing.len(), 1);
    assert!(matches!(project.outgoing[0], Outgoing::Process { with_sampling_state: false, .. }));
}

#[test]
fn check_envelope_drops_limited_categories() {
    let mut project = create_project(vec![transaction_quota()]);
    let mut cached = RateLimits::new();
    cached.add(RateLimit {
        categories: vec![DataCategory::Attachment],
        scope: RateLimitScope::Project(42),
        reason_code: None,
        retry_after: RetryAfter { when: NOW / 1000 + 60 },
    });
    project.merge_rate_limits(cached);
    let checked = project
        .check_envelope(
            envelope(vec![ItemType::Event, ItemType::Transaction, ItemType::Attachment]),
            NOW,
        )
        .ok()
        .unwrap();
    let left = checked.envelope.unwrap();
    assert_eq!(left.items.len(), 1);
    assert_eq!(left.items[0].ty, ItemType::Event);
    assert_eq!(checked.dropped, vec![DataCategory::Transaction, DataCategory::Attachment]);
    assert_eq!(checked.rate_limits.len(), 2);
}

#[test]
fn check_envelope_rejects_invalid_requests() {
    let mut project = create_project(vec![]);
    let mut e = envelope(vec![ItemType::Event]);
    e.meta.project_id = Some(41);
    assert_eq!(project.check_envelope(e, NOW).err(), Some(DiscardReason::ProjectId));
    project.state.as_mut().unwrap().config.allowed_domains = vec![];
    let mut e = envelope(vec![ItemType::Event]);
    e.meta.origin = Some("https://example.com".to_owned());
    assert_eq!(project.check_envelope(e, NOW).err(), Some(DiscardReason::Cors));
    project.state.as_mut().unwrap().invalid = true;
    let e = envelope(vec![ItemType::Event]);
    assert_eq!(project.check_envelope(e, NOW).err(), Some(DiscardReason::ProjectState));
}

#[test]
fn empty_envelope_after_limits_is_none() {
    let mut project = create_project(vec![transaction_quota()]);
    let checked = project.check_envelope(envelope(vec![ItemType::Transaction]), NOW).ok().unwrap();
    assert!(checked.envelope.is_none());
}

#[test]
fn scoping_needs_a_loaded_project_id() {
    let mut project = Project::new(key(), config(100, 0), 0);
    assert_eq!(project.scoping(), None);
    let mut state = loaded_state(5, 0);
    state.organization_id = Some(9);
    let mut keys = PublicKeys::new();
    keys.push(PublicKeyConfig { public_key: key(), numeric_id: Some(77) });
    state.public_keys = keys;
    project.state = Some(state);
    let scoping = project.scoping().unwrap();
    assert_eq!((scoping.organization_id, scoping.project_id, scoping.key_id), (9, 5, Some(77)));
}

#[test]
fn flush_buckets_decisions() {
    let mut project = Project::new(key(), config(100, 0), 0);
    assert!(matches!(project.flush_buckets(None, vec![transaction_bucket()], 1_000), FlushOutcome::MergeBack(_)));
    let mut project = create_project(vec![]);
    match project.flush_buckets(Some(3), vec![transaction_bucket()], NOW) {
        FlushOutcome::Send { buckets, scoping, partition_key } => {
            assert_eq!(buckets.len(), 1);
            assert_eq!(scoping.project_id, 42);
            assert_eq!(partition_key, Some(3));
        }
        other => panic!("unexpected {:?}", other),
    }
    project.state.as_mut().unwrap().disabled = true;
    assert!(matches!(project.flush_buckets(None, vec![transaction_bucket()], NOW), FlushOutcome::Drop));
    assert!(project.merge_buckets(vec![transaction_bucket()], NOW).is_empty());
}

#[test]
fn expiry_classification() {
    let state = loaded_state(1, 0);
    let c = config(100, 10);
    assert_eq!(state.check_expiry(99_999, &c), Expiry::Updated);
    assert_eq!(state.check_expiry(100_000, &c), Expiry::Stale);
    assert_eq!(state.check_expiry(110_000, &c), Expiry::Expired);
    let mut unknown = ProjectState::missing(0);
    unknown.disabled = false;
    let miss = Config { cache_miss_expiry: 1, ..c };
    assert_eq!(unknown.check_expiry(1_000, &miss), Expiry::Stale);
}

#[test]
fn request_checks_in_order() {
    let c = config(100, 0);
    let mut state = loaded_state(42, 0);
    assert_eq!(state.check_request(&meta(Some(42), None), 0, &c), Ok(()));
    assert_eq!(state.check_request(&meta(Some(1), None), 0, &c), Err(DiscardReason::ProjectId));
    let lenient = Config { override_project_ids: true, ..c };
    assert_eq!(state.check_request(&meta(Some(1), None), 0, &lenient), Ok(()));
    state.config.allowed_domains = vec!["example.com".to_owned()];
    assert_eq!(state.check_request(&meta(None, Some("https://example.com/x")), 0, &c), Ok(()));
    assert_eq!(
        state.check_request(&meta(None, Some("https://other.org")), 0, &c),
        Err(DiscardReason::Cors)
    );
    let mut keys = PublicKeys::new();
    keys.push(PublicKeyConfig {
        public_key: ProjectKey::parse("00000000000000000000000000000001").unwrap(),
        numeric_id: None,
    });
    state.public_keys = keys.clone();
    assert_eq!(state.check_request(&meta(None, None), 0, &c), Err(DiscardReason::ProjectId));
    state.public_keys = PublicKeys::new();
    assert_eq!(state.check_request(&meta(None, None), 0, &c), Err(DiscardReason::ProjectId));
    state = loaded_state(42, 0);
    state.disabled = true;
    assert_eq!(state.check_request(&meta(None, None), 0, &c), Err(DiscardReason::ProjectId));
    // an expired state lets requests through
    assert_eq!(state.check_request(&meta(None, None), 200_000, &c), Ok(()));
    assert_eq!(keys.clone().first().unwrap().public_key.value, 1);
}

#[test]
fn origins_match_globs() {
    let mut state = loaded_state(1, 0);
    assert!(state.is_valid_origin(None));
    assert!(state.is_valid_origin(Some("https://anything.net")));
    state.config.allowed_domains = vec!["*.example.com".to_owned(), "sentry.io".to_owned()];
    assert!(state.is_valid_origin(Some("https://docs.example.com")));
    assert!(state.is_valid_origin(Some("http://sentry.io:8080/path")));
    assert!(!state.is_valid_origin(Some("https://sentry.io.evil.net")));
    state.config.allowed_domains = vec![];
    assert!(!state.is_valid_origin(Some("https://docs.example.com")));
}

#[test]
fn scope_request_fills_in_state() {
    let mut state = loaded_state(50, 0);
    state.organization_id = Some(3);
    let mut keys = PublicKeys::new();
    keys.push(PublicKeyConfig { public_key: key(), numeric_id: Some(12) });
    state.public_keys = keys;
    let s = state.scope_request(&meta(Some(40), None));
    assert_eq!((s.organization_id, s.project_id, s.key_id), (3, 50, Some(12)));
    let unknown = ProjectState::allowed(0);
    let s = unknown.scope_request(&meta(Some(40), None));
    assert_eq!((s.organization_id, s.project_id, s.key_id), (0, 40, None));
}

#[test]
fn sanitize_drops_invalid_quotas() {
    let mut state = loaded_state(1, 0);
    let valid = transaction_quota();
    let zero = Quota { id: None, window: None, ..transaction_quota() };
    let untracked = Quota { window: None, limit: Some(3), ..transaction_quota() };
    state.config.quotas = vec![valid.clone(), untracked, zero.clone()];
    state.config.features = vec![Feature::Profiling];
    let state = state.sanitize();
    assert_eq!(state.get_quotas(), &vec![valid, zero]);
    assert!(state.has_feature(Feature::Profiling));
    assert!(!state.has_feature(Feature::Replays));
}

#[test]
fn disabled_is_checked_before_invalid() {
    let c = config(100, 0);
    let mut state = loaded_state(42, 0);
    state.disabled = true;
    state.invalid = true;
    assert_eq!(state.check_request(&meta(None, None), 0, &c), Err(DiscardReason::ProjectId));
    state.disabled = false;
    assert_eq!(state.check_request(&meta(None, None), 0, &c), Err(DiscardReason::ProjectState));
}

#[test]
fn emptied_and_rejected_envelopes_leave_outcomes() {
    let mut project = Project::new(key(), config(100, 0), 0);
    let mut state = loaded_state(42, 0);
    state.config.quotas = vec![transaction_quota()];
    project.enqueue_validation(envelope(vec![ItemType::Transaction]), 1_000);
    let mut wrong = envelope(vec![ItemType::Event]);
    wrong.meta.project_id = Some(7);
    project.enqueue_validation(wrong, 1_000);
    project.enqueue_validation(envelope(vec![ItemType::Event]), 1_000);
    assert_eq!(project.pending_count(), 3);
    project.update_state(state, false, 1_500);
    assert_eq!(project.outcomes, vec![Outcome::RateLimited, Outcome::Invalid(DiscardReason::ProjectId)]);
    assert_eq!(project.outgoing.len(), 1);
}
