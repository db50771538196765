//! The per-project cache: the latest state, coalesced fetches, and queues of envelopes
//! that wait for a usable state.
//!
//! The cache decides; the caller performs. Fetch requests and envelopes that leave the
//! cache are recorded in outboxes that the caller drains.
use vstd::prelude::*;
use crate::envelope::{active, cached_check, enforce_spec, Envelope, EnvelopeLimiter};
use crate::project_state::{first_key, Config, DiscardReason, Expiry, ProjectState};
use crate::quota::{DataCategory, ItemScoping, ProjectKey, Scoping};
use crate::rate_limit::{RateLimits, spec_active, spec_merge};
use crate::store::{metric_namespace, spec_namespace, MetricNamespace};

verus! {

/// Minimum time in milliseconds between two honoured `no_cache` requests.
pub const NO_CACHE_INTERVAL_MS: u64 = 1000;

/// A fetch in flight, with the receivers that wait for its result.
#[derive(Clone, Debug, PartialEq, Eq)]
pub struct StateChannel {
    pub no_cache: bool,
    pub receivers: Vec<u64>,
}

pub struct ChannelView {
    pub no_cache: bool,
    pub receivers: Seq<u64>,
}

impl View for StateChannel {
    type V = ChannelView;

    open spec fn view(&self) -> ChannelView {
        ChannelView { no_cache: self.no_cache, receivers: self.receivers@ }
    }
}

impl StateChannel {
    pub fn new() -> (r: StateChannel)
        ensures
            !r.no_cache,
            r.receivers@.len() == 0,
    {
        StateChannel { no_cache: false, receivers: Vec::new() }
    }

    pub fn no_cache(&mut self, no_cache: bool)
        ensures
            final(self).no_cache == no_cache,
            final(self).receivers == old(self).receivers,
    {
        self.no_cache = no_cache;
    }
}

/// The freshness of the cached state; the state itself is `Project::state`.
#[derive(Clone, Copy, Debug, PartialEq, Eq, Structural)]
pub enum ExpiryState {
    Updated,
    Stale,
    Expired,
}

/// Whether a lookup could answer from the cache or had to wait for a fetch.
#[derive(Clone, Copy, Debug, PartialEq, Eq, Structural)]
pub enum GetOrFetch {
    Cached,
    Scheduled,
}

/// The outcome of an envelope that is not handed on.
#[derive(Clone, Copy, Debug, PartialEq, Eq, Structural)]
pub enum Outcome {
    /// Validation rejected it.
    Invalid(DiscardReason),
    /// Rate limits dropped all of its items.
    RateLimited,
}

/// An envelope that passed validation and leaves the cache.
#[derive(Debug)]
pub enum Outgoing {
    /// To processing; `with_sampling_state` when the project's own state decides sampling.
    Process { envelope: Envelope, with_sampling_state: bool },
    /// Needs the state of another project for dynamic sampling first.
    AddSamplingState { sampling_key: ProjectKey, envelope: Envelope },
}

/// An envelope after validation: what is left of it and the rate limits it met.
pub struct CheckedEnvelope {
    pub envelope: Option<Envelope>,
    pub dropped: Vec<DataCategory>,
    pub rate_limits: RateLimits,
}

/// Everything the cache decides about a fetch, as plain values.
pub struct CacheView {
    pub state: Option<ProjectState>,
    pub config: Config,
    pub channel: Option<ChannelView>,
    pub last_no_cache: u64,
    pub fetch_requests: Seq<bool>,
}

/// Milliseconds of the relay's clock as whole seconds, the unit of rate limits.
pub open spec fn to_secs(ms: u64) -> u64 {
    (ms / 1000) as u64
}

pub open spec fn elapsed(since: u64, now: u64) -> int {
    if now >= since {
        now - since
    } else {
        0
    }
}

/// A `no_cache` request is honoured only a full interval after the last honoured one.
pub open spec fn honoured(v: CacheView, no_cache: bool, now: u64) -> bool {
    no_cache && elapsed(v.last_no_cache, now) >= NO_CACHE_INTERVAL_MS
}

pub open spec fn view_expiry(v: CacheView, now: u64) -> Expiry {
    match v.state {
        Some(s) => s.spec_check_expiry(now, v.config),
        None => Expiry::Expired,
    }
}

/// Starting or joining a fetch: a new request is sent unless one is in flight that is
/// already `no_cache` or need not become so.
pub open spec fn after_fetch(v: CacheView, no_cache: bool) -> CacheView {
    let should_fetch = !(v.channel matches Some(c) && (c.no_cache || !no_cache));
    let ch = match v.channel {
        Some(c) => c,
        None => ChannelView { no_cache: false, receivers: Seq::empty() },
    };
    if should_fetch {
        CacheView {
            channel: Some(ChannelView { no_cache, receivers: ch.receivers }),
            fetch_requests: v.fetch_requests.push(no_cache),
            ..v
        }
    } else {
        CacheView { channel: Some(ch), ..v }
    }
}

/// A lookup: the new view, and whether the cached state may be used now.
pub open spec fn lookup(v: CacheView, no_cache: bool, now: u64) -> (CacheView, GetOrFetch) {
    let nc = honoured(v, no_cache, now);
    let t = if nc {
        CacheView { last_no_cache: now, ..v }
    } else {
        v
    };
    let e = view_expiry(t, now);
    if !nc && e == Expiry::Updated {
        (t, GetOrFetch::Cached)
    } else {
        (after_fetch(t, nc), if !nc && e == Expiry::Stale {
            GetOrFetch::Cached
        } else {
            GetOrFetch::Scheduled
        })
    }
}

/// The state kept after a fetch returns: an invalid result does not replace a state that
/// is still usable.
pub open spec fn next_state(old: Option<ProjectState>, config: Config, new: ProjectState, now: u64) -> Option<
    ProjectState,
> {
    match old {
        Some(s) => if new.invalid && s.spec_check_expiry(now, config) != Expiry::Expired {
            old
        } else {
            Some(new)
        },
        None => Some(new),
    }
}

/// What validating and handing on `envelope` adds to the outboxes of `p`: a rejection
/// with its reason, a rate-limited outcome for an envelope left empty, or the envelope with its kept items,
/// to processing or, when another project's state decides sampling, to fetch that state.
pub open spec fn flush_effect(
    p: Project,
    envelope: Envelope,
    now: u64,
    outgoing: Seq<Outgoing>,
    outcomes: Seq<Outcome>,
) -> bool {
    match p.validation(envelope, now) {
        Err(reason) => outcomes == p.outcomes@.push(Outcome::Invalid(reason)) && outgoing == p.outgoing@,
        Ok(()) => ({
            let kept = p.enforcement(envelope, now).0;
            if kept.len() == 0 {
                outcomes == p.outcomes@.push(Outcome::RateLimited) && outgoing == p.outgoing@
            } else {
                &&& outcomes == p.outcomes@
                &&& outgoing.len() == p.outgoing@.len() + 1
                &&& outgoing.take(p.outgoing@.len() as int) == p.outgoing@
                &&& match envelope.sampling_key {
                    None => outgoing.last() matches Outgoing::Process { envelope: e, with_sampling_state: false }
                        && e.items@ == kept,
                    Some(k) => if p.own_key() == Some(k) {
                        outgoing.last() matches Outgoing::Process { envelope: e, with_sampling_state: true }
                            && e.items@ == kept
                    } else {
                        outgoing.last() matches Outgoing::AddSamplingState { sampling_key: k2, envelope: e } && k2
                            == k && e.items@ == kept
                    },
                }
            }
        }),
    }
}

/// The cache of one project key.
pub struct Project {
    pub last_updated_at: u64,
    pub project_key: ProjectKey,
    pub config: Config,
    pub state: Option<ProjectState>,
    pub state_channel: Option<StateChannel>,
    pub pending_validations: Vec<Envelope>,
    pub pending_sampling: Vec<Envelope>,
    pub rate_limits: RateLimits,
    pub last_no_cache: u64,
    /// Fetch requests to send upstream, with their `no_cache` flag, oldest first.
    pub fetch_requests: Vec<bool>,
    /// Envelopes that passed validation, oldest first.
    pub outgoing: Vec<Outgoing>,
    /// Outcomes of envelopes that were not handed on, oldest first.
    pub outcomes: Vec<Outcome>,
}

impl Project {
    pub open spec fn wf(&self) -> bool {
        self.rate_limits.wf()
    }

    pub open spec fn cache_view(&self) -> CacheView {
        CacheView {
            state: self.state,
            config: self.config,
            channel: match self.state_channel {
                Some(c) => Some(c@),
                None => None,
            },
            last_no_cache: self.last_no_cache,
            fetch_requests: self.fetch_requests@,
        }
    }

    /// A project without state, created at `now` (milliseconds).
    pub fn new(key: ProjectKey, config: Config, now: u64) -> (r: Project)
        ensures
            r.wf(),
            r.project_key == key,
            r.config == config,
            r.state is None,
            r.state_channel is None,
            r.pending_validations@.len() == 0,
            r.pending_sampling@.len() == 0,
            r.rate_limits@.len() == 0,
            r.last_no_cache == now,
            r.last_updated_at == now,
            r.fetch_requests@.len() == 0,
            r.outgoing@.len() == 0,
            r.outcomes@.len() == 0,
    {
        Project {
            last_updated_at: now,
            project_key: key,
            config,
            state: None,
            state_channel: None,
            pending_validations: Vec::new(),
            pending_sampling: Vec::new(),
            rate_limits: RateLimits::new(),
            last_no_cache: now,
            fetch_requests: Vec::new(),
            outgoing: Vec::new(),
            outcomes: Vec::new(),
        }
    }

    /// Adds rate limits learned elsewhere.
    pub fn merge_rate_limits(&mut self, rate_limits: RateLimits)
        requires
            old(self).wf(),
        ensures
            final(self).wf(),
            final(self).rate_limits@ == spec_merge(old(self).rate_limits@, rate_limits@),
    {
        self.rate_limits.merge(rate_limits);
    }

    pub open spec fn spec_expiry_state(&self, now: u64) -> ExpiryState {
        match self.state {
            Some(s) => match s.spec_check_expiry(now, self.config) {
                Expiry::Updated => ExpiryState::Updated,
                Expiry::Stale => ExpiryState::Stale,
                Expiry::Expired => ExpiryState::Expired,
            },
            None => ExpiryState::Expired,
        }
    }

    /// Freshness of the cached state at `now`; `Expired` without a state.
    pub fn expiry_state(&self, now: u64) -> (r: ExpiryState)
        ensures
            r == self.spec_expiry_state(now),
    {
        match &self.state {
            Some(s) => match s.check_expiry(now, &self.config) {
                Expiry::Updated => ExpiryState::Updated,
                Expiry::Stale => ExpiryState::Stale,
                Expiry::Expired => ExpiryState::Expired,
            },
            None => ExpiryState::Expired,
        }
    }

    /// Whether the cached state may be used at `now`: it exists and has not expired.
    pub fn valid_state(&self, now: u64) -> (r: bool)
        ensures
            r == (self.spec_expiry_state(now) != ExpiryState::Expired),
    {
        match self.expiry_state(now) {
            ExpiryState::Expired => false,
            _ => true,
        }
    }

    pub fn rate_limits(&self) -> (r: &RateLimits)
        ensures
            *r == self.rate_limits,
    {
        &self.rate_limits
    }

    pub fn last_updated_at(&self) -> (r: u64)
        ensures
            r == self.last_updated_at,
    {
        self.last_updated_at
    }

    /// Delays eviction of this project.
    pub fn refresh_updated_timestamp(&mut self, now: u64)
        ensures
            final(self).last_updated_at == now,
            final(self).state == old(self).state,
            final(self).rate_limits == old(self).rate_limits,
    {
        self.last_updated_at = now;
    }

    fn fetch_state(&mut self, no_cache: bool)
        ensures
            final(self).cache_view() == after_fetch(old(self).cache_view(), no_cache),
            final(self).rate_limits == old(self).rate_limits,
            final(self).pending_validations == old(self).pending_validations,
            final(self).pending_sampling == old(self).pending_sampling,
            final(self).last_updated_at == old(self).last_updated_at,
            final(self).project_key == old(self).project_key,
            final(self).outgoing == old(self).outgoing,
            final(self).outcomes == old(self).outcomes,
    {
        let should_fetch = match &self.state_channel {
            Some(c) => !(c.no_cache || !no_cache),
            None => true,
        };
        let mut channel = match self.state_channel.take() {
            Some(c) => c,
            None => StateChannel::new(),
        };
        if should_fetch {
            channel.no_cache(no_cache);
            self.fetch_requests.push(no_cache);
        }
        self.state_channel = Some(channel);
        assert(self.cache_view().fetch_requests =~= after_fetch(old(self).cache_view(), no_cache).fetch_requests);
        assert(self.cache_view().channel matches Some(c) && c.receivers =~= after_fetch(
            old(self).cache_view(),
            no_cache,
        ).channel.unwrap().receivers);
    }

    /// Looks the state up, throttling `no_cache` to one per interval and starting or
    /// joining a fetch unless the cached state is up to date.
    pub fn get_or_fetch_state(&mut self, no_cache: bool, now: u64) -> (r: GetOrFetch)
        ensures
            (final(self).cache_view(), r) == lookup(old(self).cache_view(), no_cache, now),
            final(self).rate_limits == old(self).rate_limits,
            final(self).pending_validations == old(self).pending_validations,
            final(self).pending_sampling == old(self).pending_sampling,
            final(self).last_updated_at == old(self).last_updated_at,
            final(self).project_key == old(self).project_key,
            final(self).outgoing == old(self).outgoing,
            final(self).outcomes == old(self).outcomes,
    {
        let mut nc = no_cache;
        if nc {
            let since: u64 = if now >= self.last_no_cache {
                now - self.last_no_cache
            } else {
                0
            };
            if since < NO_CACHE_INTERVAL_MS {
                nc = false;
            } else {
                self.last_no_cache = now;
            }
        }
        let e = self.expiry_state(now);
        proof {
            let t = if nc {
                CacheView { last_no_cache: now, ..old(self).cache_view() }
            } else {
                old(self).cache_view()
            };
            assert(self.cache_view() == t);
        }
        if !nc && e == ExpiryState::Updated {
            return GetOrFetch::Cached;
        }
        self.fetch_state(nc);
        if !nc && e == ExpiryState::Stale {
            GetOrFetch::Cached
        } else {
            GetOrFetch::Scheduled
        }
    }

    /// Whether the cached state may be used now; a fetch is started or joined when it is
    /// stale, expired, missing, or `no_cache` is honoured.
    pub fn get_cached_state(&mut self, no_cache: bool, now: u64) -> (r: bool)
        ensures
            (final(self).cache_view(), if r {
                GetOrFetch::Cached
            } else {
                GetOrFetch::Scheduled
            }) == lookup(old(self).cache_view(), no_cache, now),
            final(self).rate_limits == old(self).rate_limits,
            final(self).pending_validations == old(self).pending_validations,
            final(self).pending_sampling == old(self).pending_sampling,
            final(self).last_updated_at == old(self).last_updated_at,
            final(self).project_key == old(self).project_key,
            final(self).outgoing == old(self).outgoing,
            final(self).outcomes == old(self).outcomes,
    {
        match self.get_or_fetch_state(no_cache, now) {
            GetOrFetch::Cached => true,
            GetOrFetch::Scheduled => false,
        }
    }

    /// Ensures a fetch is under way when one is needed.
    pub fn prefetch(&mut self, no_cache: bool, now: u64)
        ensures
            final(self).cache_view() == lookup(old(self).cache_view(), no_cache, now).0,
            final(self).rate_limits == old(self).rate_limits,
            final(self).pending_validations == old(self).pending_validations,
            final(self).pending_sampling == old(self).pending_sampling,
    {
        self.get_cached_state(no_cache, now);
    }

    /// Answers `receiver` now when the cached state may be used (returns `true`), or
    /// attaches it to the fetch in flight (returns `false`).
    pub fn get_state(&mut self, receiver: u64, no_cache: bool, now: u64) -> (r: bool)
        ensures
            ({
                let (v, g) = lookup(old(self).cache_view(), no_cache, now);
                &&& r == (g == GetOrFetch::Cached)
                &&& final(self).state == v.state
                &&& final(self).fetch_requests@ == v.fetch_requests
                &&& final(self).last_no_cache == v.last_no_cache
                &&& r ==> final(self).cache_view() == v
                &&& !r ==> (final(self).state_channel matches Some(c) && v.channel matches Some(vc) && c.no_cache
                    == vc.no_cache && c.receivers@ == vc.receivers.push(receiver))
            }),
            final(self).rate_limits == old(self).rate_limits,
            final(self).pending_validations == old(self).pending_validations,
            final(self).pending_sampling == old(self).pending_sampling,
    {
        if self.get_cached_state(no_cache, now) {
            return true;
        }
        let mut channel = match self.state_channel.take() {
            Some(c) => c,
            None => StateChannel::new(),
        };
        channel.receivers.push(receiver);
        self.state_channel = Some(channel);
        false
    }

    pub open spec fn spec_scoping(&self) -> Option<Scoping> {
        match self.state {
            Some(s) => match s.project_id {
                Some(p) => Some(
                    Scoping {
                        organization_id: match s.organization_id {
                            Some(o) => o,
                            None => 0,
                        },
                        project_id: p,
                        project_key: self.project_key,
                        key_id: match first_key(s) {
                            Some(c) => c.numeric_id,
                            None => None,
                        },
                    },
                ),
                None => None,
            },
            None => None,
        }
    }

    /// The scoping of this project key, once a state with a project id is loaded.
    pub fn scoping(&self) -> (r: Option<Scoping>)
        ensures
            r == self.spec_scoping(),
    {
        let state = match &self.state {
            Some(s) => s,
            None => return None,
        };
        let project_id = match state.project_id {
            Some(p) => p,
            None => return None,
        };
        Some(
            Scoping {
                organization_id: match state.organization_id {
                    Some(o) => o,
                    None => 0,
                },
                project_id,
                project_key: self.project_key,
                key_id: match state.get_public_key_config() {
                    Some(c) => c.numeric_id,
                    None => None,
                },
            },
        )
    }

    /// The outcome of validating `envelope` at `now` against the usable state, if any.
    pub open spec fn validation(&self, envelope: Envelope, now: u64) -> Result<(), DiscardReason> {
        let usable = self.spec_expiry_state(now) != ExpiryState::Expired;
        let st = self.state.unwrap();
        if usable && st.spec_check_request(envelope.meta, now, self.config) is Err {
            Err(st.spec_check_request(envelope.meta, now, self.config)->Err_0)
        } else {
            Ok(())
        }
    }

    /// The items kept, the dropped categories and the rate limits met when the cached
    /// limits are applied to `envelope` at `now`.
    pub open spec fn enforcement(&self, envelope: Envelope, now: u64) -> (Seq<crate::envelope::Item>, Seq<DataCategory>, Seq<crate::rate_limit::RateLimitView>) {
        let usable = self.spec_expiry_state(now) != ExpiryState::Expired;
        let st = self.state.unwrap();
        let scoping = if usable {
            st.spec_scope_request(envelope.meta)
        } else {
            envelope.meta.get_partial_scoping_spec()
        };
        let quotas = if usable {
            st.config.quotas@
        } else {
            Seq::empty()
        };
        enforce_spec(envelope.items@, spec_active(self.rate_limits@, to_secs(now)), quotas, scoping, to_secs(now))
    }

    /// The public key of the loaded state, if any.
    pub open spec fn own_key(&self) -> Option<ProjectKey> {
        match self.state {
            Some(s) => match first_key(s) {
                Some(c) => Some(c.public_key),
                None => None,
            },
            None => None,
        }
    }

    /// Validates an envelope against the usable state and applies the cached rate limits.
    /// `now` is in milliseconds; rate limits are compared in whole seconds.
    ///
    /// A validation failure rejects the whole envelope with its reason. Otherwise the
    /// limited items are dropped; an envelope left empty is returned as `None`.
    pub fn check_envelope(&mut self, envelope: Envelope, now: u64) -> (r: Result<CheckedEnvelope, DiscardReason>)
        requires
            old(self).wf(),
        ensures
            final(self).wf(),
            final(self).state == old(self).state,
            final(self).cache_view() == old(self).cache_view(),
            final(self).pending_validations == old(self).pending_validations,
            final(self).pending_sampling == old(self).pending_sampling,
            final(self).outgoing == old(self).outgoing,
            final(self).outcomes == old(self).outcomes,
            r is Ok ==> final(self).rate_limits@ == spec_active(old(self).rate_limits@, to_secs(now)),
            r is Err ==> final(self).rate_limits == old(self).rate_limits,
            r is Err <==> old(self).validation(envelope, now) is Err,
            r is Err ==> r->Err_0 == old(self).validation(envelope, now)->Err_0,
            r is Ok ==> ({
                let out = old(self).enforcement(envelope, now);
                let c = r->Ok_0;
                &&& c.dropped@ == out.1
                &&& c.rate_limits@ == out.2
                &&& match c.envelope {
                    Some(e) => out.0.len() > 0 && e.items@ == out.0 && e.meta == envelope.meta
                        && e.event_id == envelope.event_id && e.sampling_key == envelope.sampling_key,
                    None => out.0.len() == 0,
                }
            }),
    {
        let mut envelope = envelope;
        let usable = self.valid_state(now);
        let mut scoping = envelope.meta.get_partial_scoping();
        if usable {
            match &self.state {
                Some(state) => {
                    scoping = state.scope_request(&envelope.meta);
                    match state.check_request(&envelope.meta, now, &self.config) {
                        Err(reason) => return Err(reason),
                        Ok(()) => {},
                    }
                },
                None => {},
            }
        }
        let now_secs = now / 1000;
        self.rate_limits.clean_expired(now_secs);
        let empty: Vec<crate::quota::Quota> = Vec::new();
        let (dropped, rate_limits) = match &self.state {
            Some(state) if usable => EnvelopeLimiter::enforce(
                &mut envelope,
                &scoping,
                &self.rate_limits,
                state.config.quotas.as_slice(),
                now_secs,
            ),
            _ => {
                assert(empty@ =~= Seq::<crate::quota::Quota>::empty());
                EnvelopeLimiter::enforce(&mut envelope, &scoping, &self.rate_limits, empty.as_slice(), now_secs)
            },
        };
        let envelope = if envelope.is_empty() {
            None
        } else {
            Some(envelope)
        };
        Ok(CheckedEnvelope { envelope, dropped, rate_limits })
    }

    /// Validates an envelope with the usable state and hands what is left of it on.
    fn flush_validation(&mut self, envelope: Envelope, now: u64)
        requires
            old(self).wf(),
        ensures
            final(self).wf(),
            final(self).state == old(self).state,
            final(self).cache_view() == old(self).cache_view(),
            final(self).pending_validations == old(self).pending_validations,
            final(self).pending_sampling == old(self).pending_sampling,
            flush_effect(*old(self), envelope, now, final(self).outgoing@, final(self).outcomes@),
            final(self).outgoing@.len() + final(self).outcomes@.len() == old(self).outgoing@.len()
                + old(self).outcomes@.len() + 1,
            final(self).outgoing@.take(old(self).outgoing@.len() as int) == old(self).outgoing@,
            final(self).outcomes@.take(old(self).outcomes@.len() as int) == old(self).outcomes@,
    {
        let ghost o0 = self.outgoing@;
        let ghost p0 = *old(self);
        match self.check_envelope(envelope, now) {
            Ok(checked) => match checked.envelope {
                Some(kept) => {
                    let own_key = match &self.state {
                        Some(s) => match s.get_public_key_config() {
                            Some(c) => Some(c.public_key),
                            None => None,
                        },
                        None => None,
                    };
                    assert(own_key == p0.own_key());
                    match kept.sampling_key {
                        Some(key) => {
                            if own_key == Some(key) {
                                self.outgoing.push(Outgoing::Process { envelope: kept, with_sampling_state: true });
                            } else {
                                self.outgoing.push(Outgoing::AddSamplingState { sampling_key: key, envelope: kept });
                            }
                        },
                        None => self.outgoing.push(Outgoing::Process { envelope: kept, with_sampling_state: false }),
                    }
                    assert(self.outgoing@.take(o0.len() as int) =~= o0);
                },
                None => self.outcomes.push(Outcome::RateLimited),
            },
            Err(reason) => self.outcomes.push(Outcome::Invalid(reason)),
        }
        assert(self.outgoing@.take(o0.len() as int) =~= o0);
        assert(self.outcomes@.take(old(self).outcomes@.len() as int) =~= old(self).outcomes@);
    }

    /// Validates an envelope now when the cached state may be used, else queues it until
    /// the next update.
    pub fn enqueue_validation(&mut self, envelope: Envelope, now: u64)
        requires
            old(self).wf(),
        ensures
            final(self).wf(),
            final(self).cache_view() == lookup(old(self).cache_view(), envelope.meta.no_cache, now).0,
            lookup(old(self).cache_view(), envelope.meta.no_cache, now).1 == GetOrFetch::Scheduled ==> (
            final(self).pending_validations@ == old(self).pending_validations@.push(envelope)
                && final(self).outgoing == old(self).outgoing && final(self).outcomes == old(self).outcomes),
            lookup(old(self).cache_view(), envelope.meta.no_cache, now).1 == GetOrFetch::Cached ==> (
            final(self).pending_validations == old(self).pending_validations && flush_effect(
                *old(self),
                envelope,
                now,
                final(self).outgoing@,
                final(self).outcomes@,
            )),
    {
        let ghost p0 = *old(self);
        if self.get_cached_state(envelope.meta.no_cache, now) {
            proof {
                assert(self.state == p0.state && self.config == p0.config);
                assert(self.validation(envelope, now) == p0.validation(envelope, now));
                assert(self.enforcement(envelope, now) == p0.enforcement(envelope, now));
                assert(self.own_key() == p0.own_key());
            }
            self.flush_validation(envelope, now);
        } else {
            self.pending_validations.push(envelope);
        }
    }

    /// Hands an envelope to processing with this project's state for sampling when the
    /// state may be used and belongs to the same organization.
    fn flush_sampling(&mut self, envelope: Envelope, organization_id: Option<u64>, now: u64)
        requires
            old(self).wf(),
        ensures
            final(self).wf(),
            final(self).state == old(self).state,
            final(self).cache_view() == old(self).cache_view(),
            final(self).pending_validations == old(self).pending_validations,
            final(self).pending_sampling == old(self).pending_sampling,
            final(self).outgoing@ == old(self).outgoing@.push(
                Outgoing::Process {
                    envelope,
                    with_sampling_state: old(self).spec_expiry_state(now) != ExpiryState::Expired
                        && old(self).state.unwrap().organization_id == organization_id,
                },
            ),
            final(self).outcomes == old(self).outcomes,
    {
        let mut with_sampling_state = false;
        if self.valid_state(now) {
            match &self.state {
                Some(s) => {
                    with_sampling_state = s.organization_id == organization_id;
                },
                None => {},
            }
        }
        self.outgoing.push(Outgoing::Process { envelope, with_sampling_state });
    }

    /// Adds this project's state for sampling to an envelope of the project with
    /// organization `organization_id`, or queues the envelope until the next update.
    pub fn enqueue_sampling(&mut self, envelope: Envelope, organization_id: Option<u64>, now: u64)
        requires
            old(self).wf(),
        ensures
            final(self).wf(),
            final(self).cache_view() == lookup(old(self).cache_view(), envelope.meta.no_cache, now).0,
            lookup(old(self).cache_view(), envelope.meta.no_cache, now).1 == GetOrFetch::Scheduled ==> (
            final(self).pending_sampling@ == old(self).pending_sampling@.push(envelope)
                && final(self).outgoing == old(self).outgoing),
            lookup(old(self).cache_view(), envelope.meta.no_cache, now).1 == GetOrFetch::Cached ==> (
            final(self).pending_sampling == old(self).pending_sampling && final(self).outgoing@
                == old(self).outgoing@.push(
                Outgoing::Process {
                    envelope,
                    with_sampling_state: old(self).spec_expiry_state(now) != ExpiryState::Expired
                        && old(self).state.unwrap().organization_id == organization_id,
                },
            )),
    {
        if self.get_cached_state(envelope.meta.no_cache, now) {
            self.flush_sampling(envelope, organization_id, now);
        } else {
            self.pending_sampling.push(envelope);
        }
    }

    /// Takes the result of a fetch.
    ///
    /// Without a fetch in flight nothing happens. A result that is not `no_cache` while a
    /// `no_cache` fetch is in flight is ignored, and that fetch stays. Otherwise the state is
    /// replaced (unless the result is invalid and the old state still usable), both queues
    /// are flushed, and the waiting receivers are returned to be answered.
    pub fn update_state(&mut self, state: ProjectState, no_cache: bool, now: u64) -> (r: Vec<u64>)
        requires
            old(self).wf(),
        ensures
            final(self).wf(),
            ({
                let superseded = old(self).state_channel is None || (old(self).state_channel.unwrap().no_cache
                    && !no_cache);
                superseded ==> r@.len() == 0 && final(self).state == old(self).state && final(self).state_channel
                    == old(self).state_channel && final(self).pending_validations == old(self).pending_validations
                    && final(self).pending_sampling == old(self).pending_sampling && final(self).outgoing
                    == old(self).outgoing && final(self).outcomes == old(self).outcomes
            }),
            old(self).state_channel is Some && !(old(self).state_channel.unwrap().no_cache && !no_cache) ==> ({
                &&& final(self).state == next_state(old(self).state, old(self).config, state, now)
                &&& final(self).state_channel is None
                &&& r@ == old(self).state_channel.unwrap().receivers@
                &&& final(self).pending_validations@.len() == 0
                &&& final(self).pending_sampling@.len() == 0
                &&& final(self).outgoing@.take(old(self).outgoing@.len() as int) == old(self).outgoing@
                &&& final(self).outcomes@.take(old(self).outcomes@.len() as int) == old(self).outcomes@
                &&& final(self).outgoing@.len() + final(self).outcomes@.len() == old(self).outgoing@.len()
                    + old(self).outcomes@.len() + old(self).pending_validations@.len()
                    + old(self).pending_sampling@.len()
            }),
    {
        let channel = match self.state_channel.take() {
            Some(c) => c,
            None => return Vec::new(),
        };
        if channel.no_cache && !no_cache {
            self.state_channel = Some(channel);
            return Vec::new();
        }
        let keep_old = state.invalid && self.valid_state(now);
        if !keep_old {
            self.state = Some(state);
        }
        let organization_id = match &self.state {
            Some(s) => s.organization_id,
            None => None,
        };
        let ghost base_out = old(self).outgoing@;
        let ghost base_outcomes = old(self).outcomes@;
        let ghost queued = old(self).pending_validations@.len() + old(self).pending_sampling@.len();
        let mut pending: Vec<Envelope> = Vec::new();
        std::mem::swap(&mut pending, &mut self.pending_validations);
        while pending.len() > 0
            invariant
                self.wf(),
                self.state_channel is None,
                self.pending_validations@.len() == 0,
                self.pending_sampling == old(self).pending_sampling,
                self.state == next_state(old(self).state, old(self).config, state, now),
                self.outgoing@.take(base_out.len() as int) == base_out,
                self.outcomes@.take(base_outcomes.len() as int) == base_outcomes,
                self.outgoing@.len() >= base_out.len(),
                self.outcomes@.len() >= base_outcomes.len(),
                self.outgoing@.len() + self.outcomes@.len() + pending@.len() == base_out.len() + base_outcomes.len()
                    + old(self).pending_validations@.len(),
            decreases pending@.len(),
        {
            let ghost o1 = self.outgoing@;
            let ghost c1 = self.outcomes@;
            let envelope = pending.remove(0);
            self.flush_validation(envelope, now);
            assert(self.outgoing@.take(base_out.len() as int) =~= o1.take(base_out.len() as int));
            assert(self.outcomes@.take(base_outcomes.len() as int) =~= c1.take(base_outcomes.len() as int));
        }
        let mut sampling: Vec<Envelope> = Vec::new();
        std::mem::swap(&mut sampling, &mut self.pending_sampling);
        while sampling.len() > 0
            invariant
                self.wf(),
                self.state_channel is None,
                self.pending_validations@.len() == 0,
                self.pending_sampling@.len() == 0,
                self.state == next_state(old(self).state, old(self).config, state, now),
                self.outgoing@.take(base_out.len() as int) == base_out,
                self.outcomes@.take(base_outcomes.len() as int) == base_outcomes,
                self.outgoing@.len() >= base_out.len(),
                self.outgoing@.len() + self.outcomes@.len() + sampling@.len() == base_out.len() + base_outcomes.len()
                    + queued,
            decreases sampling@.len(),
        {
            let ghost o1 = self.outgoing@;
            let envelope = sampling.remove(0);
            self.flush_sampling(envelope, organization_id, now);
            assert(self.outgoing@.take(base_out.len() as int) =~= o1.take(base_out.len() as int));
        }
        channel.receivers
    }

    /// The number of envelopes still queued; on shutdown they are reported as dropped.
    pub fn pending_count(&self) -> (r: usize)
        requires
            self.pending_validations@.len() + self.pending_sampling@.len() <= usize::MAX,
        ensures
            r == self.pending_validations@.len() + self.pending_sampling@.len(),
    {
        self.pending_validations.len() + self.pending_sampling.len()
    }
}

/// A metric bucket, identified by its name `type:namespace/name@unit`; its value stays
/// with the caller.
#[derive(Clone, Debug, PartialEq, Eq)]
pub struct Bucket {
    pub name: String,
    pub timestamp: u64,
    pub width: u64,
}

pub open spec fn is_transaction_metric(b: Bucket) -> bool {
    spec_namespace(b.name@) == MetricNamespace::Transactions
}

/// What to do with buckets that are due to be sent.
#[derive(Debug)]
pub enum FlushOutcome {
    /// Hand the buckets back to the aggregator: no usable state or scoping yet.
    MergeBack(Vec<Bucket>),
    /// Nothing to send.
    Drop,
    /// Send the buckets for this scoping.
    Send { buckets: Vec<Bucket>, scoping: Scoping, partition_key: Option<u64> },
}

impl Project {
    pub open spec fn spec_metrics_allowed(&self, now: u64) -> bool {
        self.spec_expiry_state(now) == ExpiryState::Expired || self.state.unwrap().spec_check_disabled(
            now,
            self.config,
        ) is Ok
    }

    /// Metrics are refused only for a usable state of a disabled or invalid project.
    pub fn metrics_allowed(&self, now: u64) -> (r: bool)
        ensures
            r == self.spec_metrics_allowed(now),
    {
        if self.valid_state(now) {
            match &self.state {
                Some(state) => state.check_disabled(now, &self.config).is_ok(),
                None => true,
            }
        } else {
            true
        }
    }

    /// Whether cached rate limits drop transaction metrics.
    pub open spec fn transactions_limited(&self, buckets: Seq<Bucket>, now: u64) -> bool {
        &&& self.state is Some
        &&& self.spec_scoping() is Some
        &&& exists|i: int| 0 <= i < buckets.len() && is_transaction_metric(#[trigger] buckets[i])
        &&& active(
            cached_check(
                self.rate_limits@,
                self.state.unwrap().config.quotas@,
                ItemScoping { category: DataCategory::Transaction, scoping: self.spec_scoping().unwrap() },
                to_secs(now),
            ),
            to_secs(now),
        )
    }

    /// Applies the cached rate limits to metrics: when transactions are limited, metrics
    /// in the transactions namespace are dropped.
    pub fn rate_limit_metrics(&self, buckets: Vec<Bucket>, now: u64) -> (r: Vec<Bucket>)
        requires
            self.wf(),
        ensures
            r@ == if self.transactions_limited(buckets@, now) {
                buckets@.filter(|b: Bucket| !is_transaction_metric(b))
            } else {
                buckets@
            },
    {
        let state = match &self.state {
            Some(s) => s,
            None => return buckets,
        };
        let scoping = match self.scoping() {
            Some(s) => s,
            None => return buckets,
        };
        let mut any = false;
        let mut i: usize = 0;
        while i < buckets.len()
            invariant
                i <= buckets@.len(),
                any == exists|j: int| 0 <= j < i && is_transaction_metric(#[trigger] buckets@[j]),
            decreases buckets@.len() - i,
        {
            if metric_namespace(buckets[i].name.as_str()) == MetricNamespace::Transactions {
                any = true;
            }
            i = i + 1;
        }
        if !any {
            return buckets;
        }
        let item = ItemScoping { category: DataCategory::Transaction, scoping };
        let now_secs = now / 1000;
        let applied = self.rate_limits.check_with_quotas(state.config.quotas.as_slice(), &item, now_secs);
        if !applied.is_limited(now_secs) {
            return buckets;
        }
        let ghost bs = buckets@;
        let mut rest = buckets;
        let mut kept: Vec<Bucket> = Vec::new();
        let ghost mut k: int = 0;
        while rest.len() > 0
            invariant
                0 <= k <= bs.len(),
                rest@ == bs.subrange(k, bs.len() as int),
                kept@ == bs.take(k).filter(|b: Bucket| !is_transaction_metric(b)),
            decreases rest@.len(),
        {
            let b = rest.remove(0);
            proof {
                assert(b == bs[k]);
                assert(bs.take(k + 1).drop_last() =~= bs.take(k));
                assert(bs.take(k + 1).last() == b);
                reveal_with_fuel(Seq::filter, 1);
            }
            if metric_namespace(b.name.as_str()) != MetricNamespace::Transactions {
                kept.push(b);
            }
            proof {
                k = k + 1;
                assert(rest@ =~= bs.subrange(k, bs.len() as int));
            }
        }
        assert(bs.take(bs.len() as int) =~= bs);
        kept
    }

    /// The buckets to hand to the aggregator for this project: none when metrics are not
    /// allowed, else those that the cached rate limits let through.
    pub fn merge_buckets(&self, buckets: Vec<Bucket>, now: u64) -> (r: Vec<Bucket>)
        requires
            self.wf(),
        ensures
            !self.spec_metrics_allowed(now) ==> r@.len() == 0,
            self.spec_metrics_allowed(now) ==> r@ == if self.transactions_limited(buckets@, now) {
                buckets@.filter(|b: Bucket| !is_transaction_metric(b))
            } else {
                buckets@
            },
    {
        if self.metrics_allowed(now) {
            self.rate_limit_metrics(buckets, now)
        } else {
            Vec::new()
        }
    }

    /// The same decision for individual metrics as `merge_buckets` makes for buckets.
    pub fn insert_metrics(&self, metrics: Vec<Bucket>, now: u64) -> (r: Vec<Bucket>)
        requires
            self.wf(),
        ensures
            !self.spec_metrics_allowed(now) ==> r@.len() == 0,
            self.spec_metrics_allowed(now) ==> r@ == if self.transactions_limited(metrics@, now) {
                metrics@.filter(|b: Bucket| !is_transaction_metric(b))
            } else {
                metrics@
            },
    {
        self.merge_buckets(metrics, now)
    }

    /// Decides what happens to buckets due for sending. A refresh of an outdated state is
    /// started either way; without a usable state or a scoping the buckets go back to the
    /// aggregator, for a disabled project they are dropped, otherwise the cached rate
    /// limits apply and what is left is sent.
    pub fn flush_buckets(&mut self, partition_key: Option<u64>, buckets: Vec<Bucket>, now: u64) -> (r: FlushOutcome)
        requires
            old(self).wf(),
        ensures
            final(self).wf(),
            final(self).cache_view() == lookup(old(self).cache_view(), false, now).0,
            lookup(old(self).cache_view(), false, now).1 == GetOrFetch::Scheduled ==> (r matches FlushOutcome::MergeBack(
                b,
            ) && b@ == buckets@),
            lookup(old(self).cache_view(), false, now).1 == GetOrFetch::Cached && old(self).spec_scoping() is None ==> (
            r matches FlushOutcome::MergeBack(b) && b@ == buckets@),
            r is Send ==> r->Send_scoping == old(self).spec_scoping().unwrap() && r->Send_partition_key
                == partition_key && r->Send_buckets@.len() > 0,
            lookup(old(self).cache_view(), false, now).1 == GetOrFetch::Cached && old(self).spec_scoping() is Some
                ==> ({
                let kept = if old(self).transactions_limited(buckets@, now) {
                    buckets@.filter(|b: Bucket| !is_transaction_metric(b))
                } else {
                    buckets@
                };
                if old(self).state.unwrap().spec_check_disabled(now, old(self).config) is Err || kept.len() == 0 {
                    r is Drop
                } else {
                    r is Send && r->Send_buckets@ == kept
                }
            }),
    {
        if !self.get_cached_state(false, now) {
            return FlushOutcome::MergeBack(buckets);
        }
        let scoping = match self.scoping() {
            Some(s) => s,
            None => return FlushOutcome::MergeBack(buckets),
        };
        let disabled = match &self.state {
            Some(state) => state.check_disabled(now, &self.config).is_err(),
            None => false,
        };
        if disabled {
            return FlushOutcome::Drop;
        }
        let buckets = self.rate_limit_metrics(buckets, now);
        if buckets.len() == 0 {
            FlushOutcome::Drop
        } else {
            FlushOutcome::Send { buckets, scoping, partition_key }
        }
    }
}

/// Two `no_cache` lookups less than an interval apart, the first of them honoured, send at
/// most one fetch request: the second is downgraded and joins the fetch in flight.
pub proof fn law_no_cache_throttle(v: CacheView, t1: u64, t2: u64)
    requires
        honoured(v, true, t1),
        t1 <= t2,
        t2 - t1 < NO_CACHE_INTERVAL_MS,
    ensures
        lookup(v, true, t1).0.fetch_requests.len() <= v.fetch_requests.len() + 1,
        !honoured(lookup(v, true, t1).0, true, t2),
        lookup(lookup(v, true, t1).0, true, t2).0.fetch_requests == lookup(v, true, t1).0.fetch_requests,
{
}

/// While the cached state is stale, a lookup without an honoured `no_cache` answers from
/// the cache, keeps the state, and leaves a fetch in flight (a new one if none was).
pub proof fn law_stale_serving(v: CacheView, no_cache: bool, now: u64)
    requires
        !honoured(v, no_cache, now),
        view_expiry(v, now) == Expiry::Stale,
    ensures
        lookup(v, no_cache, now).1 == GetOrFetch::Cached,
        lookup(v, no_cache, now).0.state == v.state,
        lookup(v, no_cache, now).0.channel is Some,
        v.channel is None ==> lookup(v, no_cache, now).0.fetch_requests == v.fetch_requests.push(false),
{
}

/// An invalid fetch result does not replace a state that is still up to date or stale.
pub proof fn law_keep_valid_state(old: ProjectState, config: Config, new: ProjectState, now: u64)
    requires
        new.invalid,
        old.spec_check_expiry(now, config) != Expiry::Expired,
    ensures
        next_state(Some(old), config, new, now) == Some(old),
{
}

} // verus!
