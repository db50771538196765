//! Per-project configuration snapshots and the checks that requests pass against them.
use vstd::prelude::*;
use smallvec::SmallVec;
use crate::quota::{opt_view, ProjectKey, Quota, Scoping};

verus! {

/// The public keys of a project state; since each state belongs to one key, at most
/// one is expected.
#[verifier::external_body]
#[derive(Debug)]
pub struct PublicKeys {
    inner: SmallVec<[PublicKeyConfig; 1]>,
}

/// The key configurations that a `PublicKeys` holds, in order.
pub uninterp spec fn key_list(v: PublicKeys) -> Seq<PublicKeyConfig>;

impl Clone for PublicKeys {
    /// Relies on `SmallVec::clone`: the same items.
    #[verifier::external_body]
    fn clone(&self) -> (r: PublicKeys)
        ensures
            key_list(r) == key_list(*self),
    {
        PublicKeys { inner: self.inner.clone() }
    }
}

impl PublicKeys {
    /// Relies on `SmallVec::new`: an empty vector.
    #[verifier::external_body]
    pub fn new() -> (r: PublicKeys)
        ensures
            key_list(r) == Seq::<PublicKeyConfig>::empty(),
    {
        PublicKeys { inner: SmallVec::new() }
    }

    /// Relies on `SmallVec::push`: appends one item.
    #[verifier::external_body]
    pub fn push(&mut self, k: PublicKeyConfig)
        requires
            key_list(*old(self)).len() < usize::MAX,
        ensures
            key_list(*final(self)) == key_list(*old(self)).push(k),
    {
        self.inner.push(k);
    }

    /// Relies on `SmallVec::as_slice`: the first item, if any.
    #[verifier::external_body]
    pub fn first(&self) -> (r: Option<PublicKeyConfig>)
        ensures
            r == (if key_list(*self).len() > 0 {
                Some(key_list(*self)[0])
            } else {
                None::<PublicKeyConfig>
            }),
    {
        self.inner.as_slice().first().copied()
    }
}

/// A public key of the project together with its numeric id.
#[derive(Clone, Copy, Debug, PartialEq, Eq, Structural, Hash)]
pub struct PublicKeyConfig {
    pub public_key: ProjectKey,
    pub numeric_id: Option<u64>,
}

/// Features that a project can enable.
#[derive(Clone, Copy, Debug, PartialEq, Eq, Structural, Hash)]
pub enum Feature {
    Profiling,
    Replays,
    TransactionNameNormalize,
    Deprecated1,
    Unknown,
}

/// Freshness of a project state.
#[derive(Clone, Copy, Debug, PartialEq, Eq, Structural, Hash)]
pub enum Expiry {
    /// Up to date.
    Updated,
    /// Outdated but still usable while a refresh runs.
    Stale,
    /// Too old to be used.
    Expired,
}

/// Why a request is discarded.
#[derive(Clone, Copy, Debug, PartialEq, Eq, Structural, Hash)]
pub enum DiscardReason {
    /// The stated project id or key does not match, or the project is disabled.
    ProjectId,
    /// The origin is not allowed.
    Cors,
    /// The project state could not be obtained or parsed.
    ProjectState,
}

/// The settings of the relay that project states are checked against.
#[derive(Clone, Copy, Debug, PartialEq, Eq, Structural)]
pub struct Config {
    /// Seconds for which a state with a project id is up to date.
    pub project_cache_expiry: u64,
    /// Seconds for which a state without a project id is up to date.
    pub cache_miss_expiry: u64,
    /// Seconds after expiry during which a stale state is still served.
    pub project_grace_period: u64,
    /// Whether stated project ids are ignored.
    pub override_project_ids: bool,
}

/// What a request states about itself.
#[derive(Clone, Debug, PartialEq, Eq)]
pub struct RequestMeta {
    pub project_id: Option<u64>,
    pub origin: Option<String>,
    pub public_key: ProjectKey,
    pub no_cache: bool,
    /// The client SDK that sent the request.
    pub client: Option<String>,
    /// The client's network address.
    pub client_addr: Option<String>,
}

impl RequestMeta {
    pub open spec fn get_partial_scoping_spec(&self) -> Scoping {
        Scoping {
            organization_id: 0,
            project_id: match self.project_id {
                Some(p) => p,
                None => 0,
            },
            project_key: self.public_key,
            key_id: None,
        }
    }

    /// The scoping known from the request alone: no organization and no key id.
    pub fn get_partial_scoping(&self) -> (r: Scoping)
        ensures
            r == self.get_partial_scoping_spec(),
    {
        Scoping {
            organization_id: 0,
            project_id: match self.project_id {
                Some(p) => p,
                None => 0,
            },
            project_key: self.public_key,
            key_id: None,
        }
    }
}

/// Settings of a project that decide how its requests are treated.
#[derive(Clone, Debug)]
pub struct ProjectConfig {
    /// Origin patterns allowed for browser requests; `*` allows all.
    pub allowed_domains: Vec<String>,
    /// Maximum retention of events, in days.
    pub event_retention: Option<u16>,
    pub quotas: Vec<Quota>,
    pub features: Vec<Feature>,
}

impl Default for ProjectConfig {
    /// The default configuration: every origin allowed, no quotas, no features.
    fn default() -> (r: ProjectConfig)
        ensures
            r.allowed_domains@.len() == 1,
            r.allowed_domains@[0]@ == seq!['*'],
            r.event_retention is None,
            r.quotas@.len() == 0,
            r.features@.len() == 0,
    {
        let mut star = String::new();
        crate::text::push_char(&mut star, '*');
        let mut allowed_domains: Vec<String> = Vec::new();
        allowed_domains.push(star);
        ProjectConfig { allowed_domains, event_retention: None, quotas: Vec::new(), features: Vec::new() }
    }
}

/// `*` in a pattern stands for any run of characters.
pub open spec fn glob(p: Seq<char>, s: Seq<char>) -> bool
    decreases p.len(), s.len(),
{
    if p.len() == 0 {
        s.len() == 0
    } else if p[0] == '*' {
        glob(p.drop_first(), s) || (s.len() > 0 && glob(p, s.drop_first()))
    } else {
        s.len() > 0 && p[0] == s[0] && glob(p.drop_first(), s.drop_first())
    }
}

fn glob_at(p: &Vec<char>, i: usize, s: &Vec<char>, j: usize) -> (r: bool)
    requires
        i <= p@.len(),
        j <= s@.len(),
    ensures
        r == glob(p@.subrange(i as int, p@.len() as int), s@.subrange(j as int, s@.len() as int)),
    decreases p@.len() - i, s@.len() - j,
{
    let ghost ps = p@.subrange(i as int, p@.len() as int);
    let ghost ss = s@.subrange(j as int, s@.len() as int);
    if i == p.len() {
        return j == s.len();
    }
    assert(ps.drop_first() =~= p@.subrange(i + 1, p@.len() as int));
    if j < s.len() {
        assert(ss.drop_first() =~= s@.subrange(j + 1, s@.len() as int));
    }
    if p[i] == '*' {
        if glob_at(p, i + 1, s, j) {
            return true;
        }
        j < s.len() && glob_at(p, i, s, j + 1)
    } else {
        j < s.len() && p[i] == s[j] && glob_at(p, i + 1, s, j + 1)
    }
}

pub fn chars_of(t: &str) -> (r: Vec<char>)
    ensures
        r@ == t@,
{
    let n = t.unicode_len();
    let mut out: Vec<char> = Vec::new();
    let mut i: usize = 0;
    while i < n
        invariant
            n == t@.len(),
            i <= n,
            out@ == t@.take(i as int),
        decreases n - i,
    {
        out.push(t.get_char(i));
        i = i + 1;
        assert(out@ =~= t@.take(i as int));
    }
    assert(t@.take(n as int) =~= t@);
    out
}

/// Whether `text` matches the glob `pattern`.
pub fn glob_match(pattern: &str, text: &str) -> (r: bool)
    ensures
        r == glob(pattern@, text@),
{
    let p = chars_of(pattern);
    let s = chars_of(text);
    assert(p@.subrange(0, p@.len() as int) =~= p@);
    assert(s@.subrange(0, s@.len() as int) =~= s@);
    glob_at(&p, 0, &s, 0)
}

/// The host of a URL, as the `url` crate parses it.
pub uninterp spec fn url_host(s: Seq<char>) -> Option<Seq<char>>;

/// Relies on `url::Url::parse` and `Url::host_str`: the host of the URL, if it parses
/// and has one.
#[verifier::external_body]
fn origin_host(origin: &str) -> (r: Option<String>)
    ensures
        opt_view(r) == url_host(origin@),
{
    url::Url::parse(origin).ok().and_then(|u| u.host_str().map(|h| h.to_owned()))
}

/// A pattern allows an origin when it is `*`, or matches the whole origin or its host.
pub open spec fn pattern_allows(p: Seq<char>, origin: Seq<char>, host: Option<Seq<char>>) -> bool {
    p == seq!['*'] || glob(p, origin) || (host matches Some(h) && glob(p, h))
}

pub open spec fn origin_allowed_spec(allowed: Seq<String>, origin: Seq<char>, host: Option<Seq<char>>) -> bool {
    exists|i: int| 0 <= i < allowed.len() && pattern_allows(allowed[i]@, origin, host)
}

/// Whether any of the `allowed` patterns allows `origin`, whose host is `host`.
pub fn origin_allowed(allowed: &Vec<String>, origin: &str, host: &Option<String>) -> (r: bool)
    ensures
        r == origin_allowed_spec(allowed@, origin@, opt_view(*host)),
{
    let mut i: usize = 0;
    while i < allowed.len()
        invariant
            i <= allowed@.len(),
            forall|j: int| 0 <= j < i ==> !pattern_allows(#[trigger] allowed@[j]@, origin@, opt_view(*host)),
        decreases allowed@.len() - i,
    {
        let p = allowed[i].as_str();
        let star = p.unicode_len() == 1 && p.get_char(0) == '*';
        proof {
            if p@ == seq!['*'] {
                assert(p@[0] == '*');
            }
            if star {
                assert(p@ =~= seq!['*']);
            }
        }
        let by_host = match host {
            Some(h) => glob_match(p, h.as_str()),
            None => false,
        };
        if star || glob_match(p, origin) || by_host {
            return true;
        }
        i = i + 1;
    }
    false
}

/// A cached snapshot of a project's configuration.
#[derive(Clone, Debug)]
pub struct ProjectState {
    pub project_id: Option<u64>,
    /// When the state was last changed upstream, in seconds since the epoch.
    pub last_change: Option<i64>,
    pub disabled: bool,
    pub public_keys: PublicKeys,
    pub slug: Option<String>,
    pub config: ProjectConfig,
    pub organization_id: Option<u64>,
    /// When this state was fetched, in milliseconds of the relay's clock.
    pub last_fetch: u64,
    /// Whether fetching or parsing this state failed.
    pub invalid: bool,
}

pub open spec fn first_key(s: ProjectState) -> Option<PublicKeyConfig> {
    if key_list(s.public_keys).len() > 0 {
        Some(key_list(s.public_keys)[0])
    } else {
        None
    }
}

/// The freshness of a state fetched at `last_fetch` with the given lifetimes (in seconds),
/// seen at `now` (in milliseconds).
pub open spec fn expiry_at(last_fetch: u64, now: u64, expiry: u64, grace: u64) -> Expiry {
    let elapsed = if now >= last_fetch {
        now - last_fetch
    } else {
        0
    };
    if elapsed >= (expiry + grace) * 1000 {
        Expiry::Expired
    } else if elapsed >= expiry * 1000 {
        Expiry::Stale
    } else {
        Expiry::Updated
    }
}

impl ProjectState {
    /// The state of a project that does not exist: disabled and without id.
    pub fn missing(now: u64) -> (r: ProjectState)
        ensures
            r.project_id is None,
            r.disabled,
            !r.invalid,
            r.organization_id is None,
            key_list(r.public_keys).len() == 0,
            r.config.quotas@.len() == 0,
            r.last_fetch == now,
    {
        ProjectState {
            project_id: None,
            last_change: None,
            disabled: true,
            public_keys: PublicKeys::new(),
            slug: None,
            config: ProjectConfig::default(),
            organization_id: None,
            last_fetch: now,
            invalid: false,
        }
    }

    /// The state of an unknown project that is let through.
    pub fn allowed(now: u64) -> (r: ProjectState)
        ensures
            r.project_id is None,
            !r.disabled,
            !r.invalid,
            r.organization_id is None,
            key_list(r.public_keys).len() == 0,
            r.config.quotas@.len() == 0,
            r.last_fetch == now,
    {
        let mut state = ProjectState::missing(now);
        state.disabled = false;
        state
    }

    /// The state recorded when fetching or parsing failed.
    pub fn err(now: u64) -> (r: ProjectState)
        ensures
            r.project_id is None,
            r.disabled,
            r.invalid,
            r.organization_id is None,
            key_list(r.public_keys).len() == 0,
            r.config.quotas@.len() == 0,
            r.last_fetch == now,
    {
        let mut state = ProjectState::missing(now);
        state.invalid = true;
        state
    }

    /// The configuration of the project's public key.
    pub fn get_public_key_config(&self) -> (r: Option<PublicKeyConfig>)
        ensures
            r == first_key(*self),
    {
        self.public_keys.first()
    }

    pub fn disabled(&self) -> (r: bool)
        ensures
            r == self.disabled,
    {
        self.disabled
    }

    pub fn invalid(&self) -> (r: bool)
        ensures
            r == self.invalid,
    {
        self.invalid
    }

    pub fn config(&self) -> (r: &ProjectConfig)
        ensures
            *r == self.config,
    {
        &self.config
    }

    pub open spec fn spec_check_expiry(&self, now: u64, config: Config) -> Expiry {
        expiry_at(
            self.last_fetch,
            now,
            match self.project_id {
                None => config.cache_miss_expiry,
                Some(_) => config.project_cache_expiry,
            },
            config.project_grace_period,
        )
    }

    /// Freshness at `now` (milliseconds): stale after the expiry, expired after the grace
    /// period that follows it.
    pub fn check_expiry(&self, now: u64, config: &Config) -> (r: Expiry)
        ensures
            r == self.spec_check_expiry(now, *config),
    {
        let expiry: u64 = match self.project_id {
            None => config.cache_miss_expiry,
            Some(_) => config.project_cache_expiry,
        };
        let elapsed: u128 = if now >= self.last_fetch {
            (now - self.last_fetch) as u128
        } else {
            0
        };
        if elapsed >= (expiry as u128 + config.project_grace_period as u128) * 1000 {
            Expiry::Expired
        } else if elapsed >= expiry as u128 * 1000 {
            Expiry::Stale
        } else {
            Expiry::Updated
        }
    }

    pub open spec fn spec_is_valid_project_id(&self, stated: Option<u64>, config: Config) -> bool {
        match (self.project_id, stated) {
            (Some(actual), Some(s)) => config.override_project_ids || actual == s,
            _ => true,
        }
    }

    /// False only when both ids are known, overriding is off, and they differ.
    pub fn is_valid_project_id(&self, stated_id: Option<u64>, config: &Config) -> (r: bool)
        ensures
            r == self.spec_is_valid_project_id(stated_id, *config),
    {
        match (self.project_id, stated_id) {
            (Some(actual), Some(stated)) => config.override_project_ids || actual == stated,
            _ => true,
        }
    }

    pub open spec fn spec_is_valid_origin(&self, origin: Option<Seq<char>>) -> bool {
        match origin {
            None => true,
            Some(o) => self.config.allowed_domains@.len() > 0 && origin_allowed_spec(
                self.config.allowed_domains@,
                o,
                url_host(o),
            ),
        }
    }

    /// Whether a request from `origin` is allowed: always without an origin, never with
    /// an empty list of allowed domains.
    pub fn is_valid_origin(&self, origin: Option<&str>) -> (r: bool)
        ensures
            r == self.spec_is_valid_origin(match origin {
                Some(o) => Some(o@),
                None => None,
            }),
    {
        let origin = match origin {
            Some(o) => o,
            None => return true,
        };
        if self.config.allowed_domains.len() == 0 {
            return false;
        }
        let host = origin_host(origin);
        origin_allowed(&self.config.allowed_domains, origin, &host)
    }

    pub open spec fn spec_is_matching_key(&self, key: ProjectKey) -> bool {
        match first_key(*self) {
            Some(c) => c.public_key == key,
            None => self.project_id is None,
        }
    }

    /// Whether the loaded key equals `project_key`; states without a key match only
    /// while the project is unknown.
    pub fn is_matching_key(&self, project_key: ProjectKey) -> (r: bool)
        ensures
            r == self.spec_is_matching_key(project_key),
    {
        match self.get_public_key_config() {
            Some(c) => c.public_key == project_key,
            None => self.project_id.is_none(),
        }
    }

    pub open spec fn spec_scope_request(&self, meta: RequestMeta) -> Scoping {
        Scoping {
            organization_id: match self.organization_id {
                Some(o) => o,
                None => 0,
            },
            project_id: match self.project_id {
                Some(p) => p,
                None => match meta.project_id {
                    Some(p) => p,
                    None => 0,
                },
            },
            project_key: meta.public_key,
            key_id: match first_key(*self) {
                Some(c) => c.numeric_id,
                None => None,
            },
        }
    }

    /// The request's scoping amended with this state's organization, project and key id.
    pub fn scope_request(&self, meta: &RequestMeta) -> (r: Scoping)
        ensures
            r == self.spec_scope_request(*meta),
    {
        let mut scoping = meta.get_partial_scoping();
        scoping.key_id = match self.get_public_key_config() {
            Some(c) => c.numeric_id,
            None => None,
        };
        if let Some(project_id) = self.project_id {
            scoping.project_id = project_id;
        }
        scoping.organization_id = match self.organization_id {
            Some(o) => o,
            None => 0,
        };
        scoping
    }

    pub fn get_quotas(&self) -> (r: &Vec<Quota>)
        ensures
            *r == self.config.quotas,
    {
        &self.config.quotas
    }

    pub open spec fn spec_check_disabled(&self, now: u64, config: Config) -> Result<(), DiscardReason> {
        if self.spec_check_expiry(now, config) == Expiry::Expired {
            Ok(())
        } else if self.disabled {
            Err(DiscardReason::ProjectId)
        } else if self.invalid {
            Err(DiscardReason::ProjectState)
        } else {
            Ok(())
        }
    }

    /// Rejects disabled projects, then invalid ones, unless the state has expired: an expired
    /// state lets requests through rather than dropping them on old information.
    pub fn check_disabled(&self, now: u64, config: &Config) -> (r: Result<(), DiscardReason>)
        ensures
            r == self.spec_check_disabled(now, *config),
    {
        if self.check_expiry(now, config) == Expiry::Expired {
            return Ok(());
        }
        if self.disabled() {
            return Err(DiscardReason::ProjectId);
        }
        if self.invalid() {
            return Err(DiscardReason::ProjectState);
        }
        Ok(())
    }

    pub open spec fn spec_check_request(&self, meta: RequestMeta, now: u64, config: Config) -> Result<
        (),
        DiscardReason,
    > {
        if !self.spec_is_valid_project_id(meta.project_id, config) {
            Err(DiscardReason::ProjectId)
        } else if !self.spec_is_valid_origin(opt_view(meta.origin)) {
            Err(DiscardReason::Cors)
        } else if !self.spec_is_matching_key(meta.public_key) {
            Err(DiscardReason::ProjectId)
        } else {
            self.spec_check_disabled(now, config)
        }
    }

    /// Checks project id, origin, key, and whether the project is disabled or invalid, in
    /// that order; the first failure gives the reason.
    pub fn check_request(&self, meta: &RequestMeta, now: u64, config: &Config) -> (r: Result<(), DiscardReason>)
        ensures
            r == self.spec_check_request(*meta, now, *config),
    {
        if !self.is_valid_project_id(meta.project_id, config) {
            return Err(DiscardReason::ProjectId);
        }
        let origin = match &meta.origin {
            Some(o) => Some(o.as_str()),
            None => None,
        };
        if !self.is_valid_origin(origin) {
            return Err(DiscardReason::Cors);
        }
        if !self.is_matching_key(meta.public_key) {
            return Err(DiscardReason::ProjectId);
        }
        self.check_disabled(now, config)
    }

    /// Drops the quotas that are not valid, keeping the order of the rest.
    pub fn sanitize(self) -> (r: ProjectState)
        ensures
            r.config.quotas@ == self.config.quotas@.filter(|q: Quota| q.spec_is_valid()),
            r.project_id == self.project_id,
            r.organization_id == self.organization_id,
            r.slug == self.slug,
            r.last_change == self.last_change,
            r.config.event_retention == self.config.event_retention,
            r.disabled == self.disabled,
            r.invalid == self.invalid,
            r.last_fetch == self.last_fetch,
            key_list(r.public_keys) == key_list(self.public_keys),
            r.config.allowed_domains == self.config.allowed_domains,
            r.config.features == self.config.features,
    {
        let ghost qs = self.config.quotas@;
        let ProjectState {
            project_id,
            last_change,
            disabled,
            public_keys,
            slug,
            config,
            organization_id,
            last_fetch,
            invalid,
        } = self;
        let ProjectConfig { allowed_domains, event_retention, quotas, features } = config;
        let mut quotas = quotas;
        let mut kept: Vec<Quota> = Vec::new();
        let ghost mut i: int = 0;
        while quotas.len() > 0
            invariant
                0 <= i <= qs.len(),
                quotas@ == qs.subrange(i, qs.len() as int),
                kept@ == qs.take(i).filter(|q: Quota| q.spec_is_valid()),
            decreases quotas@.len(),
        {
            let q = quotas.remove(0);
            proof {
                assert(q == qs[i]);
                assert(qs.take(i + 1).drop_last() =~= qs.take(i));
                assert(qs.take(i + 1).last() == q);
                reveal_with_fuel(Seq::filter, 1);
            }
            if q.is_valid() {
                kept.push(q);
            }
            proof {
                i = i + 1;
                assert(quotas@ =~= qs.subrange(i, qs.len() as int));
            }
        }
        assert(qs.take(qs.len() as int) =~= qs);
        ProjectState {
            project_id,
            last_change,
            disabled,
            public_keys,
            slug,
            config: ProjectConfig { allowed_domains, event_retention, quotas: kept, features },
            organization_id,
            last_fetch,
            invalid,
        }
    }

    pub fn has_feature(&self, feature: Feature) -> (r: bool)
        ensures
            r == self.config.features@.contains(feature),
    {
        let mut i: usize = 0;
        while i < self.config.features.len()
            invariant
                i <= self.config.features@.len(),
                forall|j: int| 0 <= j < i ==> self.config.features@[j] != feature,
            decreases self.config.features@.len() - i,
        {
            if self.config.features[i] == feature {
                return true;
            }
            i = i + 1;
        }
        false
    }
}

} // verus!
