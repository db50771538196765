//! Quotas, the scopes they apply to, and the identity of the data they count.
use vstd::prelude::*;
use crate::text::{decimal, str_eq};

verus! {

/// The kind of data that a quota counts.
#[derive(Clone, Copy, Debug, PartialEq, Eq, Structural, Hash)]
pub enum DataCategory {
    Default,
    Error,
    Transaction,
    Security,
    Attachment,
    Session,
    Profile,
    Replay,
    ReplayRecording,
    MetricBucket,
    UserReport,
    Unknown,
}

/// The domain over which a quota is counted.
#[derive(Clone, Copy, Debug, PartialEq, Eq, Structural, Hash)]
pub enum QuotaScope {
    Organization,
    Project,
    Key,
}

/// A 128-bit public project key; its canonical text is 32 lowercase hex digits.
#[derive(Clone, Copy, Debug, PartialEq, Eq, Structural, Hash)]
pub struct ProjectKey {
    pub value: u128,
}

/// Error for text that is not the canonical form of a project key.
#[derive(Clone, Copy, Debug, PartialEq, Eq, Structural)]
pub struct ParseProjectKeyError;

pub open spec fn hex_val(c: char) -> int {
    if '0' <= c && c <= '9' {
        c as int - '0' as int
    } else if 'a' <= c && c <= 'f' {
        c as int - 'a' as int + 10
    } else {
        -1
    }
}

pub open spec fn is_key_text(s: Seq<char>) -> bool {
    s.len() == 32 && forall|i: int| 0 <= i < s.len() ==> hex_val(#[trigger] s[i]) >= 0
}

/// The number that a string of hex digits denotes.
pub open spec fn hex_number(s: Seq<char>) -> int
    decreases s.len(),
{
    if s.len() == 0 {
        0
    } else {
        hex_number(s.drop_last()) * 16 + hex_val(s.last())
    }
}

pub open spec fn pow16(n: nat) -> int
    decreases n,
{
    if n == 0 {
        1
    } else {
        16 * pow16((n - 1) as nat)
    }
}

proof fn lemma_pow16_mono(a: nat, b: nat)
    requires
        a <= b,
    ensures
        1 <= pow16(a) <= pow16(b),
    decreases b,
{
    if a < b {
        lemma_pow16_mono(a, (b - 1) as nat);
    } else if a > 0 {
        lemma_pow16_mono((a - 1) as nat, (a - 1) as nat);
    }
}

proof fn lemma_pow16_32()
    ensures
        pow16(32) == 0x1_0000_0000_0000_0000_0000_0000_0000_0000,
{
    reveal_with_fuel(pow16, 33);
}

impl ProjectKey {
    /// Parses the canonical text form: exactly 32 lowercase hex digits.
    pub fn parse(s: &str) -> (r: Result<ProjectKey, ParseProjectKeyError>)
        ensures
            is_key_text(s@) <==> r is Ok,
            r matches Ok(k) ==> k.value == hex_number(s@),
    {
        let n = s.unicode_len();
        if n != 32 {
            return Err(ParseProjectKeyError);
        }
        let mut acc: u128 = 0;
        let mut i: usize = 0;
        while i < n
            invariant
                n == s@.len(),
                n == 32,
                i <= n,
                acc == hex_number(s@.take(i as int)),
                0 <= acc < pow16(i as nat),
                forall|j: int| 0 <= j < i ==> hex_val(#[trigger] s@[j]) >= 0,
            decreases n - i,
        {
            let c = s.get_char(i);
            let d: u128 = if '0' <= c && c <= '9' {
                (c as u32 - '0' as u32) as u128
            } else if 'a' <= c && c <= 'f' {
                (c as u32 - 'a' as u32 + 10) as u128
            } else {
                assert(!is_key_text(s@));
                return Err(ParseProjectKeyError);
            };
            assert(s@.take(i + 1).drop_last() =~= s@.take(i as int));
            proof {
                lemma_pow16_mono((i + 1) as nat, 32);
                lemma_pow16_32();
                assert(pow16((i + 1) as nat) == 16 * pow16(i as nat));
                assert(acc * 16 + d < pow16((i + 1) as nat)) by (nonlinear_arith)
                    requires
                        acc < pow16(i as nat),
                        d < 16,
                        pow16((i + 1) as nat) == 16 * pow16(i as nat),
                ;
            }
            acc = acc * 16 + d;
            i = i + 1;
        }
        assert(s@.take(32) =~= s@);
        Ok(ProjectKey { value: acc })
    }
}

/// The identity of a request: organization, project, key, and the key's numeric id.
#[derive(Clone, Copy, Debug, PartialEq, Eq, Structural, Hash)]
pub struct Scoping {
    pub organization_id: u64,
    pub project_id: u64,
    pub project_key: ProjectKey,
    pub key_id: Option<u64>,
}

/// A `Scoping` together with the category of one item.
#[derive(Clone, Copy, Debug, PartialEq, Eq, Structural, Hash)]
pub struct ItemScoping {
    pub category: DataCategory,
    pub scoping: Scoping,
}

impl ItemScoping {
    pub open spec fn spec_scope_id(self, scope: QuotaScope) -> Option<u64> {
        match scope {
            QuotaScope::Organization => Some(self.scoping.organization_id),
            QuotaScope::Project => Some(self.scoping.project_id),
            QuotaScope::Key => self.scoping.key_id,
        }
    }

    /// The identifier of the given scope for this item, if known.
    pub fn scope_id(&self, scope: QuotaScope) -> (r: Option<u64>)
        ensures
            r == self.spec_scope_id(scope),
    {
        match scope {
            QuotaScope::Organization => Some(self.scoping.organization_id),
            QuotaScope::Project => Some(self.scoping.project_id),
            QuotaScope::Key => self.scoping.key_id,
        }
    }
}

/// A declarative bound on the number of items per window per scope.
#[derive(Clone, Debug, PartialEq, Eq)]
pub struct Quota {
    pub id: Option<String>,
    /// Categories counted by this quota; empty means all categories.
    pub categories: Vec<DataCategory>,
    pub scope: QuotaScope,
    pub scope_id: Option<String>,
    pub limit: Option<u64>,
    /// Window length in seconds.
    pub window: Option<u64>,
    pub reason_code: Option<String>,
}

pub open spec fn matches_categories(categories: Seq<DataCategory>, category: DataCategory) -> bool {
    categories.len() == 0 || categories.contains(category)
}

pub open spec fn matches_scope(scope_id: Option<Seq<char>>, actual: Option<u64>) -> bool {
    match scope_id {
        None => true,
        Some(id) => match actual {
            Some(a) => id == decimal(a as nat),
            None => false,
        },
    }
}

pub open spec fn opt_view(s: Option<String>) -> Option<Seq<char>> {
    match s {
        Some(v) => Some(v@),
        None => None,
    }
}

impl Quota {
    pub open spec fn spec_matches(self, item: ItemScoping) -> bool {
        matches_categories(self.categories@, item.category) && matches_scope(
            opt_view(self.scope_id),
            item.spec_scope_id(self.scope),
        )
    }

    /// A quota is valid when it rejects everything or can be tracked in the counter store.
    pub open spec fn spec_is_valid(self) -> bool {
        self.limit == Some(0u64) || (self.id is Some && self.window is Some)
    }

    /// Whether this quota counts the given item.
    pub fn matches(&self, item: &ItemScoping) -> (r: bool)
        ensures
            r == self.spec_matches(*item),
    {
        let mut in_categories = self.categories.len() == 0;
        let mut i: usize = 0;
        while i < self.categories.len()
            invariant
                i <= self.categories@.len(),
                in_categories == (self.categories@.len() == 0 || exists|j: int|
                    0 <= j < i && self.categories@[j] == item.category),
            decreases self.categories@.len() - i,
        {
            if self.categories[i] == item.category {
                in_categories = true;
            }
            i = i + 1;
        }
        if !in_categories {
            return false;
        }
        match &self.scope_id {
            None => true,
            Some(id) => match item.scope_id(self.scope) {
                Some(actual) => {
                    let text = crate::text::decimal_string(actual);
                    str_eq(id.as_str(), text.as_str())
                },
                None => false,
            },
        }
    }

    /// Whether this quota rejects everything or can be tracked in the counter store.
    pub fn is_valid(&self) -> (r: bool)
        ensures
            r == self.spec_is_valid(),
    {
        match self.limit {
            Some(0) => true,
            _ => self.id.is_some() && self.window.is_some(),
        }
    }
}

} // verus!
