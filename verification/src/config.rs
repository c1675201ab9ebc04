//! The per-repository configuration that the rules read.

use vstd::prelude::*;

verus! {

/// The action that refuses a release.
pub const ACTION_BLOCK: &'static str = "block";

/// The action that serves a release and says so in the log.
pub const ACTION_WARN: &'static str = "warn";

/// Quarantines releases by their age.
pub struct AgePolicyConfig {
    pub enabled: bool,
    /// What becomes of a release that violates the policy.
    pub action: String,
    /// A release must be at least this old, in nanoseconds; none where not positive.
    pub min_age: i64,
    /// A release must be at most this old, in nanoseconds; none where not positive.
    pub max_age: i64,
}

/// How long what was fetched is kept.
#[derive(Debug, Clone, Copy, PartialEq, Eq, Structural)]
pub struct CacheConfig {
    pub enabled: bool,
    /// How long an index document is served without asking again, in nanoseconds.
    pub metadata_ttl: i64,
    /// The same for an artifact; zero never asks again.
    pub artifact_ttl: i64,
    /// How long a missing path is remembered, in nanoseconds.
    pub negative_ttl: i64,
    /// The size that the cache is trimmed to; not positive for no limit.
    pub max_size_bytes: i64,
}

/// HTTP basic authentication against the upstream.
pub const UPSTREAM_AUTH_BASIC: &'static str = "basic";

/// A bearer token for the upstream.
pub const UPSTREAM_AUTH_BEARER: &'static str = "bearer";

/// A header of its own for the upstream.
pub const UPSTREAM_AUTH_HEADER: &'static str = "header";

/// How requests to the upstream are authenticated.
pub struct UpstreamAuthConfig {
    /// One of the three kinds of authentication; none for any other text.
    pub kind: String,
    pub username: String,
    pub password: String,
    pub token: String,
    pub header: String,
    pub value: String,
}

/// The approval policy refuses what is not approved.
pub const MODE_ENFORCE: &'static str = "enforce";

/// The approval policy records what it would refuse, and serves it.
pub const MODE_AUDIT: &'static str = "audit";

/// Human approval of packages.
pub struct ApprovalConfig {
    pub enabled: bool,
    /// The mode; the empty text enforces.
    pub mode: String,
    /// Approve a package on its own where its scan finds nothing.
    pub auto_approve_clean: bool,
}

/// The license policy.
pub struct LicenseConfig {
    pub enabled: bool,
    /// What becomes of a violation.
    pub action: String,
    /// The only licenses allowed, where any is named.
    pub allow: Vec<String>,
    /// The licenses that are refused.
    pub deny: Vec<String>,
    /// Refuse what has no known license yet.
    pub block_unresolved: bool,
}

/// A span of time from the configuration: a negative one counts as zero.
pub open spec fn span_of(n: i64) -> int {
    if n < 0 {
        0
    } else {
        n as int
    }
}

/// A span of time from the configuration: a negative one counts as zero.
pub fn span(n: i64) -> (r: i128)
    ensures
        r == span_of(n),
{
    if n < 0 {
        0
    } else {
        n as i128
    }
}

impl Default for UpstreamAuthConfig {
    fn default() -> (r: UpstreamAuthConfig)
        ensures
            r.kind@ == ""@,
            r.username@ == ""@,
            r.password@ == ""@,
            r.token@ == ""@,
            r.header@ == ""@,
            r.value@ == ""@,
    {
        UpstreamAuthConfig {
            kind: "".to_owned(),
            username: "".to_owned(),
            password: "".to_owned(),
            token: "".to_owned(),
            header: "".to_owned(),
            value: "".to_owned(),
        }
    }
}

/// The mode that a configured approval mode stands for.
pub open spec fn mode_of(mode: Seq<char>) -> Seq<char> {
    if mode.len() == 0 {
        MODE_ENFORCE@
    } else {
        mode
    }
}

impl ApprovalConfig {
    /// The mode in force.
    pub fn effective_mode(&self) -> (r: String)
        ensures
            r@ == mode_of(self.mode@),
    {
        if self.mode.as_str().unicode_len() == 0 {
            MODE_ENFORCE.to_owned()
        } else {
            self.mode.as_str().to_owned()
        }
    }
}

impl Default for AgePolicyConfig {
    fn default() -> (r: AgePolicyConfig)
        ensures
            !r.enabled,
            r.action@ == Seq::<char>::empty(),
            r.min_age == 0,
            r.max_age == 0,
    {
        AgePolicyConfig { enabled: false, action: String::new(), min_age: 0, max_age: 0 }
    }
}

} // verus!
