//! The final boundary: human package approval, plus the per-version deny list that is
//! always enforced.
//!
//! Blocks answer 403 rather than 404: a group treats 404 as a miss of one member and
//! would serve the package from the next, and Go clients fall back to the next proxy.
//! Both would bypass the policy.

use vstd::prelude::*;
use vstd::string::StrSliceExecFns;

use crate::config::{mode_of, ApprovalConfig, MODE_AUDIT, MODE_ENFORCE};
use crate::meta::RepoType;
use crate::repo::negcache::{live, NegCache};
use crate::repo::reply::{
    answer, http_error, is_read, opt_answer, reads, Answer, Method, Reply, FORBIDDEN,
    SERVICE_UNAVAILABLE,
};
use crate::text::{cat, same};
use crate::times::valid_instant;

verus! {

/// Who approves a package whose scan finds nothing.
pub const AUTO_APPROVE_ACTOR: &'static str = "system:auto-approve-clean";

/// What is noted beside such an approval.
pub const AUTO_APPROVE_NOTE: &'static str = "auto-approved: clean vulnerability scan (max severity none)";

/// How long one mark suppresses repeated records of the same demand, in nanoseconds.
pub const PENDING_MARK_TTL: i128 = 60_000_000_000;

/// The status of a package that may be served.
pub const APPROVAL_APPROVED: &'static str = "approved";

// ---------------------------------------------------------------------------
// Marks

/// Marks `key` for a while, and tells whether it was not marked before.
pub fn mark_once(marks: &mut NegCache, key: &str, now: i128) -> (r: bool)
    requires
        old(marks).wf(),
        valid_instant(now as int),
    ensures
        final(marks).wf(),
        r == !live(old(marks)@, key@, now as int),
        final(marks)@ == if r {
            old(marks)@.insert(key@, (now + PENDING_MARK_TTL) as i128)
        } else {
            old(marks)@
        },
{
    let ghost before = marks@;
    if marks.has(key, now) {
        return false;
    }
    marks.set(key, PENDING_MARK_TTL, now);
    assert(before.remove(key@).insert(key@, (now + PENDING_MARK_TTL) as i128) =~= before.insert(
        key@,
        (now + PENDING_MARK_TTL) as i128,
    ));
    true
}

/// A demand is recorded once, and not again before its mark runs out.
pub proof fn marks_suppress_repeats(
    before: Map<Seq<char>, i128>,
    key: Seq<char>,
    at: i128,
    now: int,
)
    requires
        valid_instant(at as int),
    ensures
        now <= at + PENDING_MARK_TTL ==> live(
            before.insert(key, (at + PENDING_MARK_TTL) as i128),
            key,
            now,
        ),
        now > at + PENDING_MARK_TTL ==> !live(
            before.insert(key, (at + PENDING_MARK_TTL) as i128),
            key,
            now,
        ),
{
}

// ---------------------------------------------------------------------------
// The approval gate

/// The policies look at reads of proxy and hosted repositories only.
pub open spec fn gated(kind: RepoType, method: Method) -> bool {
    (kind == RepoType::Proxy || kind == RepoType::Hosted) && reads(method)
}

/// Whether the policies look at a request.
pub fn is_gated(kind: RepoType, method: Method) -> (r: bool)
    ensures
        r == gated(kind, method),
{
    (kind == RepoType::Proxy || kind == RepoType::Hosted) && is_read(method)
}

/// What the store knows of the approval of a package.
pub enum ApprovalLookup {
    /// There is no decision.
    NotFound,
    Status(String),
    Failed,
}

/// What the approval gate makes of a request.
pub struct ApprovalOutcome {
    /// The request is blocked with this answer.
    pub reply: Option<Reply>,
    /// The demand for the package is to be recorded.
    pub demand: bool,
}

/// The approval policy looks at the request: it is enabled, the package is known, and
/// no pattern lets it pass.
pub open spec fn approval_applies(
    kind: RepoType,
    method: Method,
    cfg: ApprovalConfig,
    pkg: Seq<char>,
    bypassed: bool,
) -> bool {
    gated(kind, method) && cfg.enabled && pkg.len() > 0 && !bypassed
}

/// The package is approved.
pub open spec fn is_approved(status: ApprovalLookup) -> bool {
    status matches ApprovalLookup::Status(s) && s@ == APPROVAL_APPROVED@
}

/// The answer to a package that waits for approval.
pub open spec fn pending_answer(pkg: Seq<char>) -> Answer {
    answer(FORBIDDEN, "package pending approval: "@ + pkg)
}

/// What the approval gate answers, and whether it records a demand. `auto_approved`
/// tells that a clean scan has just approved the package.
pub open spec fn approval_outcome(
    kind: RepoType,
    method: Method,
    cfg: ApprovalConfig,
    pkg: Seq<char>,
    bypassed: bool,
    status: ApprovalLookup,
    auto_approved: bool,
) -> (Option<Answer>, bool) {
    let mode = mode_of(cfg.mode@);
    if !approval_applies(kind, method, cfg, pkg, bypassed) || is_approved(status) {
        (None, false)
    } else if status is Failed {
        if mode == MODE_ENFORCE@ {
            (Some(answer(SERVICE_UNAVAILABLE, "approval check failed"@)), false)
        } else {
            (None, false)
        }
    } else if cfg.auto_approve_clean && auto_approved {
        (None, false)
    } else if mode == MODE_AUDIT@ {
        (None, true)
    } else {
        (Some(pending_answer(pkg)), true)
    }
}

/// Enforces the package approval policy. It is the final boundary before serving: a
/// package that waits may already be cached, but its bytes are not returned. A lookup
/// that fails closes the barrier in enforce mode and leaves it open in audit mode.
pub fn approval_gate(
    kind: RepoType,
    method: Method,
    cfg: &ApprovalConfig,
    pkg: &str,
    bypassed: bool,
    status: &ApprovalLookup,
    auto_approved: bool,
) -> (r: ApprovalOutcome)
    ensures
        (opt_answer(r.reply), r.demand) == approval_outcome(
            kind,
            method,
            *cfg,
            pkg@,
            bypassed,
            *status,
            auto_approved,
        ),
{
    if !is_gated(kind, method) || !cfg.enabled || pkg.unicode_len() == 0 || bypassed {
        return ApprovalOutcome { reply: None, demand: false };
    }
    let mode = cfg.effective_mode();
    match status {
        ApprovalLookup::NotFound => {},
        ApprovalLookup::Failed => {
            if same(mode.as_str(), MODE_ENFORCE) {
                return ApprovalOutcome {
                    reply: Some(http_error(SERVICE_UNAVAILABLE, "approval check failed")),
                    demand: false,
                };
            }
            return ApprovalOutcome { reply: None, demand: false };
        },
        ApprovalLookup::Status(s) => {
            if same(s.as_str(), APPROVAL_APPROVED) {
                return ApprovalOutcome { reply: None, demand: false };
            }
        },
    }
    if cfg.auto_approve_clean && auto_approved {
        return ApprovalOutcome { reply: None, demand: false };
    }
    if same(mode.as_str(), MODE_AUDIT) {
        return ApprovalOutcome { reply: None, demand: true };
    }
    let message = cat("package pending approval: ", pkg);
    ApprovalOutcome { reply: Some(http_error(FORBIDDEN, message.as_str())), demand: true }
}

/// Whether a clean scan is looked for: the package waits for approval, and the policy
/// lets such a scan approve it.
pub fn tries_auto_approval(
    kind: RepoType,
    method: Method,
    cfg: &ApprovalConfig,
    pkg: &str,
    bypassed: bool,
    status: &ApprovalLookup,
) -> (r: bool)
    ensures
        r == (cfg.auto_approve_clean && approval_applies(kind, method, *cfg, pkg@, bypassed)
            && !is_approved(*status) && !(*status is Failed)),
{
    if !cfg.auto_approve_clean || !is_gated(kind, method) || !cfg.enabled || pkg.unicode_len() == 0
        || bypassed {
        return false;
    }
    match status {
        ApprovalLookup::NotFound => true,
        ApprovalLookup::Failed => false,
        ApprovalLookup::Status(s) => !same(s.as_str(), APPROVAL_APPROVED),
    }
}

/// Whether a clean scan approves a package: there is a scanner, the format has an
/// ecosystem, the stored scan of the coordinate finds nothing, and the decision could
/// be stored. `clean` tells what the stored scan says, where there is one.
pub fn auto_approve_if_clean(
    scanner: bool,
    ecosystem: &str,
    clean: Option<bool>,
    stored: bool,
) -> (r: bool)
    ensures
        r == (scanner && ecosystem@.len() > 0 && clean == Some(true) && stored),
{
    if !scanner || ecosystem.unicode_len() == 0 {
        return false;
    }
    match clean {
        Some(true) => stored,
        _ => false,
    }
}

/// What is done about a demand that is recorded.
pub struct Demand {
    /// The coordinate is scanned.
    pub scan: bool,
    /// The request is recorded without a decision to make.
    pub record: bool,
    /// A decision is asked for.
    pub ask: bool,
}

/// The mark of a demand.
pub open spec fn demand_mark(repo: Seq<char>, pkg: Seq<char>) -> Seq<char> {
    repo + "\u{0}"@ + pkg
}

/// Records the demand for a package, at most once in a while: it is scanned, and a
/// decision is asked for; in audit mode it is recorded instead, since nothing is
/// blocked and there is nothing to decide.
pub fn note_demand(marks: &mut NegCache, repo: &str, pkg: &str, mode: &str, now: i128) -> (r: Demand)
    requires
        old(marks).wf(),
        valid_instant(now as int),
    ensures
        final(marks).wf(),
        r.scan == !live(old(marks)@, demand_mark(repo@, pkg@), now as int),
        r.record == (r.scan && mode@ == MODE_AUDIT@),
        r.ask == (r.scan && mode@ != MODE_AUDIT@),
        final(marks)@ == if r.scan {
            old(marks)@.insert(demand_mark(repo@, pkg@), (now + PENDING_MARK_TTL) as i128)
        } else {
            old(marks)@
        },
{
    let mut mark = cat(repo, "\u{0}");
    mark.append(pkg);
    if !mark_once(marks, mark.as_str(), now) {
        return Demand { scan: false, record: false, ask: false };
    }
    let audit = same(mode, MODE_AUDIT);
    Demand { scan: true, record: audit, ask: !audit }
}

/// Whether a request for a decision is recorded and announced: only where it is a new
/// one. `created` is what the store answered, where it did.
pub fn announces(created: Option<bool>) -> (r: bool)
    ensures
        r == (created == Some(true)),
{
    match created {
        Some(true) => true,
        _ => false,
    }
}

/// What becomes of an uploaded package.
#[derive(Debug, Clone, Copy, PartialEq, Eq, Structural)]
pub enum Quarantine {
    /// Nothing.
    Pass,
    /// It is recorded; audit mode never blocks and never asks.
    Record,
    /// A decision is asked for.
    Ask,
}

/// Applies the package-approval policy to an uploaded publication, so that it enters
/// the review queue at once instead of on its first download.
pub fn quarantine_uploaded_publication(cfg: &ApprovalConfig, pkg: &str, bypassed: bool) -> (r:
    Quarantine)
    ensures
        r == if pkg@.len() == 0 || !cfg.enabled || bypassed {
            Quarantine::Pass
        } else if mode_of(cfg.mode@) == MODE_AUDIT@ {
            Quarantine::Record
        } else {
            Quarantine::Ask
        },
{
    if pkg.unicode_len() == 0 || !cfg.enabled || bypassed {
        return Quarantine::Pass;
    }
    let mode = cfg.effective_mode();
    if same(mode.as_str(), MODE_AUDIT) {
        return Quarantine::Record;
    }
    Quarantine::Ask
}

// ---------------------------------------------------------------------------
// The deny list

/// What the deny list answers. `denied` is what the store says, where it can.
pub open spec fn deny_answer(
    kind: RepoType,
    method: Method,
    pkg: Seq<char>,
    version: Seq<char>,
    denied: Option<bool>,
) -> Option<Answer> {
    if !gated(kind, method) || pkg.len() == 0 || version.len() == 0 {
        None
    } else {
        match denied {
            None => Some(answer(SERVICE_UNAVAILABLE, "deny check failed"@)),
            Some(true) => Some(answer(FORBIDDEN, "version denied: "@ + pkg + "@"@ + version)),
            Some(false) => None,
        }
    }
}

/// Blocks requests for explicitly denied versions. It runs before any cache lookup or
/// upstream fetch, so denying a version cuts off cached copies too. Requests for
/// metadata name no version and pass. A lookup that fails closes the barrier.
pub fn version_deny_gate(
    kind: RepoType,
    method: Method,
    pkg: &str,
    version: &str,
    denied: Option<bool>,
) -> (r: Option<Reply>)
    ensures
        opt_answer(r) == deny_answer(kind, method, pkg@, version@, denied),
{
    if !is_gated(kind, method) || pkg.unicode_len() == 0 || version.unicode_len() == 0 {
        return None;
    }
    match denied {
        None => Some(http_error(SERVICE_UNAVAILABLE, "deny check failed")),
        Some(false) => None,
        Some(true) => {
            let mut message = cat("version denied: ", pkg);
            message.append("@");
            message.append(version);
            Some(http_error(FORBIDDEN, message.as_str()))
        },
    }
}

/// The mark under which a denied request is recorded.
pub fn deny_mark(repo: &str, pkg: &str, version: &str) -> (r: String)
    ensures
        r@ == "deny\u{0}"@ + repo@ + "\u{0}"@ + pkg@ + "\u{0}"@ + version@,
{
    let mut mark = cat("deny\u{0}", repo);
    mark.append("\u{0}");
    mark.append(pkg);
    mark.append("\u{0}");
    mark.append(version);
    mark
}

// ---------------------------------------------------------------------------
// Laws

/// The answer of the deny list and the approval gate together: the deny list comes
/// first.
pub open spec fn boundary_answer(deny: Option<Answer>, approval: Option<Answer>) -> Option<Answer> {
    match deny {
        Some(a) => Some(a),
        None => approval,
    }
}

/// A denied version is refused whatever the approval policy says: disabled, in audit
/// mode, or approved.
pub proof fn deny_overrides_approval(
    kind: RepoType,
    method: Method,
    pkg: Seq<char>,
    version: Seq<char>,
    approval: Option<Answer>,
)
    requires
        gated(kind, method),
        pkg.len() > 0,
        version.len() > 0,
    ensures
        boundary_answer(deny_answer(kind, method, pkg, version, Some(true)), approval) == Some(
            answer(FORBIDDEN, "version denied: "@ + pkg + "@"@ + version),
        ),
{
}

/// The approval gate never answers "not found": that would let a group or a client
/// fall back to another source.
pub proof fn blocks_are_never_not_found(
    kind: RepoType,
    method: Method,
    cfg: ApprovalConfig,
    pkg: Seq<char>,
    version: Seq<char>,
    bypassed: bool,
    status: ApprovalLookup,
    auto_approved: bool,
    denied: Option<bool>,
)
    ensures
        approval_outcome(kind, method, cfg, pkg, bypassed, status, auto_approved).0 matches Some(a)
            ==> a.status == FORBIDDEN || a.status == SERVICE_UNAVAILABLE,
        deny_answer(kind, method, pkg, version, denied) matches Some(a) ==> a.status == FORBIDDEN
            || a.status == SERVICE_UNAVAILABLE,
{
}

/// Audit mode blocks nothing.
pub proof fn audit_mode_serves(
    kind: RepoType,
    method: Method,
    cfg: ApprovalConfig,
    pkg: Seq<char>,
    bypassed: bool,
    status: ApprovalLookup,
    auto_approved: bool,
)
    requires
        cfg.mode@ == MODE_AUDIT@,
    ensures
        approval_outcome(kind, method, cfg, pkg, bypassed, status, auto_approved).0 is None,
{
    reveal_strlit("audit");
    reveal_strlit("enforce");
    assert(MODE_AUDIT@.len() == 5);
    assert(MODE_ENFORCE@.len() == 7);
}

/// A clean scan changes the outcome only where one is looked for.
pub proof fn clean_scans_count_only_where_sought(
    kind: RepoType,
    method: Method,
    cfg: ApprovalConfig,
    pkg: Seq<char>,
    bypassed: bool,
    status: ApprovalLookup,
)
    requires
        !(cfg.auto_approve_clean && approval_applies(kind, method, cfg, pkg, bypassed)
            && !is_approved(status) && !(status is Failed)),
    ensures
        approval_outcome(kind, method, cfg, pkg, bypassed, status, true) == approval_outcome(
            kind,
            method,
            cfg,
            pkg,
            bypassed,
            status,
            false,
        ),
{
}

/// In enforce mode nothing is served that is not approved: neither what waits, nor
/// what was rejected, nor what cannot be looked up.
pub proof fn enforce_mode_blocks_what_is_not_approved(
    kind: RepoType,
    method: Method,
    cfg: ApprovalConfig,
    pkg: Seq<char>,
    status: ApprovalLookup,
)
    requires
        approval_applies(kind, method, cfg, pkg, false),
        mode_of(cfg.mode@) == MODE_ENFORCE@,
        !is_approved(status),
    ensures
        approval_outcome(kind, method, cfg, pkg, false, status, false).0 is Some,
{
    reveal_strlit("audit");
    reveal_strlit("enforce");
    assert(MODE_AUDIT@.len() == 5);
    assert(MODE_ENFORCE@.len() == 7);
}

} // verus!
