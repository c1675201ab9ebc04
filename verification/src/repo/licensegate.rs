//! Gates a coordinate on its resolved SPDX license(s).

use vstd::prelude::*;
use vstd::string::StrSliceExecFns;

use crate::bridge::{lowercase, to_lowercase};
use crate::config::{LicenseConfig, ACTION_BLOCK, ACTION_WARN};
use crate::meta::RepoType;
use crate::repo::approvalgate::{gated, is_gated};
use crate::repo::licensescan::{deps_dev_system, system_of};
use crate::repo::reply::{
    answer, http_error, opt_answer, Answer, Method, Reply, FORBIDDEN,
};
use crate::text::{cat, opt_text, same, texts, trim, trimmed};

verus! {

/// The action that only records a violation.
pub const ACTION_AUDIT: &'static str = "audit";

// ---------------------------------------------------------------------------
// Violations

/// A list names a license, whatever the case and the white space around the name.
pub open spec fn listed(list: Seq<Seq<char>>, license: Seq<char>) -> bool {
    exists|i: int|
        0 <= i < list.len() && trimmed(#[trigger] list[i]).len() > 0 && lowercase(trimmed(list[i]))
            == lowercase(license)
}

fn is_listed(list: &Vec<String>, license: &str) -> (r: bool)
    ensures
        r == listed(texts(list@), license@),
{
    let low = to_lowercase(license);
    let mut i: usize = 0;
    while i < list.len()
        invariant
            i <= list@.len(),
            low@ == lowercase(license@),
            forall|j: int|
                0 <= j < i ==> !(trimmed(#[trigger] texts(list@)[j]).len() > 0 && lowercase(
                    trimmed(texts(list@)[j]),
                ) == low@),
        decreases list@.len() - i,
    {
        assert(texts(list@)[i as int] == list@[i as int]@);
        let t = trim(list[i].as_str());
        if t.as_str().unicode_len() != 0 {
            let l = to_lowercase(t.as_str());
            if same(l.as_str(), low.as_str()) {
                return true;
            }
        }
        i += 1;
    }
    false
}

/// The first of the licenses that the list names.
pub open spec fn first_listed(licenses: Seq<Seq<char>>, list: Seq<Seq<char>>) -> Option<Seq<char>>
    decreases licenses.len(),
{
    if licenses.len() == 0 {
        None
    } else {
        match first_listed(licenses.drop_last(), list) {
            Some(l) => Some(l),
            None => if listed(list, licenses.last()) {
                Some(licenses.last())
            } else {
                None
            },
        }
    }
}

/// The first of the licenses that the list does not name.
pub open spec fn first_unlisted(licenses: Seq<Seq<char>>, list: Seq<Seq<char>>) -> Option<Seq<char>>
    decreases licenses.len(),
{
    if licenses.len() == 0 {
        None
    } else {
        match first_unlisted(licenses.drop_last(), list) {
            Some(l) => Some(l),
            None => if !listed(list, licenses.last()) {
                Some(licenses.last())
            } else {
                None
            },
        }
    }
}

/// Why licenses violate the policy: one is denied, or one is outside a list of
/// allowed ones that names any.
pub open spec fn violation(
    licenses: Seq<Seq<char>>,
    deny: Seq<Seq<char>>,
    allow: Seq<Seq<char>>,
) -> Option<Seq<char>> {
    match first_listed(licenses, deny) {
        Some(l) => Some("denied license "@ + l),
        None => if allow.len() == 0 {
            None
        } else {
            match first_unlisted(licenses, allow) {
                Some(l) => Some("license "@ + l + " not in allow list"@),
                None => None,
            }
        },
    }
}

/// The place of the first license that is listed, or not listed, as `want` says.
fn find_license(licenses: &Vec<String>, list: &Vec<String>, want: bool) -> (r: Option<usize>)
    ensures
        match r {
            Some(i) => i < licenses@.len() && (if want {
                first_listed(texts(licenses@), texts(list@))
            } else {
                first_unlisted(texts(licenses@), texts(list@))
            }) == Some(licenses@[i as int]@),
            None => if want {
                first_listed(texts(licenses@), texts(list@)) is None
            } else {
                first_unlisted(texts(licenses@), texts(list@)) is None
            },
        },
{
    let ghost all = texts(licenses@);
    let ghost names = texts(list@);
    let mut i: usize = 0;
    assert(all.take(0) =~= Seq::empty());
    while i < licenses.len()
        invariant
            i <= licenses@.len(),
            all == texts(licenses@),
            names == texts(list@),
            want ==> first_listed(all.take(i as int), names) is None,
            !want ==> first_unlisted(all.take(i as int), names) is None,
        decreases licenses@.len() - i,
    {
        proof {
            assert(all.take(i + 1).drop_last() =~= all.take(i as int));
            assert(all.take(i + 1).last() == licenses@[i as int]@);
        }
        if is_listed(list, licenses[i].as_str()) == want {
            proof {
                lemma_first_stays(all, names, i + 1, licenses@[i as int]@);
            }
            return Some(i);
        }
        i += 1;
    }
    assert(all.take(all.len() as int) =~= all);
    None
}

proof fn lemma_first_stays(licenses: Seq<Seq<char>>, list: Seq<Seq<char>>, n: int, l: Seq<char>)
    requires
        0 <= n <= licenses.len(),
    ensures
        first_listed(licenses.take(n), list) == Some(l) ==> first_listed(licenses, list) == Some(l),
        first_unlisted(licenses.take(n), list) == Some(l) ==> first_unlisted(licenses, list) == Some(
            l,
        ),
    decreases licenses.len(),
{
    if n < licenses.len() {
        assert(licenses.drop_last().take(n) =~= licenses.take(n));
        lemma_first_stays(licenses.drop_last(), list, n, l);
    } else {
        assert(licenses.take(n) =~= licenses);
    }
}

/// Reports the reason why a coordinate's licenses violate the policy, or nothing when
/// they do not. A denied license always violates; where licenses are allowed by name,
/// any other violates. Without a resolved license nothing violates. Names are matched
/// without regard to case.
pub fn license_violation(licenses: &Vec<String>, deny: &Vec<String>, allow: &Vec<String>) -> (r:
    Option<String>)
    ensures
        opt_text(r) == violation(texts(licenses@), texts(deny@), texts(allow@)),
{
    if let Some(i) = find_license(licenses, deny, true) {
        return Some(cat("denied license ", licenses[i].as_str()));
    }
    assert(texts(allow@).len() == allow@.len());
    if allow.len() > 0 {
        if let Some(i) = find_license(licenses, allow, false) {
            let mut out = cat("license ", licenses[i].as_str());
            out.append(" not in allow list");
            return Some(out);
        }
    }
    None
}

// ---------------------------------------------------------------------------
// The barrier

/// What the store knows of the licenses of a coordinate.
pub enum LicenseLookup {
    Resolved(Vec<String>),
    /// The coordinate has not been resolved.
    NotFound,
    Failed,
}

/// What the license gate makes of a request.
pub struct LicenseOutcome {
    /// The request is blocked with this answer.
    pub reply: Option<Reply>,
    /// The coordinate is queued for resolution.
    pub enqueue: bool,
    /// Why the licenses violate the policy, where they do.
    pub reason: Option<String>,
}

/// The license policy looks at the request: licenses are resolved here, the policy is
/// enabled, and the coordinate is known to a license source.
pub open spec fn license_applies(
    resolver: bool,
    kind: RepoType,
    method: Method,
    format: Seq<char>,
    enabled: bool,
    pkg: Seq<char>,
    version: Seq<char>,
) -> bool {
    resolver && gated(kind, method) && enabled && pkg.len() > 0 && version.len() > 0 && system_of(
        format,
    ).len() > 0
}

/// The answer to a license that violates the policy.
pub open spec fn license_answer(
    reason: Seq<char>,
    pkg: Seq<char>,
    version: Seq<char>,
) -> Answer {
    answer(
        FORBIDDEN,
        "blocked: license policy ("@ + reason + ") for "@ + pkg + "@"@ + version,
    )
}

/// What the license gate answers to a coordinate of which the store knows `found`,
/// whether it queues the coordinate, and the violation it found.
pub open spec fn license_outcome(
    cfg: LicenseConfig,
    action: Seq<char>,
    pkg: Seq<char>,
    version: Seq<char>,
    found: LicenseLookup,
) -> (Option<Answer>, bool, Option<Seq<char>>) {
    match found {
        LicenseLookup::NotFound => if action == ACTION_BLOCK@ && cfg.block_unresolved {
            (Some(answer(FORBIDDEN, "package pending license resolution: "@ + pkg)), true, None)
        } else {
            (None, true, None)
        },
        LicenseLookup::Failed => (None, false, None),
        LicenseLookup::Resolved(licenses) => match violation(
            texts(licenses@),
            texts(cfg.deny@),
            texts(cfg.allow@),
        ) {
            None => (None, false, None),
            Some(reason) => if action == ACTION_AUDIT@ || action == ACTION_WARN@ {
                (None, false, Some(reason))
            } else {
                (Some(license_answer(reason, pkg, version)), false, Some(reason))
            },
        },
    }
}

/// Enforces the per-repository license policy. It consults stored results only: a
/// coordinate that is not resolved is queued and, unless the policy asks otherwise,
/// served meanwhile. `action` is the action in force.
pub fn license_gate(
    resolver: bool,
    kind: RepoType,
    method: Method,
    format: &str,
    cfg: &LicenseConfig,
    action: &str,
    pkg: &str,
    version: &str,
    found: &LicenseLookup,
) -> (r: LicenseOutcome)
    ensures
        (opt_answer(r.reply), r.enqueue, opt_text(r.reason)) == if license_applies(
            resolver,
            kind,
            method,
            format@,
            cfg.enabled,
            pkg@,
            version@,
        ) {
            license_outcome(*cfg, action@, pkg@, version@, *found)
        } else {
            (None, false, None)
        },
{
    let system = deps_dev_system(format);
    if !resolver || !is_gated(kind, method) || !cfg.enabled || pkg.unicode_len() == 0
        || version.unicode_len() == 0 || system.unicode_len() == 0 {
        return LicenseOutcome { reply: None, enqueue: false, reason: None };
    }
    match found {
        LicenseLookup::NotFound => {
            if same(action, ACTION_BLOCK) && cfg.block_unresolved {
                let message = cat("package pending license resolution: ", pkg);
                return LicenseOutcome {
                    reply: Some(http_error(FORBIDDEN, message.as_str())),
                    enqueue: true,
                    reason: None,
                };
            }
            LicenseOutcome { reply: None, enqueue: true, reason: None }
        },
        LicenseLookup::Failed => LicenseOutcome { reply: None, enqueue: false, reason: None },
        LicenseLookup::Resolved(licenses) => {
            match license_violation(licenses, &cfg.deny, &cfg.allow) {
                None => LicenseOutcome { reply: None, enqueue: false, reason: None },
                Some(reason) => {
                    if same(action, ACTION_AUDIT) || same(action, ACTION_WARN) {
                        return LicenseOutcome { reply: None, enqueue: false, reason: Some(reason) };
                    }
                    let mut message = cat("blocked: license policy (", reason.as_str());
                    message.append(") for ");
                    message.append(pkg);
                    message.append("@");
                    message.append(version);
                    LicenseOutcome {
                        reply: Some(http_error(FORBIDDEN, message.as_str())),
                        enqueue: false,
                        reason: Some(reason),
                    }
                },
            }
        },
    }
}

// ---------------------------------------------------------------------------
// Laws

/// Without a resolved license nothing violates the policy.
pub proof fn no_license_never_violates(deny: Seq<Seq<char>>, allow: Seq<Seq<char>>)
    ensures
        violation(Seq::empty(), deny, allow) is None,
{
}

/// A denied license violates the policy, whatever is allowed.
pub proof fn denied_always_violates(
    licenses: Seq<Seq<char>>,
    deny: Seq<Seq<char>>,
    allow: Seq<Seq<char>>,
    i: int,
)
    requires
        0 <= i < licenses.len(),
        listed(deny, licenses[i]),
    ensures
        violation(licenses, deny, allow) is Some,
    decreases licenses.len(),
{
    lemma_found(licenses, deny, i);
}

proof fn lemma_found(licenses: Seq<Seq<char>>, list: Seq<Seq<char>>, i: int)
    requires
        0 <= i < licenses.len(),
    ensures
        listed(list, licenses[i]) ==> first_listed(licenses, list) is Some,
        !listed(list, licenses[i]) ==> first_unlisted(licenses, list) is Some,
    decreases licenses.len(),
{
    if i < licenses.len() - 1 {
        lemma_found(licenses.drop_last(), list, i);
    }
}

proof fn lemma_first_is_one(licenses: Seq<Seq<char>>, list: Seq<Seq<char>>)
    ensures
        first_listed(licenses, list) matches Some(l) ==> exists|i: int|
            0 <= i < licenses.len() && #[trigger] licenses[i] == l && listed(list, l),
        first_unlisted(licenses, list) matches Some(l) ==> exists|i: int|
            0 <= i < licenses.len() && #[trigger] licenses[i] == l && !listed(list, l),
    decreases licenses.len(),
{
    if licenses.len() > 0 {
        let front = licenses.drop_last();
        lemma_first_is_one(front, list);
        if let Some(l) = first_listed(front, list) {
            let i = choose|i: int|
                0 <= i < front.len() && #[trigger] front[i] == l && listed(list, l);
            assert(licenses[i] == l);
        } else if listed(list, licenses.last()) {
            assert(licenses[licenses.len() - 1] == licenses.last());
        }
        if let Some(l) = first_unlisted(front, list) {
            let i = choose|i: int|
                0 <= i < front.len() && #[trigger] front[i] == l && !listed(list, l);
            assert(licenses[i] == l);
        } else if !listed(list, licenses.last()) {
            assert(licenses[licenses.len() - 1] == licenses.last());
        }
    }
}

/// Licenses pass exactly where none is denied and, if any is allowed by name, each of
/// them is.
pub proof fn passing_licenses(
    licenses: Seq<Seq<char>>,
    deny: Seq<Seq<char>>,
    allow: Seq<Seq<char>>,
)
    ensures
        violation(licenses, deny, allow) is None <==> {
            &&& forall|i: int| 0 <= i < licenses.len() ==> !listed(deny, #[trigger] licenses[i])
            &&& allow.len() > 0 ==> forall|i: int|
                0 <= i < licenses.len() ==> listed(allow, #[trigger] licenses[i])
        },
{
    lemma_first_is_one(licenses, deny);
    lemma_first_is_one(licenses, allow);
    if violation(licenses, deny, allow) is None {
        assert forall|i: int| 0 <= i < licenses.len() implies !listed(deny, #[trigger] licenses[i]) by {
            lemma_found(licenses, deny, i);
        }
        if allow.len() > 0 {
            assert forall|i: int| 0 <= i < licenses.len() implies listed(
                allow,
                #[trigger] licenses[i],
            ) by {
                lemma_found(licenses, allow, i);
            }
        }
    }
}

} // verus!
