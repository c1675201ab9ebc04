//! What the policies let through and what they refuse, in plain words and numbers.

use vstd::prelude::*;

use crate::bridge::lowercase;
use crate::config::{ApprovalConfig, LicenseConfig};
use crate::meta::RepoType;
use crate::repo::approvalgate::{
    announces, approval_gate, auto_approve_if_clean, demand_mark, deny_mark, is_gated, mark_once,
    note_demand, quarantine_uploaded_publication, tries_auto_approval, version_deny_gate,
    ApprovalLookup, ApprovalOutcome, Demand, Quarantine, PENDING_MARK_TTL,
};
use crate::repo::cargo::cargo_package_of;
use crate::repo::gomod::go_package_of;
use crate::repo::group::{
    group_message, group_refusal, member_problem, members_ok, serving_repo_name,
    validate_group_members, GroupError, MemberLookup,
};
use crate::repo::licensegate::{
    license_gate, license_violation, listed, violation, LicenseLookup, LicenseOutcome,
};
use crate::repo::licensescan::{
    coordinate_key, format_package, next_offset, page_count, queue_mark, queues, resolve_label,
    resolve_stored, system_of, unresolved, Coordinate, ResolveJob, ScanTarget,
};
use crate::repo::maven::maven_package_of;
use crate::repo::negcache::{live, NegCache};
use crate::repo::npm::package_of;
use crate::repo::reply::{Method, Reply};
use crate::text::{texts, trimmed};

verus! {

// ---------------------------------------------------------------------------
// Approval

/// The policies look at reads of proxies and hosted repositories.
pub proof fn reads_of_repositories_are_gated(kind: RepoType, method: Method, r: bool)
    requires
        call_ensures(is_gated, (kind, method), r),
    ensures
        r <==> (kind == RepoType::Proxy || kind == RepoType::Hosted) && (method == Method::Get
            || method == Method::Head),
{
}

/// A read of a package under an enforced approval policy is refused, as forbidden, until
/// the package is approved, and its demand is recorded; in audit mode it is served and its
/// demand is recorded. A decision that cannot be looked up closes an enforced policy. What
/// the policy does not look at is served, and leaves no trace.
pub proof fn approval_decides_what_is_served(
    kind: RepoType,
    method: Method,
    cfg: &ApprovalConfig,
    pkg: &str,
    bypassed: bool,
    status: &ApprovalLookup,
    auto_approved: bool,
    r: ApprovalOutcome,
)
    requires
        call_ensures(
            approval_gate,
            (kind, method, cfg, pkg, bypassed, status, auto_approved),
            r,
        ),
    ensures
        ({
            let looked_at = (kind == RepoType::Proxy || kind == RepoType::Hosted) && (method
                == Method::Get || method == Method::Head) && cfg.enabled && pkg@.len() > 0
                && !bypassed;
            let approved = match *status {
                ApprovalLookup::Status(s) => s@ == "approved"@,
                _ => false,
            };
            let enforced = cfg.mode@.len() == 0 || cfg.mode@ == "enforce"@;
            let audited = cfg.mode@ == "audit"@;
            let scanned = cfg.auto_approve_clean && auto_approved;
            &&& !looked_at || approved ==> r.reply is None && !r.demand
            &&& looked_at && *status is Failed ==> !r.demand && (r.reply is Some <==> enforced)
            &&& looked_at && *status is Failed && enforced ==> r.reply->0.status == 503
                && r.reply->0.message@ == "approval check failed"@
            &&& looked_at && !approved && !(*status is Failed) && scanned ==> r.reply is None
                && !r.demand
            &&& looked_at && !approved && !(*status is Failed) && !scanned ==> r.demand
            &&& looked_at && !approved && !(*status is Failed) && !scanned && audited
                ==> r.reply is None
            &&& looked_at && !approved && !(*status is Failed) && !scanned && !audited
                ==> r.reply is Some && r.reply->0.status == 403 && r.reply->0.message@
                == "package pending approval: "@ + pkg@
        }),
{
    reveal_strlit("enforce");
    reveal_strlit("audit");
    assert("enforce"@.len() == 7 && "audit"@.len() == 5);
}

/// A clean scan approves a package where there is a scanner for its kind, the scan found
/// nothing, and the decision was kept; it is sought only for what waits under a policy that
/// wants it.
pub proof fn clean_scans_approve(
    scanner: bool,
    ecosystem: &str,
    clean: Option<bool>,
    stored: bool,
    r: bool,
    kind: RepoType,
    method: Method,
    cfg: &ApprovalConfig,
    pkg: &str,
    bypassed: bool,
    status: &ApprovalLookup,
    tries: bool,
)
    requires
        call_ensures(auto_approve_if_clean, (scanner, ecosystem, clean, stored), r),
        call_ensures(tries_auto_approval, (kind, method, cfg, pkg, bypassed, status), tries),
    ensures
        r <==> scanner && ecosystem@.len() > 0 && clean == Some(true) && stored,
        tries ==> cfg.auto_approve_clean && cfg.enabled && pkg@.len() > 0 && !bypassed && !(
        *status is Failed),
        tries ==> match *status {
            ApprovalLookup::Status(s) => s@ != "approved"@,
            _ => true,
        },
        (kind == RepoType::Proxy || kind == RepoType::Hosted) && (method == Method::Get || method
            == Method::Head) && cfg.auto_approve_clean && cfg.enabled && pkg@.len() > 0 && !bypassed
            && *status is NotFound ==> tries,
{
}

/// A demand is announced only where it is new; an upload enters the queue at once where the
/// policy enforces, and is only recorded where it audits.
pub proof fn new_demands_are_announced(
    created: Option<bool>,
    r: bool,
    cfg: &ApprovalConfig,
    pkg: &str,
    bypassed: bool,
    q: Quarantine,
)
    requires
        call_ensures(announces, (created,), r),
        call_ensures(quarantine_uploaded_publication, (cfg, pkg, bypassed), q),
    ensures
        r <==> created == Some(true),
        q == Quarantine::Pass <==> !cfg.enabled || bypassed || pkg@.len() == 0,
        q == Quarantine::Record <==> cfg.enabled && !bypassed && pkg@.len() > 0 && cfg.mode@
            == "audit"@,
        q == Quarantine::Ask <==> cfg.enabled && !bypassed && pkg@.len() > 0 && cfg.mode@
            != "audit"@,
{
    reveal_strlit("enforce");
    reveal_strlit("audit");
    assert("enforce"@.len() == 7 && "audit"@.len() == 5);
}

/// Demands are recorded at most once a minute for each package of each repository.
pub proof fn demands_are_marked_for_a_minute(
    repo: Seq<char>,
    pkg: Seq<char>,
    other: Seq<char>,
)
    ensures
        PENDING_MARK_TTL == 60 * 1_000_000_000,
        pkg != other ==> demand_mark(repo, pkg) != demand_mark(repo, other),
{
    let n = (repo + "\u{0}"@).len() as int;
    assert(demand_mark(repo, pkg).skip(n) =~= pkg);
    assert(demand_mark(repo, other).skip(n) =~= other);
}

/// A denied version is refused, as forbidden and by its name; where the deny list cannot be
/// asked nothing passes; a request that names no version is not looked at.
pub proof fn denied_versions_are_refused(
    kind: RepoType,
    method: Method,
    pkg: &str,
    version: &str,
    denied: Option<bool>,
    r: Option<Reply>,
)
    requires
        call_ensures(version_deny_gate, (kind, method, pkg, version, denied), r),
    ensures
        ({
            let looked_at = (kind == RepoType::Proxy || kind == RepoType::Hosted) && (method
                == Method::Get || method == Method::Head) && pkg@.len() > 0 && version@.len() > 0;
            &&& r is Some <==> looked_at && denied != Some(false)
            &&& r is Some && denied == Some(true) ==> r->0.status == 403 && r->0.message@
                == "version denied: "@ + pkg@ + "@"@ + version@
            &&& r is Some && denied is None ==> r->0.status == 503 && r->0.message@
                == "deny check failed"@
        }),
{
}

/// A refusal by the deny list is marked for its version alone.
pub proof fn refusals_are_marked(repo: &str, pkg: &str, version: &str, r: String)
    requires
        call_ensures(deny_mark, (repo, pkg, version), r),
    ensures
        r@ == "deny\u{0}"@ + repo@ + "\u{0}"@ + pkg@ + "\u{0}"@ + version@,
{
}

// ---------------------------------------------------------------------------
// Licenses

/// A list names a license whatever its case and the white space around it; an empty entry
/// names none.
pub proof fn lists_name_licenses(list: Seq<Seq<char>>, license: Seq<char>, i: int)
    requires
        0 <= i < list.len(),
    ensures
        trimmed(list[i]).len() > 0 && lowercase(trimmed(list[i])) == lowercase(license) ==> listed(
            list,
            license,
        ),
        !listed(Seq::empty(), license),
        (forall|j: int|
            0 <= j < list.len() ==> trimmed(#[trigger] list[j]).len() == 0 || lowercase(
                trimmed(list[j]),
            ) != lowercase(license)) ==> !listed(list, license),
{
}

/// A coordinate violates the policy exactly where one of its licenses is denied, or where
/// some licenses are allowed and one of its own is not among them; a denied one is named
/// first.
pub proof fn violations_are_denied_or_not_allowed(
    licenses: Seq<Seq<char>>,
    deny: Seq<Seq<char>>,
    allow: Seq<Seq<char>>,
)
    ensures
        violation(licenses, deny, allow) is Some <==> (exists|i: int|
            0 <= i < licenses.len() && listed(deny, #[trigger] licenses[i])) || (allow.len() > 0
            && exists|i: int| 0 <= i < licenses.len() && !listed(allow, #[trigger] licenses[i])),
        (exists|i: int| 0 <= i < licenses.len() && listed(deny, #[trigger] licenses[i]))
            ==> exists|i: int|
            0 <= i < licenses.len() && listed(deny, #[trigger] licenses[i]) && violation(
                licenses,
                deny,
                allow,
            ) == Some("denied license "@ + licenses[i]),
        !(exists|i: int| 0 <= i < licenses.len() && listed(deny, #[trigger] licenses[i]))
            && violation(licenses, deny, allow) is Some ==> exists|i: int|
            0 <= i < licenses.len() && !listed(allow, #[trigger] licenses[i]) && violation(
                licenses,
                deny,
                allow,
            ) == Some("license "@ + licenses[i] + " not in allow list"@),
{
    lemma_first(licenses, deny);
    lemma_first(licenses, allow);
}

proof fn lemma_first(licenses: Seq<Seq<char>>, list: Seq<Seq<char>>)
    ensures
        crate::repo::licensegate::first_listed(licenses, list) is Some <==> exists|i: int|
            0 <= i < licenses.len() && listed(list, #[trigger] licenses[i]),
        crate::repo::licensegate::first_listed(licenses, list) is Some ==> exists|i: int|
            0 <= i < licenses.len() && listed(list, #[trigger] licenses[i]) && licenses[i]
                == crate::repo::licensegate::first_listed(licenses, list)->0,
        crate::repo::licensegate::first_unlisted(licenses, list) is Some <==> exists|i: int|
            0 <= i < licenses.len() && !listed(list, #[trigger] licenses[i]),
        crate::repo::licensegate::first_unlisted(licenses, list) is Some ==> exists|i: int|
            0 <= i < licenses.len() && !listed(list, #[trigger] licenses[i]) && licenses[i]
                == crate::repo::licensegate::first_unlisted(licenses, list)->0,
    decreases licenses.len(),
{
    if licenses.len() > 0 {
        let init = licenses.drop_last();
        lemma_first(init, list);
        assert forall|i: int| 0 <= i < init.len() implies #[trigger] init[i] == licenses[i] by {}
        assert(licenses[licenses.len() - 1] == licenses.last());
        if exists|i: int| 0 <= i < licenses.len() && listed(list, #[trigger] licenses[i]) {
            let i = choose|i: int| 0 <= i < licenses.len() && listed(list, #[trigger] licenses[i]);
            if i < init.len() {
                assert(listed(list, init[i]));
            }
        }
        if exists|i: int| 0 <= i < licenses.len() && !listed(list, #[trigger] licenses[i]) {
            let i = choose|i: int|
                0 <= i < licenses.len() && !listed(list, #[trigger] licenses[i]);
            if i < init.len() {
                assert(!listed(list, init[i]));
            }
        }
        if exists|i: int| 0 <= i < init.len() && listed(list, #[trigger] init[i]) {
            let l = crate::repo::licensegate::first_listed(init, list)->0;
            let i = choose|i: int|
                0 <= i < init.len() && listed(list, #[trigger] init[i]) && init[i] == l;
            assert(licenses[i] == l);
        }
        if exists|i: int| 0 <= i < init.len() && !listed(list, #[trigger] init[i]) {
            let l = crate::repo::licensegate::first_unlisted(init, list)->0;
            let i = choose|i: int|
                0 <= i < init.len() && !listed(list, #[trigger] init[i]) && init[i] == l;
            assert(licenses[i] == l);
        }
    }
}

/// A violation is refused, as forbidden and with its reason, unless the action is to warn
/// or to audit; a coordinate that is not resolved is queued, and refused only where the
/// policy blocks and says so; a lookup that fails lets it pass.
pub proof fn licenses_decide_what_is_served(
    resolver: bool,
    kind: RepoType,
    method: Method,
    format: &str,
    cfg: &LicenseConfig,
    action: &str,
    pkg: &str,
    version: &str,
    found: &LicenseLookup,
    r: LicenseOutcome,
)
    requires
        call_ensures(
            license_gate,
            (resolver, kind, method, format, cfg, action, pkg, version, found),
            r,
        ),
    ensures
        ({
            let looked_at = resolver && (kind == RepoType::Proxy || kind == RepoType::Hosted) && (
            method == Method::Get || method == Method::Head) && cfg.enabled && pkg@.len() > 0
                && version@.len() > 0 && system_of(format@).len() > 0;
            let wrong = match *found {
                LicenseLookup::Resolved(l) => violation(texts(l@), texts(cfg.deny@), texts(cfg.allow@)),
                _ => None,
            };
            let lenient = action@ == "audit"@ || action@ == "warn"@;
            &&& !looked_at ==> r.reply is None && !r.enqueue && r.reason is None
            &&& looked_at ==> (r.enqueue <==> *found is NotFound)
            &&& looked_at && *found is NotFound ==> (r.reply is Some <==> action@ == "block"@
                && cfg.block_unresolved)
            &&& looked_at && *found is NotFound && r.reply is Some ==> r.reply->0.status == 403
                && r.reply->0.message@ == "package pending license resolution: "@ + pkg@
            &&& looked_at && *found is Failed ==> r.reply is None
            &&& looked_at && *found is Resolved ==> (r.reply is Some <==> wrong is Some && !lenient)
            &&& looked_at && *found is Resolved && r.reply is Some ==> r.reply->0.status == 403
                && r.reply->0.message@ == "blocked: license policy ("@ + wrong->0 + ") for "@ + pkg@
                + "@"@ + version@
            &&& looked_at && *found is Resolved ==> crate::text::opt_text(r.reason) == wrong
        }),
{
}

/// Each format that the license source knows goes under its own name there; images do not.
pub proof fn formats_have_license_systems()
    ensures
        system_of("maven"@) == "maven"@,
        system_of("npm"@) == "npm"@,
        system_of("cargo"@) == "cargo"@,
        system_of("go"@) == "go"@,
        system_of("pypi"@) == "pypi"@,
        system_of("oci"@).len() == 0,
{
    reveal_strlit("maven");
    reveal_strlit("npm");
    reveal_strlit("cargo");
    reveal_strlit("go");
    reveal_strlit("pypi");
    reveal_strlit("oci");
    reveal_strlit("");
    assert("maven"@.len() == 5 && "npm"@.len() == 3 && "cargo"@.len() == 5 && "go"@.len() == 2
        && "pypi"@.len() == 4 && "oci"@.len() == 3);
    assert("maven"@[0] == 'm' && "cargo"@[0] == 'c' && "npm"@[0] == 'n' && "oci"@[0] == 'o');
}

/// A path is joined to its licenses by the package that its format reads out of it.
pub proof fn coordinates_are_read_by_format(path: Seq<char>)
    ensures
        format_package("maven"@, path) == maven_package_of(path),
        format_package("npm"@, path) == package_of(path),
        format_package("cargo"@, path) == cargo_package_of(path),
        format_package("go"@, path) == go_package_of(path),
        format_package("oci"@, path).len() == 0,
{
    formats_have_license_systems();
    reveal_strlit("maven");
    reveal_strlit("npm");
    reveal_strlit("cargo");
    reveal_strlit("go");
    reveal_strlit("pypi");
    reveal_strlit("oci");
    reveal_strlit("");
    assert("maven"@.len() == 5 && "npm"@.len() == 3 && "cargo"@.len() == 5 && "go"@.len() == 2
        && "pypi"@.len() == 4 && "oci"@.len() == 3);
    assert("maven"@[0] == 'm' && "cargo"@[0] == 'c' && "npm"@[0] == 'n' && "oci"@[0] == 'o');
}

/// A coordinate is queued where there is a license source and all of it is known, and it
/// was not queued in the last minute.
pub proof fn known_coordinates_are_queued(
    marks: Map<Seq<char>, i128>,
    resolver: bool,
    c: Coordinate,
    now: i128,
)
    ensures
        queues(marks, resolver, c, now) <==> resolver && c.system.len() > 0 && c.package.len() > 0
            && c.version.len() > 0 && !live(marks, queue_mark(c), now as int),
        queue_mark(c) == "license\u{0}"@ + c.system + "\u{0}"@ + c.package + "\u{0}"@ + c.version,
        coordinate_key(c) == c.system + "\u{0}"@ + c.package + "\u{0}"@ + c.version,
{
}

/// The backfill takes what has a package and no result yet.
pub proof fn the_backfill_takes_what_is_unresolved(t: ScanTarget, resolved: Seq<Seq<char>>)
    ensures
        unresolved(t, resolved) <==> format_package(t.format@, t.path@).len() > 0
            && !resolved.contains(
            system_of(t.format@) + "\u{0}"@ + format_package(t.format@, t.path@) + "\u{0}"@
                + t.version@,
        ),
{
}

/// A resolution counts by what it found, and only behind a full page is there another.
pub proof fn resolutions_are_counted(
    licenses: Option<usize>,
    label: &'static str,
    offset: i64,
    len: usize,
    batch: i64,
    next: Option<i64>,
)
    requires
        call_ensures(resolve_label, (licenses,), label),
        call_ensures(next_offset, (offset, len, batch), next),
        0 <= offset,
        0 < batch,
        offset + batch <= i64::MAX,
    ensures
        licenses is None ==> label@ == "error"@,
        licenses == Some(0usize) ==> label@ == "unknown"@,
        licenses is Some && licenses->0 > 0 ==> label@ == "resolved"@,
        len < batch ==> next is None,
        len >= batch ==> next == Some((offset + batch) as i64),
{
}

// ---------------------------------------------------------------------------
// Groups

/// A group is read-only, and answers for its own broken configuration.
pub proof fn groups_are_read_only(method: Method, config_ok: bool, r: Option<Reply>)
    requires
        call_ensures(group_refusal, (method, config_ok), r),
    ensures
        method != Method::Get && method != Method::Head ==> r is Some && r->0.status == 405
            && r->0.message@ == "group repositories are read-only"@,
        (method == Method::Get || method == Method::Head) && !config_ok ==> r is Some
            && r->0.status == 500 && r->0.message@ == "invalid repository config"@,
        (method == Method::Get || method == Method::Head) && config_ok ==> r is None,
{
}

/// Links lead back through the group that was asked, and else to the repository itself.
pub proof fn links_lead_back_through_the_group(group: Option<&str>, own: &str, r: String)
    requires
        call_ensures(serving_repo_name, (group, own), r),
    ensures
        group is Some && group->0@.len() > 0 ==> r@ == group->0@,
        group is None || group->0@.len() == 0 ==> r@ == own@,
{
}

/// A member is asked for the same path under its own name, with the same query.
pub proof fn members_are_asked_for_the_same_path(
    format: Seq<char>,
    group: Seq<char>,
    rest: Seq<Seq<char>>,
    member: Seq<char>,
)
    requires
        !format.contains('/'),
        !group.contains('/'),
        forall|i: int| 0 <= i < rest.len() ==> !(#[trigger] rest[i]).contains('/'),
    ensures
        crate::repo::group_metadata::with_repo(
            crate::text::join(seq![Seq::<char>::empty(), format, group] + rest, "/"@),
            member,
        ) == crate::text::join(seq![Seq::<char>::empty(), format, member] + rest, "/"@),
{
    reveal_strlit("/");
    assert("/"@ =~= seq!['/']);
    let parts = seq![Seq::<char>::empty(), format, group] + rest;
    assert forall|i: int| 0 <= i < parts.len() implies !(#[trigger] parts[i]).contains('/') by {
        if i >= 3 {
            assert(parts[i] == rest[i - 3]);
        }
    }
    crate::repo::path_laws::lemma_join_splits(parts, '/');
    assert(parts.update(2, member) =~= seq![Seq::<char>::empty(), format, member] + rest);
}

/// A group takes members that exist, are of its format, are no groups and occur once, at
/// least one of them; the first that is not so is named, with what is wrong with it.
pub proof fn members_are_checked(
    format: &str,
    members: &Vec<String>,
    found: &Vec<MemberLookup>,
    r: Result<(), GroupError>,
)
    requires
        call_ensures(validate_group_members, (format, members, found), r),
        found@.len() == members@.len(),
    ensures
        members@.len() == 0 ==> r is Err && r->Err_0 is Empty,
        r is Ok ==> members@.len() > 0 && texts(members@).no_duplicates() && forall|i: int|
            0 <= i < found@.len() ==> match #[trigger] found@[i] {
                MemberLookup::Found { format: f, kind } => f@ == format@ && kind
                    != RepoType::Group,
                _ => false,
            },
        members@.len() > 0 && r is Err ==> !(r->Err_0 is Empty),
{
    if r is Ok {
        crate::repo::group::valid_members_are_distinct(format@, texts(members@), found@);
    }
}

/// What is wrong with a member is said in words that name it.
pub proof fn member_problems_name_the_member(name: String)
    ensures
        group_message(GroupError::Duplicate(name)) == "duplicate group member: "@ + name@,
        group_message(GroupError::NotFound(name)) == "group member not found: "@ + name@,
        group_message(GroupError::FormatMismatch(name)) == "group member format mismatch: "@
            + name@,
        group_message(GroupError::Nested(name)) == "nested group repositories are not allowed: "@
            + name@,
        group_message(GroupError::Empty) == "group repository requires at least one member"@,
{
}

/// A group whose members are all fine is taken.
pub proof fn good_members_are_taken(
    format: &str,
    members: &Vec<String>,
    found: &Vec<MemberLookup>,
    r: Result<(), GroupError>,
)
    requires
        call_ensures(validate_group_members, (format, members, found), r),
        found@.len() == members@.len(),
        members@.len() > 0,
        texts(members@).no_duplicates(),
        forall|i: int|
            0 <= i < found@.len() ==> match #[trigger] found@[i] {
                MemberLookup::Found { format: f, kind } => f@ == format@ && kind != RepoType::Group,
                _ => false,
            },
    ensures
        r is Ok,
{
    if r is Err {
        let names = texts(members@);
        let i = choose|i: int|
            #![trigger texts(members@)[i]]
            {
                &&& 0 <= i < members@.len()
                &&& members_ok(format@, names, found@, i)
                &&& member_problem(format@, names.take(i), texts(members@)[i], found@[i], r->Err_0)
            };
        assert(!names.take(i).contains(names[i])) by {
            if names.take(i).contains(names[i]) {
                let j = choose|j: int| 0 <= j < i && names.take(i)[j] == names[i];
                assert(names[j] == names[i]);
            }
        }
        assert(match found@[i] {
            MemberLookup::Found { format: f, kind } => f@ == format@ && kind != RepoType::Group,
            _ => false,
        });
    }
}

/// The first member that is wrong is named with what is wrong with it: that it occurs
/// before, is not there, is of another format, or is a group itself.
pub proof fn the_first_bad_member_is_named(
    format: &str,
    members: &Vec<String>,
    found: &Vec<MemberLookup>,
    r: Result<(), GroupError>,
)
    requires
        call_ensures(validate_group_members, (format, members, found), r),
        found@.len() == members@.len(),
        members@.len() > 0,
    ensures
        found@[0] is NotFound ==> r is Err && r->Err_0 is NotFound,
        found@[0] is Failed ==> r is Err && r->Err_0 is Store,
        found@[0] is Found && found@[0]->format@ != format@ ==> r is Err
            && r->Err_0 is FormatMismatch,
        found@[0] is Found && found@[0]->format@ == format@ && found@[0]->kind == RepoType::Group
            ==> r is Err && r->Err_0 is Nested,
        members@.len() > 1 && members@[1]@ == members@[0]@ && found@[0] is Found
            && found@[0]->format@ == format@ && found@[0]->kind != RepoType::Group ==> r is Err
            && r->Err_0 is Duplicate,
{
    let names = texts(members@);
    assert(names.take(0) =~= Seq::empty());
    assert(names[0] == members@[0]@);
    if r is Ok {
        crate::repo::group::valid_members_are_distinct(format@, names, found@);
        assert(crate::repo::group::plain_member(format@, found@[0]));
        if members@.len() > 1 {
            assert(names[1] == members@[1]@);
        }
    } else {
        let i = choose|i: int|
            #![trigger texts(members@)[i]]
            {
                &&& 0 <= i < members@.len()
                &&& members_ok(format@, names, found@, i)
                &&& member_problem(format@, names.take(i), texts(members@)[i], found@[i], r->Err_0)
            };
        if i > 0 {
            assert(crate::repo::group::member_ok(format@, names.take(0), names[0], found@[0]));
        }
        if members@.len() > 1 && names[1] == names[0] {
            assert(names[1] == members@[1]@);
            assert(names.take(1)[0] == names[0]);
            assert(names.take(1).contains(names[1]));
            if i > 1 {
                assert(crate::repo::group::member_ok(format@, names.take(1), names[1], found@[1]));
            }
        }
    }
}

// ---------------------------------------------------------------------------
// Marks

/// What is marked once is not marked again for a minute.
pub proof fn marks_last_a_minute(marks: &mut NegCache, key: &str, now: i128, r: bool)
    requires
        call_ensures(mark_once, (marks, key, now), r),
    ensures
        r <==> !(old(marks)@.contains_key(key@) && now <= old(marks)@[key@]),
        r ==> final(marks)@ == old(marks)@.insert(key@, (now + 60 * 1_000_000_000) as i128),
        !r ==> final(marks)@ == old(marks)@,
{
}

/// A demand is looked into once a minute: it is scanned, and recorded or put to a decision
/// by the mode.
pub proof fn demands_are_looked_into(
    marks: &mut NegCache,
    repo: &str,
    pkg: &str,
    mode: &str,
    now: i128,
    r: Demand,
)
    requires
        call_ensures(note_demand, (marks, repo, pkg, mode, now), r),
    ensures
        ({
            let key = repo@ + "\u{0}"@ + pkg@;
            let fresh = !(old(marks)@.contains_key(key) && now <= old(marks)@[key]);
            &&& r.scan <==> fresh
            &&& r.record <==> fresh && mode@ == "audit"@
            &&& r.ask <==> fresh && mode@ != "audit"@
            &&& fresh ==> final(marks)@ == old(marks)@.insert(
                key,
                (now + 60 * 1_000_000_000) as i128,
            )
            &&& !fresh ==> final(marks)@ == old(marks)@
        }),
{
}

/// A stored artifact is resolved by the system and package of its format, once a minute.
pub proof fn stored_artifacts_are_resolved(
    marks: &mut NegCache,
    resolver: bool,
    format: &str,
    path: &str,
    version: &str,
    now: i128,
    r: Option<ResolveJob>,
)
    requires
        call_ensures(resolve_stored, (marks, resolver, format, path, version, now), r),
    ensures
        r is Some ==> resolver && r->0.system@ == system_of(format@) && r->0.package@
            == format_package(format@, path@) && r->0.version@ == version@,
        !resolver ==> r is None,
        system_of(format@).len() == 0 || format_package(format@, path@).len() == 0 || version@.len()
            == 0 ==> r is None,
        resolver && system_of(format@).len() > 0 && format_package(format@, path@).len() > 0
            && version@.len() > 0 && old(marks)@ == Map::<Seq<char>, i128>::empty() ==> r is Some,
        r is None ==> final(marks)@ == old(marks)@,
{
    if r is Some {
        let j = r->0;
        assert(j@.system == j.system@ && j@.package == j.package@ && j@.version == j.version@);
    }
}

/// Each unresolved artifact of a page counts, and what is queued of them is unresolved.
pub proof fn pages_count_what_is_unresolved(
    resolved: Seq<Seq<char>>,
    targets: Seq<ScanTarget>,
    t: ScanTarget,
)
    ensures
        page_count(resolved, Seq::empty()) == 0,
        unresolved(t, resolved) ==> page_count(resolved, targets.push(t)) == page_count(
            resolved,
            targets,
        ) + 1,
        !unresolved(t, resolved) ==> page_count(resolved, targets.push(t)) == page_count(
            resolved,
            targets,
        ),
{
    assert(targets.push(t).drop_last() =~= targets);
}

/// What a violation is called is what it is.
pub proof fn violations_are_reported(
    licenses: &Vec<String>,
    deny: &Vec<String>,
    allow: &Vec<String>,
    r: Option<String>,
)
    requires
        call_ensures(license_violation, (licenses, deny, allow), r),
    ensures
        r is Some <==> violation(texts(licenses@), texts(deny@), texts(allow@)) is Some,
        r is Some ==> Some(r->0@) == violation(texts(licenses@), texts(deny@), texts(allow@)),
        licenses@.len() == 0 ==> r is None,
        deny@.len() == 0 && allow@.len() == 0 ==> r is None,
{
    if licenses@.len() == 0 {
        assert(texts(licenses@) =~= Seq::empty());
        crate::repo::licensegate::no_license_never_violates(texts(deny@), texts(allow@));
    }
    if deny@.len() == 0 && allow@.len() == 0 {
        assert(texts(deny@) =~= Seq::empty());
        assert(texts(allow@) =~= Seq::empty());
        violations_are_denied_or_not_allowed(texts(licenses@), texts(deny@), texts(allow@));
    }
}

proof fn lemma_first_at(licenses: Seq<Seq<char>>, list: Seq<Seq<char>>, i: int, named: bool)
    requires
        0 <= i < licenses.len(),
        listed(list, licenses[i]) == named,
        forall|j: int| 0 <= j < i ==> listed(list, #[trigger] licenses[j]) != named,
    ensures
        named ==> crate::repo::licensegate::first_listed(licenses, list) == Some(licenses[i]),
        !named ==> crate::repo::licensegate::first_unlisted(licenses, list) == Some(licenses[i]),
    decreases licenses.len(),
{
    let init = licenses.drop_last();
    if i < init.len() {
        assert forall|j: int| 0 <= j < i implies listed(list, #[trigger] init[j]) != named by {
            assert(init[j] == licenses[j]);
        }
        assert(init[i] == licenses[i]);
        lemma_first_at(init, list, i, named);
    } else {
        lemma_first(init, list);
        assert forall|j: int| 0 <= j < init.len() implies listed(list, #[trigger] init[j])
            != named by {
            assert(init[j] == licenses[j]);
        }
    }
}

/// The first license that is denied is named; where none is, the first that is not among
/// the allowed.
pub proof fn the_first_violation_is_named(
    licenses: Seq<Seq<char>>,
    deny: Seq<Seq<char>>,
    allow: Seq<Seq<char>>,
    i: int,
)
    requires
        0 <= i < licenses.len(),
    ensures
        listed(deny, licenses[i]) && (forall|j: int|
            0 <= j < i ==> !listed(deny, #[trigger] licenses[j])) ==> violation(
            licenses,
            deny,
            allow,
        ) == Some("denied license "@ + licenses[i]),
        allow.len() > 0 && !listed(allow, licenses[i]) && (forall|j: int|
            0 <= j < licenses.len() ==> !listed(deny, #[trigger] licenses[j])) && (forall|j: int|
            0 <= j < i ==> listed(allow, #[trigger] licenses[j])) ==> violation(
            licenses,
            deny,
            allow,
        ) == Some("license "@ + licenses[i] + " not in allow list"@),
{
    if listed(deny, licenses[i]) && forall|j: int|
        0 <= j < i ==> !listed(deny, #[trigger] licenses[j]) {
        lemma_first_at(licenses, deny, i, true);
    }
    if !listed(allow, licenses[i]) && (forall|j: int|
        0 <= j < licenses.len() ==> !listed(deny, #[trigger] licenses[j])) && forall|j: int|
        0 <= j < i ==> listed(allow, #[trigger] licenses[j]) {
        lemma_first_at(licenses, allow, i, false);
        lemma_first(licenses, deny);
    }
}

} // verus!
