//! Approval, deny list, licenses, groups and missing blobs.

use forklift::config::{ApprovalConfig, LicenseConfig, MODE_AUDIT};
use forklift::meta::RepoType;
use forklift::repo::anchors::anchors_can_be_cut;
use forklift::repo::approvalgate::{
    announces, approval_gate, auto_approve_if_clean, deny_mark, mark_once, note_demand,
    quarantine_uploaded_publication, tries_auto_approval, version_deny_gate, ApprovalLookup, Quarantine,
};
use forklift::repo::cargo::cargo_package;
use forklift::repo::dangling::{
    confirmed_missing, DanglingRegistry, Manager, MAX_DANGLING_TRACKED,
};
use forklift::repo::gomod::go_package;
use forklift::repo::gosemver::{
    go_semver_canonical, go_semver_compare, go_semver_major, go_semver_valid,
};
use forklift::repo::group::{
    group_refusal, serving_repo_name, uri_with_repo, validate_group_members, GroupWalk,
    MemberLookup, WalkStep,
};
use forklift::repo::group_cache::{
    copy_captured_response, group_cache_entry, group_lock_key, serve_group_metadata_blob,
    MetadataLocks,
};
use forklift::repo::group_metadata::{
    checksum_body, etag_matches, group_metadata_content_type, group_metadata_kind,
    group_metadata_representation, group_plan, index_reply, merge_go_list_group,
    over_group_limit, request_with_member, CapturedGroupResponse, GroupCollector, GroupReply,
};
use forklift::repo::licensegate::{license_gate, license_violation, LicenseLookup};
use forklift::repo::licensescan::{
    deps_dev_system, enqueue_resolve, license_backfill_page, license_coordinate, next_offset,
    resolve_label, resolve_stored, ScanTarget,
};
use forklift::repo::maven::maven_package;
use forklift::repo::merge::{
    merge_cargo_group, merge_go_latest_group, merge_maven_group, merge_npm_group,
    merge_oci_tags_group, merge_pypi_group, GoInfo, MavenMetadata, PYPI_JSON_TYPE,
};
use forklift::repo::negcache::NegCache;
use forklift::repo::npm::{npm_package, npm_version};
use forklift::repo::pypi::pypi_package_from_filename;
use forklift::repo::reply::Method;
use forklift::text::itoa;

const SECOND: i128 = 1_000_000_000;
const HOUR: i128 = 3600 * SECOND;
/// 2026-08-07T10:00:00Z
const START: i128 = 1_786_096_800 * SECOND;

fn strings(v: &[&str]) -> Vec<String> {
    v.iter().map(|s| s.to_string()).collect()
}

/// One extractor table row: the function, its input, and the expected result.
type ExtractorCase = (fn(&str) -> String, &'static str, &'static str);

#[test]
fn package_extractors() {
    let cases: &[ExtractorCase] = &[
        (npm_package, "lodash", "lodash"),
        (npm_package, "lodash/-/lodash-4.17.21.tgz", "lodash"),
        (npm_package, "@scope/name", "@scope/name"),
        (npm_package, "@scope/name/-/name-1.0.0.tgz", "@scope/name"),
        // npm publish: lowercase %2f
        (npm_package, "@scope%2fname", "@scope/name"),
        // pnpm/others: uppercase %2F
        (npm_package, "@scope%2Fname", "@scope/name"),
        // encoded @ + slash (e.g. @openai%2fcodex form)
        (npm_package, "%40scope%2fname", "@scope/name"),
        // case-folded to canonical lowercase
        (npm_package, "@Scope%2FName", "@scope/name"),
        (npm_package, "@scope%2fname/-/name-1.0.0.tgz", "@scope/name"),
        // version resolves through encoded scope
        (npm_version, "@scope%2fname/-/name-1.0.0.tgz", "1.0.0"),
        (pypi_package_from_filename, "requests-2.31.0-py3-none-any.whl", "requests"),
        (pypi_package_from_filename, "typing_extensions-4.8.0.tar.gz", "typing-extensions"),
        (pypi_package_from_filename, "Foo.Bar-1.0.zip", "foo-bar"),
        (pypi_package_from_filename, "requests-2.31.0-py3-none-any.whl.metadata", "requests"),
        (pypi_package_from_filename, "noversion", ""),
        (cargo_package, "api/v1/crates/serde/1.0.0/download", "serde"),
        (cargo_package, "se/rd/serde", "serde"),
        (cargo_package, "3/a/aes", "aes"),
        (cargo_package, "1/x", "x"),
        (cargo_package, "config.json", ""),
        (go_package, "example.com/foo/@v/list", "example.com/foo"),
        (go_package, "example.com/foo/@v/v1.0.0.zip", "example.com/foo"),
        (go_package, "example.com/foo/@latest", "example.com/foo"),
        (go_package, "example.com/foo", ""),
        (maven_package, "com/google/guava/guava/31.0/guava-31.0.jar", "com.google.guava:guava"),
        (maven_package, "com/google/guava/guava/maven-metadata.xml", "com.google.guava:guava"),
        (
            maven_package,
            "com/google/guava/guava/1.0-SNAPSHOT/maven-metadata.xml",
            "com.google.guava:guava",
        ),
        (maven_package, "junit/junit/4.13/junit-4.13.jar", "junit:junit"),
        (maven_package, "junit/maven-metadata.xml", ""),
        (maven_package, "short", ""),
        (npm_version, "lodash", ""),
        (npm_version, "lodash/-/lodash-4.17.21.tgz", "4.17.21"),
        (npm_version, "lodash/-/lodash-1.0.0-beta.1.tgz", "1.0.0-beta.1"),
        (npm_version, "@scope/name/-/name-1.0.0.tgz", "1.0.0"),
        (npm_version, "pkg/-/other-1.0.0.tgz", ""),
        (npm_version, "pkg/-/pkg-1.0.0.bad", ""),
    ];
    for (f, input, want) in cases {
        assert_eq!(f(input).as_str(), *want, "extract({input:?})");
    }
}

// ---------------------------------------------------------------------------
// Approval and deny list

fn approval(mode: &str) -> ApprovalConfig {
    ApprovalConfig { enabled: true, mode: mode.to_string(), auto_approve_clean: false }
}

#[test]
fn enforcement_blocks_what_is_not_approved() {
    let cfg = approval("");
    let gate = |status: &ApprovalLookup| {
        approval_gate(RepoType::Proxy, Method::Get, &cfg, "left-pad", false, status, false)
    };
    let out = gate(&ApprovalLookup::NotFound);
    let reply = out.reply.expect("blocked");
    assert_eq!((reply.status, reply.message.as_str()), (403, "package pending approval: left-pad"));
    assert!(out.demand);
    let out = gate(&ApprovalLookup::Status("rejected".to_string()));
    assert_eq!(out.reply.map(|r| r.status), Some(403));
    let out = gate(&ApprovalLookup::Status("approved".to_string()));
    assert!(out.reply.is_none() && !out.demand);
    let out = gate(&ApprovalLookup::Failed);
    let reply = out.reply.expect("fails closed");
    assert_eq!((reply.status, reply.message.as_str()), (503, "approval check failed"));
    // Audit mode records and serves.
    let audit = approval(MODE_AUDIT);
    let out = approval_gate(RepoType::Proxy, Method::Get, &audit, "p", false, &ApprovalLookup::NotFound, false);
    assert!(out.reply.is_none() && out.demand);
    let out = approval_gate(RepoType::Proxy, Method::Get, &audit, "p", false, &ApprovalLookup::Failed, false);
    assert!(out.reply.is_none() && !out.demand);
    // What the barrier does not look at passes.
    for (kind, method, pkg, bypassed) in [
        (RepoType::Group, Method::Get, "p", false),
        (RepoType::Proxy, Method::Put, "p", false),
        (RepoType::Proxy, Method::Get, "", false),
        (RepoType::Proxy, Method::Get, "p", true),
    ] {
        let out = approval_gate(kind, method, &cfg, pkg, bypassed, &ApprovalLookup::NotFound, false);
        assert!(out.reply.is_none() && !out.demand);
    }
}

#[test]
fn clean_scans_approve() {
    let mut cfg = approval("");
    cfg.auto_approve_clean = true;
    let tries = |c: &ApprovalConfig, bypassed: bool, status: &ApprovalLookup| {
        tries_auto_approval(RepoType::Proxy, Method::Get, c, "p", bypassed, status)
    };
    assert!(tries(&cfg, false, &ApprovalLookup::NotFound));
    assert!(tries(&cfg, false, &ApprovalLookup::Status("rejected".to_string())));
    assert!(!tries(&cfg, false, &ApprovalLookup::Status("approved".to_string())));
    assert!(!tries(&cfg, false, &ApprovalLookup::Failed));
    assert!(!tries(&cfg, true, &ApprovalLookup::NotFound));
    assert!(!tries(&approval(""), false, &ApprovalLookup::NotFound));
    let clean = auto_approve_if_clean(true, "npm", Some(true), true);
    assert!(clean);
    let out = approval_gate(RepoType::Proxy, Method::Get, &cfg, "p", false, &ApprovalLookup::NotFound, clean);
    assert!(out.reply.is_none());
    assert!(!auto_approve_if_clean(false, "npm", Some(true), true));
    assert!(!auto_approve_if_clean(true, "", Some(true), true));
    assert!(!auto_approve_if_clean(true, "npm", Some(false), true));
    assert!(!auto_approve_if_clean(true, "npm", None, true));
    assert!(!auto_approve_if_clean(true, "npm", Some(true), false));
}

#[test]
fn demands_are_recorded_once() {
    let mut marks = NegCache::new();
    let d = note_demand(&mut marks, "npmjs", "p", "enforce", START);
    assert!(d.scan && d.ask && !d.record);
    let d = note_demand(&mut marks, "npmjs", "p", "enforce", START + 60 * SECOND);
    assert!(!d.scan && !d.ask && !d.record);
    let d = note_demand(&mut marks, "npmjs", "p", MODE_AUDIT, START + 61 * SECOND);
    assert!(d.scan && !d.ask && d.record);
    assert!(announces(Some(true)) && !announces(Some(false)) && !announces(None));
    assert!(mark_once(&mut marks, &deny_mark("r", "p", "1"), START));
    assert!(!mark_once(&mut marks, &deny_mark("r", "p", "1"), START));
    assert_eq!(deny_mark("r", "p", "1"), "deny\u{0}r\u{0}p\u{0}1");
}

#[test]
fn uploads_enter_the_queue() {
    assert_eq!(quarantine_uploaded_publication(&approval(""), "p", false), Quarantine::Ask);
    assert_eq!(quarantine_uploaded_publication(&approval(MODE_AUDIT), "p", false), Quarantine::Record);
    assert_eq!(quarantine_uploaded_publication(&approval(""), "", false), Quarantine::Pass);
    assert_eq!(quarantine_uploaded_publication(&approval(""), "p", true), Quarantine::Pass);
}

#[test]
fn denied_versions_are_refused() {
    let gate = |version: &str, denied: Option<bool>| {
        version_deny_gate(RepoType::Proxy, Method::Get, "lodash", version, denied)
    };
    let reply = gate("4.17.99", Some(true)).expect("denied");
    assert_eq!((reply.status, reply.message.as_str()), (403, "version denied: lodash@4.17.99"));
    assert!(gate("4.17.21", Some(false)).is_none());
    assert!(gate("", Some(true)).is_none(), "metadata passes");
    let reply = gate("4.17.21", None).expect("fails closed");
    assert_eq!((reply.status, reply.message.as_str()), (503, "deny check failed"));
    assert!(version_deny_gate(RepoType::Proxy, Method::Put, "p", "1", Some(true)).is_none());
}

// ---------------------------------------------------------------------------
// Licenses

/// One table row: name, licenses, deny, allow, expectation.
type ViolationCase = (
    &'static str,
    &'static [&'static str],
    &'static [&'static str],
    &'static [&'static str],
    bool,
);

#[test]
fn license_violation_cases() {
    let cases: &[ViolationCase] = &[
        ("clean", &["MIT"], &["GPL-3.0"], &[], false),
        ("denied", &["GPL-3.0"], &["GPL-3.0"], &[], true),
        ("denied case-insensitive", &["gpl-3.0"], &["GPL-3.0"], &[], true),
        ("allow ok", &["MIT"], &[], &["MIT", "Apache-2.0"], false),
        ("allow miss", &["BSD-3-Clause"], &[], &["MIT"], true),
        ("allow all present", &["MIT", "Apache-2.0"], &[], &["MIT", "Apache-2.0"], false),
        ("allow one missing", &["MIT", "GPL-3.0"], &[], &["MIT"], true),
        ("empty licenses never violate", &[], &["GPL-3.0"], &["MIT"], false),
    ];
    for (name, licenses, deny, allow, want) in cases {
        let got =
            license_violation(&strings(licenses), &strings(deny), &strings(allow)).is_some();
        assert_eq!(got, *want, "{name}");
    }
}

#[test]
fn license_reasons() {
    let why = |licenses: &[&str], deny: &[&str], allow: &[&str]| {
        license_violation(&strings(licenses), &strings(deny), &strings(allow))
    };
    assert_eq!(why(&["MIT", "GPL-3.0"], &[" gpl-3.0 ", ""], &[]).as_deref(), Some("denied license GPL-3.0"));
    assert_eq!(why(&["BSD"], &[], &["MIT"]).as_deref(), Some("license BSD not in allow list"));
    assert_eq!(why(&["GPL"], &["GPL"], &["GPL"]).as_deref(), Some("denied license GPL"));
}

#[test]
fn licenses_are_gated() {
    let cfg = LicenseConfig {
        enabled: true,
        action: "block".to_string(),
        allow: Vec::new(),
        deny: strings(&["GPL-3.0"]),
        block_unresolved: true,
    };
    let gate = |action: &str, found: &LicenseLookup| {
        license_gate(true, RepoType::Proxy, Method::Get, "npm", &cfg, action, "p", "1.0", found)
    };
    let gpl = LicenseLookup::Resolved(strings(&["GPL-3.0"]));
    let out = gate("block", &gpl);
    assert_eq!(
        out.reply.map(|r| (r.status, r.message)),
        Some((403, "blocked: license policy (denied license GPL-3.0) for p@1.0".to_string()))
    );
    for action in ["audit", "warn"] {
        let out = gate(action, &gpl);
        assert!(out.reply.is_none());
        assert_eq!(out.reason.as_deref(), Some("denied license GPL-3.0"));
    }
    let out = gate("block", &LicenseLookup::NotFound);
    assert!(out.enqueue);
    assert_eq!(out.reply.map(|r| r.message), Some("package pending license resolution: p".to_string()));
    let out = gate("warn", &LicenseLookup::NotFound);
    assert!(out.enqueue && out.reply.is_none());
    let out = gate("block", &LicenseLookup::Failed);
    assert!(!out.enqueue && out.reply.is_none(), "a lookup error must not break serving");
    let out = license_gate(false, RepoType::Proxy, Method::Get, "npm", &cfg, "block", "p", "1.0", &gpl);
    assert!(out.reply.is_none(), "the barrier is off without a resolver");
    let out = license_gate(true, RepoType::Proxy, Method::Get, "oci", &cfg, "block", "p", "1.0", &gpl);
    assert!(out.reply.is_none(), "the format has no license source");
}

#[test]
fn deps_dev_system_mapping() {
    assert_eq!(deps_dev_system("maven"), "maven");
    assert_eq!(deps_dev_system("unknown-format"), "", "unknown system should be empty");
}

#[test]
fn coordinates_are_queued_once() {
    let pair = |a: &str, b: &str| (a.to_string(), b.to_string());
    assert_eq!(license_coordinate("maven", "g/a/1.0/a-1.0.jar"), pair("maven", "g:a"));
    assert_eq!(license_coordinate("npm", "@s%2fN"), pair("npm", "@s/n"));
    assert_eq!(license_coordinate("cargo", "se/rd/Serde"), pair("cargo", "serde"));
    assert_eq!(license_coordinate("go", "m/@latest"), pair("go", "m"));
    assert_eq!(license_coordinate("pypi", "files/Foo_Bar-1.0.zip"), pair("pypi", "foo-bar"));
    assert_eq!(license_coordinate("raw", "x"), pair("", ""));

    let mut marks = NegCache::new();
    let job = enqueue_resolve(&mut marks, true, "npm", "a", "1", START).expect("queued");
    assert_eq!((job.system.as_str(), job.package.as_str(), job.version.as_str()), ("npm", "a", "1"));
    assert!(enqueue_resolve(&mut marks, true, "npm", "a", "1", START + 60 * SECOND).is_none());
    assert!(enqueue_resolve(&mut marks, true, "npm", "a", "1", START + 61 * SECOND).is_some());
    assert!(enqueue_resolve(&mut marks, false, "npm", "b", "1", START).is_none());
    assert!(enqueue_resolve(&mut marks, true, "npm", "b", "", START).is_none());
    assert!(resolve_stored(&mut marks, true, "maven", "g/a/1.0/a-1.0.jar", "1.0", START).is_some());
    assert!(resolve_stored(&mut marks, true, "maven", "short", "1.0", START).is_none());
    assert_eq!(resolve_label(None), "error");
    assert_eq!(resolve_label(Some(0)), "unknown");
    assert_eq!(resolve_label(Some(2)), "resolved");
    assert_eq!(next_offset(20, 10, 10), Some(30));
    assert_eq!(next_offset(20, 9, 10), None);
}

#[test]
fn backfill_skips_what_is_resolved() {
    let mut marks = NegCache::new();
    let target = |path: &str| ScanTarget {
        format: "npm".to_string(),
        path: path.to_string(),
        version: "1".to_string(),
    };
    let targets = vec![target("a"), target("b"), target("a"), ScanTarget {
        format: "raw".to_string(),
        path: "x".to_string(),
        version: "1".to_string(),
    }];
    let resolved = vec!["npm\u{0}b\u{0}1".to_string()];
    let (jobs, count) = license_backfill_page(&mut marks, true, &resolved, &targets, START);
    assert_eq!(jobs.len(), 1);
    assert_eq!(jobs[0].package, "a");
    assert_eq!(count, 2, "both copies lack a result");
}

// ---------------------------------------------------------------------------
// Groups

#[test]
fn group_metadata_representation_separates_accept_and_checksums() {
    assert_eq!(
        group_metadata_representation("pypi", "simple/widget/", PYPI_JSON_TYPE),
        "pypi:json"
    );
    assert_eq!(
        group_metadata_representation("pypi", "simple/widget/", "text/html"),
        "pypi:default"
    );
    assert_eq!(
        group_metadata_representation("maven", "a/maven-metadata.xml.sha256", ""),
        "maven:sha256"
    );
    assert!(
        etag_matches(r#"W/"other", "digest""#, "digest"),
        "strong matching ETag was not recognized"
    );
}

#[test]
fn group_indexes_are_planned() {
    assert_eq!(group_metadata_kind("maven", "g/a/maven-metadata.xml"), "maven");
    assert_eq!(group_metadata_kind("maven", "g/a/1/a.jar"), "");
    let plan = group_plan("maven", "/g/a/maven-metadata.xml.sha1", "").expect("a plan");
    assert_eq!(plan.member_wildcard, "g/a/maven-metadata.xml");
    assert_eq!(plan.checksum, ".sha1");
    assert_eq!(group_metadata_content_type("maven:default"), "application/xml");
    assert_eq!(
        request_with_member("/maven/g/x.sha1", Some("q=1"), "m", "x", "x.sha1"),
        "/maven/m/x?q=1"
    );
    let (body, ct) = checksum_body(".sha1", b"abc".to_vec(), "x".to_string());
    assert_eq!(String::from_utf8_lossy(&body), "a9993e364706816aba3e25717850c26c9cd0d89d\n");
    assert_eq!(ct, "text/plain; charset=utf-8");
    let (body, _) = checksum_body(".sha256", b"abc".to_vec(), "x".to_string());
    assert_eq!(
        String::from_utf8_lossy(&body),
        "ba7816bf8f01cfea414140de5dae2223b00361a396177a9cb410ff61f20015ad\n"
    );
    let reply = index_reply(Some("d"), "\"d\"", false, "x");
    assert_eq!((reply.status, reply.with_body), (304, false));
    let reply = index_reply(Some("d"), "", true, "x");
    assert_eq!((reply.status, reply.with_body), (200, false));
}

fn captured(status: u16, body: &str) -> CapturedGroupResponse {
    CapturedGroupResponse {
        status,
        content_type: "text/plain".to_string(),
        body: body.as_bytes().to_vec(),
        over: false,
        maven: None,
        info: None,
    }
}

#[test]
fn members_are_collected_until_one_fails() {
    let mut c = GroupCollector::new();
    assert!(c.take(captured(404, "")).is_none());
    match c.finish("go-list") {
        GroupReply::Error { status, message } => {
            assert_eq!((status, message), (404, "404 page not found"));
        }
        _ => panic!("nothing was merged into something"),
    }
    assert!(c.take(captured(200, "v1.1.0\nv1.0.0\n")).is_none());
    assert!(c.take(captured(200, "v1.0.0\nnonsense\nv1.2.0")).is_none());
    match c.finish("go-list") {
        GroupReply::Body { body, content_type } => {
            assert_eq!(String::from_utf8_lossy(&body), "v1.0.0\nv1.1.0\nv1.2.0\n");
            assert_eq!(content_type, "text/plain; charset=utf-8");
        }
        _ => panic!("version lists were not merged"),
    }
    match c.finish("npm") {
        GroupReply::Error { status, message } => {
            assert_eq!((status, message), (502, "member metadata cannot be aggregated"));
        }
        _ => panic!("version lists are no packuments"),
    }
    match c.take(captured(503, "busy")) {
        Some(GroupReply::Relay { response }) => {
            assert_eq!((response.status, response.body.as_slice()), (503, &b"busy"[..]));
            let out = copy_captured_response(&response, true);
            assert_eq!((out.status, out.with_body), (503, false));
            assert_eq!(out.content_type.as_deref(), Some("text/plain"));
        }
        _ => panic!("a failing member was passed over"),
    }
    let mut big = captured(200, "");
    big.over = true;
    match c.take(big) {
        Some(GroupReply::Error { status, message }) => {
            assert_eq!((status, message), (502, "group metadata exceeds aggregation limit"));
        }
        _ => panic!("an oversized document was taken"),
    }
}

#[test]
fn merged_indexes_are_kept() {
    assert_eq!(group_lock_key(7, "a/b", "npm:default"), "7\0a/b\0npm:default");
    let mut locks = MetadataLocks::new();
    assert!(locks.enter("k"));
    assert!(!locks.enter("k"));
    assert!(locks.enter("other"));
    locks.leave("k");
    assert_eq!(locks.waiters.get("k"), Some(&1));
    locks.leave("k");
    assert!(locks.waiters.get("k").is_none(), "a lock outlived its last waiter");
    assert!(locks.enter("k"));

    let entry = group_cache_entry(
        7, "p", "npm:default", "d", 3, &strings(&["a", "b\"c"]), "rev", START,
    );
    assert_eq!(entry.sources_json, r#"["a","b\"c"]"#);
    assert_eq!(entry.expires_at, START + 30_000_000_000);
    assert_eq!((entry.group_repo_id, entry.size), (7, 3));
    let reply = serve_group_metadata_blob("d", "", false, "npm:default");
    assert_eq!((reply.status, reply.with_body), (200, true));
    assert_eq!(reply.content_type, "application/json");
    assert_eq!(reply.etag.as_deref(), Some("\"d\""));
    assert_eq!(serve_group_metadata_blob("d", "\"d\"", false, "npm:default").status, 304);
}

fn maven(versions: &[&str]) -> MavenMetadata {
    MavenMetadata {
        group_id: "com.acme".to_string(),
        artifact_id: "widget".to_string(),
        latest: String::new(),
        release: String::new(),
        versions: strings(versions),
        last_updated: String::new(),
    }
}

#[test]
fn merge_maven_group_unions_versions() {
    let merged = merge_maven_group(&vec![maven(&["1.0.0"]), maven(&["2.0.0"])]).expect("merge");
    assert!(merged.versions.contains(&"1.0.0".to_string()), "versions={:?}", merged.versions);
    assert!(merged.versions.contains(&"2.0.0".to_string()), "versions={:?}", merged.versions);
    assert_eq!(merged.latest, "2.0.0");
    let mut other = maven(&["3.0.0"]);
    other.artifact_id = "gadget".to_string();
    assert!(merge_maven_group(&vec![maven(&["1.0.0"]), other]).is_none());
}

#[test]
fn merge_npm_group_uses_member_priority_and_union() {
    let (body, _) = merge_npm_group(&[
        br#"{"name":"widget","versions":{"1.0.0":{"source":"hosted"}},"dist-tags":{"latest":"1.0.0"},"time":{}}"#,
        br#"{"name":"widget","versions":{"1.0.0":{"source":"proxy"},"2.0.0":{}},"dist-tags":{"latest":"2.0.0","next":"2.0.0"},"time":{}}"#,
    ])
    .expect("merge");
    let document: serde_json::Value = serde_json::from_slice(&body).expect("decode");
    let versions = document["versions"].as_object().expect("versions");
    assert_eq!(versions.len(), 2, "document={document}");
    assert_eq!(versions["1.0.0"]["source"], "hosted", "document={document}");
    assert_eq!(document["dist-tags"]["latest"], "1.0.0", "document={document}");
}

#[test]
fn merged_packuments_keep_the_order_of_versions() {
    let (body, ct) = merge_npm_group(&[
        br#"{"name":"w","versions":{"2.0.0":{},"1.0.0":{}}}"#,
        br#"{"versions":{"0.1.0":{},"1.0.0":{"x":1}},"time":{"created":"t"}}"#,
    ])
    .expect("merge");
    assert_eq!(
        String::from_utf8_lossy(&body),
        r#"{"dist-tags":{},"name":"w","time":{"created":"t"},"versions":{"2.0.0":{},"1.0.0":{},"0.1.0":{}}}"#
    );
    assert_eq!(ct, "application/json");
    assert!(merge_npm_group(&[b"[]"]).is_none());
}

#[test]
fn merge_cargo_and_go_group_metadata() {
    let (cargo, _) = merge_cargo_group(&[
        b"{\"name\":\"a\",\"vers\":\"1.0.0\"}\n",
        b"{\"name\":\"a\",\"vers\":\"2.0.0\"}\n",
    ])
    .expect("cargo merge");
    let cargo = String::from_utf8_lossy(&cargo).to_string();
    assert!(cargo.contains("1.0.0"), "cargo={cargo}");
    assert!(cargo.contains("2.0.0"), "cargo={cargo}");

    let (versions, _) =
        merge_go_list_group(&[b"v2.0.0\n", b"v1.0.0\nv2.0.0\n"]).expect("go list merge");
    assert_eq!(String::from_utf8_lossy(&versions), "v1.0.0\nv2.0.0\n");
}

#[test]
fn merge_pypi_group_unions_files() {
    let (body, _) = merge_pypi_group(
        &[
            br#"{"meta":{"api-version":"1.0"},"files":[{"filename":"a-1.whl","url":"a"}]}"#,
            br#"{"meta":{"api-version":"1.0"},"files":[{"filename":"a-1.whl","url":"other"},{"filename":"a-1.tar.gz","url":"b"}]}"#,
        ],
        PYPI_JSON_TYPE,
    )
    .expect("merge");
    let document: serde_json::Value = serde_json::from_slice(&body).expect("decode");
    assert_eq!(document["files"].as_array().expect("files").len(), 2, "document={document}");
}

#[test]
fn merge_pypi_html_uses_first_member_for_duplicate_filename() {
    let (body, _) = merge_pypi_group(
        &[
            br#"<html><body><a href="hosted/a-1.whl">a-1.whl</a></body></html>"#,
            br#"<html><body><a href="proxy/a-1.whl">a-1.whl</a><a href="proxy/a-1.tar.gz">a-1.tar.gz</a></body></html>"#,
        ],
        "text/html",
    )
    .expect("merge");
    let text = String::from_utf8_lossy(&body).to_string();
    assert_eq!(text.matches(">a-1.whl</a>").count(), 1, "body={text}");
    assert!(!text.contains("proxy/a-1.whl"), "body={text}");
}

#[test]
fn pages_are_cut_as_their_lowercase_form_says() {
    let merge = |page: &str| {
        let (body, _) = merge_pypi_group(&[page.as_bytes()], "text/html").expect("merge");
        String::from_utf8_lossy(&body).to_string()
    };
    let wrap = |line: &str| format!("<!doctype html><html><body>\n{line}\n</body></html>\n");
    assert_eq!(merge("<A HREF='x'>One</A><abbr>no</abbr>"), wrap("<A HREF='x'>One</A>"));
    assert_eq!(merge("caf\u{e9}<a>x</a>"), wrap("<a>x</a>"));
    // The lowercase form of this letter is a byte longer, which moves what follows.
    assert_eq!(merge("\u{130}<a >x</a>yy"), wrap("a >x</a>y"));
    assert!(anchors_can_be_cut("\u{130}<a >x</a>yy"));
    assert!(!anchors_can_be_cut("\u{130}<a >x</a>"), "the cut is beyond the end");
    assert!(!anchors_can_be_cut("\u{130}<a >x</a>\u{e9}"), "the cut is inside a letter");
    let mut c = GroupCollector::new();
    assert!(c.take(captured(200, "\u{130}<a >x</a>")).is_none());
    match c.finish("pypi") {
        GroupReply::Error { status, message } => {
            assert_eq!((status, message), (502, "member metadata cannot be aggregated"));
        }
        _ => panic!("a page was cut beyond its end"),
    }
    assert!(!over_group_limit(64 << 20) && over_group_limit((64 << 20) + 1));
}

#[test]
fn merge_tags_and_latest() {
    let (body, _) = merge_oci_tags_group(&[
        br#"{"name":"n","tags":["b","a"]}"#,
        br#"{"name":"n","tags":["c","a"]}"#,
    ])
    .expect("tags");
    let document: serde_json::Value = serde_json::from_slice(&body).expect("decode");
    assert_eq!(document["tags"].as_array().map(|t| t.len()), Some(3));
    let info = |v: &str| GoInfo { version: v.to_string(), time: String::new() };
    let best = merge_go_latest_group(&vec![info("v1.9.0"), info("v1.10.0")]).expect("latest");
    assert_eq!(best.version, "v1.10.0");
    assert!(merge_go_latest_group(&vec![info("1.0.0")]).is_none());
}

#[test]
fn module_versions_are_ordered() {
    for (a, b, want) in [
        ("v1.0.0", "v1.0.0+build", std::cmp::Ordering::Equal),
        ("v1.0.0-rc.1", "v1.0.0", std::cmp::Ordering::Less),
        ("v1.0.0-rc.10", "v1.0.0-rc.9", std::cmp::Ordering::Greater),
        ("v1.0.0-alpha", "v1.0.0-1", std::cmp::Ordering::Greater),
        ("bad", "v0.0.0", std::cmp::Ordering::Less),
        ("v1.10.0", "v1.9.0", std::cmp::Ordering::Greater),
    ] {
        assert_eq!(go_semver_compare(a, b), want, "{a} {b}");
    }
    assert!(go_semver_valid("v1.2.3") && !go_semver_valid("1.2.3"));
    assert_eq!(go_semver_canonical("v1.2"), "v1.2.0");
    assert_eq!(go_semver_major("v2.1.0"), "v2");
}

#[test]
fn groups_serve_the_first_hit() {
    let (mut walk, step) = GroupWalk::start(3);
    assert!(matches!(step, WalkStep::Ask(0)));
    assert!(matches!(walk.step(404), WalkStep::Ask(1)));
    assert!(matches!(walk.step(403), WalkStep::Serve), "a refusal is authoritative");
    let (mut walk, _) = GroupWalk::start(1);
    match walk.step(404) {
        WalkStep::Answer(a) => assert_eq!(a.status, 404),
        _ => panic!("nobody has it"),
    }
    match GroupWalk::start(0).1 {
        WalkStep::Answer(a) => assert_eq!(a.message, "404 page not found"),
        _ => panic!("nobody is asked"),
    }
    assert_eq!(group_refusal(Method::Put, true).map(|a| a.status), Some(405));
    assert_eq!(group_refusal(Method::Get, false).map(|a| a.status), Some(500));
    assert!(group_refusal(Method::Head, true).is_none());
    assert_eq!(serving_repo_name(Some("g"), "m"), "g");
    assert_eq!(serving_repo_name(Some(""), "m"), "m");
    assert_eq!(serving_repo_name(None, "m"), "m");
    assert_eq!(uri_with_repo("/npm/group/x/y", Some("a=b"), "m"), "/npm/m/x/y?a=b");
    assert_eq!(uri_with_repo("/npm", None, "m"), "/npm");
}

#[test]
fn members_are_validated() {
    let found = |format: &str, kind: RepoType| MemberLookup::Found { format: format.to_string(), kind };
    let check = |names: &[&str], lookups: Vec<MemberLookup>| {
        validate_group_members("npm", &strings(names), &lookups).err().map(|e| e.message())
    };
    assert_eq!(check(&[], vec![]).as_deref(), Some("group repository requires at least one member"));
    assert_eq!(
        check(&["a", "b"], vec![found("npm", RepoType::Hosted), found("npm", RepoType::Proxy)]),
        None
    );
    assert_eq!(
        check(&["a", "a"], vec![found("npm", RepoType::Hosted), found("npm", RepoType::Hosted)]).as_deref(),
        Some("duplicate group member: a")
    );
    assert_eq!(check(&["a"], vec![MemberLookup::NotFound]).as_deref(), Some("group member not found: a"));
    assert_eq!(
        check(&["a"], vec![found("go", RepoType::Hosted)]).as_deref(),
        Some("group member format mismatch: a")
    );
    assert_eq!(
        check(&["a"], vec![found("npm", RepoType::Group)]).as_deref(),
        Some("nested group repositories are not allowed: a")
    );
    assert_eq!(
        check(&["a"], vec![MemberLookup::Failed("disk".to_string())]).as_deref(),
        Some("disk")
    );
}

// ---------------------------------------------------------------------------
// Missing blobs

#[test]
fn dangling_registry_records_and_keeps_first_seen() {
    let mut d = DanglingRegistry::new();
    d.record(7, "@msp/toolkit", "sha-a", "index", 500, START);
    d.record(7, "@msp/toolkit", "sha-a", "index", 500, START + HOUR);

    let refs = d.by_repo(7);
    let r = refs.get("@msp/toolkit").expect("reference tracked");
    assert_eq!(r.hits, 2);
    assert_eq!(r.first_seen, START, "first seen must be the original observation");
    assert_eq!(r.last_seen, START + HOUR);
    assert!(d.by_repo(8).entries.is_empty(), "reference leaked into another repository");
}

#[test]
fn dangling_registry_restarts_on_new_digest() {
    let mut d = DanglingRegistry::new();
    d.record(7, "pkg", "sha-old", "index", 500, START);
    d.record(7, "pkg", "sha-new", "index", 500, START + 2 * HOUR);

    let refs = d.by_repo(7);
    let r = refs.get("pkg").expect("reference tracked");
    assert_eq!(r.sha256, "sha-new");
    assert_eq!(r.first_seen, START + 2 * HOUR, "clock not restarted for the new digest");
    assert_eq!(r.hits, 1);
}

#[test]
fn dangling_registry_forget() {
    let mut d = DanglingRegistry::new();
    d.record(7, "pkg", "sha", "index", 500, START);
    d.forget(7, "pkg");
    assert!(d.by_repo(7).entries.is_empty(), "forget left the reference in place");
}

#[test]
fn dangling_registry_bounded() {
    let mut d = DanglingRegistry::new();
    let mut now = START;
    for i in 0..MAX_DANGLING_TRACKED {
        d.record(1, &format!("pkg-{}", itoa(i as i64)), "sha", "primary", 500, now);
        now += SECOND;
    }
    assert_eq!(d.entries.len(), MAX_DANGLING_TRACKED);
    d.record(1, "pkg-overflow", "sha", "primary", 500, now);
    assert_eq!(d.entries.len(), MAX_DANGLING_TRACKED, "entries after overflow");
    assert!(d.get(1, "pkg-overflow").is_some(), "newest reference was not tracked");
    assert!(
        d.get(1, "pkg-0").is_none(),
        "eviction did not drop the least recently observed reference"
    );
}

#[test]
fn dangling_registry_counts_stop_when_full() {
    let mut reg = DanglingRegistry::new();
    reg.record(1, "p", "d", "role", 500, START);
    reg.entries[0].hits = i64::MAX;
    reg.record(1, "p", "d", "role", 500, START + SECOND);
    let r = reg.get(1, "p").expect("tracked");
    assert_eq!(r.hits, i64::MAX);
    assert_eq!((r.first_seen, r.last_seen), (START, START + SECOND));
}

#[test]
fn dangling_registry_ignores_incomplete_records() {
    let mut d = DanglingRegistry::new();
    d.record(7, "", "sha", "index", 500, START);
    d.record(7, "pkg", "", "index", 500, START);
    assert!(d.all().is_empty(), "tracked an incomplete record");
}

#[test]
fn dangling_registry_tracks_status_codes() {
    let mut d = DanglingRegistry::new();
    d.record(7, "@msp/toolkit", "sha-a", "index", 500, START);
    d.record(7, "@msp/toolkit", "sha-a", "index", 500, START);
    d.record(7, "@msp/toolkit", "sha-a", "index", 503, START);

    let mut refs = d.by_repo(7);
    let (_, mut r) = refs.take(0);
    assert_eq!(r.statuses.get(500), Some(2));
    assert_eq!(r.statuses.get(503), Some(1));
    assert_eq!(r.hits, 3);

    // The returned map must be a copy: mutating it cannot corrupt the registry.
    for _ in 0..97 {
        r.statuses.add_one(500);
    }
    let again = d.by_repo(7);
    let again = again.get("@msp/toolkit").expect("reference tracked");
    assert_eq!(
        again.statuses.get(500),
        Some(2),
        "registry state mutated through the returned map"
    );

    // A rewritten artifact starts a fresh histogram.
    d.record(7, "@msp/toolkit", "sha-b", "index", 503, START);
    let after = d.by_repo(7);
    let after = after.get("@msp/toolkit").expect("reference tracked");
    assert_eq!(after.statuses.get(500), None);
    assert_eq!(after.statuses.get(503), Some(1));
}

#[test]
fn dangling_registry_record_accumulates() {
    let minute = 60 * SECOND;
    let mut reg = DanglingRegistry::new();

    // A record with no path or no digest names nothing actionable; it is dropped.
    reg.record(1, "", "sha-a", "primary", 500, START);
    reg.record(1, "a.jar", "", "primary", 500, START);
    assert!(reg.all().is_empty(), "incomplete records tracked");

    reg.record(1, "a.jar", "sha-a", "primary", 500, START);
    reg.record(1, "a.jar", "sha-a", "primary", 503, START + minute);
    reg.record(1, "a.jar", "sha-a", "primary", 503, START + 2 * minute);

    let mut refs = reg.by_repo(1);
    let (_, mut r) = refs.take(0);
    assert_eq!(r.hits, 3);
    assert_eq!(r.first_seen, START, "first seen must be the first observation");
    assert_eq!(r.last_seen, START + 2 * minute, "last seen must be the latest observation");
    assert_eq!(r.statuses.get(500), Some(1));
    assert_eq!(r.statuses.get(503), Some(2));
    assert_eq!(r.last_status, 503);
    // The returned histogram is a copy: a caller must not be able to mutate
    // registry state through it.
    for _ in 0..98 {
        r.statuses.add_one(500);
    }
    let again = reg.by_repo(1);
    let again = again.get("a.jar").expect("a.jar tracked");
    assert_eq!(
        again.statuses.get(500),
        Some(1),
        "registry state mutated through a returned reference"
    );

    // A different digest at the same path is a republish: new digest, clock and
    // counters, and the old status histogram is gone rather than merged.
    reg.record(1, "a.jar", "sha-b", "primary", 500, START + 3 * minute);
    let refs = reg.by_repo(1);
    let r = refs.get("a.jar").expect("a.jar tracked");
    assert_eq!(r.sha256, "sha-b");
    assert_eq!(r.hits, 1);
    assert_eq!(r.first_seen, START + 3 * minute);
    assert_eq!(r.statuses.get(503), None, "statuses carried over");
    assert_eq!(r.statuses.get(500), Some(1));

    // Entries are per repository: by_repo must not leak another repository's rows.
    reg.record(2, "b.tgz", "sha-c", "index", 500, START + 3 * minute);
    assert_eq!(reg.by_repo(1).entries.len(), 1, "repo 1 refs must be only its own");
    assert_eq!(reg.all().len(), 2, "all refs must cover both repositories");
    reg.forget(1, "a.jar");
    assert!(reg.by_repo(1).get("a.jar").is_none(), "forgotten reference still tracked");
}

#[test]
fn dangling_registry_evicts_oldest() {
    let mut reg = DanglingRegistry::new();
    let mut now = START;
    for i in 0..MAX_DANGLING_TRACKED {
        reg.record(1, &format!("p{i}"), "sha", "primary", 500, now);
        now += SECOND;
    }
    assert_eq!(reg.entries.len(), MAX_DANGLING_TRACKED, "entries at the cap");
    reg.record(1, "newest", "sha", "primary", 500, now);
    assert_eq!(reg.entries.len(), MAX_DANGLING_TRACKED, "entries after eviction");
    assert!(reg.get(1, "p0").is_none(), "oldest entry survived the cap");
    assert!(reg.get(1, "newest").is_some(), "newest entry was not recorded");
}

#[test]
fn warnings_and_repairs_disagree_on_the_unknown() {
    let mut m = Manager::new();
    m.record_dangling_ref(1, "gone.jar", "sha-absent", "primary", 500, START);
    m.record_dangling_ref(1, "back.jar", "sha-back", "primary", 0, START);
    assert_eq!(m.dangling_refs().len(), 2, "tracked refs");
    assert!(m.still_missing(1, "gone.jar", Some(false)));
    assert!(m.still_missing(1, "gone.jar", None), "the warning stays where nothing is known");
    assert!(!m.still_missing(1, "back.jar", Some(true)));
    assert!(m.dangling_refs_for_repo(1).get("back.jar").is_none());
    m.forget_dangling_ref(1, "gone.jar");
    assert!(m.dangling_refs().is_empty());
    assert_eq!(confirmed_missing(Some(false)), Some(true));
    assert_eq!(confirmed_missing(Some(true)), Some(false));
    assert_eq!(confirmed_missing(None), None);
}
