//! Alarms: their text, their batches and their delivery.

use forklift::notify::batch::{ApprovalStep, PreviewPackage, Verdict};
use forklift::notify::coverage::{
    is_full_coverage, sample_coverage_report, CoveragePayload, CoverageProject, CoverageReport,
    MAX_LISTED_PROJECTS,
};
use forklift::notify::{
    check_status, cve_link, delivery_outcome, delivery_record, evt_packages, reachable_targets,
    ApprovalEvt, Attempt, DeliveredPackage, Notifier, Target, DEFAULT_TIMEOUT, DELIVERY_DELIVERED,
    DELIVERY_FAILED,
};

const SECOND: u64 = 1_000_000_000;
const STAMP: &str = "2026-08-07T10:00:00Z";

fn event(repo: &str, format: &str, pkg: &str, version: &str, who: &str) -> ApprovalEvt {
    ApprovalEvt {
        repo: repo.to_string(),
        repo_id: 0,
        repo_format: format.to_string(),
        pkg: pkg.to_string(),
        version: version.to_string(),
        requested_by: who.to_string(),
    }
}

fn target(name: &str, url: &str) -> Target {
    Target { name: name.to_string(), url: url.to_string() }
}

fn project(path: &str, partial: bool, web_url: &str) -> CoverageProject {
    CoverageProject { path: path.to_string(), partial, web_url: web_url.to_string() }
}

fn test_notifier() -> Notifier {
    let mut n = Notifier::new(2 * SECOND);
    n.set_external_url("https://forklift.example.com");
    n
}

/// Renders a report with the share of applied projects computed beside it.
fn report(n: &Notifier, r: &CoverageReport) -> CoveragePayload {
    let (text, percent) = if r.target > 0 {
        let share = r.applied as f64 * 100.0 / r.target as f64;
        (format!("{share:.1}%"), share.round() as i64)
    } else {
        ("-".to_string(), 0)
    };
    n.build_coverage_report(r, &text, percent, STAMP)
}

#[test]
fn new_defaults_timeout() {
    let n = Notifier::new(0);
    assert_eq!(n.timeout, 5 * SECOND, "default timeout, want 5s");
    assert_eq!(DEFAULT_TIMEOUT, 5 * SECOND);
    let n = Notifier::new(2 * SECOND);
    assert_eq!(n.timeout, 2 * SECOND, "custom timeout, want 2s");
}

#[test]
fn build_approval_sample() {
    let n = Notifier::new(SECOND);
    let p = n.build_approval_sample("npm-proxy", 0, "", STAMP);
    assert!(
        p.event == "approval.request"
            && p.repository == "npm-proxy"
            && p.package == "com.example:sample",
        "unexpected sample: {}",
        p.text
    );
    assert!(p.version == "1.0.0" && !p.timestamp.is_empty(), "sample missing fields: {}", p.text);
    // requested_by carried through when provided.
    assert_eq!(n.build_approval_sample("r", 0, "alice", STAMP).requested_by, "alice");
}

#[test]
fn approval_payload_json_shape() {
    let n = Notifier::new(0);
    let mut e = event("npmjs", "npm", "lodash", "", "");
    e.repo_id = 1;
    let p = n.build_approval_single(&e, STAMP);
    // Only these fields hold something; the rest is left out of the document.
    assert_eq!(p.event, "approval.request");
    assert_eq!(p.repository, "npmjs");
    assert_eq!(p.package, "lodash");
    assert_eq!(p.timestamp, STAMP);
    assert!(p.version.is_empty() && p.requested_by.is_empty());
    assert!(p.count == 0 && p.packages.is_empty() && p.requesters.is_empty());
    assert!(p.clean_count == 0 && p.dirty_count == 0);
    assert!(p.max_severity.is_empty() && p.max_score.is_empty());
    assert!(p.top_cve.is_empty() && p.top_package.is_empty());
    assert_eq!(
        p.text,
        "*Package pending approval*\nA package is quarantined and awaiting review. Review in Forklift.\n*Repository*: npmjs (npm)\n*Pending package*: lodash\n*Requested by*: anonymous"
    );
    assert_eq!(cve_link("GHSA-x"), "<https://github.com/advisories/GHSA-x|GHSA-x>");
    assert_eq!(cve_link("PYSEC-1"), "<https://osv.dev/vulnerability/PYSEC-1|PYSEC-1>");
}

#[test]
fn build_approval_grouped() {
    let mut n = Notifier::new(0);
    n.set_external_url("https://forklift.example.com");
    let evts = vec![
        event("npmjs", "npm", "lodash", "4.17.21", "alice"),
        event("npmjs", "npm", "axios", "1.6.0", "bob"),
        event("pypi", "pypi", "requests", "2.31.0", ""),
        // duplicate coordinate
        event("npmjs", "npm", "lodash", "4.17.21", "carol"),
    ];
    let p = n.build_approval_grouped(&evts, None, STAMP);
    assert!(
        p.count == 3 && p.packages.len() == 3,
        "count/packages = {}/{:?}, want 3 (deduped)",
        p.count,
        p.packages
    );
    assert!(p.text.contains("*Packages pending approval*"), "missing bold title: {:?}", p.text);
    assert!(p.text.contains("*Pending packages*: 3"), "missing count field: {:?}", p.text);
    assert!(
        p.text.contains("*Repository*: npmjs (npm) / pypi (pypi)"),
        "repository field not rendered/sorted: {:?}",
        p.text
    );
    assert!(p.text.contains("*Requested by*: "), "missing requester field: {:?}", p.text);
    assert!(
        p.text.contains("<https://forklift.example.com|Forklift>"),
        "missing Forklift link: {:?}",
        p.text
    );
    // Constraints: no emoji, no comma, no em-dash anywhere in the alarm text.
    assert!(
        !p.text.contains(['📦', '🧪', ',', '—']),
        "text must not contain emoji/comma/em-dash: {:?}",
        p.text
    );
    // Four distinct requesters (the deduped duplicate coordinate still adds carol).
    assert_eq!(p.requesters.len(), 4, "requesters = {:?}, want 4", p.requesters);
    assert_eq!(p.requesters, ["alice", "anonymous", "bob", "carol"]);
    assert_eq!(p.event, "approval.request");
    // More than three requesters collapse to two names plus a count.
    assert!(p.text.contains("*Requested by*: alice / anonymous (+2 others)"), "{:?}", p.text);
}

#[test]
fn grouped_pending_count_only() {
    let n = Notifier::new(0);
    let evts: Vec<ApprovalEvt> = (0..8u8)
        .map(|i| event("npmjs", "", &format!("{}pkg", (b'a' + i) as char), "1.0.0", ""))
        .collect();
    let p = n.build_approval_grouped(&evts, None, STAMP);
    assert_eq!(p.count, 8, "count, want 8");
    // Pending packages is count only (no per-package enumeration), no commas.
    assert!(p.text.contains("*Pending packages*: 8"), "count field: {:?}", p.text);
    assert!(!p.text.contains(','), "text must not contain commas: {:?}", p.text);
}

#[test]
fn grouped_clean_dirty_field() {
    let n = Notifier::new(0);
    let evts = vec![
        event("npmjs", "", "clean-pkg", "1.0.0", ""),
        event("npmjs", "", "vuln-pkg", "2.0.0", ""),
        event("npmjs", "", "unknown-pkg", "3.0.0", ""),
    ];
    // clean-pkg: scanned none; vuln-pkg: critical 9.8; unknown-pkg: unscanned.
    let verdict = |severity: &str, score: &str, id: &str, scanned: bool| Verdict {
        severity: severity.to_string(),
        score: score.to_string(),
        id: id.to_string(),
        scanned,
    };
    let refs = n.grouped_refs(&evts);
    let verdicts: Vec<Verdict> = refs
        .iter()
        .map(|r| match r.pkg.as_str() {
            "clean-pkg" => verdict("none", "", "", true),
            "vuln-pkg" => verdict("critical", "9.8", "CVE-2021-23358", true),
            _ => verdict("", "", "", false),
        })
        .collect();
    let p = n.build_approval_grouped(&evts, Some(&verdicts), STAMP);
    assert!(
        p.clean_count == 1 && p.dirty_count == 2,
        "clean/dirty = {}/{}, want 1/2",
        p.clean_count,
        p.dirty_count
    );
    assert!(
        p.max_severity == "critical" && p.max_score == "9.8" && p.top_cve == "CVE-2021-23358",
        "top CVE = {} {} {}, want critical 9.8 CVE-2021-23358",
        p.max_severity,
        p.max_score,
        p.top_cve
    );
    assert_eq!(p.top_package, "vuln-pkg@2.0.0", "top package");
    assert!(
        p.text.contains(
            "*Vulnerability*: 1 clean / 2 dirty (vuln-pkg@2.0.0 critical 9.8 <https://www.cve.org/CVERecord?id=CVE-2021-23358|CVE-2021-23358>)"
        ),
        "vulnerability field not rendered with package + CVE link: {:?}",
        p.text
    );
}

#[test]
fn preview_approval_matches_delivered_shape() {
    let n = Notifier::new(0);
    let pkg = |package: &str, version: &str, who: &str| PreviewPackage {
        package: package.to_string(),
        version: version.to_string(),
        requested_by: who.to_string(),
    };
    let single =
        n.preview_approval("npmjs", 1, "npm", &vec![pkg("lodash", "4.17.21", "alice")], None, STAMP);
    let mut e = event("npmjs", "npm", "lodash", "4.17.21", "alice");
    e.repo_id = 1;
    let want = n.build_approval_single(&e, STAMP);
    assert_eq!(single.text, want.text, "single preview");

    let grouped = n.preview_approval(
        "npmjs",
        1,
        "npm",
        &vec![pkg("lodash", "4.17.21", "alice"), pkg("axios", "1.6.0", "bob")],
        None,
        STAMP,
    );
    assert!(
        grouped.count == 2 && grouped.packages.len() == 2,
        "grouped preview covers {} packages ({:?}), want 2",
        grouped.count,
        grouped.packages
    );
}

#[test]
fn batches_go_out_per_receiver() {
    let mut n = Notifier::new(0);
    n.set_batch_window(30 * SECOND);
    let to = vec![target("a", "https://a.example.com"), target("none", ""), target("b", "https://b.example.com")];
    let first = n.notify_approval_request(&to, &event("r", "npm", "x", "1", ""), STAMP);
    assert!(matches!(first, ApprovalStep::Buffered { arm: true }), "the first event starts the timer");
    let second = n.notify_approval_request(&to, &event("r", "npm", "y", "1", ""), STAMP);
    assert!(matches!(second, ApprovalStep::Buffered { arm: false }), "the timer runs already");
    let batches = n.flush();
    assert_eq!(batches.len(), 2, "one batch for each receiver with an address");
    for b in &batches {
        assert_eq!(b.evts.len(), 2, "every receiver gets every event");
    }
    assert!(n.flush().is_empty(), "a flush empties the buffer");
}

#[test]
fn without_a_window_alarms_go_out_at_once() {
    let mut n = Notifier::new(0);
    let nobody = n.notify_approval_request(&vec![], &event("r", "npm", "x", "1", ""), STAMP);
    assert!(matches!(nobody, ApprovalStep::Nothing));
    let to = vec![target("a", "https://a.example.com"), target("none", "")];
    match n.notify_approval_request(&to, &event("r", "npm", "x", "1", ""), STAMP) {
        ApprovalStep::Send { payload, targets } => {
            assert_eq!(payload.package, "x");
            assert_eq!(targets.len(), 1);
            assert_eq!(targets[0].url, "https://a.example.com");
        }
        _ => panic!("the alarm was not sent"),
    }
}

#[test]
fn delivery_is_judged_by_the_status() {
    assert!(delivery_outcome(Attempt::Answered(204)).0);
    assert!(!delivery_outcome(Attempt::Answered(500)).0);
    assert_eq!(delivery_outcome(Attempt::NotBuilt).1, "could not build request");
    assert!(!delivery_outcome(Attempt::NoResponse).0);
    assert!(check_status(200).is_ok());
    assert!(check_status(404).is_err());
    let packages = evt_packages(&vec![event("r", "npm", "x", "1.0", "")]);
    assert_eq!(delivery_record(true, &packages), Some(DELIVERY_DELIVERED));
    assert_eq!(delivery_record(false, &packages), Some(DELIVERY_FAILED));
    let none: Vec<DeliveredPackage> = Vec::new();
    assert_eq!(delivery_record(true, &none), None);
    assert_eq!(reachable_targets(&vec![target("a", ""), target("b", "u")]).len(), 1);
}

#[test]
fn is_full_coverage_cases() {
    let cases: [(&str, CoverageReport, bool); 5] = [
        (
            "everything applied",
            CoverageReport { target: 10, applied: 10, ..Default::default() },
            true,
        ),
        (
            "one partial is not done",
            CoverageReport { target: 10, applied: 9, partial: 1, ..Default::default() },
            false,
        ),
        (
            "one missing is not done",
            CoverageReport { target: 10, applied: 9, not_applied: 1, ..Default::default() },
            false,
        ),
        // An error hides a verdict, so the run cannot claim full coverage.
        (
            "a scan error is not done",
            CoverageReport { target: 10, applied: 9, errored: 1, ..Default::default() },
            false,
        ),
        // No target usually means the scope is wrong, not that the work is
        // finished, so it must not silence the report.
        ("no target at all", CoverageReport::default(), false),
    ];
    for (name, input, want) in cases {
        assert_eq!(is_full_coverage(&input), want, "{name}");
    }
}

#[test]
fn build_coverage_report() {
    let n = test_notifier();
    let payload = report(
        &n,
        &CoverageReport {
            target: 4,
            applied: 1,
            partial: 1,
            not_applied: 2,
            skipped: 3,
            not_applied_projects: vec![
                project("a/missing", false, "https://gitlab.example.com/a/missing"),
                project("b/half", true, ""),
            ],
            ..Default::default()
        },
    );

    assert_eq!(payload.event, "coverage.report");
    assert_eq!(payload.percent, 25, "percent");
    assert_eq!(payload.projects.len(), 2, "structured projects");
    assert!(
        payload.text.contains("2 projects"),
        "the heading does not report the count:\n{}",
        payload.text
    );
    for want in [
        "*<https://forklift.example.com/workspace/coverage|Forklift coverage report>*",
        "25.0%",
        "<https://gitlab.example.com/a/missing|a/missing>",
        "(partial)",
        "<https://forklift.example.com|Forklift>",
    ] {
        assert!(payload.text.contains(want), "text is missing {want:?}:\n{}", payload.text);
    }
    // The console's own copy rules apply to alarm text too.
    assert!(
        !payload.text.contains(['—', '·']),
        "text uses an em-dash or middot:\n{}",
        payload.text
    );
    assert_eq!(
        payload.text,
        "*<https://forklift.example.com/workspace/coverage|Forklift coverage report>*\n\
         Projects not yet building through <https://forklift.example.com|Forklift>.\n\
         *Coverage*: 25.0%\n\
         *Target (has CI)*: 4, applied 1, partial 1, not applied 2, scan errors 0\n\
         *Out of scope (no CI)*: 3\n\
         \n\
         *Not fully applied, 2 projects*\n\
         1. <https://gitlab.example.com/a/missing|a/missing>\n\
         2. b/half (partial)"
    );
}

#[test]
fn build_coverage_report_caps_the_list() {
    let n = test_notifier();
    let many: Vec<CoverageProject> =
        (0..MAX_LISTED_PROJECTS + 5).map(|_| project("team/p", false, "")).collect();
    let payload = report(
        &n,
        &CoverageReport {
            target: 100,
            applied: 45,
            not_applied: many.len() as i64,
            not_applied_projects: many,
            ..Default::default()
        },
    );
    assert_eq!(
        payload.projects.len(),
        MAX_LISTED_PROJECTS,
        "listed projects, want the list capped at {MAX_LISTED_PROJECTS}"
    );
    assert!(
        payload.text.contains("55 projects"),
        "the heading does not report the full count:\n{}",
        payload.text
    );
    // The cut is where a reader most needs a way out, so it carries the link.
    assert!(
        payload.text.contains("5 more")
            && payload.text.contains("https://forklift.example.com/workspace/coverage?status=no"),
        "the truncation pointer is missing its link:\n{}",
        payload.text
    );
}

#[test]
fn build_coverage_report_title_without_external_url() {
    let n = Notifier::new(2 * SECOND);
    let payload = report(&n, &CoverageReport { target: 2, applied: 2, ..Default::default() });
    assert!(
        payload.text.contains("*Forklift coverage report*"),
        "the title is not plain text:\n{}",
        payload.text
    );
    assert!(
        !payload.text.contains('<'),
        "text carries a link with no external URL set:\n{}",
        payload.text
    );
}

#[test]
fn build_coverage_report_singular() {
    let payload = report(
        &test_notifier(),
        &CoverageReport {
            target: 2,
            applied: 1,
            not_applied: 1,
            not_applied_projects: vec![project("team/only", false, "")],
            ..Default::default()
        },
    );
    assert!(
        payload.text.contains("1 project*"),
        "singular count is not used:\n{}",
        payload.text
    );
}

#[test]
fn build_coverage_report_marks_a_sample() {
    let n = test_notifier();
    let payload = report(&n, &sample_coverage_report());
    assert_eq!(
        payload.event, "test",
        "want test so a sample is never mistaken for a real report"
    );
    assert!(payload.text.starts_with("*[TEST]"), "a sample is not marked:\n{}", payload.text);
}

#[test]
fn build_coverage_report_with_no_target() {
    // A report before anything is measured must not divide by zero.
    let payload = report(&test_notifier(), &CoverageReport::default());
    assert!(
        payload.percent == 0 && payload.text.contains("*Coverage*: -"),
        "empty report = {}\n{}",
        payload.percent,
        payload.text
    );
}
