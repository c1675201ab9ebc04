//! What holds of alarms: what they say, whom they reach, and what is grouped.

use vstd::prelude::*;

use crate::notify::batch::{
    add_event, alarm_for, batch_map, clean_count_of, distinct_packages, first_of_repo,
    grouped_fields, grouped_payload, grouped_repo, package_key, package_keys, preview_evts,
    repos_of, requester_line, requesters_of, severity_rank,
    top_verdict, top_verdict_is_the_worst, vulnerability_line, ApprovalStep, BatchView,
    PreviewPackage, TargetBatch, VerdictView,
};
use crate::notify::coverage::{
    coverage_page, coverage_subtitle, coverage_title, is_full_coverage, listed_paths, project_line,
    project_lines, CoveragePayload, CoverageProject, CoverageReport,
};
use crate::notify::{
    advisory_link, alarm_lines, alarm_text, check_status, coordinate_of, delivery_outcome,
    delivery_record, product_link, reachable, repo_field_text, repo_link_text, sample_payload,
    single_payload, test_payload_view, who_of, ApprovalEvt, Attempt, DeliveredPackage, Error, Evt,
    Notifier, Target,
};
use crate::text::{
    ascending, decimal, digits, join, lemma_sorted_set_holds, sorted_set, starts, text_lt, trim_end,
};

verus! {

// ---------------------------------------------------------------------------
// Delivery

/// A delivery succeeds where the webhook answers below three hundred, and fails otherwise;
/// the result is recorded for the packages that were covered.
pub proof fn deliveries_are_judged_by_status(
    attempt: Attempt,
    r: (bool, String),
    ok: bool,
    packages: &Vec<DeliveredPackage>,
    recorded: Option<&'static str>,
    status: u16,
    checked: Result<(), Error>,
)
    requires
        call_ensures(delivery_outcome, (attempt,), r),
        call_ensures(delivery_record, (ok, packages), recorded),
        call_ensures(check_status, (status,), checked),
    ensures
        attempt == Attempt::NotBuilt || attempt == Attempt::NoResponse ==> !r.0,
        attempt is Answered ==> (r.0 <==> attempt->Answered_0 < 300),
        attempt is Answered ==> r.1@ == "HTTP "@ + digits(attempt->Answered_0 as nat),
        packages@.len() == 0 ==> recorded is None,
        packages@.len() > 0 && ok ==> recorded is Some && recorded->0@ == "delivered"@,
        packages@.len() > 0 && !ok ==> recorded is Some && recorded->0@ == "failed"@,
        checked is Ok <==> status < 300,
        checked is Err ==> checked->Err_0 == Error::Status(status),
{
}

/// A message goes to each receiver that has a URL, and to no other.
pub proof fn messages_reach_those_with_a_url(targets: Seq<Target>, i: int, name: Seq<char>, url: Seq<char>)
    ensures
        0 <= i < targets.len() && targets[i].url@.len() > 0 ==> reachable(targets).contains(
            (targets[i].name@, targets[i].url@),
        ),
        reachable(targets).contains((name, url)) ==> url.len() > 0 && exists|j: int|
            0 <= j < targets.len() && (#[trigger] targets[j]).name@ == name && targets[j].url@
                == url,
    decreases targets.len(),
{
    if targets.len() > 0 {
        let front = targets.drop_last();
        let p = reachable(front);
        let r = reachable(targets);
        messages_reach_those_with_a_url(front, i, name, url);
        if 0 <= i < targets.len() && targets[i].url@.len() > 0 {
            let x = (targets[i].name@, targets[i].url@);
            if i < front.len() {
                assert(front[i] == targets[i]);
                let k = choose|k: int| 0 <= k < p.len() && p[k] == x;
                assert(r[k] == x);
            } else {
                assert(r[p.len() as int] == x);
            }
        }
        if r.contains((name, url)) {
            let k = choose|k: int| 0 <= k < r.len() && r[k] == (name, url);
            if k < p.len() {
                assert(p[k] == (name, url));
                let j = choose|j: int|
                    0 <= j < front.len() && (#[trigger] front[j]).name@ == name && front[j].url@
                        == url;
                assert(targets[j] == front[j]);
            } else {
                assert(targets[targets.len() - 1].url@ == url);
            }
        }
    }
}

/// A notifier waits five seconds where no time is set, and links to where it is told,
/// without a slash at the end.
pub proof fn notifiers_are_set_up(
    timeout: u64,
    r: Notifier,
    s: &mut Notifier,
    u: &str,
)
    requires
        call_ensures(Notifier::new, (timeout,), r),
        call_ensures(Notifier::set_external_url, (s, u), ()),
    ensures
        timeout == 0 ==> r.timeout == 5 * 1_000_000_000,
        timeout != 0 ==> r.timeout == timeout,
        r.batch_window == 0,
        r.batch is None,
        u@.len() > 0 && u@.last() != '/' ==> final(s).external_url@ == u@,
        final(s).external_url@ == trim_end(u@, '/'),
{
}

// ---------------------------------------------------------------------------
// Texts

/// An alarm is its title in bold, its subtitle, and a line for each field, each on a line of
/// its own.
pub proof fn alarms_are_written_line_by_line(
    title: Seq<char>,
    subtitle: Seq<char>,
    fields: Seq<(Seq<char>, Seq<char>)>,
    label: Seq<char>,
    value: Seq<char>,
)
    ensures
        alarm_text(title, Seq::empty(), Seq::empty()) == "*"@ + title + "*"@,
        subtitle.len() > 0 ==> alarm_text(title, subtitle, Seq::empty()) == "*"@ + title + "*"@
            + "\n"@ + subtitle,
        alarm_text(title, subtitle, fields.push((label, value))) == alarm_text(
            title,
            subtitle,
            fields,
        ) + "\n"@ + ("*"@ + label + "*: "@ + value),
{
    let none = Seq::<(Seq<char>, Seq<char>)>::empty();
    let first = "*"@ + title + "*"@;
    assert(alarm_lines(title, Seq::empty(), none) =~= seq![first]);
    if subtitle.len() > 0 {
        let two = seq![first, subtitle];
        assert(alarm_lines(title, subtitle, none) =~= two);
        assert(two.drop_last() =~= seq![first]);
        assert(join(seq![first], "\n"@) == first);
    }
    let more = alarm_lines(title, subtitle, fields.push((label, value)));
    let fewer = alarm_lines(title, subtitle, fields);
    assert(more =~= fewer.push("*"@ + label + "*: "@ + value));
    assert(more.drop_last() =~= fewer);
    assert(fewer.len() > 0);
}

/// An advisory links to the register that its name says.
pub proof fn advisories_link_to_their_register(rest: Seq<char>, id: Seq<char>)
    ensures
        advisory_link("CVE-"@ + rest) == "<"@ + ("https://www.cve.org/CVERecord?id="@ + ("CVE-"@
            + rest)) + "|"@ + ("CVE-"@ + rest) + ">"@,
        advisory_link("GHSA-"@ + rest) == "<"@ + ("https://github.com/advisories/"@ + ("GHSA-"@
            + rest)) + "|"@ + ("GHSA-"@ + rest) + ">"@,
        !starts(id, "CVE-"@) && !starts(id, "GHSA-"@) ==> advisory_link(id) == "<"@ + (
        "https://osv.dev/vulnerability/"@ + id) + "|"@ + id + ">"@,
{
    reveal_strlit("CVE-");
    reveal_strlit("GHSA-");
    let c = "CVE-"@ + rest;
    let g = "GHSA-"@ + rest;
    assert(c.take("CVE-"@.len() as int) =~= "CVE-"@);
    assert(g.take("GHSA-"@.len() as int) =~= "GHSA-"@);
    if starts(g, "CVE-"@) {
        assert(g.take(4)[0] == 'G');
        assert("CVE-"@[0] == 'C');
    }
}

/// Names are links where there is a console to link to; who is unknown is anonymous, and a
/// package is named with its version where it has one.
pub proof fn names_are_written_out(
    ext: Seq<char>,
    name: Seq<char>,
    id: int,
    format: Seq<char>,
    pkg: Seq<char>,
    version: Seq<char>,
)
    ensures
        product_link(Seq::empty()) == "Forklift"@,
        ext.len() > 0 ==> product_link(ext) == "<"@ + ext + "|Forklift>"@,
        repo_link_text(Seq::empty(), name, id) == name,
        repo_link_text(ext, name, 0) == name,
        ext.len() > 0 && id != 0 ==> repo_link_text(ext, name, id) == "<"@ + ext
            + "/workspace/repositories/"@ + decimal(id) + "/approvals|"@ + name + ">"@,
        repo_field_text(ext, name, id, Seq::empty()) == repo_link_text(ext, name, id),
        format.len() > 0 ==> repo_field_text(ext, name, id, format) == repo_link_text(ext, name, id)
            + " ("@ + format + ")"@,
        who_of(Seq::empty()) == "anonymous"@,
        name.len() > 0 ==> who_of(name) == name,
        coordinate_of(pkg, Seq::empty()) == pkg,
        version.len() > 0 ==> coordinate_of(pkg, version) == pkg + "@"@ + version,
{
}

/// An alarm for one package names it, where it is from and who asked; a test and a sample
/// say that they are no alarm.
pub proof fn single_alarms_name_their_package(
    ext: Seq<char>,
    e: Evt,
    name: Seq<char>,
    repo: Seq<char>,
    id: int,
    by: Seq<char>,
    t: Seq<char>,
)
    ensures
        ({
            let p = single_payload(ext, e, t);
            &&& p.event == "approval.request"@ && p.repository == e.repo && p.package == e.pkg
            &&& p.version == e.version && p.requested_by == e.requested_by && p.timestamp == t
            &&& p.count == 0 && p.packages.len() == 0
            &&& p.text == alarm_text(
                "Package pending approval"@,
                "A package is quarantined and awaiting review. Review in "@ + product_link(ext)
                    + "."@,
                seq![
                    ("Repository"@, repo_field_text(ext, e.repo, e.repo_id, e.repo_format)),
                    ("Pending package"@, coordinate_of(e.pkg, e.version)),
                    ("Requested by"@, who_of(e.requested_by)),
                ],
            )
        }),
        test_payload_view(ext, name, t).event == "test"@,
        test_payload_view(ext, name, t).timestamp == t,
        sample_payload(ext, repo, id, by, t).repository == repo,
        sample_payload(ext, repo, id, by, t).requested_by == by,
        sample_payload(ext, repo, id, by, t).event == "approval.request"@,
{
}

// ---------------------------------------------------------------------------
// Grouped alarms

/// Severities rank from low to critical; whatever else is said ranks below them.
pub proof fn severities_are_ranked(other: Seq<char>)
    ensures
        0 < severity_rank("low"@) < severity_rank("medium"@) < severity_rank("high"@)
            < severity_rank("critical"@),
        other != "low"@ && other != "medium"@ && other != "high"@ && other != "critical"@
            ==> severity_rank(other) == 0,
        severity_rank("none"@) == 0,
        severity_rank(Seq::empty()) == 0,
{
    reveal_strlit("low");
    reveal_strlit("medium");
    reveal_strlit("high");
    reveal_strlit("critical");
    reveal_strlit("none");
    assert("low"@.len() == 3 && "medium"@.len() == 6 && "high"@.len() == 4 && "critical"@.len() == 8
        && "none"@.len() == 4);
    assert("high"@[0] == 'h' && "none"@[0] == 'n');
}

/// The verdict that is named is the first of the worst.
pub proof fn the_first_of_the_worst_is_named(v: Seq<VerdictView>, i: int, j: int)
    requires
        top_verdict(v) == Some(i),
        0 <= j < v.len(),
    ensures
        0 <= i < v.len(),
        severity_rank(v[i].severity) > 0,
        severity_rank(v[j].severity) <= severity_rank(v[i].severity),
        j < i ==> severity_rank(v[j].severity) < severity_rank(v[i].severity),
    decreases v.len(),
{
    top_verdict_is_the_worst(v);
    let front = v.drop_last();
    top_verdict_is_the_worst(front);
    assert(forall|k: int| 0 <= k < front.len() ==> front[k] == v[k]);
    if i < front.len() {
        if j < i {
            the_first_of_the_worst_is_named(front, i, j);
        }
    } else if j < i {
        assert(front[j] == v[j]);
    }
}

/// A verdict is named where one ranks at all.
pub proof fn bad_verdicts_are_named(v: Seq<VerdictView>, j: int)
    requires
        0 <= j < v.len(),
        severity_rank(v[j].severity) > 0,
    ensures
        top_verdict(v) is Some,
{
    top_verdict_is_the_worst(v);
}

/// Clean is what was scanned and found to have nothing.
pub proof fn clean_packages_are_counted(v: Seq<VerdictView>, x: VerdictView)
    ensures
        clean_count_of(Seq::empty()) == 0,
        x.scanned && x.severity == "none"@ ==> clean_count_of(v.push(x)) == clean_count_of(v) + 1,
        !x.scanned || x.severity != "none"@ ==> clean_count_of(v.push(x)) == clean_count_of(v),
{
    assert(v.push(x).drop_last() =~= v);
}

/// Up to three are named in full, more by the first two and how many others.
pub proof fn requesters_are_summarised(a: Seq<char>, b: Seq<char>, c: Seq<char>, names: Seq<Seq<char>>)
    ensures
        requester_line(Seq::empty()) == "anonymous"@,
        requester_line(seq![a]) == a,
        requester_line(seq![a, b]) == a + " / "@ + b,
        requester_line(seq![a, b, c]) == a + " / "@ + b + " / "@ + c,
        names.len() > 3 ==> requester_line(names) == names[0] + " / "@ + names[1] + " (+"@ + digits(
            (names.len() - 2) as nat,
        ) + " others)"@,
{
    let two = seq![a, b];
    let three = seq![a, b, c];
    assert(two.drop_last() =~= seq![a]);
    assert(three.drop_last() =~= two);
    assert(join(seq![a], " / "@) == a);
    assert(join(two, " / "@) == a + " / "@ + b);
    if names.len() > 3 {
        let s = names.subrange(0, 2);
        assert(s =~= seq![names[0], names[1]]);
        assert(s.drop_last() =~= seq![names[0]]);
        assert(join(seq![names[0]], " / "@) == names[0]);
    }
}

/// A grouped alarm lists each package of its events once, in order, with its repository and
/// version, and each who asked; it counts what it lists.
pub proof fn grouped_alarms_list_every_package(
    ext: Seq<char>,
    es: Seq<Evt>,
    verdicts: Option<Seq<VerdictView>>,
    t: Seq<char>,
    i: int,
    x: Seq<char>,
)
    requires
        0 <= i < es.len(),
    ensures
        ({
            let p = grouped_payload(ext, es, verdicts, t);
            &&& p.event == "approval.request"@ && p.timestamp == t
            &&& ascending(p.packages) && ascending(p.requesters)
            &&& p.packages.contains(
                es[i].repo + "/"@ + coordinate_of(es[i].pkg, es[i].version),
            )
            &&& p.requesters.contains(who_of(es[i].requested_by))
            &&& p.packages.contains(x) ==> exists|j: int|
                0 <= j < es.len() && x == #[trigger] package_key(es[j])
            &&& p.count == p.packages.len()
            &&& verdicts is None ==> p.clean_count == 0 && p.dirty_count == 0
                && p.max_severity.len() == 0
        }),
{
    let keys = package_keys(es);
    let who = requesters_of(es);
    lemma_sorted_set_holds(keys);
    lemma_sorted_set_holds(who);
    assert(keys[i] == package_key(es[i]));
    assert(keys.contains(package_key(es[i])));
    assert(who[i] == who_of(es[i].requested_by));
    assert(who.contains(who_of(es[i].requested_by)));
    assert(sorted_set(keys).contains(package_key(es[i])));
    assert(sorted_set(who).contains(who_of(es[i].requested_by)));
    if sorted_set(keys).contains(x) {
        assert(keys.contains(x));
        let j = choose|j: int| 0 <= j < keys.len() && keys[j] == x;
        assert(x == package_key(es[j]));
    }
}

/// A grouped alarm names the worst verdict with its score, its advisory and its package.
pub proof fn grouped_alarms_name_the_worst(
    ext: Seq<char>,
    es: Seq<Evt>,
    v: Seq<VerdictView>,
    t: Seq<char>,
    i: int,
)
    requires
        top_verdict(v) == Some(i),
    ensures
        ({
            let p = grouped_payload(ext, es, Some(v), t);
            let e = distinct_packages(es)[i];
            &&& p.max_severity == v[i].severity && p.max_score == v[i].score && p.top_cve == v[i].id
            &&& p.top_package == coordinate_of(e.pkg, e.version)
            &&& p.clean_count == clean_count_of(v)
        }),
{
}

/// The line on vulnerabilities counts the clean and the others, and names the worst.
pub proof fn vulnerabilities_are_summed_up(count: nat, es: Seq<Evt>, v: Seq<VerdictView>, i: int)
    ensures
        top_verdict(v) is None ==> vulnerability_line(count, es, v) == digits(clean_count_of(v))
            + " clean / "@ + digits((count - clean_count_of(v)) as nat) + " dirty"@,
        top_verdict(v) == Some(i) && v[i].score.len() == 0 && v[i].id.len() == 0
            ==> vulnerability_line(count, es, v) == digits(clean_count_of(v)) + " clean / "@ + digits(
            (count - clean_count_of(v)) as nat,
        ) + " dirty"@ + " ("@ + (coordinate_of(es[i].pkg, es[i].version) + " "@ + v[i].severity)
            + ")"@,
        top_verdict(v) == Some(i) && v[i].score.len() > 0 && v[i].id.len() > 0
            ==> vulnerability_line(count, es, v) == digits(clean_count_of(v)) + " clean / "@ + digits(
            (count - clean_count_of(v)) as nat,
        ) + " dirty"@ + " ("@ + (coordinate_of(es[i].pkg, es[i].version) + " "@ + v[i].severity
            + " "@ + v[i].score + " "@ + advisory_link(v[i].id)) + ")"@,
{
}

/// Of several events that name one package the first counts.
pub proof fn the_first_event_of_a_package_counts(es: Seq<Evt>, e: Evt)
    ensures
        distinct_packages(Seq::empty()).len() == 0,
        package_keys(es).contains(e.repo + "/"@ + coordinate_of(e.pkg, e.version))
            ==> distinct_packages(es.push(e)) == distinct_packages(es),
        !package_keys(es).contains(e.repo + "/"@ + coordinate_of(e.pkg, e.version))
            ==> distinct_packages(es.push(e)) == distinct_packages(es).push(e),
{
    assert(es.push(e).drop_last() =~= es);
}

/// One event is announced by itself, several together.
pub proof fn several_events_are_grouped(
    ext: Seq<char>,
    e: Evt,
    es: Seq<Evt>,
    verdicts: Option<Seq<VerdictView>>,
    t: Seq<char>,
)
    ensures
        alarm_for(ext, seq![e], verdicts, t) == single_payload(ext, e, t),
        es.len() > 1 ==> alarm_for(ext, es, verdicts, t) == grouped_payload(ext, es, verdicts, t),
{
}

/// A preview is of the packages it is asked for, in their order.
pub proof fn previews_are_of_their_packages(
    repo: Seq<char>,
    id: int,
    format: Seq<char>,
    pkgs: Seq<PreviewPackage>,
    i: int,
)
    requires
        0 <= i < pkgs.len(),
    ensures
        ({
            let es = preview_evts(repo, id, format, pkgs);
            &&& es.len() == pkgs.len()
            &&& es[i].repo == repo && es[i].repo_id == id && es[i].repo_format == format
            &&& es[i].pkg == pkgs[i].package@ && es[i].version == pkgs[i].version@
            &&& es[i].requested_by == pkgs[i].requested_by@
        }),
{
}

// ---------------------------------------------------------------------------
// Buffering

/// An event joins those that wait for the same URL, or waits alone; a receiver without URL
/// gets none.
pub proof fn events_wait_by_url(m: Map<Seq<char>, BatchView>, t: Target, e: Evt, other: Seq<char>)
    requires
        other != t.url@,
    ensures
        t.url@.len() == 0 ==> add_event(m, t, e) == m,
        t.url@.len() > 0 && !m.contains_key(t.url@) ==> add_event(m, t, e)[t.url@].evts == seq![e]
            && add_event(m, t, e)[t.url@].name == t.name@,
        t.url@.len() > 0 && m.contains_key(t.url@) ==> add_event(m, t, e)[t.url@].evts
            == m[t.url@].evts.push(e) && add_event(m, t, e)[t.url@].name == m[t.url@].name,
        add_event(m, t, e).contains_key(other) <==> m.contains_key(other),
        m.contains_key(other) ==> add_event(m, t, e)[other] == m[other],
{
}

/// Without receivers nothing happens; without a window the alarm goes out at once; with one
/// the event waits, and the first to wait starts the timer.
pub proof fn events_wait_for_the_window(
    s: &mut Notifier,
    targets: &Vec<Target>,
    evt: &ApprovalEvt,
    timestamp: &str,
    r: ApprovalStep,
)
    requires
        call_ensures(Notifier::notify_approval_request, (s, targets, evt, timestamp), r),
    ensures
        targets@.len() == 0 ==> r is Nothing,
        targets@.len() > 0 && old(s).batch_window == 0 ==> r is Send && final(s).buffered() == old(
            s,
        ).buffered(),
        targets@.len() > 0 && old(s).batch_window != 0 ==> r is Buffered && final(s).timer_armed
            && (r->arm <==> !old(s).timer_armed),
        targets@.len() == 1 && targets@[0].url@.len() > 0 && old(s).batch_window != 0
            ==> final(s).buffered().contains_key(targets@[0].url@)
            && final(s).buffered()[targets@[0].url@].evts.last() == evt@,
{
    if targets@.len() == 1 && targets@[0].url@.len() > 0 && old(s).batch_window != 0 {
        crate::notify::batch::every_receiver_gets_the_event(
            old(s).buffered(),
            targets@,
            evt@,
            0,
        );
    }
}

/// The flush hands out all that waits, and leaves nothing waiting.
pub proof fn the_flush_hands_out_all(s: &mut Notifier, r: Vec<TargetBatch>)
    requires
        call_ensures(Notifier::flush, (s,), r),
    ensures
        batch_map(r@) == old(s).buffered(),
        final(s).buffered() == Map::<Seq<char>, BatchView>::empty(),
        !final(s).timer_armed,
{
}

// ---------------------------------------------------------------------------
// Coverage

/// Coverage is full where there are projects and none is partial, missing or in error.
pub proof fn full_coverage_leaves_nothing(r: &CoverageReport, full: bool)
    requires
        call_ensures(is_full_coverage, (r,), full),
    ensures
        r.target <= 0 ==> !full,
        r.partial != 0 || r.not_applied != 0 || r.errored != 0 ==> !full,
        r.target > 0 && r.partial == 0 && r.not_applied == 0 && r.errored == 0 ==> full,
{
}

/// A project is listed under its number, as a link where it has one, and marked where it is
/// partial; at most fifty are.
pub proof fn projects_are_listed_by_number(projects: Seq<CoverageProject>, p: CoverageProject, i: int)
    requires
        0 <= i,
    ensures
        p.web_url@.len() == 0 && !p.partial ==> project_line(p, i) == digits((i + 1) as nat) + ". "@
            + p.path@,
        p.web_url@.len() > 0 && !p.partial ==> project_line(p, i) == digits((i + 1) as nat) + ". "@
            + ("<"@ + p.web_url@ + "|"@ + p.path@ + ">"@),
        p.web_url@.len() == 0 && p.partial ==> project_line(p, i) == digits((i + 1) as nat) + ". "@
            + p.path@ + " (partial)"@,
        projects.len() <= 50 ==> listed_paths(projects).len() == projects.len(),
        projects.len() > 50 ==> listed_paths(projects).len() == 50,
        i < listed_paths(projects).len() ==> listed_paths(projects)[i] == projects[i].path@,
{
}

/// The list is headed by how many there are in all, and says how many more there are than
/// it shows.
pub proof fn lists_say_how_many(ext: Seq<char>, projects: Seq<CoverageProject>, i: int)
    ensures
        projects.len() == 1 ==> project_lines(ext, projects)[1] == "*Not fully applied, "@ + digits(1)
            + " "@ + "project"@ + "*"@,
        projects.len() != 1 ==> project_lines(ext, projects)[1] == "*Not fully applied, "@ + digits(
            projects.len(),
        ) + " "@ + "projects"@ + "*"@,
        project_lines(ext, projects)[0] == ""@,
        projects.len() <= 50 ==> project_lines(ext, projects).len() == projects.len() + 2,
        projects.len() > 50 ==> project_lines(ext, projects).len() == 53 && project_lines(
            ext,
            projects,
        )[52] == "_"@ + digits((projects.len() - 50) as nat) + " more, "@ + coverage_page(
            ext,
            "see the coverage page"@,
            "status=no"@,
        ) + "_"@,
        0 <= i < projects.len() && i < 50 ==> project_lines(ext, projects)[i + 2] == project_line(
            projects[i],
            i,
        ),
{
}

/// A report says what it is, and a sample that it is one.
pub proof fn reports_say_what_they_are(
    s: &Notifier,
    r: &CoverageReport,
    coverage: &str,
    percent: i64,
    timestamp: &str,
    p: CoveragePayload,
)
    requires
        call_ensures(Notifier::build_coverage_report, (s, r, coverage, percent, timestamp), p),
    ensures
        r.sample ==> p.event@ == "test"@,
        !r.sample ==> p.event@ == "coverage.report"@,
        p.target == r.target && p.applied == r.applied && p.partial == r.partial,
        p.not_applied == r.not_applied && p.errored == r.errored && p.skipped == r.skipped,
        p.percent == percent,
        p.timestamp@ == timestamp@,
        r.not_applied_projects@.len() == 0 ==> p.text@ == alarm_text(
            coverage_title(s.external_url@, r.sample),
            coverage_subtitle(s.external_url@, r.sample),
            seq![
                ("Coverage"@, coverage@),
                (
                    "Target (has CI)"@,
                    decimal(r.target as int) + ", applied "@ + decimal(r.applied as int)
                        + ", partial "@ + decimal(r.partial as int) + ", not applied "@ + decimal(
                        r.not_applied as int,
                    ) + ", scan errors "@ + decimal(r.errored as int),
                ),
                ("Out of scope (no CI)"@, decimal(r.skipped as int)),
            ],
        ),
{
}

/// The page is a link where there is a console, and the report is titled by it.
pub proof fn reports_link_to_their_page(ext: Seq<char>, label: Seq<char>, query: Seq<char>)
    ensures
        coverage_page(Seq::empty(), label, query) == label,
        ext.len() > 0 ==> coverage_page(ext, label, Seq::empty()) == "<"@ + (ext
            + "/workspace/coverage"@) + "|"@ + label + ">"@,
        ext.len() > 0 && query.len() > 0 ==> coverage_page(ext, label, query) == "<"@ + (ext
            + "/workspace/coverage"@ + "?"@ + query) + "|"@ + label + ">"@,
        coverage_title(Seq::empty(), false) == "Forklift coverage report"@,
        coverage_title(Seq::empty(), true) == "[TEST] "@ + "Forklift coverage report"@,
{
}

/// A grouped alarm names each repository with the link and the format that the first event
/// of it gives; where all events are of one repository that is the whole line.
pub proof fn grouped_alarms_name_their_repositories(
    ext: Seq<char>,
    es: Seq<Evt>,
    verdicts: Option<Seq<VerdictView>>,
    i: int,
)
    requires
        0 <= i < es.len(),
        forall|j: int| 0 <= j < i ==> (#[trigger] es[j]).repo != es[i].repo,
    ensures
        grouped_repo(ext, es, es[i].repo) == repo_field_text(
            ext,
            es[i].repo,
            es[i].repo_id,
            es[i].repo_format,
        ),
        (forall|j: int| 0 <= j < es.len() ==> (#[trigger] es[j]).repo == es[0].repo)
            ==> grouped_fields(ext, es, verdicts)[0] == (
            "Repository"@,
            repo_field_text(ext, es[0].repo, es[0].repo_id, es[0].repo_format),
        ),
        grouped_fields(ext, es, verdicts)[1] == (
            "Pending packages"@,
            digits(sorted_set(package_keys(es)).len()),
        ),
        grouped_fields(ext, es, verdicts).last().0 == "Requested by"@,
        verdicts is None ==> grouped_fields(ext, es, verdicts).len() == 3,
        verdicts is Some ==> grouped_fields(ext, es, verdicts).len() == 4 && grouped_fields(
            ext,
            es,
            verdicts,
        )[2].0 == "Vulnerability"@,
{
    lemma_first_of_repo(es, i, 0);
    if forall|j: int| 0 <= j < es.len() ==> (#[trigger] es[j]).repo == es[0].repo {
        lemma_first_of_repo(es, 0, 0);
        let repos = repos_of(es);
        let set = sorted_set(repos);
        lemma_sorted_set_holds(repos);
        assert(repos[0] == es[0].repo);
        assert(repos.contains(es[0].repo));
        assert(set.contains(es[0].repo));
        assert forall|k: int| 0 <= k < set.len() implies #[trigger] set[k] == es[0].repo by {
            assert(set.contains(set[k]));
            let j = choose|j: int| 0 <= j < repos.len() && repos[j] == set[k];
            assert(repos[j] == es[j].repo);
        }
        if set.len() > 1 {
            assert(text_lt(set[0], set[1]));
            crate::text::lemma_text_lt_asymmetric(set[0], set[1]);
        }
        let links = set.map_values(|r: Seq<char>| grouped_repo(ext, es, r));
        assert(links.len() == 1 && links[0] == grouped_repo(ext, es, es[0].repo));
    }
}

proof fn lemma_first_of_repo(es: Seq<Evt>, i: int, k: int)
    requires
        0 <= k <= i < es.len(),
        forall|j: int| 0 <= j < i ==> (#[trigger] es[j]).repo != es[i].repo,
    ensures
        first_of_repo(es, es[i].repo, k) == i,
    decreases i - k,
{
    if k < i {
        assert(es[k].repo != es[i].repo);
        lemma_first_of_repo(es, i, k + 1);
    }
}

} // verus!
