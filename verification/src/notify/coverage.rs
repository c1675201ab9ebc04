//! Coverage report alarms: a scan's headline numbers plus the projects still to
//! migrate.

use vstd::prelude::*;

use crate::notify::{
    alarm_text, field_views, product_link, reachable, reachable_targets, render_alarm, target_views,
    AlarmField, Notifier, Target,
};
use crate::text::{cat, decimal, digits, itoa, join, join_texts, texts, utoa};

verus! {

/// Caps the project list in a coverage report.
pub const MAX_LISTED_PROJECTS: usize = 50;

/// One project named in a coverage report.
pub struct CoverageProject {
    pub path: String,
    /// Marks a project wired on one side only (CI or registry, not both).
    pub partial: bool,
    /// Deep-links the project; empty renders as plain text.
    pub web_url: String,
}

/// The input to a coverage alarm: the headline counts plus the projects still to
/// migrate.
pub struct CoverageReport {
    pub target: i64,
    pub applied: i64,
    pub partial: i64,
    pub not_applied: i64,
    pub errored: i64,
    pub skipped: i64,
    pub not_applied_projects: Vec<CoverageProject>,
    /// Marks a preview built from made-up numbers.
    pub sample: bool,
}

impl Default for CoverageReport {
    fn default() -> (r: CoverageReport)
        ensures
            r.target == 0,
            r.applied == 0,
            r.partial == 0,
            r.not_applied == 0,
            r.errored == 0,
            r.skipped == 0,
            r.not_applied_projects@.len() == 0,
            !r.sample,
    {
        CoverageReport {
            target: 0,
            applied: 0,
            partial: 0,
            not_applied: 0,
            errored: 0,
            skipped: 0,
            not_applied_projects: Vec::new(),
            sample: false,
        }
    }
}

/// The body posted for a coverage report.
pub struct CoveragePayload {
    pub text: String,
    pub event: String,
    pub target: i64,
    pub applied: i64,
    pub partial: i64,
    pub not_applied: i64,
    pub errored: i64,
    pub skipped: i64,
    pub percent: i64,
    /// The paths still to migrate, capped the same as the text.
    pub projects: Vec<String>,
    pub timestamp: String,
}

/// Reports that the last scan left nothing to act on: every target project is
/// applied, with no partial, none missing, and no scan error hiding a verdict. A
/// scan that found no target at all is not full coverage.
pub fn is_full_coverage(r: &CoverageReport) -> (full: bool)
    ensures
        full == (r.target > 0 && r.partial == 0 && r.not_applied == 0 && r.errored == 0),
{
    r.target > 0 && r.partial == 0 && r.not_applied == 0 && r.errored == 0
}

/// The console's coverage page as a link; the label alone where there is no console.
pub open spec fn coverage_page(ext: Seq<char>, label: Seq<char>, query: Seq<char>) -> Seq<char> {
    let page = ext + "/workspace/coverage"@;
    let url = if query.len() == 0 {
        page
    } else {
        page + "?"@ + query
    };
    if ext.len() == 0 {
        label
    } else {
        "<"@ + url + "|"@ + label + ">"@
    }
}

/// The title of a coverage report.
pub open spec fn coverage_title(ext: Seq<char>, sample: bool) -> Seq<char> {
    let link = coverage_page(ext, "Forklift coverage report"@, ""@);
    if sample {
        "[TEST] "@ + link
    } else {
        link
    }
}

/// The line under the title.
pub open spec fn coverage_subtitle(ext: Seq<char>, sample: bool) -> Seq<char> {
    if sample {
        "Sample report with example numbers. No action needed."@
    } else {
        "Projects not yet building through "@ + product_link(ext) + "."@
    }
}

/// The counts of the projects in scope.
pub open spec fn scope_line(r: CoverageReport) -> Seq<char> {
    decimal(r.target as int) + ", applied "@ + decimal(r.applied as int) + ", partial "@ + decimal(
        r.partial as int,
    ) + ", not applied "@ + decimal(r.not_applied as int) + ", scan errors "@ + decimal(
        r.errored as int,
    )
}

/// The head of a coverage report. `coverage` is the share of applied projects, as
/// text.
pub open spec fn coverage_head(ext: Seq<char>, r: CoverageReport, coverage: Seq<char>) -> Seq<char> {
    alarm_text(
        coverage_title(ext, r.sample),
        coverage_subtitle(ext, r.sample),
        seq![
            ("Coverage"@, coverage),
            ("Target (has CI)"@, scope_line(r)),
            ("Out of scope (no CI)"@, decimal(r.skipped as int)),
        ],
    )
}

/// The numbered line of a project.
pub open spec fn project_line(p: CoverageProject, i: int) -> Seq<char> {
    let label = if p.web_url@.len() == 0 {
        p.path@
    } else {
        "<"@ + p.web_url@ + "|"@ + p.path@ + ">"@
    };
    let numbered = digits((i + 1) as nat) + ". "@ + label;
    if p.partial {
        numbered + " (partial)"@
    } else {
        numbered
    }
}

/// How many projects are listed.
pub open spec fn listed_count(n: nat) -> int {
    if n > MAX_LISTED_PROJECTS {
        MAX_LISTED_PROJECTS as int
    } else {
        n as int
    }
}

/// The lines of the project list: an empty one, the heading with the full count, a
/// numbered line for each listed project, and a pointer to the page where the list
/// was cut.
pub open spec fn project_lines(ext: Seq<char>, projects: Seq<CoverageProject>) -> Seq<Seq<char>> {
    let n = listed_count(projects.len());
    let noun = if projects.len() == 1 {
        "project"@
    } else {
        "projects"@
    };
    let head = seq![
        ""@,
        "*Not fully applied, "@ + digits(projects.len()) + " "@ + noun + "*"@,
    ];
    let listed = head + Seq::new(n as nat, |i: int| project_line(projects[i], i));
    if projects.len() > n {
        listed.push(
            "_"@ + digits((projects.len() - n) as nat) + " more, "@ + coverage_page(
                ext,
                "see the coverage page"@,
                "status=no"@,
            ) + "_"@,
        )
    } else {
        listed
    }
}

/// The text of a coverage report.
pub open spec fn coverage_text(ext: Seq<char>, r: CoverageReport, coverage: Seq<char>) -> Seq<char> {
    let head = coverage_head(ext, r, coverage);
    if r.not_applied_projects@.len() == 0 {
        head
    } else {
        head + "\n"@ + join(project_lines(ext, r.not_applied_projects@), "\n"@)
    }
}

/// The paths of the listed projects.
pub open spec fn listed_paths(projects: Seq<CoverageProject>) -> Seq<Seq<char>> {
    Seq::new(listed_count(projects.len()) as nat, |i: int| projects[i].path@)
}

impl Notifier {
    /// Renders the console's coverage page as a link. `query` filters the page to the
    /// projects a line is about; without an external URL the label is returned as
    /// plain text.
    fn coverage_link(&self, label: &str, query: &str) -> (r: String)
        ensures
            r@ == coverage_page(self.external_url@, label@, query@),
    {
        if self.external_url.as_str().is_empty() {
            return label.to_owned();
        }
        let mut url = cat(self.external_url.as_str(), "/workspace/coverage");
        if !query.is_empty() {
            url.append("?");
            url.append(query);
        }
        let mut s = "<".to_owned();
        s.append(url.as_str());
        s.append("|");
        s.append(label);
        s.append(">");
        s
    }

    fn coverage_alarm(&self, r: &CoverageReport, coverage: &str) -> (text: String)
        ensures
            text@ == coverage_head(self.external_url@, *r, coverage@),
    {
        proof {
            reveal_strlit("");
            assert(""@ =~= Seq::<char>::empty());
        }
        let link = self.coverage_link("Forklift coverage report", "");
        let title = if r.sample {
            cat("[TEST] ", link.as_str())
        } else {
            link
        };
        let mut scope = itoa(r.target);
        scope.append(", applied ");
        scope.append(itoa(r.applied).as_str());
        scope.append(", partial ");
        scope.append(itoa(r.partial).as_str());
        scope.append(", not applied ");
        scope.append(itoa(r.not_applied).as_str());
        scope.append(", scan errors ");
        scope.append(itoa(r.errored).as_str());
        let mut fields: Vec<AlarmField> = Vec::new();
        fields.push(AlarmField::new("Coverage", coverage.to_owned()));
        fields.push(AlarmField::new("Target (has CI)", scope));
        fields.push(AlarmField::new("Out of scope (no CI)", itoa(r.skipped)));
        assert(field_views(fields@) =~= seq![
            ("Coverage"@, coverage@),
            ("Target (has CI)"@, scope_line(*r)),
            ("Out of scope (no CI)"@, decimal(r.skipped as int)),
        ]);
        let subtitle = if r.sample {
            "Sample report with example numbers. No action needed.".to_owned()
        } else {
            let mut s = "Projects not yet building through ".to_owned();
            s.append(self.forklift().as_str());
            s.append(".");
            s
        };
        render_alarm(title.as_str(), subtitle.as_str(), &fields)
    }

    /// Renders a coverage alarm. `coverage` is the share of applied projects as text
    /// and `percent` the same, rounded to a whole number.
    pub fn build_coverage_report(
        &self,
        r: &CoverageReport,
        coverage: &str,
        percent: i64,
        timestamp: &str,
    ) -> (p: CoveragePayload)
        ensures
            p.text@ == coverage_text(self.external_url@, *r, coverage@),
            p.event@ == (if r.sample {
                "test"@
            } else {
                "coverage.report"@
            }),
            p.target == r.target,
            p.applied == r.applied,
            p.partial == r.partial,
            p.not_applied == r.not_applied,
            p.errored == r.errored,
            p.skipped == r.skipped,
            p.percent == percent,
            texts(p.projects@) == listed_paths(r.not_applied_projects@),
            p.timestamp@ == timestamp@,
    {
        let mut text = self.coverage_alarm(r, coverage);
        let projects = &r.not_applied_projects;
        let n = projects.len();
        let shown: usize = if n > MAX_LISTED_PROJECTS {
            MAX_LISTED_PROJECTS
        } else {
            n
        };
        let mut paths: Vec<String> = Vec::new();
        assert(texts(paths@) =~= listed_paths(projects@).take(0));
        if n > 0 {
            let noun = if n == 1 {
                "project"
            } else {
                "projects"
            };
            let mut heading = "*Not fully applied, ".to_owned();
            heading.append(utoa(n as u64).as_str());
            heading.append(" ");
            heading.append(noun);
            heading.append("*");
            let mut lines: Vec<String> = Vec::new();
            lines.push("".to_owned());
            lines.push(heading);
            let ghost head = texts(lines@);
            let ghost numbered = Seq::new(shown as nat, |i: int| project_line(projects@[i], i));
            assert(head =~= seq![
                ""@,
                "*Not fully applied, "@ + digits(n as nat) + " "@ + noun@ + "*"@,
            ]);
            assert(texts(lines@) =~= head + numbered.take(0));
            let mut i: usize = 0;
            while i < shown
                invariant
                    i <= shown <= projects@.len(),
                    shown == listed_count(projects@.len()),
                    numbered == Seq::new(shown as nat, |i: int| project_line(projects@[i], i)),
                    texts(lines@) == head + numbered.take(i as int),
                    texts(paths@) == listed_paths(projects@).take(i as int),
                decreases shown - i,
            {
                let p = &projects[i];
                let mut line = utoa((i + 1) as u64);
                line.append(". ");
                if p.web_url.as_str().is_empty() {
                    line.append(p.path.as_str());
                } else {
                    let mut label = "<".to_owned();
                    label.append(p.web_url.as_str());
                    label.append("|");
                    label.append(p.path.as_str());
                    label.append(">");
                    line.append(label.as_str());
                }
                if p.partial {
                    line.append(" (partial)");
                }
                let ghost l = line@;
                let ghost done = texts(lines@);
                let ghost listed = texts(paths@);
                lines.push(line);
                paths.push(p.path.clone());
                proof {
                    assert(l == numbered[i as int]);
                    assert(texts(lines@) =~= done.push(l));
                    assert(texts(lines@) =~= head + numbered.take(i + 1));
                    assert(texts(paths@) =~= listed.push(p.path@));
                    assert(listed_paths(projects@)[i as int] == p.path@);
                    assert(texts(paths@) =~= listed_paths(projects@).take(i + 1));
                }
                i += 1;
            }
            assert(numbered.take(numbered.len() as int) =~= numbered);
            let remaining: usize = n - shown;
            if remaining > 0 {
                let mut more = "_".to_owned();
                more.append(utoa(remaining as u64).as_str());
                more.append(" more, ");
                more.append(self.coverage_link("see the coverage page", "status=no").as_str());
                more.append("_");
                let ghost m = more@;
                let ghost done = texts(lines@);
                lines.push(more);
                assert(texts(lines@) =~= done.push(m));
            }
            proof {
                assert(texts(lines@) == project_lines(self.external_url@, projects@));
                assert(texts(lines@).subrange(0, lines@.len() as int) =~= texts(lines@));
            }
            text.append("\n");
            text.append(join_texts(&lines, 0, lines.len(), "\n").as_str());
        }
        assert(listed_paths(projects@).take(shown as int) =~= listed_paths(projects@));
        CoveragePayload {
            text,
            event: if r.sample {
                "test".to_owned()
            } else {
                "coverage.report".to_owned()
            },
            target: r.target,
            applied: r.applied,
            partial: r.partial,
            not_applied: r.not_applied,
            errored: r.errored,
            skipped: r.skipped,
            percent,
            projects: paths,
            timestamp: timestamp.to_owned(),
        }
    }

    /// The receivers that a coverage report goes to: those with a URL.
    pub fn notify_coverage_report(&self, targets: &Vec<Target>) -> (r: Vec<Target>)
        ensures
            target_views(r@) == reachable(targets@),
    {
        reachable_targets(targets)
    }
}

/// A representative report with made-up numbers, used to preview the message shape
/// before the first scan has produced any.
pub fn sample_coverage_report() -> (r: CoverageReport)
    ensures
        r.target == 56,
        r.applied == 36,
        r.partial == 1,
        r.not_applied == 19,
        r.errored == 0,
        r.skipped == 18,
        r.sample,
        r.not_applied_projects@.len() == 3,
        forall|i: int|
            0 <= i < 3 ==> (#[trigger] r.not_applied_projects@[i]).web_url@.len() == 0
                && r.not_applied_projects@[i].partial == (i == 2),
        r.not_applied_projects@[0].path@ == "payments/checkout-api"@,
        r.not_applied_projects@[1].path@ == "platform/notification-worker"@,
        r.not_applied_projects@[2].path@ == "data/etl-batch"@,
{
    let mut projects: Vec<CoverageProject> = Vec::new();
    projects.push(
        CoverageProject {
            path: "payments/checkout-api".to_owned(),
            partial: false,
            web_url: String::new(),
        },
    );
    projects.push(
        CoverageProject {
            path: "platform/notification-worker".to_owned(),
            partial: false,
            web_url: String::new(),
        },
    );
    projects.push(
        CoverageProject {
            path: "data/etl-batch".to_owned(),
            partial: true,
            web_url: String::new(),
        },
    );
    CoverageReport {
        target: 56,
        applied: 36,
        partial: 1,
        not_applied: 19,
        errored: 0,
        skipped: 18,
        not_applied_projects: projects,
        sample: true,
    }
}

} // verus!
