//! Alarms for configured receivers (named webhook channels): what they say, whom
//! they go to, and what is recorded of their delivery.

pub mod batch;
pub mod coverage;
pub mod laws;

use vstd::prelude::*;

use crate::bridge::{debug_string, debug_text};
use crate::text::{
    cat, decimal, digits, itoa, join, join_texts, starts, starts_with, texts, trim_end,
    trim_end_char, utoa,
};
use crate::notify::batch::{batch_map, BatchView, TargetBatch};

verus! {

/// A resolved delivery destination: a receiver's display name and its webhook URL.
pub struct Target {
    pub name: String,
    pub url: String,
}

/// A failed delivery.
#[derive(Debug, Clone, Copy, PartialEq, Eq, Structural)]
pub enum Error {
    /// The webhook answered with a status outside the two hundreds.
    Status(u16),
    /// There is nothing to deliver with.
    NotConfigured,
}

impl Error {
    /// What went wrong, in words.
    pub fn message(&self) -> (r: String)
        ensures
            r@ == (match *self {
                Error::Status(n) => "webhook returned status "@ + digits(n as nat),
                Error::NotConfigured => "notifications are not configured"@,
            }),
    {
        match *self {
            Error::Status(n) => cat("webhook returned status ", utoa(n as u64).as_str()),
            Error::NotConfigured => "notifications are not configured".to_owned(),
        }
    }
}

/// Identifies one quarantined package that an approval alarm covered, so its
/// delivery outcome can be recorded on the matching approval row.
pub struct DeliveredPackage {
    pub repo: String,
    pub package: String,
}

/// Delivery result recorded on an approval row: the webhook took it.
pub const DELIVERY_DELIVERED: &'static str = "delivered";

/// Delivery result recorded on an approval row: the webhook did not.
pub const DELIVERY_FAILED: &'static str = "failed";

/// The time that a delivery attempt may take where none is set: five seconds, in
/// nanoseconds.
pub const DEFAULT_TIMEOUT: u64 = 5_000_000_000;

/// One quarantined-package event awaiting (possibly grouped) delivery.
pub struct ApprovalEvt {
    pub repo: String,
    pub repo_id: i64,
    pub repo_format: String,
    pub pkg: String,
    pub version: String,
    pub requested_by: String,
}

/// The contents of an approval event.
pub struct Evt {
    pub repo: Seq<char>,
    pub repo_id: int,
    pub repo_format: Seq<char>,
    pub pkg: Seq<char>,
    pub version: Seq<char>,
    pub requested_by: Seq<char>,
}

impl View for ApprovalEvt {
    type V = Evt;

    open spec fn view(&self) -> Evt {
        Evt {
            repo: self.repo@,
            repo_id: self.repo_id as int,
            repo_format: self.repo_format@,
            pkg: self.pkg@,
            version: self.version@,
            requested_by: self.requested_by@,
        }
    }
}

/// The contents of a list of approval events.
pub open spec fn evts(v: Seq<ApprovalEvt>) -> Seq<Evt> {
    v.map_values(|e: ApprovalEvt| e@)
}

impl ApprovalEvt {
    /// A copy of the event.
    pub fn duplicate(&self) -> (r: ApprovalEvt)
        ensures
            r@ == self@,
    {
        ApprovalEvt {
            repo: self.repo.clone(),
            repo_id: self.repo_id,
            repo_format: self.repo_format.clone(),
            pkg: self.pkg.clone(),
            version: self.version.clone(),
            requested_by: self.requested_by.clone(),
        }
    }
}

/// The packages that events cover, for the delivery record.
pub fn evt_packages(list: &Vec<ApprovalEvt>) -> (r: Vec<DeliveredPackage>)
    ensures
        r@.len() == list@.len(),
        forall|i: int|
            0 <= i < list@.len() ==> (#[trigger] r@[i]).repo@ == list@[i].repo@ && r@[i].package@
                == list@[i].pkg@,
{
    let mut out: Vec<DeliveredPackage> = Vec::new();
    let mut i: usize = 0;
    while i < list.len()
        invariant
            i <= list@.len(),
            out@.len() == i,
            forall|j: int|
                0 <= j < i ==> (#[trigger] out@[j]).repo@ == list@[j].repo@ && out@[j].package@
                    == list@[j].pkg@,
        decreases list.len() - i,
    {
        out.push(
            DeliveredPackage { repo: list[i].repo.clone(), package: list[i].pkg.clone() },
        );
        i += 1;
    }
    out
}

/// An advisory id as a link to its public record.
pub open spec fn advisory_link(id: Seq<char>) -> Seq<char> {
    let url = if starts(id, "CVE-"@) {
        "https://www.cve.org/CVERecord?id="@ + id
    } else if starts(id, "GHSA-"@) {
        "https://github.com/advisories/"@ + id
    } else {
        "https://osv.dev/vulnerability/"@ + id
    };
    "<"@ + url + "|"@ + id + ">"@
}

/// Renders an advisory id as a link to its public record: CVE ids to cve.org, GHSA
/// ids to GitHub advisories, anything else to osv.dev.
pub fn cve_link(id: &str) -> (r: String)
    ensures
        r@ == advisory_link(id@),
{
    let url = if starts_with(id, "CVE-") {
        cat("https://www.cve.org/CVERecord?id=", id)
    } else if starts_with(id, "GHSA-") {
        cat("https://github.com/advisories/", id)
    } else {
        cat("https://osv.dev/vulnerability/", id)
    };
    let mut out = "<".to_owned();
    out.append(url.as_str());
    out.append("|");
    out.append(id);
    out.append(">");
    out
}

/// One labelled line in an alarm body.
pub struct AlarmField {
    pub label: &'static str,
    pub value: String,
}

impl AlarmField {
    /// A labelled value.
    pub fn new(label: &'static str, value: String) -> (r: AlarmField)
        ensures
            r.label == label,
            r.value == value,
    {
        AlarmField { label, value }
    }
}

/// Label and value of each line.
pub open spec fn field_views(v: Seq<AlarmField>) -> Seq<(Seq<char>, Seq<char>)> {
    v.map_values(|f: AlarmField| (f.label@, f.value@))
}

/// One labelled line.
pub open spec fn field_line(f: (Seq<char>, Seq<char>)) -> Seq<char> {
    "*"@ + f.0 + "*: "@ + f.1
}

/// The lines of an alarm: the title in bold, the subtitle where there is one, and
/// the labelled lines.
pub open spec fn alarm_lines(
    title: Seq<char>,
    subtitle: Seq<char>,
    fields: Seq<(Seq<char>, Seq<char>)>,
) -> Seq<Seq<char>> {
    let head = if subtitle.len() == 0 {
        seq!["*"@ + title + "*"@]
    } else {
        seq!["*"@ + title + "*"@, subtitle]
    };
    head + fields.map_values(|f: (Seq<char>, Seq<char>)| field_line(f))
}

/// The text of an alarm.
pub open spec fn alarm_text(
    title: Seq<char>,
    subtitle: Seq<char>,
    fields: Seq<(Seq<char>, Seq<char>)>,
) -> Seq<char> {
    join(alarm_lines(title, subtitle, fields), "\n"@)
}

/// Assembles an alarm from a bold title, an optional subtitle line, and labelled
/// fields.
pub fn render_alarm(title: &str, subtitle: &str, fields: &Vec<AlarmField>) -> (r: String)
    ensures
        r@ == alarm_text(title@, subtitle@, field_views(fields@)),
{
    let mut lines: Vec<String> = Vec::new();
    let mut first = "*".to_owned();
    first.append(title);
    first.append("*");
    lines.push(first);
    if !subtitle.is_empty() {
        lines.push(subtitle.to_owned());
    }
    let ghost all = field_views(fields@);
    let ghost head = texts(lines@);
    let ghost rendered = all.map_values(|f: (Seq<char>, Seq<char>)| field_line(f));
    proof {
        if subtitle@.len() == 0 {
            assert(head =~= seq!["*"@ + title@ + "*"@]);
        } else {
            assert(head =~= seq!["*"@ + title@ + "*"@, subtitle@]);
        }
        assert(texts(lines@) =~= head + rendered.take(0));
    }
    let mut i: usize = 0;
    while i < fields.len()
        invariant
            i <= fields@.len(),
            all == field_views(fields@),
            rendered == all.map_values(|f: (Seq<char>, Seq<char>)| field_line(f)),
            texts(lines@) == head + rendered.take(i as int),
        decreases fields.len() - i,
    {
        let mut line = "*".to_owned();
        line.append(fields[i].label);
        line.append("*: ");
        line.append(fields[i].value.as_str());
        let ghost done = texts(lines@);
        let ghost l = line@;
        lines.push(line);
        proof {
            assert(all[i as int] == (fields@[i as int].label@, fields@[i as int].value@));
            assert(rendered[i as int] == l);
            assert(texts(lines@) =~= done.push(l));
            assert(texts(lines@) =~= head + rendered.take(i + 1));
        }
        i += 1;
    }
    proof {
        assert(rendered.take(rendered.len() as int) =~= rendered);
        assert(texts(lines@) =~= alarm_lines(title@, subtitle@, all));
        assert(texts(lines@).subrange(0, lines@.len() as int) =~= texts(lines@));
    }
    join_texts(&lines, 0, lines.len(), "\n")
}

/// The body posted for a package-approval alarm.
pub struct ApprovalPayload {
    pub text: String,
    pub event: String,
    pub repository: String,
    pub package: String,
    pub version: String,
    pub requested_by: String,
    pub timestamp: String,
    /// `count` and `packages` are set only on a grouped alarm; `packages` lists
    /// "repo/pkg@version".
    pub count: u64,
    pub packages: Vec<String>,
    /// The distinct set of usernames behind a grouped alarm.
    pub requesters: Vec<String>,
    /// The packages of a grouped alarm with a clean scan, and the rest.
    pub clean_count: u64,
    pub dirty_count: u64,
    /// The highest severity across the packages, its score, its advisory and the
    /// package it is of; empty when none are vulnerable.
    pub max_severity: String,
    pub max_score: String,
    pub top_cve: String,
    pub top_package: String,
}

/// The contents of an approval alarm.
#[verifier::ext_equal]
pub struct Payload {
    pub text: Seq<char>,
    pub event: Seq<char>,
    pub repository: Seq<char>,
    pub package: Seq<char>,
    pub version: Seq<char>,
    pub requested_by: Seq<char>,
    pub timestamp: Seq<char>,
    pub count: int,
    pub packages: Seq<Seq<char>>,
    pub requesters: Seq<Seq<char>>,
    pub clean_count: int,
    pub dirty_count: int,
    pub max_severity: Seq<char>,
    pub max_score: Seq<char>,
    pub top_cve: Seq<char>,
    pub top_package: Seq<char>,
}

impl View for ApprovalPayload {
    type V = Payload;

    open spec fn view(&self) -> Payload {
        Payload {
            text: self.text@,
            event: self.event@,
            repository: self.repository@,
            package: self.package@,
            version: self.version@,
            requested_by: self.requested_by@,
            timestamp: self.timestamp@,
            count: self.count as int,
            packages: texts(self.packages@),
            requesters: texts(self.requesters@),
            clean_count: self.clean_count as int,
            dirty_count: self.dirty_count as int,
            max_severity: self.max_severity@,
            max_score: self.max_score@,
            top_cve: self.top_cve@,
            top_package: self.top_package@,
        }
    }
}

/// A payload with nothing set.
pub open spec fn blank_payload() -> Payload {
    Payload {
        text: Seq::empty(),
        event: Seq::empty(),
        repository: Seq::empty(),
        package: Seq::empty(),
        version: Seq::empty(),
        requested_by: Seq::empty(),
        timestamp: Seq::empty(),
        count: 0,
        packages: Seq::empty(),
        requesters: Seq::empty(),
        clean_count: 0,
        dirty_count: 0,
        max_severity: Seq::empty(),
        max_score: Seq::empty(),
        top_cve: Seq::empty(),
        top_package: Seq::empty(),
    }
}

impl Default for ApprovalPayload {
    fn default() -> (r: ApprovalPayload)
        ensures
            r@ == blank_payload(),
    {
        let r = ApprovalPayload {
            text: String::new(),
            event: String::new(),
            repository: String::new(),
            package: String::new(),
            version: String::new(),
            requested_by: String::new(),
            timestamp: String::new(),
            count: 0,
            packages: Vec::new(),
            requesters: Vec::new(),
            clean_count: 0,
            dirty_count: 0,
            max_severity: String::new(),
            max_score: String::new(),
            top_cve: String::new(),
            top_package: String::new(),
        };
        assert(r@ =~= blank_payload());
        r
    }
}

/// Renders alarms and buffers them over a window.
pub struct Notifier {
    /// How long a delivery attempt may take, in nanoseconds.
    pub timeout: u64,
    /// The externally visible base URL; alarm text links to it.
    pub external_url: String,
    /// Coalesces approval alarms per receiver over this many nanoseconds; zero
    /// delivers each event at once.
    pub batch_window: u64,
    /// The events buffered for each receiver; absent while nothing is buffered.
    pub batch: Option<Vec<TargetBatch>>,
    /// The flush timer runs.
    pub timer_armed: bool,
}

/// The product name, as a link to the console where there is a URL for it.
pub open spec fn product_link(ext: Seq<char>) -> Seq<char> {
    if ext.len() == 0 {
        "Forklift"@
    } else {
        "<"@ + ext + "|Forklift>"@
    }
}

/// A repository name, as a link to its approvals page where one is known.
pub open spec fn repo_link_text(ext: Seq<char>, name: Seq<char>, id: int) -> Seq<char> {
    if ext.len() == 0 || id == 0 {
        name
    } else {
        "<"@ + ext + "/workspace/repositories/"@ + decimal(id) + "/approvals|"@ + name + ">"@
    }
}

/// A repository with its format in parentheses.
pub open spec fn repo_field_text(
    ext: Seq<char>,
    name: Seq<char>,
    id: int,
    format: Seq<char>,
) -> Seq<char> {
    if format.len() == 0 {
        repo_link_text(ext, name, id)
    } else {
        repo_link_text(ext, name, id) + " ("@ + format + ")"@
    }
}

/// Who asked: the name, or `anonymous`.
pub open spec fn who_of(requested_by: Seq<char>) -> Seq<char> {
    if requested_by.len() == 0 {
        "anonymous"@
    } else {
        requested_by
    }
}

/// The package, with its version where there is one.
pub open spec fn coordinate_of(pkg: Seq<char>, version: Seq<char>) -> Seq<char> {
    if version.len() == 0 {
        pkg
    } else {
        pkg + "@"@ + version
    }
}

/// Who asked: the name, or `anonymous`.
pub(crate) fn who(requested_by: &str) -> (r: String)
    ensures
        r@ == who_of(requested_by@),
{
    if requested_by.is_empty() {
        "anonymous".to_owned()
    } else {
        requested_by.to_owned()
    }
}

/// The package, with its version where there is one.
pub(crate) fn coordinate(pkg: &str, version: &str) -> (r: String)
    ensures
        r@ == coordinate_of(pkg@, version@),
{
    if version.is_empty() {
        pkg.to_owned()
    } else {
        let mut s = pkg.to_owned();
        s.append("@");
        s.append(version);
        s
    }
}

/// The alarm for exactly one quarantined package.
pub open spec fn single_payload(ext: Seq<char>, e: Evt, timestamp: Seq<char>) -> Payload {
    Payload {
        text: alarm_text(
            "Package pending approval"@,
            "A package is quarantined and awaiting review. Review in "@ + product_link(ext) + "."@,
            seq![
                ("Repository"@, repo_field_text(ext, e.repo, e.repo_id, e.repo_format)),
                ("Pending package"@, coordinate_of(e.pkg, e.version)),
                ("Requested by"@, who_of(e.requested_by)),
            ],
        ),
        event: "approval.request"@,
        repository: e.repo,
        package: e.pkg,
        version: e.version,
        requested_by: e.requested_by,
        timestamp,
        ..blank_payload()
    }
}

/// The alarm that the "send test" button delivers.
pub open spec fn test_payload_view(ext: Seq<char>, name: Seq<char>, timestamp: Seq<char>) -> Payload {
    Payload {
        text: alarm_text(
            "[TEST] Package pending approval"@,
            "Test alarm for receiver "@ + debug_text(name) + ". No action needed. Review in "@
                + product_link(ext) + "."@,
            seq![
                ("Repository"@, "example-proxy"@),
                ("Pending package"@, "com.example:sample@1.0.0"@),
                ("Requested by"@, "tester"@),
            ],
        ),
        event: "test"@,
        repository: "example-proxy"@,
        package: "com.example:sample"@,
        version: "1.0.0"@,
        requested_by: "tester"@,
        timestamp,
        ..blank_payload()
    }
}

/// A representative approval alarm for a repository.
pub open spec fn sample_payload(
    ext: Seq<char>,
    repo: Seq<char>,
    repo_id: int,
    requested_by: Seq<char>,
    timestamp: Seq<char>,
) -> Payload {
    Payload {
        text: alarm_text(
            "[TEST] Package pending approval"@,
            "Sample alarm. No action needed. Review in "@ + product_link(ext) + "."@,
            seq![
                ("Repository"@, repo_link_text(ext, repo, repo_id)),
                ("Pending package"@, "com.example:sample@1.0.0"@),
                ("Requested by"@, who_of(requested_by)),
            ],
        ),
        event: "approval.request"@,
        repository: repo,
        package: "com.example:sample"@,
        version: "1.0.0"@,
        requested_by,
        timestamp,
        ..blank_payload()
    }
}

fn three_fields(
    a: &'static str,
    x: String,
    b: &'static str,
    y: String,
    c: &'static str,
    z: String,
) -> (r: Vec<AlarmField>)
    ensures
        field_views(r@) == seq![(a@, x@), (b@, y@), (c@, z@)],
{
    let mut fields: Vec<AlarmField> = Vec::new();
    fields.push(AlarmField::new(a, x));
    fields.push(AlarmField::new(b, y));
    fields.push(AlarmField::new(c, z));
    assert(field_views(fields@) =~= seq![(a@, x@), (b@, y@), (c@, z@)]);
    fields
}

impl Notifier {
    /// A notifier with nothing buffered; `timeout` bounds each delivery attempt, five
    /// seconds when zero.
    pub fn new(timeout: u64) -> (r: Notifier)
        ensures
            r.timeout == (if timeout == 0 {
                DEFAULT_TIMEOUT
            } else {
                timeout
            }),
            r.external_url@.len() == 0,
            r.batch_window == 0,
            r.batch is None,
            !r.timer_armed,
            r.wf(),
    {
        Notifier {
            timeout: if timeout == 0 {
                DEFAULT_TIMEOUT
            } else {
                timeout
            },
            external_url: String::new(),
            batch_window: 0,
            batch: None,
            timer_armed: false,
        }
    }

    /// No receiver URL is buffered for twice, and none is empty.
    pub open spec fn wf(&self) -> bool {
        self.batch matches Some(b) ==> crate::notify::batch::distinct_urls(b@)
    }

    /// The events buffered for each receiver URL.
    pub open spec fn buffered(&self) -> Map<Seq<char>, BatchView> {
        match self.batch {
            Some(b) => batch_map(b@),
            None => Map::empty(),
        }
    }

    /// Pins the externally visible base URL so alarm text can turn the product name
    /// into a link.
    pub fn set_external_url(&mut self, u: &str)
        ensures
            final(self).external_url@ == trim_end(u@, '/'),
            final(self).timeout == old(self).timeout,
            final(self).batch_window == old(self).batch_window,
            final(self).batch == old(self).batch,
            final(self).timer_armed == old(self).timer_armed,
    {
        self.external_url = trim_end_char(u, '/');
    }

    /// Enables grouping: approval alarms buffered within `d` nanoseconds are
    /// delivered as one message per receiver. Zero sends at once.
    pub fn set_batch_window(&mut self, d: u64)
        ensures
            final(self).batch_window == d,
            final(self).timeout == old(self).timeout,
            final(self).external_url == old(self).external_url,
            final(self).batch == old(self).batch,
            final(self).timer_armed == old(self).timer_armed,
    {
        self.batch_window = d;
    }

    /// Renders the product name as a link to the console where an external URL is
    /// configured.
    pub(crate) fn forklift(&self) -> (r: String)
        ensures
            r@ == product_link(self.external_url@),
    {
        if self.external_url.as_str().is_empty() {
            return "Forklift".to_owned();
        }
        let mut s = "<".to_owned();
        s.append(self.external_url.as_str());
        s.append("|Forklift>");
        s
    }

    /// Deep-links a repository name to its console approvals page where an external
    /// URL and id are known.
    pub(crate) fn repo_link(&self, name: &str, id: i64) -> (r: String)
        ensures
            r@ == repo_link_text(self.external_url@, name@, id as int),
    {
        if self.external_url.as_str().is_empty() || id == 0 {
            return name.to_owned();
        }
        let mut s = "<".to_owned();
        s.append(self.external_url.as_str());
        s.append("/workspace/repositories/");
        s.append(itoa(id).as_str());
        s.append("/approvals|");
        s.append(name);
        s.append(">");
        s
    }

    /// Renders a repository for an alarm: its deep-link plus its format in
    /// parentheses.
    pub(crate) fn repo_field(&self, name: &str, id: i64, format: &str) -> (r: String)
        ensures
            r@ == repo_field_text(self.external_url@, name@, id as int, format@),
    {
        let mut s = self.repo_link(name, id);
        if !format.is_empty() {
            s.append(" (");
            s.append(format);
            s.append(")");
        }
        s
    }

    /// Renders the alarm for exactly one quarantined package.
    pub fn build_approval_single(&self, e: &ApprovalEvt, timestamp: &str) -> (r: ApprovalPayload)
        ensures
            r@ == single_payload(self.external_url@, e@, timestamp@),
    {
        let mut subtitle = "A package is quarantined and awaiting review. Review in ".to_owned();
        subtitle.append(self.forklift().as_str());
        subtitle.append(".");
        let fields = three_fields(
            "Repository",
            self.repo_field(e.repo.as_str(), e.repo_id, e.repo_format.as_str()),
            "Pending package",
            coordinate(e.pkg.as_str(), e.version.as_str()),
            "Requested by",
            who(e.requested_by.as_str()),
        );
        let mut p: ApprovalPayload = Default::default();
        p.text = render_alarm("Package pending approval", subtitle.as_str(), &fields);
        p.event = "approval.request".to_owned();
        p.repository = e.repo.clone();
        p.package = e.pkg.clone();
        p.version = e.version.clone();
        p.requested_by = e.requested_by.clone();
        p.timestamp = timestamp.to_owned();
        p
    }

    /// The alarm that the "send test" button delivers. It resembles a real one, with
    /// an explicit TEST marker and event so it is never mistaken for one.
    pub fn build_test(&self, name: &str, timestamp: &str) -> (r: ApprovalPayload)
        ensures
            r@ == test_payload_view(self.external_url@, name@, timestamp@),
    {
        let mut subtitle = "Test alarm for receiver ".to_owned();
        subtitle.append(debug_string(name).as_str());
        subtitle.append(". No action needed. Review in ");
        subtitle.append(self.forklift().as_str());
        subtitle.append(".");
        let fields = three_fields(
            "Repository",
            "example-proxy".to_owned(),
            "Pending package",
            "com.example:sample@1.0.0".to_owned(),
            "Requested by",
            "tester".to_owned(),
        );
        let mut p: ApprovalPayload = Default::default();
        p.text = render_alarm("[TEST] Package pending approval", subtitle.as_str(), &fields);
        p.event = "test".to_owned();
        p.repository = "example-proxy".to_owned();
        p.package = "com.example:sample".to_owned();
        p.version = "1.0.0".to_owned();
        p.requested_by = "tester".to_owned();
        p.timestamp = timestamp.to_owned();
        p
    }

    /// A representative approval alarm for a repository, used to preview the message
    /// and to deliver a manual sample. It carries a clearly marked placeholder
    /// package.
    pub fn build_approval_sample(
        &self,
        repo: &str,
        repo_id: i64,
        requested_by: &str,
        timestamp: &str,
    ) -> (r: ApprovalPayload)
        ensures
            r@ == sample_payload(
                self.external_url@,
                repo@,
                repo_id as int,
                requested_by@,
                timestamp@,
            ),
    {
        let mut subtitle = "Sample alarm. No action needed. Review in ".to_owned();
        subtitle.append(self.forklift().as_str());
        subtitle.append(".");
        let fields = three_fields(
            "Repository",
            self.repo_link(repo, repo_id),
            "Pending package",
            "com.example:sample@1.0.0".to_owned(),
            "Requested by",
            who(requested_by),
        );
        let mut p: ApprovalPayload = Default::default();
        p.text = render_alarm("[TEST] Package pending approval", subtitle.as_str(), &fields);
        p.event = "approval.request".to_owned();
        p.repository = repo.to_owned();
        p.package = "com.example:sample".to_owned();
        p.version = "1.0.0".to_owned();
        p.requested_by = requested_by.to_owned();
        p.timestamp = timestamp.to_owned();
        p
    }
}

/// How a delivery attempt ended.
#[derive(Debug, Clone, Copy, PartialEq, Eq, Structural)]
pub enum Attempt {
    /// The request could not be built.
    NotBuilt,
    /// The webhook did not answer in time, or could not be reached.
    NoResponse,
    /// The webhook answered.
    Answered(u16),
}

/// Whether a delivery attempt succeeded, with a human-readable detail: the HTTP
/// status of a reachable webhook, or a short reason.
pub fn delivery_outcome(attempt: Attempt) -> (r: (bool, String))
    ensures
        r.0 == (attempt matches Attempt::Answered(n) && n < 300),
        r.1@ == (match attempt {
            Attempt::NotBuilt => "could not build request"@,
            Attempt::NoResponse => "no response from webhook"@,
            Attempt::Answered(n) => "HTTP "@ + digits(n as nat),
        }),
{
    match attempt {
        Attempt::NotBuilt => (false, "could not build request".to_owned()),
        Attempt::NoResponse => (false, "no response from webhook".to_owned()),
        Attempt::Answered(n) => (n < 300, cat("HTTP ", utoa(n as u64).as_str())),
    }
}

/// The result to record for the packages that a message covered; nothing where it
/// covered none.
pub fn delivery_record(ok: bool, packages: &Vec<DeliveredPackage>) -> (r: Option<&'static str>)
    ensures
        r is Some <==> packages@.len() > 0,
        r matches Some(s) ==> s@ == (if ok {
            DELIVERY_DELIVERED@
        } else {
            DELIVERY_FAILED@
        }),
{
    if packages.len() == 0 {
        None
    } else if ok {
        Some(DELIVERY_DELIVERED)
    } else {
        Some(DELIVERY_FAILED)
    }
}

/// Judges the answer to a message that someone waits for.
pub fn check_status(status: u16) -> (r: Result<(), Error>)
    ensures
        status < 300 ==> r == Ok::<(), Error>(()),
        status >= 300 ==> r == Err::<(), Error>(Error::Status(status)),
{
    if status >= 300 {
        Err(Error::Status(status))
    } else {
        Ok(())
    }
}

/// The receivers among `targets` that have a URL, in order.
pub open spec fn reachable(targets: Seq<Target>) -> Seq<(Seq<char>, Seq<char>)>
    decreases targets.len(),
{
    if targets.len() == 0 {
        Seq::empty()
    } else {
        let p = reachable(targets.drop_last());
        if targets.last().url@.len() == 0 {
            p
        } else {
            p.push((targets.last().name@, targets.last().url@))
        }
    }
}

/// Name and URL of each receiver.
pub open spec fn target_views(v: Seq<Target>) -> Seq<(Seq<char>, Seq<char>)> {
    v.map_values(|t: Target| (t.name@, t.url@))
}

/// The receivers that a message goes to: those with a URL.
pub fn reachable_targets(targets: &Vec<Target>) -> (r: Vec<Target>)
    ensures
        target_views(r@) == reachable(targets@),
{
    let mut out: Vec<Target> = Vec::new();
    let mut i: usize = 0;
    assert(target_views(out@) =~= reachable(targets@.take(0)));
    while i < targets.len()
        invariant
            i <= targets@.len(),
            target_views(out@) == reachable(targets@.take(i as int)),
        decreases targets.len() - i,
    {
        let ghost done = target_views(out@);
        proof {
            assert(targets@.take(i + 1).drop_last() =~= targets@.take(i as int));
            assert(targets@.take(i + 1).last() == targets@[i as int]);
        }
        if !targets[i].url.as_str().is_empty() {
            out.push(Target { name: targets[i].name.clone(), url: targets[i].url.clone() });
            assert(target_views(out@) =~= done.push(
                (targets@[i as int].name@, targets@[i as int].url@),
            ));
        }
        i += 1;
    }
    assert(targets@.take(targets@.len() as int) =~= targets@);
    out
}

} // verus!
