//! Per-receiver batching of approval alarms over a window, and the grouped alarm.

use vstd::prelude::*;

use crate::notify::{
    advisory_link, alarm_text, blank_payload, coordinate, coordinate_of, cve_link, evts,
    field_views, product_link, render_alarm, repo_field_text, single_payload, who, who_of,
    AlarmField, ApprovalEvt, ApprovalPayload, Evt, Notifier, Payload, Target,
};
use crate::text::{
    ascending, contains_text, digits, insert_sorted, join, join_texts, lemma_push_contains,
    lemma_sorted_set, lemma_sorted_set_holds, same, sorted_set, texts, utoa,
};

verus! {

/// The approval events buffered for one receiver URL.
pub struct TargetBatch {
    pub url: String,
    pub name: String,
    pub evts: Vec<ApprovalEvt>,
}

/// Name and events of one receiver.
pub struct BatchView {
    pub name: Seq<char>,
    pub evts: Seq<Evt>,
}

/// No URL occurs twice, and none is empty.
pub open spec fn distinct_urls(v: Seq<TargetBatch>) -> bool {
    &&& forall|i: int, j: int| 0 <= i < j < v.len() ==> (#[trigger] v[i]).url@ != (#[trigger] v[j]).url@
    &&& forall|i: int| 0 <= i < v.len() ==> (#[trigger] v[i]).url@.len() > 0
}

/// Name and events of each URL.
pub open spec fn batch_map(v: Seq<TargetBatch>) -> Map<Seq<char>, BatchView> {
    Map::new(
        |u: Seq<char>| exists|i: int| 0 <= i < v.len() && (#[trigger] v[i]).url@ == u,
        |u: Seq<char>|
            {
                let i = choose|i: int| 0 <= i < v.len() && (#[trigger] v[i]).url@ == u;
                BatchView { name: v[i].name@, evts: evts(v[i].evts@) }
            },
    )
}

/// One more event for a receiver: it joins those buffered for the same URL, and
/// opens a batch of its own where there are none. A receiver without URL is passed
/// over.
pub open spec fn add_event(
    m: Map<Seq<char>, BatchView>,
    t: Target,
    e: Evt,
) -> Map<Seq<char>, BatchView> {
    if t.url@.len() == 0 {
        m
    } else if m.contains_key(t.url@) {
        m.insert(t.url@, BatchView { name: m[t.url@].name, evts: m[t.url@].evts.push(e) })
    } else {
        m.insert(t.url@, BatchView { name: t.name@, evts: seq![e] })
    }
}

/// One more event for each receiver.
pub open spec fn add_for_all(
    m: Map<Seq<char>, BatchView>,
    targets: Seq<Target>,
    e: Evt,
) -> Map<Seq<char>, BatchView>
    decreases targets.len(),
{
    if targets.len() == 0 {
        m
    } else {
        add_event(add_for_all(m, targets.drop_last(), e), targets.last(), e)
    }
}

proof fn lemma_batch_map(v: Seq<TargetBatch>)
    requires
        distinct_urls(v),
    ensures
        forall|i: int|
            0 <= i < v.len() ==> batch_map(v).contains_key((#[trigger] v[i]).url@) && batch_map(
                v,
            )[v[i].url@] == (BatchView { name: v[i].name@, evts: evts(v[i].evts@) }),
{
    assert forall|i: int| 0 <= i < v.len() implies batch_map(v).contains_key(
        (#[trigger] v[i]).url@,
    ) && batch_map(v)[v[i].url@] == (BatchView { name: v[i].name@, evts: evts(v[i].evts@) }) by {
        let j = choose|j: int| 0 <= j < v.len() && (#[trigger] v[j]).url@ == v[i].url@;
        if i < j {
            assert(v[i].url@ != v[j].url@);
        } else if j < i {
            assert(v[j].url@ != v[i].url@);
        }
    }
}

/// Buffers one event for one receiver.
fn buffer_event(batch: &mut Vec<TargetBatch>, t: &Target, e: &ApprovalEvt)
    requires
        distinct_urls(old(batch)@),
    ensures
        distinct_urls(final(batch)@),
        batch_map(final(batch)@) == add_event(batch_map(old(batch)@), *t, e@),
{
    if t.url.as_str().is_empty() {
        return;
    }
    let ghost before = batch@;
    let mut i: usize = 0;
    while i < batch.len() && !same(batch[i].url.as_str(), t.url.as_str())
        invariant
            i <= batch@.len(),
            batch@ == before,
            forall|j: int| 0 <= j < i ==> (#[trigger] before[j]).url@ != t.url@,
        decreases batch.len() - i,
    {
        i += 1;
    }
    proof {
        lemma_batch_map(before);
    }
    if i < batch.len() {
        let mut b = batch.remove(i);
        assert(b == before[i as int]);
        let ghost list = evts(b.evts@);
        b.evts.push(e.duplicate());
        assert(evts(b.evts@) =~= list.push(e@));
        let ghost changed = b;
        batch.insert(i, b);
        proof {
            let after = batch@;
            assert(after =~= before.update(i as int, changed));
            assert forall|a: int, c: int| 0 <= a < c < after.len() implies (#[trigger] after[a]).url@
                != (#[trigger] after[c]).url@ by {
                assert(before[a].url@ != before[c].url@);
            }
            assert forall|a: int| 0 <= a < after.len() implies (#[trigger] after[a]).url@.len()
                > 0 by {
                assert(before[a].url@.len() > 0);
            }
            lemma_batch_map(after);
            let want = add_event(batch_map(before), *t, e@);
            assert(before[i as int].url@ == t.url@);
            assert forall|u: Seq<char>| #[trigger] want.contains_key(u) implies batch_map(
                after,
            ).contains_key(u) && batch_map(after)[u] == want[u] by {
                if u == t.url@ {
                    assert(after[i as int].url@ == u);
                } else {
                    let k = choose|k: int| 0 <= k < before.len() && (#[trigger] before[k]).url@ == u;
                    assert(after[k] == before[k]);
                }
            }
            assert forall|u: Seq<char>| #[trigger]
                batch_map(after).contains_key(u) implies want.contains_key(u) by {
                let k = choose|k: int| 0 <= k < after.len() && (#[trigger] after[k]).url@ == u;
                if k != i {
                    assert(before[k] == after[k]);
                }
            }
            assert(batch_map(after) =~= want);
        }
    } else {
        let mut list: Vec<ApprovalEvt> = Vec::new();
        list.push(e.duplicate());
        assert(evts(list@) =~= seq![e@]);
        let b = TargetBatch { url: t.url.clone(), name: t.name.clone(), evts: list };
        let ghost opened = b;
        batch.push(b);
        proof {
            let after = batch@;
            assert(after =~= before.push(opened));
            assert forall|a: int, c: int| 0 <= a < c < after.len() implies (#[trigger] after[a]).url@
                != (#[trigger] after[c]).url@ by {
                if c < before.len() {
                    assert(before[a].url@ != before[c].url@);
                } else {
                    assert(before[a].url@ != t.url@);
                }
            }
            assert forall|a: int| 0 <= a < after.len() implies (#[trigger] after[a]).url@.len()
                > 0 by {
                if a < before.len() {
                    assert(before[a].url@.len() > 0);
                }
            }
            lemma_batch_map(after);
            let want = add_event(batch_map(before), *t, e@);
            assert(!batch_map(before).contains_key(t.url@));
            assert forall|u: Seq<char>| #[trigger] want.contains_key(u) implies batch_map(
                after,
            ).contains_key(u) && batch_map(after)[u] == want[u] by {
                if u == t.url@ {
                    assert(after[before.len() as int].url@ == u);
                } else {
                    let k = choose|k: int| 0 <= k < before.len() && (#[trigger] before[k]).url@ == u;
                    assert(after[k] == before[k]);
                }
            }
            assert forall|u: Seq<char>| #[trigger]
                batch_map(after).contains_key(u) implies want.contains_key(u) by {
                let k = choose|k: int| 0 <= k < after.len() && (#[trigger] after[k]).url@ == u;
                if k < before.len() {
                    assert(before[k] == after[k]);
                }
            }
            assert(batch_map(after) =~= want);
        }
    }
}

/// What becomes of an approval request.
pub enum ApprovalStep {
    /// There is nobody to tell.
    Nothing,
    /// The event waits for the window to end; the flush timer is to be started where
    /// `arm` says so.
    Buffered { arm: bool },
    /// The alarm goes out at once, to each of the receivers.
    Send { payload: ApprovalPayload, targets: Vec<Target> },
}

impl Notifier {
    /// Buffers an approval event for each target. The result says whether the flush
    /// timer is to be started: the first event of a window does, later events ride
    /// the same one.
    pub fn enqueue(&mut self, targets: &Vec<Target>, evt: &ApprovalEvt) -> (arm: bool)
        requires
            old(self).wf(),
        ensures
            final(self).wf(),
            final(self).buffered() == add_for_all(old(self).buffered(), targets@, evt@),
            final(self).batch is Some,
            final(self).timer_armed,
            arm == !old(self).timer_armed,
            final(self).timeout == old(self).timeout,
            final(self).external_url == old(self).external_url,
            final(self).batch_window == old(self).batch_window,
    {
        let ghost before = self.buffered();
        let mut batch = match self.batch.take() {
            Some(b) => b,
            None => {
                let b: Vec<TargetBatch> = Vec::new();
                assert(batch_map(b@) =~= Map::empty());
                b
            },
        };
        assert(batch_map(batch@) == before);
        let mut i: usize = 0;
        assert(targets@.take(0) =~= Seq::empty());
        while i < targets.len()
            invariant
                i <= targets@.len(),
                distinct_urls(batch@),
                batch_map(batch@) == add_for_all(before, targets@.take(i as int), evt@),
            decreases targets.len() - i,
        {
            proof {
                assert(targets@.take(i + 1).drop_last() =~= targets@.take(i as int));
                assert(targets@.take(i + 1).last() == targets@[i as int]);
            }
            buffer_event(&mut batch, &targets[i], evt);
            i += 1;
        }
        assert(targets@.take(targets@.len() as int) =~= targets@);
        self.batch = Some(batch);
        let arm = !self.timer_armed;
        self.timer_armed = true;
        arm
    }

    /// Drains the buffered events, one batch for each receiver.
    pub fn flush(&mut self) -> (r: Vec<TargetBatch>)
        requires
            old(self).wf(),
        ensures
            final(self).wf(),
            final(self).batch is None,
            !final(self).timer_armed,
            distinct_urls(r@),
            batch_map(r@) == old(self).buffered(),
            final(self).timeout == old(self).timeout,
            final(self).external_url == old(self).external_url,
            final(self).batch_window == old(self).batch_window,
    {
        self.timer_armed = false;
        match self.batch.take() {
            Some(b) => b,
            None => {
                let b: Vec<TargetBatch> = Vec::new();
                assert(batch_map(b@) =~= Map::empty());
                b
            },
        }
    }

    /// Reports a package newly quarantined pending approval. With a batch window
    /// configured the event is buffered for each receiver; otherwise the alarm for it
    /// goes out at once.
    pub fn notify_approval_request(
        &mut self,
        targets: &Vec<Target>,
        evt: &ApprovalEvt,
        timestamp: &str,
    ) -> (r: ApprovalStep)
        requires
            old(self).wf(),
        ensures
            final(self).wf(),
            targets@.len() == 0 ==> r is Nothing && *final(self) == *old(self),
            targets@.len() > 0 && old(self).batch_window != 0 ==> {
                &&& r == (ApprovalStep::Buffered { arm: !old(self).timer_armed })
                &&& final(self).timer_armed
                &&& final(self).buffered() == add_for_all(old(self).buffered(), targets@, evt@)
                &&& final(self).timeout == old(self).timeout
                &&& final(self).external_url == old(self).external_url
                &&& final(self).batch_window == old(self).batch_window
            },
            targets@.len() > 0 && old(self).batch_window == 0 ==> {
                &&& *final(self) == *old(self)
                &&& r matches ApprovalStep::Send { payload, targets: list } && payload@
                    == single_payload(old(self).external_url@, evt@, timestamp@)
                    && crate::notify::target_views(list@) == crate::notify::reachable(targets@)
            },
    {
        if targets.len() == 0 {
            return ApprovalStep::Nothing;
        }
        if self.batch_window != 0 {
            let arm = self.enqueue(targets, evt);
            return ApprovalStep::Buffered { arm };
        }
        let payload = self.build_approval_single(evt, timestamp);
        ApprovalStep::Send { payload, targets: crate::notify::reachable_targets(targets) }
    }
}

// ---------------------------------------------------------------------------
// The grouped alarm

/// Repository and coordinate of an event.
pub open spec fn package_key(e: Evt) -> Seq<char> {
    e.repo + "/"@ + coordinate_of(e.pkg, e.version)
}

/// The keys of events.
pub open spec fn package_keys(es: Seq<Evt>) -> Seq<Seq<char>> {
    es.map_values(|e: Evt| package_key(e))
}

/// Who asked, for each event.
pub open spec fn requesters_of(es: Seq<Evt>) -> Seq<Seq<char>> {
    es.map_values(|e: Evt| who_of(e.requested_by))
}

/// The repository of each event.
pub open spec fn repos_of(es: Seq<Evt>) -> Seq<Seq<char>> {
    es.map_values(|e: Evt| e.repo)
}

/// The events that name a package which no earlier event names.
pub open spec fn distinct_packages(es: Seq<Evt>) -> Seq<Evt>
    decreases es.len(),
{
    if es.len() == 0 {
        Seq::empty()
    } else {
        let p = distinct_packages(es.drop_last());
        if package_keys(es.drop_last()).contains(package_key(es.last())) {
            p
        } else {
            p.push(es.last())
        }
    }
}

/// The first position, from `i` on, of an event of the repository.
pub open spec fn first_of_repo(es: Seq<Evt>, repo: Seq<char>, i: int) -> int
    decreases es.len() - i,
{
    if i < 0 || i >= es.len() || es[i].repo == repo {
        i
    } else {
        first_of_repo(es, repo, i + 1)
    }
}

/// A repository as the first event of it gives it.
pub open spec fn grouped_repo(ext: Seq<char>, es: Seq<Evt>, repo: Seq<char>) -> Seq<char> {
    let e = es[first_of_repo(es, repo, 0)];
    repo_field_text(ext, repo, e.repo_id, e.repo_format)
}

/// What a scan says of one package.
pub struct Verdict {
    /// "none" when the scan found nothing.
    pub severity: String,
    /// Score and advisory at that severity.
    pub score: String,
    pub id: String,
    /// Whether the package was scanned at all.
    pub scanned: bool,
}

/// The contents of a verdict.
pub struct VerdictView {
    pub severity: Seq<char>,
    pub score: Seq<char>,
    pub id: Seq<char>,
    pub scanned: bool,
}

impl View for Verdict {
    type V = VerdictView;

    open spec fn view(&self) -> VerdictView {
        VerdictView {
            severity: self.severity@,
            score: self.score@,
            id: self.id@,
            scanned: self.scanned,
        }
    }
}

/// The contents of verdicts.
pub open spec fn verdict_views(v: Seq<Verdict>) -> Seq<VerdictView> {
    v.map_values(|x: Verdict| x@)
}

/// The rank of a severity; unknown labels rank lowest.
pub open spec fn severity_rank(severity: Seq<char>) -> int {
    if severity == "low"@ {
        1
    } else if severity == "medium"@ {
        2
    } else if severity == "high"@ {
        3
    } else if severity == "critical"@ {
        4
    } else {
        0
    }
}

/// Ranks a severity label for the grouped alarm's top pick; unknown labels
/// (including "none" and "") rank lowest.
pub fn sev_rank(severity: &str) -> (r: i64)
    ensures
        r == severity_rank(severity@),
{
    if same(severity, "low") {
        1
    } else if same(severity, "medium") {
        2
    } else if same(severity, "high") {
        3
    } else if same(severity, "critical") {
        4
    } else {
        0
    }
}

/// The number of packages that were scanned and found clean.
pub open spec fn clean_count_of(v: Seq<VerdictView>) -> nat
    decreases v.len(),
{
    if v.len() == 0 {
        0
    } else {
        clean_count_of(v.drop_last()) + if v.last().scanned && v.last().severity == "none"@ {
            1nat
        } else {
            0nat
        }
    }
}

/// The position of the first of the most severe verdicts; none where all rank
/// lowest.
pub open spec fn top_verdict(v: Seq<VerdictView>) -> Option<int>
    decreases v.len(),
{
    if v.len() == 0 {
        None
    } else {
        let p = top_verdict(v.drop_last());
        let best = match p {
            Some(i) => severity_rank(v[i].severity),
            None => 0,
        };
        if severity_rank(v.last().severity) > best {
            Some(v.len() - 1)
        } else {
            p
        }
    }
}

/// No verdict is more severe than the top one.
pub proof fn top_verdict_is_the_worst(v: Seq<VerdictView>)
    ensures
        match top_verdict(v) {
            Some(i) => 0 <= i < v.len() && severity_rank(v[i].severity) > 0 && forall|j: int|
                0 <= j < v.len() ==> severity_rank((#[trigger] v[j]).severity) <= severity_rank(
                    v[i].severity,
                ),
            None => forall|j: int| 0 <= j < v.len() ==> severity_rank((#[trigger] v[j]).severity) == 0,
        },
    decreases v.len(),
{
    if v.len() > 0 {
        let init = v.drop_last();
        top_verdict_is_the_worst(init);
        assert(forall|j: int| 0 <= j < init.len() ==> init[j] == v[j]);
        assert(v[v.len() - 1] == v.last());
        assert forall|j: int| 0 <= j < v.len() implies match top_verdict(v) {
            Some(i) => severity_rank((#[trigger] v[j]).severity) <= severity_rank(v[i].severity),
            None => severity_rank(v[j].severity) == 0,
        } by {
            if j < init.len() {
                assert(init[j] == v[j]);
            }
        }
    }
}

/// The requesters in one line: up to three names in full, otherwise the first two
/// and how many others.
pub open spec fn requester_line(names: Seq<Seq<char>>) -> Seq<char> {
    if names.len() == 0 {
        "anonymous"@
    } else if names.len() <= 3 {
        join(names, " / "@)
    } else {
        join(names.subrange(0, 2), " / "@) + " (+"@ + digits((names.len() - 2) as nat)
            + " others)"@
    }
}

/// Renders the distinct requester set compactly.
pub fn summarise_requesters(names: &Vec<String>) -> (r: String)
    ensures
        r@ == requester_line(texts(names@)),
{
    let n = names.len();
    if n == 0 {
        return "anonymous".to_owned();
    }
    if n <= 3 {
        assert(texts(names@).subrange(0, names@.len() as int) =~= texts(names@));
        return join_texts(names, 0, n, " / ");
    }
    let mut s = join_texts(names, 0, 2, " / ");
    s.append(" (+");
    s.append(utoa((n - 2) as u64).as_str());
    s.append(" others)");
    s
}

/// What the scans say of the packages in one line.
pub open spec fn vulnerability_line(
    count: nat,
    packages: Seq<Evt>,
    v: Seq<VerdictView>,
) -> Seq<char> {
    let clean = clean_count_of(v);
    let head = digits(clean) + " clean / "@ + digits((count - clean) as nat) + " dirty"@;
    match top_verdict(v) {
        None => head,
        Some(i) => {
            let named = coordinate_of(packages[i].pkg, packages[i].version) + " "@ + v[i].severity;
            let scored = if v[i].score.len() > 0 {
                named + " "@ + v[i].score
            } else {
                named
            };
            let linked = if v[i].id.len() > 0 {
                scored + " "@ + advisory_link(v[i].id)
            } else {
                scored
            };
            head + " ("@ + linked + ")"@
        },
    }
}

/// The labelled lines of a grouped alarm.
pub open spec fn grouped_fields(
    ext: Seq<char>,
    es: Seq<Evt>,
    verdicts: Option<Seq<VerdictView>>,
) -> Seq<(Seq<char>, Seq<char>)> {
    let count = sorted_set(package_keys(es)).len();
    let links = sorted_set(repos_of(es)).map_values(|r: Seq<char>| grouped_repo(ext, es, r));
    let head = seq![
        ("Repository"@, join(links, " / "@)),
        ("Pending packages"@, digits(count)),
    ];
    let scanned = match verdicts {
        Some(v) => head.push(
            ("Vulnerability"@, vulnerability_line(count, distinct_packages(es), v)),
        ),
        None => head,
    };
    scanned.push(("Requested by"@, requester_line(sorted_set(requesters_of(es)))))
}

/// One alarm for several quarantined packages.
pub open spec fn grouped_payload(
    ext: Seq<char>,
    es: Seq<Evt>,
    verdicts: Option<Seq<VerdictView>>,
    timestamp: Seq<char>,
) -> Payload {
    let count = sorted_set(package_keys(es)).len();
    let plain = Payload {
        text: alarm_text(
            "Packages pending approval"@,
            "Packages are quarantined and awaiting review. Review in "@ + product_link(ext) + "."@,
            grouped_fields(ext, es, verdicts),
        ),
        event: "approval.request"@,
        count: count as int,
        packages: sorted_set(package_keys(es)),
        requesters: sorted_set(requesters_of(es)),
        timestamp,
        ..blank_payload()
    };
    match verdicts {
        None => plain,
        Some(v) => {
            let counted = Payload {
                clean_count: clean_count_of(v) as int,
                dirty_count: count - clean_count_of(v),
                ..plain
            };
            match top_verdict(v) {
                None => counted,
                Some(i) => Payload {
                    max_severity: v[i].severity,
                    max_score: v[i].score,
                    top_cve: v[i].id,
                    top_package: coordinate_of(
                        distinct_packages(es)[i].pkg,
                        distinct_packages(es)[i].version,
                    ),
                    ..counted
                },
            }
        },
    }
}

proof fn lemma_distinct_keys(es: Seq<Evt>)
    ensures
        package_keys(distinct_packages(es)).no_duplicates(),
        forall|k: Seq<char>| #[trigger]
            package_keys(distinct_packages(es)).contains(k) <==> package_keys(es).contains(k),
    decreases es.len(),
{
    if es.len() > 0 {
        let init = es.drop_last();
        lemma_distinct_keys(init);
        let p = distinct_packages(init);
        let k0 = package_key(es.last());
        assert(package_keys(es) =~= package_keys(init).push(k0));
        lemma_push_contains(package_keys(init), k0);
        if package_keys(init).contains(k0) {
            assert forall|k: Seq<char>| #[trigger]
                package_keys(distinct_packages(es)).contains(k) <==> package_keys(es).contains(
                k,
            ) by {
                assert(package_keys(p).contains(k) <==> package_keys(init).contains(k));
                assert(package_keys(init).push(k0).contains(k) <==> package_keys(init).contains(k)
                    || k == k0);
            }
        } else {
            assert(package_keys(distinct_packages(es)) =~= package_keys(p).push(k0));
            lemma_push_contains(package_keys(p), k0);
            assert(!package_keys(p).contains(k0));
            assert forall|k: Seq<char>| #[trigger]
                package_keys(distinct_packages(es)).contains(k) <==> package_keys(es).contains(
                k,
            ) by {
                assert(package_keys(p).contains(k) <==> package_keys(init).contains(k));
                assert(package_keys(init).push(k0).contains(k) <==> package_keys(init).contains(k)
                    || k == k0);
                assert(package_keys(p).push(k0).contains(k) <==> package_keys(p).contains(k) || k
                    == k0);
            }
            let q = package_keys(p).push(k0);
            assert forall|a: int, b: int| 0 <= a < q.len() && 0 <= b < q.len() && a != b implies q[a]
                != q[b] by {
                if a < p.len() && b < p.len() {
                    assert(package_keys(p)[a] != package_keys(p)[b]);
                } else if a < p.len() {
                    assert(package_keys(p).contains(package_keys(p)[a]));
                } else {
                    assert(package_keys(p).contains(package_keys(p)[b]));
                }
            }
        }
    }
}

proof fn lemma_ascending_no_duplicates(s: Seq<Seq<char>>)
    requires
        ascending(s),
    ensures
        s.no_duplicates(),
{
    assert forall|a: int, b: int| 0 <= a < s.len() && 0 <= b < s.len() && a != b implies s[a]
        != s[b] by {
        crate::text::lemma_text_lt_irreflexive(s[a]);
        if a < b {
            assert(crate::text::text_lt(s[a], s[b]));
        } else {
            assert(crate::text::text_lt(s[b], s[a]));
        }
    }
}

/// There are as many distinct packages as the alarm counts.
proof fn lemma_count_is_distinct(es: Seq<Evt>, keys: Seq<Seq<char>>)
    requires
        ascending(keys),
        forall|k: Seq<char>| #[trigger] keys.contains(k) <==> package_keys(es).contains(k),
    ensures
        keys.len() == distinct_packages(es).len(),
{
    let d = package_keys(distinct_packages(es));
    lemma_distinct_keys(es);
    lemma_ascending_no_duplicates(keys);
    keys.unique_seq_to_set();
    d.unique_seq_to_set();
    assert forall|k: Seq<char>| keys.to_set().contains(k) <==> d.to_set().contains(k) by {
        assert(keys.contains(k) <==> package_keys(es).contains(k));
        assert(d.contains(k) <==> package_keys(es).contains(k));
    }
    assert(keys.to_set() =~= d.to_set());
}

proof fn lemma_clean_bound(v: Seq<VerdictView>)
    ensures
        clean_count_of(v) <= v.len(),
    decreases v.len(),
{
    if v.len() > 0 {
        lemma_clean_bound(v.drop_last());
    }
}

/// One package whose scan a grouped alarm asks for.
pub struct PkgRef {
    pub repo_id: i64,
    pub pkg: String,
    pub version: String,
}

/// The contents of package references.
pub open spec fn ref_views(v: Seq<PkgRef>) -> Seq<(int, Seq<char>, Seq<char>)> {
    v.map_values(|r: PkgRef| (r.repo_id as int, r.pkg@, r.version@))
}

/// What a scan lookup is asked of each event.
pub open spec fn lookup_views(es: Seq<Evt>) -> Seq<(int, Seq<char>, Seq<char>)> {
    es.map_values(|e: Evt| (e.repo_id, e.pkg, e.version))
}

/// The sets that a grouped alarm lists.
struct Grouped {
    repos: Vec<String>,
    packages: Vec<String>,
    requesters: Vec<String>,
    refs: Vec<PkgRef>,
}

fn group_events(list: &Vec<ApprovalEvt>) -> (r: Grouped)
    ensures
        texts(r.repos@) == sorted_set(repos_of(evts(list@))),
        texts(r.packages@) == sorted_set(package_keys(evts(list@))),
        texts(r.requesters@) == sorted_set(requesters_of(evts(list@))),
        ref_views(r.refs@) == lookup_views(distinct_packages(evts(list@))),
        r.refs@.len() == r.packages@.len(),
        r.refs@.len() == distinct_packages(evts(list@)).len(),
        forall|x: Seq<char>| #[trigger]
            texts(r.repos@).contains(x) <==> repos_of(evts(list@)).contains(x),
{
    let mut repos: Vec<String> = Vec::new();
    let mut packages: Vec<String> = Vec::new();
    let mut requesters: Vec<String> = Vec::new();
    let mut refs: Vec<PkgRef> = Vec::new();
    let mut seen: Vec<String> = Vec::new();
    let ghost es = evts(list@);
    let mut i: usize = 0;
    proof {
        assert(es.take(0) =~= Seq::empty());
        assert(texts(repos@) =~= Seq::empty());
        assert(repos_of(es.take(0)) =~= Seq::empty());
        assert(package_keys(es.take(0)) =~= Seq::empty());
        assert(requesters_of(es.take(0)) =~= Seq::empty());
        assert(ref_views(refs@) =~= lookup_views(distinct_packages(es.take(0))));
        assert(texts(seen@) =~= Seq::empty());
    }
    while i < list.len()
        invariant
            i <= list@.len(),
            es == evts(list@),
            ascending(texts(repos@)),
            ascending(texts(packages@)),
            ascending(texts(requesters@)),
            forall|x: Seq<char>| #[trigger]
                texts(repos@).contains(x) <==> repos_of(es.take(i as int)).contains(x),
            forall|x: Seq<char>| #[trigger]
                texts(packages@).contains(x) <==> package_keys(es.take(i as int)).contains(x),
            forall|x: Seq<char>| #[trigger]
                texts(requesters@).contains(x) <==> requesters_of(es.take(i as int)).contains(x),
            texts(seen@) == package_keys(es.take(i as int)),
            ref_views(refs@) == lookup_views(distinct_packages(es.take(i as int))),
        decreases list.len() - i,
    {
        let e = &list[i];
        let ghost done = es.take(i as int);
        let ghost next = es.take(i + 1);
        let coord = coordinate(e.pkg.as_str(), e.version.as_str());
        let mut key = e.repo.clone();
        key.append("/");
        key.append(coord.as_str());
        let ghost k = key@;
        proof {
            assert(es[i as int] == e@);
            assert(next.drop_last() =~= done);
            assert(next.last() == e@);
            assert(next =~= done.push(e@));
            assert(repos_of(next) =~= repos_of(done).push(e.repo@));
            assert(package_keys(next) =~= package_keys(done).push(k));
            assert(requesters_of(next) =~= requesters_of(done).push(who_of(e.requested_by@)));
            lemma_push_contains(repos_of(done), e.repo@);
            lemma_push_contains(package_keys(done), k);
            lemma_push_contains(requesters_of(done), who_of(e.requested_by@));
        }
        let ghost r0 = texts(repos@);
        let ghost p0 = texts(packages@);
        let ghost q0 = texts(requesters@);
        insert_sorted(&mut requesters, who(e.requested_by.as_str()));
        insert_sorted(&mut repos, e.repo.clone());
        insert_sorted(&mut packages, key.clone());
        proof {
            assert forall|x: Seq<char>| #[trigger] texts(repos@).contains(x) <==> repos_of(
                next,
            ).contains(x) by {
                assert(r0.contains(x) <==> repos_of(done).contains(x));
                assert(repos_of(done).push(e.repo@).contains(x) <==> repos_of(done).contains(x) || x
                    == e.repo@);
            }
            assert forall|x: Seq<char>| #[trigger] texts(packages@).contains(x) <==> package_keys(
                next,
            ).contains(x) by {
                assert(p0.contains(x) <==> package_keys(done).contains(x));
                assert(package_keys(done).push(k).contains(x) <==> package_keys(done).contains(x)
                    || x == k);
            }
            assert forall|x: Seq<char>| #[trigger]
                texts(requesters@).contains(x) <==> requesters_of(next).contains(x) by {
                assert(q0.contains(x) <==> requesters_of(done).contains(x));
                assert(requesters_of(done).push(who_of(e.requested_by@)).contains(x)
                    <==> requesters_of(done).contains(x) || x == who_of(e.requested_by@));
            }
        }
        if !contains_text(&seen, key.as_str()) {
            let ghost before = ref_views(refs@);
            refs.push(
                PkgRef { repo_id: e.repo_id, pkg: e.pkg.clone(), version: e.version.clone() },
            );
            proof {
                assert(ref_views(refs@) =~= before.push((e@.repo_id, e@.pkg, e@.version)));
                assert(lookup_views(distinct_packages(next)) =~= lookup_views(
                    distinct_packages(done),
                ).push((e@.repo_id, e@.pkg, e@.version)));
            }
        }
        let ghost s0 = texts(seen@);
        seen.push(key);
        assert(texts(seen@) =~= s0.push(k));
        i += 1;
    }
    proof {
        assert(es.take(es.len() as int) =~= es);
        lemma_sorted_set(texts(repos@), repos_of(es));
        lemma_sorted_set(texts(packages@), package_keys(es));
        lemma_sorted_set(texts(requesters@), requesters_of(es));
        lemma_count_is_distinct(es, texts(packages@));
        assert(ref_views(refs@).len() == refs@.len());
    }
    Grouped { repos, packages, requesters, refs }
}

/// What is picked of the verdicts.
struct TopPick {
    clean: u64,
    top: Option<usize>,
}

fn pick_top(verdicts: &Vec<Verdict>) -> (r: TopPick)
    ensures
        r.clean == clean_count_of(verdict_views(verdicts@)),
        match r.top {
            Some(i) => top_verdict(verdict_views(verdicts@)) == Some(i as int) && i
                < verdicts@.len(),
            None => top_verdict(verdict_views(verdicts@)) is None,
        },
{
    let ghost all = verdict_views(verdicts@);
    let mut clean: u64 = 0;
    let mut top: Option<usize> = None;
    let mut top_rank: i64 = 0;
    let mut i: usize = 0;
    assert(all.take(0) =~= Seq::empty());
    while i < verdicts.len()
        invariant
            i <= verdicts@.len(),
            all == verdict_views(verdicts@),
            clean == clean_count_of(all.take(i as int)),
            clean <= i,
            match top {
                Some(k) => top_verdict(all.take(i as int)) == Some(k as int) && k < i && top_rank
                    == severity_rank(all[k as int].severity),
                None => top_verdict(all.take(i as int)) is None && top_rank == 0,
            },
        decreases verdicts.len() - i,
    {
        let v = &verdicts[i];
        proof {
            assert(all[i as int] == v@);
            assert(all.take(i + 1).drop_last() =~= all.take(i as int));
            assert(all.take(i + 1).last() == v@);
            if let Some(k) = top {
                assert(all.take(i + 1)[k as int] == all[k as int]);
            }
        }
        if v.scanned && same(v.severity.as_str(), "none") {
            clean += 1;
        }
        let rank = sev_rank(v.severity.as_str());
        if rank > top_rank {
            top = Some(i);
            top_rank = rank;
        }
        i += 1;
    }
    assert(all.take(all.len() as int) =~= all);
    TopPick { clean, top }
}

proof fn lemma_first_of_repo(es: Seq<Evt>, repo: Seq<char>, i: int)
    requires
        0 <= i,
        exists|k: int| i <= k < es.len() && (#[trigger] es[k]).repo == repo,
    ensures
        i <= first_of_repo(es, repo, i) < es.len(),
    decreases es.len() - i,
{
    if i < es.len() && es[i].repo != repo {
        lemma_first_of_repo(es, repo, i + 1);
    }
}

impl Notifier {
    /// A repository as the first event of it gives it.
    fn grouped_repo_link(&self, list: &Vec<ApprovalEvt>, repo: &str) -> (r: String)
        requires
            repos_of(evts(list@)).contains(repo@),
        ensures
            r@ == grouped_repo(self.external_url@, evts(list@), repo@),
    {
        let ghost es = evts(list@);
        proof {
            let k = choose|k: int| 0 <= k < repos_of(es).len() && repos_of(es)[k] == repo@;
            assert(es[k].repo == repo@);
            lemma_first_of_repo(es, repo@, 0);
        }
        let mut i: usize = 0;
        while i < list.len() && !same(list[i].repo.as_str(), repo)
            invariant
                i <= list@.len(),
                es == evts(list@),
                first_of_repo(es, repo@, 0) == first_of_repo(es, repo@, i as int),
                first_of_repo(es, repo@, 0) < es.len(),
            decreases list.len() - i,
        {
            assert(es[i as int].repo == list@[i as int].repo@);
            i += 1;
        }
        assert(i < list@.len() ==> es[i as int] == list@[i as int]@);
        self.repo_field(repo, list[i].repo_id, list[i].repo_format.as_str())
    }

    /// The scans that the grouped alarm for these events asks for, in order: one for
    /// each distinct package.
    pub fn grouped_refs(&self, list: &Vec<ApprovalEvt>) -> (r: Vec<PkgRef>)
        ensures
            ref_views(r@) == lookup_views(distinct_packages(evts(list@))),
    {
        group_events(list).refs
    }

    /// Renders one alarm summarising several quarantined packages, grouped by
    /// repository and de-duplicated. `verdicts` are what a scan lookup says of each of
    /// [`Notifier::grouped_refs`]; absent where there is no lookup.
    pub fn build_approval_grouped(
        &self,
        list: &Vec<ApprovalEvt>,
        verdicts: Option<&Vec<Verdict>>,
        timestamp: &str,
    ) -> (r: ApprovalPayload)
        requires
            verdicts matches Some(v) ==> v@.len() == distinct_packages(evts(list@)).len(),
        ensures
            r@ == grouped_payload(
                self.external_url@,
                evts(list@),
                match verdicts {
                    Some(v) => Some(verdict_views(v@)),
                    None => None,
                },
                timestamp@,
            ),
    {
        let ghost es = evts(list@);
        let ghost ext = self.external_url@;
        let g = group_events(list);
        let count: u64 = g.packages.len() as u64;
        let mut links: Vec<String> = Vec::new();
        let ghost want = texts(g.repos@).map_values(|r: Seq<char>| grouped_repo(ext, es, r));
        let mut i: usize = 0;
        assert(texts(links@) =~= want.take(0));
        while i < g.repos.len()
            invariant
                i <= g.repos@.len(),
                es == evts(list@),
                ext == self.external_url@,
                want == texts(g.repos@).map_values(|r: Seq<char>| grouped_repo(ext, es, r)),
                texts(links@) == want.take(i as int),
                forall|x: Seq<char>| #[trigger]
                    texts(g.repos@).contains(x) <==> repos_of(es).contains(x),
            decreases g.repos.len() - i,
        {
            let ghost done = texts(links@);
            proof {
                let x = texts(g.repos@)[i as int];
                assert(x == g.repos@[i as int]@);
                assert(texts(g.repos@).contains(x));
            }
            let link = self.grouped_repo_link(list, g.repos[i].as_str());
            let ghost l = link@;
            links.push(link);
            proof {
                assert(want[i as int] == l);
                assert(texts(links@) =~= done.push(l));
                assert(texts(links@) =~= want.take(i + 1));
            }
            i += 1;
        }
        proof {
            assert(want.take(want.len() as int) =~= want);
            assert(texts(links@).subrange(0, links@.len() as int) =~= texts(links@));
        }
        let mut fields: Vec<AlarmField> = Vec::new();
        fields.push(AlarmField::new("Repository", join_texts(&links, 0, links.len(), " / ")));
        fields.push(AlarmField::new("Pending packages", utoa(count).as_str().to_owned()));
        let ghost head = field_views(fields@);
        assert(head =~= seq![
            ("Repository"@, join(want, " / "@)),
            ("Pending packages"@, digits(count as nat)),
        ]);
        let mut p: ApprovalPayload = Default::default();
        if let Some(v) = verdicts {
            let ghost vs = verdict_views(v@);
            let pick = pick_top(v);
            proof {
                lemma_clean_bound(vs);
            }
            let dirty: u64 = count - pick.clean;
            let mut val = utoa(pick.clean);
            val.append(" clean / ");
            val.append(utoa(dirty).as_str());
            val.append(" dirty");
            p.clean_count = pick.clean;
            p.dirty_count = dirty;
            if let Some(k) = pick.top {
                let ghost ds = distinct_packages(es);
                proof {
                    top_verdict_is_the_worst(vs);
                    assert(vs[k as int] == v@[k as int]@);
                    assert(ref_views(g.refs@)[k as int] == lookup_views(ds)[k as int]);
                    assert(g.refs@[k as int].pkg@ == ds[k as int].pkg);
                    assert(g.refs@[k as int].version@ == ds[k as int].version);
                }
                let coord = coordinate(g.refs[k].pkg.as_str(), g.refs[k].version.as_str());
                let mut detail = coord.clone();
                detail.append(" ");
                detail.append(v[k].severity.as_str());
                if !v[k].score.as_str().is_empty() {
                    detail.append(" ");
                    detail.append(v[k].score.as_str());
                }
                if !v[k].id.as_str().is_empty() {
                    detail.append(" ");
                    detail.append(cve_link(v[k].id.as_str()).as_str());
                }
                val.append(" (");
                val.append(detail.as_str());
                val.append(")");
                p.max_severity = v[k].severity.clone();
                p.max_score = v[k].score.clone();
                p.top_cve = v[k].id.clone();
                p.top_package = coord;
            }
            let ghost line = val@;
            assert(line == vulnerability_line(count as nat, distinct_packages(es), vs));
            fields.push(AlarmField::new("Vulnerability", val));
            assert(field_views(fields@) =~= head.push(("Vulnerability"@, line)));
        }
        let ghost before = field_views(fields@);
        let requesters = summarise_requesters(&g.requesters);
        let ghost line = requesters@;
        fields.push(AlarmField::new("Requested by", requesters));
        proof {
            assert(field_views(fields@) =~= before.push(("Requested by"@, line)));
            assert(field_views(fields@) == grouped_fields(
                ext,
                es,
                match verdicts {
                    Some(v) => Some(verdict_views(v@)),
                    None => None,
                },
            ));
        }
        let mut subtitle = "Packages are quarantined and awaiting review. Review in ".to_owned();
        subtitle.append(self.forklift().as_str());
        subtitle.append(".");
        p.text = render_alarm("Packages pending approval", subtitle.as_str(), &fields);
        p.event = "approval.request".to_owned();
        p.count = count;
        p.packages = g.packages;
        p.requesters = g.requesters;
        p.timestamp = timestamp.to_owned();
        p
    }

    /// The message for the events that one receiver's batch holds: a grouped summary
    /// when there are several, the ordinary alarm when there is one.
    pub fn batch_payload(
        &self,
        list: &Vec<ApprovalEvt>,
        verdicts: Option<&Vec<Verdict>>,
        timestamp: &str,
    ) -> (r: Option<ApprovalPayload>)
        requires
            verdicts matches Some(v) ==> v@.len() == distinct_packages(evts(list@)).len(),
        ensures
            list@.len() == 0 <==> r is None,
            r matches Some(p) ==> p@ == alarm_for(
                self.external_url@,
                evts(list@),
                match verdicts {
                    Some(v) => Some(verdict_views(v@)),
                    None => None,
                },
                timestamp@,
            ),
    {
        if list.len() == 0 {
            return None;
        }
        if list.len() == 1 {
            assert(evts(list@)[0] == list@[0]@);
            return Some(self.build_approval_single(&list[0], timestamp));
        }
        Some(self.build_approval_grouped(list, verdicts, timestamp))
    }

    /// The events that a preview of the given packages is rendered from.
    pub fn preview_events(
        &self,
        repo: &str,
        repo_id: i64,
        repo_format: &str,
        pkgs: &Vec<PreviewPackage>,
    ) -> (r: Vec<ApprovalEvt>)
        ensures
            evts(r@) == preview_evts(repo@, repo_id as int, repo_format@, pkgs@),
    {
        let mut out: Vec<ApprovalEvt> = Vec::new();
        let ghost want = preview_evts(repo@, repo_id as int, repo_format@, pkgs@);
        let mut i: usize = 0;
        assert(evts(out@) =~= want.take(0));
        while i < pkgs.len()
            invariant
                i <= pkgs@.len(),
                want == preview_evts(repo@, repo_id as int, repo_format@, pkgs@),
                evts(out@) == want.take(i as int),
            decreases pkgs.len() - i,
        {
            let ghost done = evts(out@);
            out.push(
                ApprovalEvt {
                    repo: repo.to_owned(),
                    repo_id,
                    repo_format: repo_format.to_owned(),
                    pkg: pkgs[i].package.clone(),
                    version: pkgs[i].version.clone(),
                    requested_by: pkgs[i].requested_by.clone(),
                },
            );
            assert(evts(out@) =~= done.push(want[i as int]));
            assert(evts(out@) =~= want.take(i + 1));
            i += 1;
        }
        assert(want.take(want.len() as int) =~= want);
        out
    }

    /// Renders the exact alarm that would be sent for the given packages, so a preview
    /// shows the real template rather than a stand-in. `verdicts` are those of
    /// [`Notifier::grouped_refs`] of [`Notifier::preview_events`].
    pub fn preview_approval(
        &self,
        repo: &str,
        repo_id: i64,
        repo_format: &str,
        pkgs: &Vec<PreviewPackage>,
        verdicts: Option<&Vec<Verdict>>,
        timestamp: &str,
    ) -> (r: ApprovalPayload)
        requires
            verdicts matches Some(v) ==> v@.len() == distinct_packages(
                preview_evts(repo@, repo_id as int, repo_format@, pkgs@),
            ).len(),
        ensures
            r@ == alarm_for(
                self.external_url@,
                preview_evts(repo@, repo_id as int, repo_format@, pkgs@),
                match verdicts {
                    Some(v) => Some(verdict_views(v@)),
                    None => None,
                },
                timestamp@,
            ),
    {
        let list = self.preview_events(repo, repo_id, repo_format, pkgs);
        if list.len() == 1 {
            assert(evts(list@)[0] == list@[0]@);
            return self.build_approval_single(&list[0], timestamp);
        }
        self.build_approval_grouped(&list, verdicts, timestamp)
    }
}

/// The alarm for events: the ordinary one for one event, the grouped one otherwise.
pub open spec fn alarm_for(
    ext: Seq<char>,
    es: Seq<Evt>,
    verdicts: Option<Seq<VerdictView>>,
    timestamp: Seq<char>,
) -> Payload {
    if es.len() == 1 {
        single_payload(ext, es[0], timestamp)
    } else {
        grouped_payload(ext, es, verdicts, timestamp)
    }
}

/// One coordinate that a preview is rendered for.
pub struct PreviewPackage {
    pub package: String,
    pub version: String,
    pub requested_by: String,
}

/// The events that a preview is rendered from.
pub open spec fn preview_evts(
    repo: Seq<char>,
    repo_id: int,
    repo_format: Seq<char>,
    pkgs: Seq<PreviewPackage>,
) -> Seq<Evt> {
    pkgs.map_values(
        |p: PreviewPackage|
            Evt {
                repo,
                repo_id,
                repo_format,
                pkg: p.package@,
                version: p.version@,
                requested_by: p.requested_by@,
            },
    )
}

/// A grouped alarm's clean and dirty packages make up all that it counts.
pub proof fn clean_and_dirty_add_up(
    ext: Seq<char>,
    es: Seq<Evt>,
    v: Seq<VerdictView>,
    timestamp: Seq<char>,
)
    requires
        v.len() == distinct_packages(es).len(),
    ensures
        ({
            let p = grouped_payload(ext, es, Some(v), timestamp);
            &&& p.clean_count + p.dirty_count == p.count
            &&& p.clean_count >= 0
            &&& p.dirty_count >= 0
            &&& p.count == p.packages.len()
        }),
{
    lemma_sorted_set_holds(package_keys(es));
    lemma_count_is_distinct(es, sorted_set(package_keys(es)));
    lemma_clean_bound(v);
}

/// A buffered event reaches every receiver that has a URL: each holds it as its
/// newest, behind what it held before.
pub proof fn every_receiver_gets_the_event(
    m: Map<Seq<char>, BatchView>,
    targets: Seq<Target>,
    e: Evt,
    i: int,
)
    requires
        0 <= i < targets.len(),
        targets[i].url@.len() > 0,
    ensures
        ({
            let after = add_for_all(m, targets, e);
            let u = targets[i].url@;
            &&& after.contains_key(u)
            &&& after[u].evts.len() > 0
            &&& after[u].evts.last() == e
            &&& m.contains_key(u) ==> after[u].name == m[u].name && m[u].evts.is_prefix_of(
                after[u].evts,
            )
        }),
    decreases targets.len(),
{
    let init = targets.drop_last();
    let u = targets[i].url@;
    lemma_batch_grows(m, init, e, u);
    if i < init.len() {
        assert(init[i] == targets[i]);
        every_receiver_gets_the_event(m, init, e, i);
    }
}

proof fn lemma_batch_grows(
    m: Map<Seq<char>, BatchView>,
    targets: Seq<Target>,
    e: Evt,
    u: Seq<char>,
)
    ensures
        m.contains_key(u) ==> add_for_all(m, targets, e).contains_key(u) && add_for_all(
            m,
            targets,
            e,
        )[u].name == m[u].name && m[u].evts.is_prefix_of(add_for_all(m, targets, e)[u].evts),
    decreases targets.len(),
{
    if targets.len() > 0 {
        lemma_batch_grows(m, targets.drop_last(), e, u);
    }
}

/// A receiver that is not told keeps what it had.
pub proof fn other_receivers_are_untouched(
    m: Map<Seq<char>, BatchView>,
    targets: Seq<Target>,
    e: Evt,
    u: Seq<char>,
)
    requires
        forall|i: int| 0 <= i < targets.len() ==> (#[trigger] targets[i]).url@ != u,
    ensures
        add_for_all(m, targets, e).contains_key(u) == m.contains_key(u),
        m.contains_key(u) ==> add_for_all(m, targets, e)[u] == m[u],
    decreases targets.len(),
{
    if targets.len() > 0 {
        let init = targets.drop_last();
        assert(forall|i: int| 0 <= i < init.len() ==> init[i] == targets[i]);
        assert(targets[targets.len() - 1] == targets.last());
        other_receivers_are_untouched(m, init, e, u);
    }
}

} // verus!
