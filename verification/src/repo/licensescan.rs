//! Queues and backfills the license resolutions that the license gate consults.

use vstd::prelude::*;
use vstd::string::StrSliceExecFns;

use crate::meta::{FORMAT_CARGO, FORMAT_GO, FORMAT_MAVEN, FORMAT_NPM, FORMAT_PYPI};
use crate::repo::approvalgate::{mark_once, PENDING_MARK_TTL};
use crate::repo::cargo::{cargo_package, cargo_package_of};
use crate::repo::gomod::{go_package, go_package_of};
use crate::repo::maven::{maven_package, maven_package_of};
use crate::repo::negcache::{live, NegCache};
use crate::repo::npm::{npm_package, package_of};
use crate::repo::path::{base_name, path_base};
use crate::repo::pypi::{distribution_name, folded, pypi_package_from_filename};
use crate::bridge::lowercase;
use crate::text::{cat, contains_text, same, texts};
use crate::times::valid_instant;

verus! {

/// The name under which the license source knows a format; empty where it does not
/// know it.
pub open spec fn system_of(format: Seq<char>) -> Seq<char> {
    if format == FORMAT_MAVEN@ {
        "maven"@
    } else if format == FORMAT_NPM@ {
        "npm"@
    } else if format == FORMAT_CARGO@ {
        "cargo"@
    } else if format == FORMAT_GO@ {
        "go"@
    } else if format == FORMAT_PYPI@ {
        "pypi"@
    } else {
        ""@
    }
}

/// Maps a repository format to the name of its system at the license source; empty
/// for formats that have none.
pub fn deps_dev_system(format: &str) -> (r: &'static str)
    ensures
        r@ == system_of(format@),
{
    if same(format, FORMAT_MAVEN) {
        "maven"
    } else if same(format, FORMAT_NPM) {
        "npm"
    } else if same(format, FORMAT_CARGO) {
        "cargo"
    } else if same(format, FORMAT_GO) {
        "go"
    } else if same(format, FORMAT_PYPI) {
        "pypi"
    } else {
        ""
    }
}

/// The package that an artifact path of a format names.
pub open spec fn format_package(format: Seq<char>, path: Seq<char>) -> Seq<char> {
    if format == FORMAT_MAVEN@ {
        maven_package_of(path)
    } else if format == FORMAT_NPM@ {
        package_of(path)
    } else if format == FORMAT_CARGO@ {
        cargo_package_of(path)
    } else if format == FORMAT_GO@ {
        go_package_of(path)
    } else if format == FORMAT_PYPI@ {
        match distribution_name(base_name(path)) {
            Some(name) => folded(lowercase(name)),
            None => ""@,
        }
    } else {
        ""@
    }
}

/// Returns the system and the package name of an artifact path, for joining stored
/// license results to listed artifacts; both empty when the format has no resolvable
/// coordinate.
pub fn license_coordinate(format: &str, artifact_path: &str) -> (r: (String, String))
    ensures
        r.0@ == system_of(format@),
        r.1@ == format_package(format@, artifact_path@),
{
    let system = deps_dev_system(format);
    let pkg = if same(format, FORMAT_MAVEN) {
        maven_package(artifact_path)
    } else if same(format, FORMAT_NPM) {
        npm_package(artifact_path)
    } else if same(format, FORMAT_CARGO) {
        cargo_package(artifact_path)
    } else if same(format, FORMAT_GO) {
        go_package(artifact_path)
    } else if same(format, FORMAT_PYPI) {
        let base = path_base(artifact_path);
        pypi_package_from_filename(base.as_str())
    } else {
        "".to_owned()
    };
    (system.to_owned(), pkg)
}

/// One queued license resolution for a package coordinate.
pub struct ResolveJob {
    pub system: String,
    pub package: String,
    pub version: String,
}

/// A package coordinate.
pub ghost struct Coordinate {
    pub system: Seq<char>,
    pub package: Seq<char>,
    pub version: Seq<char>,
}

impl View for ResolveJob {
    type V = Coordinate;

    open spec fn view(&self) -> Coordinate {
        Coordinate { system: self.system@, package: self.package@, version: self.version@ }
    }
}

/// The coordinates of jobs.
pub open spec fn jobs_view(v: Seq<ResolveJob>) -> Seq<Coordinate> {
    v.map_values(|j: ResolveJob| j@)
}

/// The key under which a resolved coordinate is known.
pub open spec fn coordinate_key(c: Coordinate) -> Seq<char> {
    c.system + "\u{0}"@ + c.package + "\u{0}"@ + c.version
}

/// The mark of a queued coordinate.
pub open spec fn queue_mark(c: Coordinate) -> Seq<char> {
    "license\u{0}"@ + c.system + "\u{0}"@ + c.package + "\u{0}"@ + c.version
}

/// A coordinate can be resolved: there is a license source, and every part is known.
pub open spec fn resolvable(resolver: bool, c: Coordinate) -> bool {
    resolver && c.system.len() > 0 && c.package.len() > 0 && c.version.len() > 0
}

/// The marks after a coordinate is offered for resolution at `now`.
pub open spec fn marked(
    marks: Map<Seq<char>, i128>,
    resolver: bool,
    c: Coordinate,
    now: i128,
) -> Map<Seq<char>, i128> {
    if queues(marks, resolver, c, now) {
        marks.insert(queue_mark(c), (now + PENDING_MARK_TTL) as i128)
    } else {
        marks
    }
}

/// A coordinate that is offered for resolution at `now` is queued.
pub open spec fn queues(
    marks: Map<Seq<char>, i128>,
    resolver: bool,
    c: Coordinate,
    now: i128,
) -> bool {
    resolvable(resolver, c) && !live(marks, queue_mark(c), now as int)
}

/// Schedules a license resolution for a coordinate, at most once in a while so that
/// hot paths do not flood the queue.
pub fn enqueue_resolve(
    marks: &mut NegCache,
    resolver: bool,
    system: &str,
    pkg: &str,
    version: &str,
    now: i128,
) -> (r: Option<ResolveJob>)
    requires
        old(marks).wf(),
        valid_instant(now as int),
    ensures
        final(marks).wf(),
        ({
            let c = Coordinate { system: system@, package: pkg@, version: version@ };
            &&& r is Some <==> queues(old(marks)@, resolver, c, now)
            &&& r matches Some(j) ==> j@ == c
            &&& final(marks)@ == marked(old(marks)@, resolver, c, now)
        }),
{
    if !resolver || system.unicode_len() == 0 || pkg.unicode_len() == 0 || version.unicode_len()
        == 0 {
        return None;
    }
    let mut key = cat("license\u{0}", system);
    key.append("\u{0}");
    key.append(pkg);
    key.append("\u{0}");
    key.append(version);
    if !mark_once(marks, key.as_str(), now) {
        return None;
    }
    Some(
        ResolveJob {
            system: system.to_owned(),
            package: pkg.to_owned(),
            version: version.to_owned(),
        },
    )
}

/// Schedules the license resolution of a freshly stored artifact, so that a hosted
/// upload is resolved right away.
pub fn resolve_stored(
    marks: &mut NegCache,
    resolver: bool,
    format: &str,
    artifact_path: &str,
    version: &str,
    now: i128,
) -> (r: Option<ResolveJob>)
    requires
        old(marks).wf(),
        valid_instant(now as int),
    ensures
        final(marks).wf(),
        ({
            let c = Coordinate {
                system: system_of(format@),
                package: format_package(format@, artifact_path@),
                version: version@,
            };
            &&& r is Some <==> queues(old(marks)@, resolver, c, now)
            &&& r matches Some(j) ==> j@ == c
            &&& final(marks)@ == marked(old(marks)@, resolver, c, now)
        }),
{
    let (system, pkg) = license_coordinate(format, artifact_path);
    enqueue_resolve(marks, resolver, system.as_str(), pkg.as_str(), version, now)
}

/// How a resolution is counted.
pub fn resolve_label(licenses: Option<usize>) -> (r: &'static str)
    ensures
        r@ == match licenses {
            None => "error"@,
            Some(n) => if n == 0 {
                "unknown"@
            } else {
                "resolved"@
            },
        },
{
    match licenses {
        None => "error",
        Some(n) => {
            if n == 0 {
                "unknown"
            } else {
                "resolved"
            }
        },
    }
}

// ---------------------------------------------------------------------------
// Backfill

/// One stored artifact.
pub struct ScanTarget {
    pub format: String,
    pub path: String,
    pub version: String,
}

/// The coordinate of a stored artifact.
pub open spec fn target_coordinate(t: ScanTarget) -> Coordinate {
    Coordinate {
        system: system_of(t.format@),
        package: format_package(t.format@, t.path@),
        version: t.version@,
    }
}

/// A stored artifact has a package and no result yet.
pub open spec fn unresolved(t: ScanTarget, resolved: Seq<Seq<char>>) -> bool {
    target_coordinate(t).package.len() > 0 && !resolved.contains(
        coordinate_key(target_coordinate(t)),
    )
}

/// The marks after a page of stored artifacts is gone through.
pub open spec fn page_marks(
    marks: Map<Seq<char>, i128>,
    resolver: bool,
    resolved: Seq<Seq<char>>,
    targets: Seq<ScanTarget>,
    now: i128,
) -> Map<Seq<char>, i128>
    decreases targets.len(),
{
    if targets.len() == 0 {
        marks
    } else {
        let before = page_marks(marks, resolver, resolved, targets.drop_last(), now);
        if unresolved(targets.last(), resolved) {
            marked(before, resolver, target_coordinate(targets.last()), now)
        } else {
            before
        }
    }
}

/// The coordinates that a page of stored artifacts adds to the queue.
pub open spec fn page_jobs(
    marks: Map<Seq<char>, i128>,
    resolver: bool,
    resolved: Seq<Seq<char>>,
    targets: Seq<ScanTarget>,
    now: i128,
) -> Seq<Coordinate>
    decreases targets.len(),
{
    if targets.len() == 0 {
        Seq::empty()
    } else {
        let front = targets.drop_last();
        let jobs = page_jobs(marks, resolver, resolved, front, now);
        let before = page_marks(marks, resolver, resolved, front, now);
        let c = target_coordinate(targets.last());
        if unresolved(targets.last(), resolved) && queues(before, resolver, c, now) {
            jobs.push(c)
        } else {
            jobs
        }
    }
}

/// The number of artifacts of a page that have no result yet.
pub open spec fn page_count(resolved: Seq<Seq<char>>, targets: Seq<ScanTarget>) -> nat
    decreases targets.len(),
{
    if targets.len() == 0 {
        0
    } else if unresolved(targets.last(), resolved) {
        page_count(resolved, targets.drop_last()) + 1
    } else {
        page_count(resolved, targets.drop_last())
    }
}

/// Schedules a resolution for every artifact of a page that has no result yet, and
/// counts them. Coordinates that are resolved are skipped, and so are formats without
/// a license source.
pub fn license_backfill_page(
    marks: &mut NegCache,
    resolver: bool,
    resolved: &Vec<String>,
    targets: &Vec<ScanTarget>,
    now: i128,
) -> (r: (Vec<ResolveJob>, usize))
    requires
        old(marks).wf(),
        valid_instant(now as int),
    ensures
        final(marks).wf(),
        jobs_view(r.0@) == page_jobs(old(marks)@, resolver, texts(resolved@), targets@, now),
        r.1 == page_count(texts(resolved@), targets@),
        final(marks)@ == page_marks(old(marks)@, resolver, texts(resolved@), targets@, now),
{
    let ghost start = marks@;
    let ghost known = texts(resolved@);
    let mut jobs: Vec<ResolveJob> = Vec::new();
    let mut count: usize = 0;
    let mut i: usize = 0;
    assert(targets@.take(0) =~= Seq::empty());
    assert(jobs_view(jobs@) =~= Seq::empty());
    while i < targets.len()
        invariant
            i <= targets@.len(),
            count <= i,
            known == texts(resolved@),
            marks.wf(),
            valid_instant(now as int),
            jobs_view(jobs@) == page_jobs(start, resolver, known, targets@.take(i as int), now),
            count == page_count(known, targets@.take(i as int)),
            marks@ == page_marks(start, resolver, known, targets@.take(i as int), now),
        decreases targets@.len() - i,
    {
        let t = &targets[i];
        proof {
            assert(targets@.take(i + 1).drop_last() =~= targets@.take(i as int));
            assert(targets@.take(i + 1).last() == targets@[i as int]);
        }
        let (system, pkg) = license_coordinate(t.format.as_str(), t.path.as_str());
        if pkg.as_str().unicode_len() != 0 {
            let mut key = cat(system.as_str(), "\u{0}");
            key.append(pkg.as_str());
            key.append("\u{0}");
            key.append(t.version.as_str());
            if !contains_text(resolved, key.as_str()) {
                let ghost before = jobs_view(jobs@);
                if let Some(job) = enqueue_resolve(
                    marks,
                    resolver,
                    system.as_str(),
                    pkg.as_str(),
                    t.version.as_str(),
                    now,
                ) {
                    let ghost c = job@;
                    jobs.push(job);
                    assert(jobs_view(jobs@) =~= before.push(c));
                }
                count = count + 1;
            }
        }
        i += 1;
    }
    assert(targets@.take(targets@.len() as int) =~= targets@);
    (jobs, count)
}

/// Where the page after one of `len` artifacts at `offset` starts: only behind a full
/// page is there another.
pub fn next_offset(offset: i64, len: usize, batch: i64) -> (r: Option<i64>)
    requires
        0 <= offset,
        0 < batch,
        offset + batch <= i64::MAX,
    ensures
        r == (if len < batch {
            None
        } else {
            Some((offset + batch) as i64)
        }),
{
    if (len as i128) < batch as i128 {
        return None;
    }
    Some(offset + batch)
}

// ---------------------------------------------------------------------------
// Laws

/// The page of `batch` artifacts at `offset`.
pub open spec fn page_at(all: Seq<ScanTarget>, offset: int, batch: int) -> Seq<ScanTarget> {
    if offset + batch <= all.len() {
        all.subrange(offset, offset + batch)
    } else {
        all.subrange(offset, all.len() as int)
    }
}

/// The marks and the queued coordinates after a sweep from `offset` on, page by page.
pub open spec fn sweep(
    marks: Map<Seq<char>, i128>,
    resolver: bool,
    resolved: Seq<Seq<char>>,
    all: Seq<ScanTarget>,
    offset: int,
    batch: int,
    now: i128,
) -> (Map<Seq<char>, i128>, Seq<Coordinate>)
    decreases all.len() - offset,
{
    if batch <= 0 || offset < 0 || offset > all.len() {
        (marks, Seq::empty())
    } else {
        let page = page_at(all, offset, batch);
        let after = page_marks(marks, resolver, resolved, page, now);
        let jobs = page_jobs(marks, resolver, resolved, page, now);
        if page.len() < batch {
            (after, jobs)
        } else {
            let rest = sweep(after, resolver, resolved, all, offset + batch, batch, now);
            (rest.0, jobs + rest.1)
        }
    }
}

/// The size of the pages does not matter: a sweep queues what going through all
/// stored artifacts at once would, in the same order, and misses none.
pub proof fn sweeps_miss_nothing(
    marks: Map<Seq<char>, i128>,
    resolver: bool,
    resolved: Seq<Seq<char>>,
    all: Seq<ScanTarget>,
    batch: int,
    now: i128,
)
    requires
        0 < batch,
    ensures
        sweep(marks, resolver, resolved, all, 0, batch, now) == (
            page_marks(marks, resolver, resolved, all, now),
            page_jobs(marks, resolver, resolved, all, now),
        ),
{
    lemma_sweep(marks, resolver, resolved, all, 0, batch, now);
    assert(all.skip(0) =~= all);
}

proof fn lemma_sweep(
    marks: Map<Seq<char>, i128>,
    resolver: bool,
    resolved: Seq<Seq<char>>,
    all: Seq<ScanTarget>,
    offset: int,
    batch: int,
    now: i128,
)
    requires
        0 < batch,
        0 <= offset <= all.len(),
    ensures
        sweep(marks, resolver, resolved, all, offset, batch, now) == (
            page_marks(marks, resolver, resolved, all.skip(offset), now),
            page_jobs(marks, resolver, resolved, all.skip(offset), now),
        ),
    decreases all.len() - offset,
{
    let page = page_at(all, offset, batch);
    if page.len() < batch {
        assert(page =~= all.skip(offset));
    } else {
        let after = page_marks(marks, resolver, resolved, page, now);
        lemma_sweep(after, resolver, resolved, all, offset + batch, batch, now);
        assert(all.skip(offset) =~= page + all.skip(offset + batch));
        lemma_pages_chain(marks, resolver, resolved, page, all.skip(offset + batch), now);
    }
}

proof fn lemma_pages_chain(
    marks: Map<Seq<char>, i128>,
    resolver: bool,
    resolved: Seq<Seq<char>>,
    a: Seq<ScanTarget>,
    b: Seq<ScanTarget>,
    now: i128,
)
    ensures
        page_marks(marks, resolver, resolved, a + b, now) == page_marks(
            page_marks(marks, resolver, resolved, a, now),
            resolver,
            resolved,
            b,
            now,
        ),
        page_jobs(marks, resolver, resolved, a + b, now) == page_jobs(
            marks,
            resolver,
            resolved,
            a,
            now,
        ) + page_jobs(page_marks(marks, resolver, resolved, a, now), resolver, resolved, b, now),
    decreases b.len(),
{
    if b.len() == 0 {
        assert(a + b =~= a);
        assert(page_jobs(marks, resolver, resolved, a, now) + Seq::<Coordinate>::empty()
            =~= page_jobs(marks, resolver, resolved, a, now));
    } else {
        lemma_pages_chain(marks, resolver, resolved, a, b.drop_last(), now);
        assert((a + b).drop_last() =~= a + b.drop_last());
        let left = page_jobs(marks, resolver, resolved, a, now);
        let mid = page_marks(marks, resolver, resolved, a, now);
        let right = page_jobs(mid, resolver, resolved, b.drop_last(), now);
        let c = target_coordinate(b.last());
        assert(left + right.push(c) =~= (left + right).push(c));
    }
}

/// A coordinate that has a result is never queued by the backfill.
pub proof fn resolved_coordinates_are_left_alone(
    marks: Map<Seq<char>, i128>,
    resolver: bool,
    resolved: Seq<Seq<char>>,
    targets: Seq<ScanTarget>,
    now: i128,
)
    ensures
        forall|c: Coordinate| #[trigger]
            page_jobs(marks, resolver, resolved, targets, now).contains(c) ==> !resolved.contains(
                coordinate_key(c),
            ) && c.package.len() > 0,
    decreases targets.len(),
{
    if targets.len() > 0 {
        resolved_coordinates_are_left_alone(marks, resolver, resolved, targets.drop_last(), now);
        let jobs = page_jobs(marks, resolver, resolved, targets.drop_last(), now);
        let all = page_jobs(marks, resolver, resolved, targets, now);
        assert forall|c: Coordinate| #[trigger] all.contains(c) implies !resolved.contains(
            coordinate_key(c),
        ) && c.package.len() > 0 by {
            let i = choose|i: int| 0 <= i < all.len() && all[i] == c;
            if i < jobs.len() {
                assert(jobs[i] == c);
                assert(jobs.contains(c));
            }
        }
    }
}

/// Without a license source nothing is ever queued.
pub proof fn nothing_is_queued_without_a_resolver(
    marks: Map<Seq<char>, i128>,
    resolved: Seq<Seq<char>>,
    targets: Seq<ScanTarget>,
    now: i128,
)
    ensures
        page_jobs(marks, false, resolved, targets, now).len() == 0,
        page_marks(marks, false, resolved, targets, now) == marks,
    decreases targets.len(),
{
    if targets.len() > 0 {
        nothing_is_queued_without_a_resolver(marks, resolved, targets.drop_last(), now);
    }
}

/// A coordinate that was just queued is not queued again while its mark lasts.
pub proof fn a_coordinate_is_queued_once(
    marks: Map<Seq<char>, i128>,
    c: Coordinate,
    at: i128,
    now: i128,
)
    requires
        valid_instant(at as int),
        resolvable(true, c),
        !live(marks, queue_mark(c), at as int),
        now <= at + PENDING_MARK_TTL,
    ensures
        queues(marks, true, c, at),
        !queues(marked(marks, true, c, at), true, c, now),
{
}

} // verus!
