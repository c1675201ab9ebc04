//! Registry of metadata references whose blob bytes are missing.

use vstd::prelude::*;
use vstd::string::StrSliceExecFns;

use crate::repo::engine::Engine;
use crate::table::Table;
use crate::text::same;

verus! {

/// Bounds the registry. If something goes very wrong the oldest entries are dropped
/// rather than growing memory without limit.
pub const MAX_DANGLING_TRACKED: usize = 4096;

// ---------------------------------------------------------------------------
// Status counts

/// How often each status code was answered.
pub struct StatusCounts {
    pub counts: Vec<(i64, i64)>,
}

/// No status occurs twice.
pub open spec fn distinct_statuses(v: Seq<(i64, i64)>) -> bool {
    forall|i: int, j: int| 0 <= i < j < v.len() ==> (#[trigger] v[i]).0 != (#[trigger] v[j]).0
}

/// The count of each status.
pub open spec fn status_map(v: Seq<(i64, i64)>) -> Map<i64, i64> {
    Map::new(
        |s: i64| exists|i: int| 0 <= i < v.len() && (#[trigger] v[i]).0 == s,
        |s: i64|
            {
                let i = choose|i: int| 0 <= i < v.len() && (#[trigger] v[i]).0 == s;
                v[i].1
            },
    )
}

impl View for StatusCounts {
    type V = Map<i64, i64>;

    open spec fn view(&self) -> Map<i64, i64> {
        status_map(self.counts@)
    }
}

/// The count that follows `n`. A count that is full stays.
pub open spec fn next_count(n: i64) -> i64 {
    if n < i64::MAX {
        (n + 1) as i64
    } else {
        n
    }
}

fn one_more(n: i64) -> (r: i64)
    ensures
        r == next_count(n),
{
    if n < i64::MAX {
        n + 1
    } else {
        n
    }
}

/// `m` with one more of `status`.
pub open spec fn counted(m: Map<i64, i64>, status: i64) -> Map<i64, i64> {
    m.insert(
        status,
        if m.contains_key(status) {
            next_count(m[status])
        } else {
            1
        },
    )
}

impl StatusCounts {
    /// No status occurs twice.
    pub open spec fn wf(&self) -> bool {
        distinct_statuses(self.counts@)
    }

    /// No counts.
    pub fn new() -> (r: StatusCounts)
        ensures
            r.wf(),
            r@ == Map::<i64, i64>::empty(),
    {
        let r = StatusCounts { counts: Vec::new() };
        assert(r@ =~= Map::empty());
        r
    }

    fn find(&self, status: i64) -> (r: Option<usize>)
        requires
            self.wf(),
        ensures
            match r {
                Some(i) => i < self.counts@.len() && self.counts@[i as int].0 == status
                    && self@.contains_key(status) && self@[status] == self.counts@[i as int].1,
                None => !self@.contains_key(status),
            },
    {
        let mut i: usize = 0;
        while i < self.counts.len()
            invariant
                i <= self.counts@.len(),
                self.wf(),
                forall|j: int| 0 <= j < i ==> (#[trigger] self.counts@[j]).0 != status,
            decreases self.counts@.len() - i,
        {
            if self.counts[i].0 == status {
                assert(self.counts@[i as int].0 == status);
                return Some(i);
            }
            i += 1;
        }
        None
    }

    /// How often `status` was answered.
    pub fn get(&self, status: i64) -> (r: Option<i64>)
        requires
            self.wf(),
        ensures
            match r {
                Some(n) => self@.contains_key(status) && n == self@[status],
                None => !self@.contains_key(status),
            },
    {
        match self.find(status) {
            Some(i) => Some(self.counts[i].1),
            None => None,
        }
    }

    /// Counts `status` once more.
    pub fn add_one(&mut self, status: i64)
        requires
            old(self).wf(),
        ensures
            final(self).wf(),
            final(self)@ == counted(old(self)@, status),
    {
        let ghost before = self.counts@;
        match self.find(status) {
            Some(i) => {
                let n: i64 = self.counts[i].1;
                self.counts.set(i, (status, one_more(n)));
                proof {
                    let after = self.counts@;
                    assert(after == before.update(i as int, (status, next_count(n))));
                    assert(distinct_statuses(after)) by {
                        assert forall|a: int, b: int| 0 <= a < b < after.len() implies (
                        #[trigger] after[a]).0 != (#[trigger] after[b]).0 by {
                            assert(before[a].0 != before[b].0);
                        }
                    }
                    lemma_status_map(before);
                    lemma_status_map(after);
                    assert forall|s: i64| #[trigger] status_map(after).contains_key(s) <==> counted(
                        status_map(before),
                        status,
                    ).contains_key(s) by {
                        if status_map(after).contains_key(s) {
                            let k = choose|k: int| 0 <= k < after.len() && (#[trigger] after[k]).0 == s;
                            assert(before[k].0 == s);
                        }
                        if status_map(before).contains_key(s) {
                            let k = choose|k: int|
                                0 <= k < before.len() && (#[trigger] before[k]).0 == s;
                            assert(after[k].0 == s);
                        }
                        assert(after[i as int].0 == status);
                    }
                    assert forall|s: i64| #[trigger]
                        status_map(after).contains_key(s) implies status_map(after)[s] == counted(
                        status_map(before),
                        status,
                    )[s] by {
                        let k = choose|k: int| 0 <= k < after.len() && (#[trigger] after[k]).0 == s;
                        assert(before[k].0 == s);
                        assert(after[i as int].0 == status);
                        assert(before[i as int].0 == status);
                    }
                    assert(status_map(after) =~= counted(status_map(before), status));
                }
            },
            None => {
                self.counts.push((status, 1));
                proof {
                    let after = self.counts@;
                    assert(after == before.push((status, 1i64)));
                    assert forall|a: int, b: int| 0 <= a < b < after.len() implies (
                    #[trigger] after[a]).0 != (#[trigger] after[b]).0 by {
                        assert(before[a].0 == after[a].0);
                        assert(status_map(before).contains_key(before[a].0));
                    }
                    lemma_status_map(before);
                    lemma_status_map(after);
                    assert forall|s: i64| #[trigger] status_map(after).contains_key(s) <==> counted(
                        status_map(before),
                        status,
                    ).contains_key(s) by {
                        if status_map(after).contains_key(s) {
                            let k = choose|k: int| 0 <= k < after.len() && (#[trigger] after[k]).0 == s;
                            if k < before.len() {
                                assert(before[k].0 == s);
                            }
                        }
                        if status_map(before).contains_key(s) {
                            let k = choose|k: int|
                                0 <= k < before.len() && (#[trigger] before[k]).0 == s;
                            assert(after[k].0 == s);
                        }
                        assert(after[before.len() as int].0 == status);
                    }
                    assert forall|s: i64| #[trigger]
                        status_map(after).contains_key(s) implies status_map(after)[s] == counted(
                        status_map(before),
                        status,
                    )[s] by {
                        let k = choose|k: int| 0 <= k < after.len() && (#[trigger] after[k]).0 == s;
                        if k < before.len() {
                            assert(before[k].0 == s);
                        }
                        assert(after[before.len() as int].0 == status);
                    }
                    assert(status_map(after) =~= counted(status_map(before), status));
                }
            },
        }
    }

    /// The same counts once more.
    pub fn copy(&self) -> (r: StatusCounts)
        ensures
            r.counts@ == self.counts@,
    {
        let mut counts: Vec<(i64, i64)> = Vec::new();
        let mut i: usize = 0;
        while i < self.counts.len()
            invariant
                i <= self.counts@.len(),
                counts@ == self.counts@.take(i as int),
            decreases self.counts@.len() - i,
        {
            counts.push(self.counts[i]);
            i += 1;
            assert(self.counts@.take(i as int) =~= self.counts@.take(i - 1).push(
                self.counts@[i - 1],
            ));
        }
        assert(self.counts@.take(self.counts@.len() as int) =~= self.counts@);
        StatusCounts { counts }
    }
}

proof fn lemma_status_map(v: Seq<(i64, i64)>)
    requires
        distinct_statuses(v),
    ensures
        forall|i: int|
            0 <= i < v.len() ==> status_map(v).contains_key((#[trigger] v[i]).0) && status_map(
                v,
            )[v[i].0] == v[i].1,
{
    assert forall|i: int| 0 <= i < v.len() implies status_map(v).contains_key((#[trigger] v[i]).0)
        && status_map(v)[v[i].0] == v[i].1 by {
        let s = v[i].0;
        let j = choose|j: int| 0 <= j < v.len() && (#[trigger] v[j]).0 == s;
        assert(i == j);
    }
}

// ---------------------------------------------------------------------------
// References

/// A metadata reference whose blob bytes were found missing from the blob store:
/// which path is affected, which digest is gone, and when it was first observed.
pub struct DanglingRef {
    pub repo_id: i64,
    pub path: String,
    pub sha256: String,
    pub role: String,
    pub first_seen: i128,
    pub last_seen: i128,
    pub hits: i64,
    /// Counts the status codes that the failure produced.
    pub statuses: StatusCounts,
    /// The code that the most recent failure returned.
    pub last_status: i64,
}

/// What is known of one missing blob.
pub ghost struct Missing {
    pub repo_id: i64,
    pub path: Seq<char>,
    pub sha256: Seq<char>,
    pub role: Seq<char>,
    pub first_seen: i128,
    pub last_seen: i128,
    pub hits: i64,
    pub statuses: Map<i64, i64>,
    pub last_status: i64,
}

impl View for DanglingRef {
    type V = Missing;

    open spec fn view(&self) -> Missing {
        Missing {
            repo_id: self.repo_id,
            path: self.path@,
            sha256: self.sha256@,
            role: self.role@,
            first_seen: self.first_seen,
            last_seen: self.last_seen,
            hits: self.hits,
            statuses: self.statuses@,
            last_status: self.last_status,
        }
    }
}

impl DanglingRef {
    /// The repository and the path.
    pub open spec fn key(&self) -> (i64, Seq<char>) {
        (self.repo_id, self.path@)
    }

    /// It has been seen at least once, and no status is counted twice.
    pub open spec fn wf(&self) -> bool {
        self.statuses.wf() && self.hits >= 1
    }

    /// The same reference once more: what is done to it leaves the registry alone.
    pub fn copy(&self) -> (r: DanglingRef)
        ensures
            r@ == self@,
            r.key() == self.key(),
            self.wf() ==> r.wf(),
    {
        DanglingRef {
            repo_id: self.repo_id,
            path: self.path.as_str().to_owned(),
            sha256: self.sha256.as_str().to_owned(),
            role: self.role.as_str().to_owned(),
            first_seen: self.first_seen,
            last_seen: self.last_seen,
            hits: self.hits,
            statuses: self.statuses.copy(),
            last_status: self.last_status,
        }
    }
}

/// No key occurs twice.
pub open spec fn distinct_refs(v: Seq<DanglingRef>) -> bool {
    forall|i: int, j: int|
        0 <= i < j < v.len() ==> (#[trigger] v[i]).key() != (#[trigger] v[j]).key()
}

/// What is known under each key.
pub open spec fn ref_map(v: Seq<DanglingRef>) -> Map<(i64, Seq<char>), Missing> {
    Map::new(
        |k: (i64, Seq<char>)| exists|i: int| 0 <= i < v.len() && (#[trigger] v[i]).key() == k,
        |k: (i64, Seq<char>)|
            {
                let i = choose|i: int| 0 <= i < v.len() && (#[trigger] v[i]).key() == k;
                v[i]@
            },
    )
}

proof fn lemma_ref_map(v: Seq<DanglingRef>)
    requires
        distinct_refs(v),
    ensures
        forall|i: int|
            0 <= i < v.len() ==> ref_map(v).contains_key((#[trigger] v[i]).key()) && ref_map(
                v,
            )[v[i].key()] == v[i]@,
{
    assert forall|i: int| 0 <= i < v.len() implies ref_map(v).contains_key((#[trigger] v[i]).key())
        && ref_map(v)[v[i].key()] == v[i]@ by {
        let k = v[i].key();
        let j = choose|j: int| 0 <= j < v.len() && (#[trigger] v[j]).key() == k;
        assert(i == j);
    }
}

proof fn lemma_ref_push(v: Seq<DanglingRef>, r: DanglingRef)
    requires
        distinct_refs(v),
        !ref_map(v).contains_key(r.key()),
    ensures
        distinct_refs(v.push(r)),
        ref_map(v.push(r)) == ref_map(v).insert(r.key(), r@),
{
    let w = v.push(r);
    lemma_ref_map(v);
    assert forall|i: int, j: int| 0 <= i < j < w.len() implies (#[trigger] w[i]).key() != (
    #[trigger] w[j]).key() by {
        assert(w[i] == v[i]);
    }
    lemma_ref_map(w);
    assert forall|k: (i64, Seq<char>)| #[trigger] ref_map(w).contains_key(k) <==> ref_map(v).insert(
        r.key(),
        r@,
    ).contains_key(k) by {
        if ref_map(w).contains_key(k) {
            let i = choose|i: int| 0 <= i < w.len() && (#[trigger] w[i]).key() == k;
            if i < v.len() {
                assert(v[i].key() == k);
            }
        }
        if ref_map(v).contains_key(k) {
            let i = choose|i: int| 0 <= i < v.len() && (#[trigger] v[i]).key() == k;
            assert(w[i].key() == k);
        }
        assert(w[v.len() as int].key() == r.key());
    }
    assert forall|k: (i64, Seq<char>)| #[trigger] ref_map(w).contains_key(k) implies ref_map(w)[k]
        == ref_map(v).insert(r.key(), r@)[k] by {
        let i = choose|i: int| 0 <= i < w.len() && (#[trigger] w[i]).key() == k;
        if i < v.len() {
            assert(v[i].key() == k);
        }
        assert(w[v.len() as int].key() == r.key());
    }
    assert(ref_map(w) =~= ref_map(v).insert(r.key(), r@));
}

proof fn lemma_ref_remove(v: Seq<DanglingRef>, i: int)
    requires
        distinct_refs(v),
        0 <= i < v.len(),
    ensures
        distinct_refs(v.remove(i)),
        ref_map(v.remove(i)) == ref_map(v).remove(v[i].key()),
{
    let w = v.remove(i);
    assert forall|a: int, b: int| 0 <= a < b < w.len() implies (#[trigger] w[a]).key() != (
    #[trigger] w[b]).key() by {
        let x = if a < i {
            a
        } else {
            a + 1
        };
        let y = if b < i {
            b
        } else {
            b + 1
        };
        assert(w[a] == v[x] && w[b] == v[y]);
    }
    lemma_ref_map(v);
    lemma_ref_map(w);
    assert forall|k: (i64, Seq<char>)| #[trigger] ref_map(w).contains_key(k) <==> ref_map(v).remove(
        v[i].key(),
    ).contains_key(k) by {
        if ref_map(w).contains_key(k) {
            let a = choose|a: int| 0 <= a < w.len() && (#[trigger] w[a]).key() == k;
            let x = if a < i {
                a
            } else {
                a + 1
            };
            assert(w[a] == v[x]);
            assert(v[x].key() == k);
            assert(x != i);
        }
        if ref_map(v).contains_key(k) && k != v[i].key() {
            let x = choose|x: int| 0 <= x < v.len() && (#[trigger] v[x]).key() == k;
            let a = if x < i {
                x
            } else {
                x - 1
            };
            assert(w[a] == v[x]);
            assert(w[a].key() == k);
        }
    }
    assert forall|k: (i64, Seq<char>)| #[trigger] ref_map(w).contains_key(k) implies ref_map(w)[k]
        == ref_map(v)[k] by {
        let a = choose|a: int| 0 <= a < w.len() && (#[trigger] w[a]).key() == k;
        let x = if a < i {
            a
        } else {
            a + 1
        };
        assert(w[a] == v[x]);
        assert(v[x].key() == k);
    }
    assert(ref_map(w) =~= ref_map(v).remove(v[i].key()));
}

/// Remembers references observed to be missing their bytes. The entries are exactly
/// the artifacts that have already failed a real request.
pub struct DanglingRegistry {
    pub entries: Vec<DanglingRef>,
}

impl View for DanglingRegistry {
    type V = Map<(i64, Seq<char>), Missing>;

    open spec fn view(&self) -> Map<(i64, Seq<char>), Missing> {
        ref_map(self.entries@)
    }
}

/// A first observation.
pub open spec fn first_observation(
    key: (i64, Seq<char>),
    sha: Seq<char>,
    role: Seq<char>,
    status: i64,
    now: i128,
) -> Missing {
    Missing {
        repo_id: key.0,
        path: key.1,
        sha256: sha,
        role,
        first_seen: now,
        last_seen: now,
        hits: 1,
        statuses: if status == 0 {
            Map::empty()
        } else {
            counted(Map::empty(), status)
        },
        last_status: status,
    }
}

/// `m` after one more observation. A changed digest restarts the clock and the
/// counts.
pub open spec fn observed_again(m: Missing, sha: Seq<char>, status: i64, now: i128) -> Missing {
    let same_bytes = m.sha256 == sha;
    let statuses = if same_bytes {
        m.statuses
    } else {
        Map::empty()
    };
    Missing {
        repo_id: m.repo_id,
        path: m.path,
        sha256: sha,
        role: m.role,
        first_seen: if same_bytes {
            m.first_seen
        } else {
            now
        },
        last_seen: now,
        hits: if same_bytes {
            next_count(m.hits)
        } else {
            1
        },
        statuses: if status == 0 {
            statuses
        } else {
            counted(statuses, status)
        },
        last_status: if status == 0 {
            m.last_status
        } else {
            status
        },
    }
}

/// `k` is a key that was seen last no later than any other.
pub open spec fn least_recent(
    m: Map<(i64, Seq<char>), Missing>,
    k: (i64, Seq<char>),
) -> bool {
    &&& m.contains_key(k)
    &&& forall|other: (i64, Seq<char>)| #[trigger]
        m.contains_key(other) ==> m[k].last_seen <= m[other].last_seen
}

/// `after` is what a registry that held `before` holds once a missing blob was noted;
/// `full` tells that it held as many references as it may.
pub open spec fn recorded(
    before: Map<(i64, Seq<char>), Missing>,
    full: bool,
    key: (i64, Seq<char>),
    sha: Seq<char>,
    role: Seq<char>,
    status: i64,
    now: i128,
    after: Map<(i64, Seq<char>), Missing>,
) -> bool {
    let new = first_observation(key, sha, role, status, now);
    if key.1.len() == 0 || sha.len() == 0 {
        after == before
    } else if before.contains_key(key) {
        after == before.insert(key, observed_again(before[key], sha, status, now))
    } else if !full {
        after == before.insert(key, new)
    } else {
        exists|gone: (i64, Seq<char>)|
            #![trigger before.remove(gone)]
            least_recent(before, gone) && after == before.remove(gone).insert(key, new)
    }
}

impl DanglingRegistry {
    /// No key occurs twice, no entry names nothing, and the registry is bounded.
    pub open spec fn wf(&self) -> bool {
        &&& distinct_refs(self.entries@)
        &&& self.entries@.len() <= MAX_DANGLING_TRACKED
        &&& forall|i: int|
            0 <= i < self.entries@.len() ==> (#[trigger] self.entries@[i]).wf()
                && self.entries@[i].path@.len() > 0 && self.entries@[i].sha256@.len() > 0
        &&& forall|k: (i64, Seq<char>)| #[trigger]
            self@.contains_key(k) ==> self@[k].hits >= 1
    }

    /// An empty registry.
    pub fn new() -> (r: DanglingRegistry)
        ensures
            r.wf(),
            r@ == Map::<(i64, Seq<char>), Missing>::empty(),
            r.entries@.len() == 0,
    {
        let r = DanglingRegistry { entries: Vec::new() };
        assert(r@ =~= Map::empty());
        r
    }

    fn find(&self, repo_id: i64, path: &str) -> (r: Option<usize>)
        requires
            self.wf(),
        ensures
            match r {
                Some(i) => i < self.entries@.len() && self.entries@[i as int].key() == (
                    repo_id,
                    path@,
                ) && self@.contains_key((repo_id, path@)) && self@[(repo_id, path@)]
                    == self.entries@[i as int]@,
                None => !self@.contains_key((repo_id, path@)),
            },
    {
        let mut i: usize = 0;
        while i < self.entries.len()
            invariant
                i <= self.entries@.len(),
                self.wf(),
                forall|j: int|
                    0 <= j < i ==> (#[trigger] self.entries@[j]).key() != (repo_id, path@),
            decreases self.entries@.len() - i,
        {
            if self.entries[i].repo_id == repo_id && same(self.entries[i].path.as_str(), path) {
                proof {
                    lemma_ref_map(self.entries@);
                    assert(self.entries@[i as int].key() == (repo_id, path@));
                }
                return Some(i);
            }
            i += 1;
        }
        None
    }

    /// What is known of one path.
    pub fn get(&self, repo_id: i64, path: &str) -> (r: Option<&DanglingRef>)
        requires
            self.wf(),
        ensures
            match r {
                Some(d) => self@.contains_key((repo_id, path@)) && d@ == self@[(repo_id, path@)]
                    && d.key() == (repo_id, path@),
                None => !self@.contains_key((repo_id, path@)),
            },
    {
        match self.find(repo_id, path) {
            Some(i) => Some(&self.entries[i]),
            None => None,
        }
    }

    /// Drops an entry that was seen last no later than any other.
    fn evict_oldest(&mut self)
        requires
            old(self).wf(),
            old(self).entries@.len() > 0,
        ensures
            final(self).wf(),
            final(self).entries@.len() == old(self).entries@.len() - 1,
            exists|k: (i64, Seq<char>)|
                #![trigger old(self)@.remove(k)]
                least_recent(old(self)@, k) && final(self)@ == old(self)@.remove(k),
    {
        let ghost before = self.entries@;
        let mut best: usize = 0;
        let mut i: usize = 1;
        while i < self.entries.len()
            invariant
                self.entries@ == before,
                best < before.len(),
                1 <= i <= before.len(),
                forall|j: int|
                    0 <= j < i ==> before[best as int].last_seen <= (#[trigger] before[j]).last_seen,
            decreases before.len() - i,
        {
            if self.entries[i].last_seen < self.entries[best].last_seen {
                best = i;
            }
            i += 1;
        }
        let _gone = self.entries.remove(best);
        proof {
            lemma_ref_map(before);
            lemma_ref_remove(before, best as int);
            let k = before[best as int].key();
            assert(self.entries@ == before.remove(best as int));
            assert forall|other: (i64, Seq<char>)| #[trigger]
                ref_map(before).contains_key(other) implies ref_map(before)[k].last_seen <= ref_map(
                before,
            )[other].last_seen by {
                let j = choose|j: int| 0 <= j < before.len() && (#[trigger] before[j]).key() == other;
                assert(before[best as int].last_seen <= before[j].last_seen);
            }
            assert(least_recent(ref_map(before), k));
            assert forall|j: int| 0 <= j < self.entries@.len() implies (
            #[trigger] self.entries@[j]).wf() && self.entries@[j].path@.len() > 0
                && self.entries@[j].sha256@.len() > 0 by {
                let x = if j < best {
                    j
                } else {
                    j + 1
                };
                assert(self.entries@[j] == before[x]);
            }
            assert(old(self)@.remove(k) == self@);
        }
    }

    /// Notes a missing blob. Repeated observations keep the first one, so that it
    /// can be shown how long the artifact has been broken. A record without a path
    /// or a digest names nothing, and is dropped.
    pub fn record(
        &mut self,
        repo_id: i64,
        path: &str,
        sha: &str,
        role: &str,
        status: i64,
        now: i128,
    )
        requires
            old(self).wf(),
        ensures
            final(self).wf(),
            recorded(
                old(self)@,
                old(self).entries@.len() >= MAX_DANGLING_TRACKED,
                (repo_id, path@),
                sha@,
                role@,
                status,
                now,
                final(self)@,
            ),
            final(self).entries@.len() == (if path@.len() > 0 && sha@.len() > 0
                && !old(self)@.contains_key((repo_id, path@)) && old(self).entries@.len()
                < MAX_DANGLING_TRACKED {
                old(self).entries@.len() + 1
            } else {
                old(self).entries@.len()
            }),
    {
        if path.unicode_len() == 0 || sha.unicode_len() == 0 {
            return;
        }
        let ghost before = self.entries@;
        let ghost key = (repo_id, path@);
        match self.find(repo_id, path) {
            Some(i) => {
                let mut e = self.entries.remove(i);
                let ghost was = e;
                proof {
                    lemma_ref_map(before);
                    lemma_ref_remove(before, i as int);
                    assert(was == before[i as int]);
                    assert(was.wf());
                }
                e.last_seen = now;
                if !same(e.sha256.as_str(), sha) {
                    e.sha256 = sha.to_owned();
                    e.first_seen = now;
                    e.hits = 1;
                    e.statuses = StatusCounts::new();
                } else {
                    e.hits = one_more(e.hits);
                }
                if status != 0 {
                    e.statuses.add_one(status);
                    e.last_status = status;
                }
                proof {
                    assert(e@ =~= observed_again(was@, sha@, status, now));
                    assert(e.key() == key);
                    assert(e.wf());
                    assert(!ref_map(before.remove(i as int)).contains_key(e.key()));
                    lemma_ref_push(before.remove(i as int), e);
                }
                let ghost rest = self.entries@;
                self.entries.push(e);
                proof {
                    assert(self.entries@ == before.remove(i as int).push(e));
                    assert(self@ =~= ref_map(before).insert(key, e@));
                    self.lemma_entries_wf(before, rest, i as int, e);
                }
            },
            None => {
                if self.entries.len() >= MAX_DANGLING_TRACKED {
                    self.evict_oldest();
                }
                let mut statuses = StatusCounts::new();
                if status != 0 {
                    statuses.add_one(status);
                }
                let e = DanglingRef {
                    repo_id,
                    path: path.to_owned(),
                    sha256: sha.to_owned(),
                    role: role.to_owned(),
                    first_seen: now,
                    last_seen: now,
                    hits: 1,
                    statuses,
                    last_status: status,
                };
                let ghost rest = self.entries@;
                proof {
                    assert(e@ =~= first_observation(key, sha@, role@, status, now));
                    assert(e.wf());
                    lemma_ref_push(rest, e);
                }
                self.entries.push(e);
                proof {
                    assert(self.entries@ == rest.push(e));
                    assert forall|j: int| 0 <= j < self.entries@.len() implies (
                    #[trigger] self.entries@[j]).wf() && self.entries@[j].path@.len() > 0
                        && self.entries@[j].sha256@.len() > 0 by {
                        if j < rest.len() {
                            assert(self.entries@[j] == rest[j]);
                        }
                    }
                    if before.len() >= MAX_DANGLING_TRACKED {
                        let gone = choose|gone: (i64, Seq<char>)|
                            #![trigger old(self)@.remove(gone)]
                            least_recent(old(self)@, gone) && ref_map(rest) == old(self)@.remove(gone);
                        assert(self@ == old(self)@.remove(gone).insert(key, e@));
                    }
                }
            },
        }
    }

    proof fn lemma_entries_wf(
        &self,
        before: Seq<DanglingRef>,
        rest: Seq<DanglingRef>,
        i: int,
        e: DanglingRef,
    )
        requires
            0 <= i < before.len(),
            rest == before.remove(i),
            self.entries@ == rest.push(e),
            e.wf(),
            e.path@.len() > 0,
            e.sha256@.len() > 0,
            forall|j: int|
                0 <= j < before.len() ==> (#[trigger] before[j]).wf() && before[j].path@.len() > 0
                    && before[j].sha256@.len() > 0,
        ensures
            forall|j: int|
                0 <= j < self.entries@.len() ==> (#[trigger] self.entries@[j]).wf()
                    && self.entries@[j].path@.len() > 0 && self.entries@[j].sha256@.len() > 0,
    {
        assert forall|j: int| 0 <= j < self.entries@.len() implies (#[trigger] self.entries@[j]).wf()
            && self.entries@[j].path@.len() > 0 && self.entries@[j].sha256@.len() > 0 by {
            if j < rest.len() {
                let x = if j < i {
                    j
                } else {
                    j + 1
                };
                assert(self.entries@[j] == before[x]);
            }
        }
    }

    /// Removes an entry, used when the reference is observed to be healthy again.
    pub fn forget(&mut self, repo_id: i64, path: &str)
        requires
            old(self).wf(),
        ensures
            final(self).wf(),
            final(self)@ == old(self)@.remove((repo_id, path@)),
    {
        let ghost before = self.entries@;
        match self.find(repo_id, path) {
            Some(i) => {
                let _gone = self.entries.remove(i);
                proof {
                    lemma_ref_remove(before, i as int);
                    assert(self.entries@ == before.remove(i as int));
                    assert forall|j: int| 0 <= j < self.entries@.len() implies (
                    #[trigger] self.entries@[j]).wf() && self.entries@[j].path@.len() > 0
                        && self.entries@[j].sha256@.len() > 0 by {
                        let x = if j < i {
                            j
                        } else {
                            j + 1
                        };
                        assert(self.entries@[j] == before[x]);
                    }
                }
            },
            None => {
                assert(self@.remove((repo_id, path@)) =~= self@);
            },
        }
    }

    /// The tracked references of one repository, keyed by artifact path, for
    /// annotating an artifact listing.
    pub fn by_repo(&self, repo_id: i64) -> (r: Table<DanglingRef>)
        requires
            self.wf(),
        ensures
            r.wf(),
            forall|path: Seq<char>| #[trigger]
                r@.contains_key(path) <==> self@.contains_key((repo_id, path)),
            forall|path: Seq<char>| #[trigger]
                r@.contains_key(path) ==> r@[path]@ == self@[(repo_id, path)] && r@[path].key() == (
                    repo_id,
                    path,
                ),
    {
        let mut r: Table<DanglingRef> = Table::new();
        let mut i: usize = 0;
        proof {
            lemma_ref_map(self.entries@);
        }
        while i < self.entries.len()
            invariant
                i <= self.entries@.len(),
                self.wf(),
                r.wf(),
                forall|j: int|
                    0 <= j < i && (#[trigger] self.entries@[j]).repo_id == repo_id
                        ==> r@.contains_key(self.entries@[j].path@) && r@[self.entries@[j].path@]@
                        == self.entries@[j]@ && r@[self.entries@[j].path@].key()
                        == self.entries@[j].key(),
                forall|path: Seq<char>| #[trigger]
                    r@.contains_key(path) ==> exists|j: int|
                        0 <= j < i && (#[trigger] self.entries@[j]).key() == (repo_id, path),
            decreases self.entries@.len() - i,
        {
            if self.entries[i].repo_id == repo_id {
                let copy = self.entries[i].copy();
                let path = self.entries[i].path.as_str().to_owned();
                let ghost before = r@;
                let ghost p = path@;
                proof {
                    if r@.contains_key(path@) {
                        let j = choose|j: int|
                            0 <= j < i && (#[trigger] self.entries@[j]).key() == (repo_id, path@);
                        assert(self.entries@[j].key() != self.entries@[i as int].key());
                    }
                }
                r.push(path, copy);
                proof {
                    assert forall|path: Seq<char>| #[trigger] r@.contains_key(path) implies exists|
                        j: int,
                    |
                        0 <= j < i + 1 && (#[trigger] self.entries@[j]).key() == (repo_id, path) by {
                        if path == p {
                            assert(self.entries@[i as int].key() == (repo_id, path));
                        } else {
                            assert(before.contains_key(path));
                            let j = choose|j: int|
                                0 <= j < i && (#[trigger] self.entries@[j]).key() == (repo_id, path);
                            assert(self.entries@[j].key() == (repo_id, path));
                        }
                    }
                    assert forall|j: int|
                        0 <= j < i + 1 && (#[trigger] self.entries@[j]).repo_id
                            == repo_id implies r@.contains_key(self.entries@[j].path@)
                        && r@[self.entries@[j].path@]@ == self.entries@[j]@
                        && r@[self.entries@[j].path@].key() == self.entries@[j].key() by {
                        if j < i {
                            assert(self.entries@[j].key() != self.entries@[i as int].key());
                        }
                    }
                }
            }
            i += 1;
        }
        proof {
            lemma_ref_map(self.entries@);
            assert forall|path: Seq<char>| #[trigger]
                r@.contains_key(path) <==> self@.contains_key((repo_id, path)) by {
                if self@.contains_key((repo_id, path)) {
                    let j = choose|j: int|
                        0 <= j < self.entries@.len() && (#[trigger] self.entries@[j]).key() == (
                            repo_id,
                            path,
                        );
                    assert(self.entries@[j].repo_id == repo_id);
                }
            }
            assert forall|path: Seq<char>| #[trigger] r@.contains_key(path) implies r@[path]@
                == self@[(repo_id, path)] && r@[path].key() == (repo_id, path) by {
                let j = choose|j: int|
                    0 <= j < self.entries@.len() && (#[trigger] self.entries@[j]).key() == (
                        repo_id,
                        path,
                    );
                assert(self.entries@[j].repo_id == repo_id);
            }
        }
        r
    }

    /// Every tracked reference, each once.
    pub fn all(&self) -> (r: Vec<DanglingRef>)
        requires
            self.wf(),
        ensures
            distinct_refs(r@),
            ref_map(r@) == self@,
            r@.len() == self.entries@.len(),
    {
        let mut r: Vec<DanglingRef> = Vec::new();
        let mut i: usize = 0;
        while i < self.entries.len()
            invariant
                i <= self.entries@.len(),
                self.wf(),
                r@.len() == i,
                forall|j: int|
                    0 <= j < i ==> (#[trigger] r@[j])@ == self.entries@[j]@ && r@[j].key()
                        == self.entries@[j].key(),
            decreases self.entries@.len() - i,
        {
            r.push(self.entries[i].copy());
            i += 1;
        }
        proof {
            assert forall|a: int, b: int| 0 <= a < b < r@.len() implies (#[trigger] r@[a]).key() != (
            #[trigger] r@[b]).key() by {
                assert(self.entries@[a].key() != self.entries@[b].key());
            }
            lemma_ref_map(r@);
            lemma_ref_map(self.entries@);
            assert forall|k: (i64, Seq<char>)| #[trigger] ref_map(r@).contains_key(k)
                <==> self@.contains_key(k) by {
                if ref_map(r@).contains_key(k) {
                    let j = choose|j: int| 0 <= j < r@.len() && (#[trigger] r@[j]).key() == k;
                    assert(self.entries@[j].key() == k);
                }
                if self@.contains_key(k) {
                    let j = choose|j: int|
                        0 <= j < self.entries@.len() && (#[trigger] self.entries@[j]).key() == k;
                    assert(r@[j].key() == k);
                }
            }
            assert forall|k: (i64, Seq<char>)| #[trigger] ref_map(r@).contains_key(k) implies ref_map(
                r@,
            )[k] == self@[k] by {
                let j = choose|j: int| 0 <= j < r@.len() && (#[trigger] r@[j]).key() == k;
                assert(self.entries@[j].key() == k);
            }
            assert(ref_map(r@) =~= self@);
        }
        r
    }
}

/// The state that the request handlers share.
pub struct Manager {
    pub engine: Engine,
    pub dangling: DanglingRegistry,
}

impl Manager {
    /// All parts are well-formed.
    pub open spec fn wf(&self) -> bool {
        &&& self.engine.wf()
        &&& self.dangling.wf()
    }

    /// A fresh state.
    pub fn new() -> (r: Manager)
        ensures
            r.wf(),
            r.dangling@ == Map::<(i64, Seq<char>), Missing>::empty(),
            r.engine.neg@ == Map::<Seq<char>, i128>::empty(),
            r.engine.cool@ == Map::<Seq<char>, i128>::empty(),
    {
        Manager { engine: Engine::new(), dangling: DanglingRegistry::new() }
    }

    /// Exposes the registry, keyed by artifact path. A caller that compares each
    /// artifact's current digest against the tracked one can tell a reference that
    /// is still broken from an entry left behind by a republish.
    pub fn dangling_refs_for_repo(&self, repo_id: i64) -> (r: Table<DanglingRef>)
        requires
            self.wf(),
        ensures
            r.wf(),
            forall|path: Seq<char>| #[trigger]
                r@.contains_key(path) <==> self.dangling@.contains_key((repo_id, path)),
            forall|path: Seq<char>| #[trigger]
                r@.contains_key(path) ==> r@[path]@ == self.dangling@[(repo_id, path)],
    {
        self.dangling.by_repo(repo_id)
    }

    /// Every tracked reference.
    pub fn dangling_refs(&self) -> (r: Vec<DanglingRef>)
        requires
            self.wf(),
        ensures
            distinct_refs(r@),
            ref_map(r@) == self.dangling@,
    {
        self.dangling.all()
    }

    /// Registers a reference whose bytes are known to be missing, for callers that
    /// discover the condition outside the serving path.
    pub fn record_dangling_ref(
        &mut self,
        repo_id: i64,
        path: &str,
        sha: &str,
        role: &str,
        status: i64,
        now: i128,
    )
        requires
            old(self).wf(),
        ensures
            final(self).wf(),
            final(self).engine == old(self).engine,
            recorded(
                old(self).dangling@,
                old(self).dangling.entries@.len() >= MAX_DANGLING_TRACKED,
                (repo_id, path@),
                sha@,
                role@,
                status,
                now,
                final(self).dangling@,
            ),
    {
        self.dangling.record(repo_id, path, sha, role, status, now);
    }

    /// Reports whether a tracked reference is still broken, forgetting it when the
    /// bytes are back. `present` is what the blob store says of the bytes; where it
    /// cannot tell, the warning stays.
    pub fn still_missing(&mut self, repo_id: i64, path: &str, present: Option<bool>) -> (r: bool)
        requires
            old(self).wf(),
        ensures
            final(self).wf(),
            final(self).engine == old(self).engine,
            r == stays_flagged(present),
            final(self).dangling@ == if r {
                old(self).dangling@
            } else {
                old(self).dangling@.remove((repo_id, path@))
            },
    {
        match present {
            None => true,
            Some(false) => true,
            Some(true) => {
                self.dangling.forget(repo_id, path);
                false
            },
        }
    }

    /// Drops a tracked reference.
    pub fn forget_dangling_ref(&mut self, repo_id: i64, path: &str)
        requires
            old(self).wf(),
        ensures
            final(self).wf(),
            final(self).engine == old(self).engine,
            final(self).dangling@ == old(self).dangling@.remove((repo_id, path@)),
    {
        self.dangling.forget(repo_id, path);
    }
}

/// A tracked reference stays flagged, given what the blob store says of its bytes.
pub open spec fn stays_flagged(present: Option<bool>) -> bool {
    present != Some(true)
}

/// Whether the bytes are confirmed to be missing, given what the blob store says of
/// them; nothing where it cannot tell.
pub open spec fn confirmed(present: Option<bool>) -> Option<bool> {
    match present {
        Some(p) => Some(!p),
        None => None,
    }
}

/// Whether the blob store definitively does not hold some bytes. It is the barrier for
/// destructive repair, so where the store cannot tell, nothing is confirmed.
pub fn confirmed_missing(present: Option<bool>) -> (r: Option<bool>)
    ensures
        r == confirmed(present),
{
    match present {
        Some(p) => Some(!p),
        None => None,
    }
}

// ---------------------------------------------------------------------------
// Laws

/// Noting a missing blob leaves every other reference as it is. Only where a new one
/// comes to a full registry is one dropped, and that is one that was seen last no later
/// than any other.
pub proof fn recording_keeps_other_references(
    before: Map<(i64, Seq<char>), Missing>,
    full: bool,
    key: (i64, Seq<char>),
    sha: Seq<char>,
    role: Seq<char>,
    status: i64,
    now: i128,
    after: Map<(i64, Seq<char>), Missing>,
)
    requires
        key.1.len() > 0,
        sha.len() > 0,
        recorded(before, full, key, sha, role, status, now, after),
    ensures
        after.contains_key(key),
        after[key].sha256 == sha,
        after[key].last_seen == now,
        before.contains_key(key) && before[key].hits >= 1 ==> after[key].hits >= 1,
        !before.contains_key(key) ==> after[key].hits == 1,
        before.contains_key(key) || !full ==> forall|other: (i64, Seq<char>)|
            other != key ==> (#[trigger] after.contains_key(other) <==> before.contains_key(other))
                && (before.contains_key(other) ==> after[other] == before[other]),
        !before.contains_key(key) && full ==> exists|gone: (i64, Seq<char>)| #[trigger]
            least_recent(before, gone) && !after.contains_key(gone) && forall|
                other: (i64, Seq<char>),
            |
                other != key && other != gone ==> (#[trigger] after.contains_key(other)
                    <==> before.contains_key(other)) && (before.contains_key(other)
                    ==> after[other] == before[other]),
{
    if !before.contains_key(key) && full {
        let gone = choose|gone: (i64, Seq<char>)|
            #![trigger before.remove(gone)]
            least_recent(before, gone) && after == before.remove(gone).insert(
                key,
                first_observation(key, sha, role, status, now),
            );
        assert(least_recent(before, gone));
        assert(gone != key);
        assert(!after.contains_key(gone));
    }
}

/// Observing the same digest again keeps the first observation, the path's role and
/// every earlier count.
pub proof fn repeated_observation_keeps_the_first(m: Missing, status: i64, now: i128)
    requires
        m.hits < i64::MAX,
        forall|s: i64| #[trigger] m.statuses.contains_key(s) ==> m.statuses[s] < i64::MAX,
    ensures
        observed_again(m, m.sha256, status, now).first_seen == m.first_seen,
        observed_again(m, m.sha256, status, now).role == m.role,
        observed_again(m, m.sha256, status, now).hits == m.hits + 1,
        forall|s: i64| #[trigger]
            m.statuses.contains_key(s) ==> observed_again(
                m,
                m.sha256,
                status,
                now,
            ).statuses.contains_key(s) && observed_again(m, m.sha256, status, now).statuses[s]
                >= m.statuses[s],
{
}

/// A new digest at the same path restarts the clock and forgets the old counts.
pub proof fn new_digest_restarts_the_clock(m: Missing, sha: Seq<char>, status: i64, now: i128)
    requires
        m.sha256 != sha,
    ensures
        observed_again(m, sha, status, now).first_seen == now,
        observed_again(m, sha, status, now).hits == 1,
        forall|s: i64| #[trigger]
            observed_again(m, sha, status, now).statuses.contains_key(s) ==> s == status,
{
}

/// What may be destroyed is flagged as well; and where the store cannot tell, the
/// warning stays while nothing may be destroyed.
pub proof fn confirmation_is_stricter_than_the_warning(present: Option<bool>)
    ensures
        confirmed(present) == Some(true) ==> stays_flagged(present),
        present is None ==> stays_flagged(present) && confirmed(present) is None,
{
}

} // verus!
