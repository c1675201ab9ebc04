//! Keeps merged indexes for a short while, and lets only one request at a time build
//! each of them.

use vstd::prelude::*;

use crate::bridge::lowercase;
use crate::repo::group_metadata::{
    content_type_of, etag_listed, etag_of, group_metadata_content_type, index_reply, representation_of,
    CapturedGroupResponse, GroupCollector, GroupReply, IndexReply,
};
use crate::repo::merge::{array_text, literals, quoted_array, PYPI_JSON_TYPE};
use crate::table::Table;
use crate::objstore::metasync::decimal_reads_back;
use crate::text::{
    contains_seq, decimal, digits, is_digit, itoa, lemma_digits_round_trip, opt_text, texts,
};
use crate::times::{valid_instant, SECOND};

verus! {

/// How long a merged index is kept.
pub const GROUP_METADATA_TTL: i128 = 30_000_000_000;

/// The key of one index of a group in one representation.
pub open spec fn lock_key_of(group_id: int, path: Seq<char>, representation: Seq<char>) -> Seq<
    char,
> {
    decimal(group_id) + seq!['\0'] + path + seq!['\0'] + representation
}

/// The key under which the building of an index is serialised.
pub fn group_lock_key(group_id: i64, path: &str, representation: &str) -> (r: String)
    ensures
        r@ == lock_key_of(group_id as int, path@, representation@),
{
    let mut key = itoa(group_id);
    key.push('\0');
    key.append(path);
    key.push('\0');
    key.append(representation);
    assert(key@ =~= lock_key_of(group_id as int, path@, representation@));
    key
}

/// Counts those who hold or wait for the lock of each key.
pub struct MetadataLocks {
    pub waiters: Table<usize>,
}

impl View for MetadataLocks {
    type V = Map<Seq<char>, usize>;

    open spec fn view(&self) -> Map<Seq<char>, usize> {
        self.waiters@
    }
}

/// The number of those at the lock of `key`.
pub open spec fn waiting(m: Map<Seq<char>, usize>, key: Seq<char>) -> nat {
    if m.contains_key(key) {
        m[key] as nat
    } else {
        0
    }
}

impl MetadataLocks {
    /// No key occurs twice, and none is kept that nobody holds or waits for.
    pub open spec fn wf(&self) -> bool {
        &&& self.waiters.wf()
        &&& forall|k: Seq<char>| #[trigger] self@.contains_key(k) ==> self@[k] > 0
    }

    /// Nobody holds or waits for anything.
    pub fn new() -> (r: MetadataLocks)
        ensures
            r.wf(),
            r@ == Map::<Seq<char>, usize>::empty(),
    {
        MetadataLocks { waiters: Table::new() }
    }

    /// Joins those at the lock of `key`, and tells whether it is free.
    pub fn enter(&mut self, key: &str) -> (r: bool)
        requires
            old(self).wf(),
            waiting(old(self)@, key@) < usize::MAX,
        ensures
            final(self).wf(),
            final(self)@ == old(self)@.insert(key@, (waiting(old(self)@, key@) + 1) as usize),
            r == (waiting(old(self)@, key@) == 0),
    {
        let n: usize = match self.waiters.get(key) {
            Some(n) => *n,
            None => 0,
        };
        self.waiters.insert(key, n + 1);
        n == 0
    }

    /// Leaves the lock of `key`, which is forgotten with the last one who leaves it.
    pub fn leave(&mut self, key: &str)
        requires
            old(self).wf(),
        ensures
            final(self).wf(),
            final(self)@ == (if waiting(old(self)@, key@) > 1 {
                old(self)@.insert(key@, (waiting(old(self)@, key@) - 1) as usize)
            } else {
                old(self)@.remove(key@)
            }),
    {
        let ghost before = self@;
        let n: usize = match self.waiters.get(key) {
            Some(n) => *n,
            None => 0,
        };
        if n > 1 {
            self.waiters.insert(key, n - 1);
        } else {
            self.waiters.remove(key);
            assert forall|k: Seq<char>| #[trigger] self@.contains_key(k) implies self@[k] > 0 by {
                assert(before.contains_key(k));
            }
        }
    }
}

/// A merged index as it is kept.
pub struct GroupMetadataCache {
    pub group_repo_id: i64,
    pub path: String,
    pub representation: String,
    pub blob_sha256: String,
    pub size: i64,
    /// The members that it was made of, as a JSON array.
    pub sources_json: String,
    /// The revision of the group's configuration that it was made for.
    pub config_revision: String,
    pub expires_at: i128,
}

/// The record of a merged index that was built at `now`.
pub fn group_cache_entry(
    group_id: i64,
    path: &str,
    representation: &str,
    digest: &str,
    size: i64,
    members: &Vec<String>,
    revision: &str,
    now: i128,
) -> (r: GroupMetadataCache)
    requires
        valid_instant(now as int),
    ensures
        r.group_repo_id == group_id,
        r.path@ == path@,
        r.representation@ == representation@,
        r.blob_sha256@ == digest@,
        r.size == size,
        r.sources_json@ == array_text(literals(texts(members@))),
        r.config_revision@ == revision@,
        r.expires_at == now + 30 * SECOND,
{
    GroupMetadataCache {
        group_repo_id: group_id,
        path: path.to_owned(),
        representation: representation.to_owned(),
        blob_sha256: digest.to_owned(),
        size,
        sources_json: quoted_array(members),
        config_revision: revision.to_owned(),
        expires_at: now + GROUP_METADATA_TTL,
    }
}

/// Answers a request from a kept index.
pub fn serve_group_metadata_blob(
    digest: &str,
    if_none_match: &str,
    head: bool,
    representation: &str,
) -> (r: IndexReply)
    ensures
        r.status == (if etag_listed(if_none_match@, digest@) {
            304u16
        } else {
            200u16
        }),
        r.with_body <==> r.status == 200 && !head,
        r.content_type@ == content_type_of(representation@),
        opt_text(r.etag) == Some(etag_of(digest@)),
{
    let content_type = group_metadata_content_type(representation);
    index_reply(Some(digest), if_none_match, head, content_type)
}

/// What of a member's response is passed on.
pub struct Relayed {
    pub status: u16,
    pub with_body: bool,
    pub content_type: Option<String>,
}

/// Passes a member's response on: without the body where only the headers are asked
/// for, and with a content type where there is one.
pub fn copy_captured_response(response: &CapturedGroupResponse, head: bool) -> (r: Relayed)
    ensures
        r.status == response.status,
        r.with_body == !head,
        opt_text(r.content_type) == (if response.content_type@.len() == 0 {
            None
        } else {
            Some(response.content_type@)
        }),
{
    let content_type = if response.content_type.as_str().is_empty() {
        None
    } else {
        Some(response.content_type.as_str().to_owned())
    };
    Relayed { status: response.status, with_body: !head, content_type }
}

// ---------------------------------------------------------------------------
// Laws

/// One event at the locks: someone comes to that of a key, or leaves it.
pub ghost enum LockEvent {
    Enter(Seq<char>),
    Leave(Seq<char>),
}

/// The number of those at the lock of `key` after the events.
pub open spec fn present(events: Seq<LockEvent>, key: Seq<char>) -> int
    decreases events.len(),
{
    if events.len() == 0 {
        0
    } else {
        let before = present(events.drop_last(), key);
        match events.last() {
            LockEvent::Enter(k) => if k == key {
                before + 1
            } else {
                before
            },
            LockEvent::Leave(k) => if k == key {
                before - 1
            } else {
                before
            },
        }
    }
}

/// Nobody leaves a lock that they did not come to.
pub open spec fn orderly(events: Seq<LockEvent>) -> bool {
    forall|n: int, key: Seq<char>|
        0 <= n <= events.len() ==> #[trigger] present(events.take(n), key) >= 0
}

/// The locks after the events.
pub open spec fn locks_after(events: Seq<LockEvent>) -> Map<Seq<char>, usize>
    decreases events.len(),
{
    if events.len() == 0 {
        Map::empty()
    } else {
        let m = locks_after(events.drop_last());
        match events.last() {
            LockEvent::Enter(k) => m.insert(k, (waiting(m, k) + 1) as usize),
            LockEvent::Leave(k) => if waiting(m, k) > 1 {
                m.insert(k, (waiting(m, k) - 1) as usize)
            } else {
                m.remove(k)
            },
        }
    }
}

/// A lock is kept exactly as long as someone holds or waits for it: no key outlives
/// the last of them.
pub proof fn no_lock_outlives_its_waiters(events: Seq<LockEvent>, key: Seq<char>)
    requires
        orderly(events),
        events.len() <= usize::MAX,
    ensures
        locks_after(events).contains_key(key) <==> present(events, key) > 0,
        waiting(locks_after(events), key) == present(events, key),
{
    lemma_locks_count(events, key);
}

proof fn lemma_locks_count(events: Seq<LockEvent>, key: Seq<char>)
    requires
        orderly(events),
        events.len() <= usize::MAX,
    ensures
        locks_after(events).contains_key(key) <==> present(events, key) > 0,
        waiting(locks_after(events), key) == present(events, key),
        present(events, key) <= events.len(),
    decreases events.len(),
{
    if events.len() > 0 {
        let front = events.drop_last();
        assert forall|n: int, k: Seq<char>| 0 <= n <= front.len() implies #[trigger] present(
            front.take(n),
            k,
        ) >= 0 by {
            assert(front.take(n) =~= events.take(n));
            assert(present(events.take(n), k) >= 0);
        }
        lemma_locks_count(front, key);
        assert(events.take(events.len() as int) =~= events);
        assert(present(events.take(events.len() as int), key) >= 0);
    }
}

/// Two indexes that differ in group, path or representation never share a lock, as
/// long as no path holds a NUL.
pub proof fn indexes_do_not_share_locks(
    id1: i64,
    path1: Seq<char>,
    rep1: Seq<char>,
    id2: i64,
    path2: Seq<char>,
    rep2: Seq<char>,
)
    requires
        !path1.contains('\0'),
        !path2.contains('\0'),
        lock_key_of(id1 as int, path1, rep1) == lock_key_of(id2 as int, path2, rep2),
    ensures
        id1 == id2,
        path1 == path2,
        rep1 == rep2,
{
    let (d1, d2) = (decimal(id1 as int), decimal(id2 as int));
    let nul = seq!['\0'];
    lemma_decimal_has_no_nul(id1 as int);
    lemma_decimal_has_no_nul(id2 as int);
    assert(lock_key_of(id1 as int, path1, rep1) =~= d1 + nul + (path1 + nul + rep1));
    assert(lock_key_of(id2 as int, path2, rep2) =~= d2 + nul + (path2 + nul + rep2));
    lemma_cut_at_nul(d1, path1 + nul + rep1, d2, path2 + nul + rep2);
    lemma_cut_at_nul(path1, rep1, path2, rep2);
    decimal_reads_back(id1);
    decimal_reads_back(id2);
}

proof fn lemma_decimal_has_no_nul(n: int)
    ensures
        !decimal(n).contains('\0'),
{
    let m = if n < 0 {
        (-n) as nat
    } else {
        n as nat
    };
    lemma_digits_round_trip(m);
    assert forall|i: int| 0 <= i < decimal(n).len() implies decimal(n)[i] != '\0' by {
        if n < 0 && i > 0 {
            assert(is_digit(digits(m)[i - 1]));
        } else if n >= 0 {
            assert(is_digit(digits(m)[i]));
        }
    }
}

proof fn lemma_cut_at_nul(a: Seq<char>, b: Seq<char>, c: Seq<char>, d: Seq<char>)
    requires
        !a.contains('\0'),
        !c.contains('\0'),
        a + seq!['\0'] + b == c + seq!['\0'] + d,
    ensures
        a == c,
        b == d,
{
    let s = a + seq!['\0'] + b;
    let t = c + seq!['\0'] + d;
    assert(s[a.len() as int] == '\0' && t[c.len() as int] == '\0');
    if a.len() < c.len() {
        assert(t[a.len() as int] == c[a.len() as int]);
        assert(c.contains('\0'));
    }
    if c.len() < a.len() {
        assert(s[c.len() as int] == a[c.len() as int]);
        assert(a.contains('\0'));
    }
    assert(a =~= s.take(a.len() as int));
    assert(c =~= t.take(a.len() as int));
    assert(b =~= s.skip(a.len() as int + 1));
    assert(d =~= t.skip(a.len() as int + 1));
}

/// A merged index that is kept is served with the content type that it was first
/// served with. Image tags and simple indexes in JSON, whose first content type is
/// another, are left out.
pub proof fn kept_indexes_keep_their_type(
    c: GroupCollector,
    kind: Seq<char>,
    path: Seq<char>,
    accept: Seq<char>,
    r: GroupReply,
)
    requires
        c.merges_to(kind, Some(r)),
        kind != "oci-tags"@,
        kind == "pypi"@ ==> !contains_seq(c.content_type@, "json"@) && !contains_seq(
            lowercase(accept),
            PYPI_JSON_TYPE@,
        ),
        r is Body,
    ensures
        r->content_type@ == content_type_of(representation_of(kind, path, accept)),
{
    reveal_strlit("maven");
    reveal_strlit("npm");
    reveal_strlit("cargo");
    reveal_strlit("go-list");
    reveal_strlit("go-latest");
    reveal_strlit(":default");
    reveal_strlit("npm:default");
    reveal_strlit("cargo:default");
    reveal_strlit("go-list:default");
    reveal_strlit("maven:default");
    reveal_strlit("maven:sha1");
    reveal_strlit("maven:sha256");
    reveal_strlit("pypi:json");
    reveal_strlit("pypi");
    reveal_strlit("pypi:default");
    reveal_strlit("go-latest:default");
    reveal_strlit("oci-tags:default");
    assert("npm:default"@.len() == 11 && "cargo:default"@.len() == 13 && "go-list:default"@.len()
        == 15);
    assert("maven:default"@.len() == 13 && "maven:sha1"@.len() == 10 && "maven:sha256"@.len() == 12
        && "pypi:json"@.len() == 9);
    assert("maven:default"@[0] == 'm' && "cargo:default"@[0] == 'c');
    assert("pypi:default"@.len() == 12 && "go-latest:default"@.len() == 17
        && "oci-tags:default"@.len() == 16 && "pypi:default"@[0] == 'p' && "maven:sha256"@[0] == 'm');
    assert("pypi"@ + ":default"@ =~= "pypi:default"@);
    assert("npm"@ + ":default"@ =~= "npm:default"@);
    assert("cargo"@ + ":default"@ =~= "cargo:default"@);
    assert("go-list"@ + ":default"@ =~= "go-list:default"@);
    assert("maven"@.len() == 5 && "npm"@.len() == 3 && "cargo"@.len() == 5 && "go-list"@.len() == 7
        && "maven"@[0] == 'm' && "cargo"@[0] == 'c' && "pypi"@.len() == 4);
}

} // verus!
