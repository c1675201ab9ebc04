//! The decisions of the snapshot sync: the leader's upload with its fencing rules,
//! the standby's download, and promotion.

use vstd::prelude::*;

use crate::bridge::ascii_lower;
use crate::text::{
    cat, chars_of, decimal, digits, i64_value, int_value, is_digit, itoa, lemma_digits_round_trip,
    opt_text, parse_i64, same,
};

verus! {

/// What can go wrong with a snapshot.
pub enum Error {
    /// The object does not exist.
    NotFound,
    /// A conditional write was rejected: another writer changed the object first.
    PreconditionFailed(String),
    /// Any other object-store failure.
    ObjectStore(String),
    /// A metadata store failure (snapshot, swap).
    Meta(String),
    /// A filesystem failure.
    Io { op: &'static str, detail: String },
    /// The stored snapshot is of a newer leadership term.
    Fencing(String),
    /// An error with what was being done.
    Context { context: String, source: Box<Error> },
}

impl Error {
    /// The object does not exist, whatever was being done.
    pub open spec fn says_not_found(self) -> bool
        decreases self,
    {
        match self {
            Error::NotFound => true,
            Error::Context { context: _, source } => source.says_not_found(),
            _ => false,
        }
    }

    /// A conditional write was rejected, whatever was being done.
    pub open spec fn says_precondition_failed(self) -> bool
        decreases self,
    {
        match self {
            Error::PreconditionFailed(_) => true,
            Error::Context { context: _, source } => source.says_precondition_failed(),
            _ => false,
        }
    }

    /// The error in words.
    pub open spec fn text(self) -> Seq<char>
        decreases self,
    {
        match self {
            Error::NotFound => "not found"@,
            Error::PreconditionFailed(m) => "precondition failed: "@ + m@,
            Error::ObjectStore(m) => m@,
            Error::Meta(m) => m@,
            Error::Io { op, detail } => op@ + ": "@ + detail@,
            Error::Fencing(m) => m@,
            Error::Context { context, source } => context@ + ": "@ + source.text(),
        }
    }

    /// Adds what was being done.
    pub fn context(self, context: &str) -> (r: Error)
        ensures
            r matches Error::Context { context: c, source } && c@ == context@ && *source == self,
            r.says_not_found() == self.says_not_found(),
            r.says_precondition_failed() == self.says_precondition_failed(),
            r.text() == context@ + ": "@ + self.text(),
    {
        Error::Context { context: context.to_owned(), source: Box::new(self) }
    }

    /// Whether this is, or wraps, a missing object.
    pub fn is_not_found(&self) -> (r: bool)
        ensures
            r == self.says_not_found(),
        decreases self,
    {
        match self {
            Error::NotFound => true,
            Error::Context { context: _, source } => source.is_not_found(),
            _ => false,
        }
    }

    /// Whether this is, or wraps, a rejected conditional write.
    pub fn is_precondition_failed(&self) -> (r: bool)
        ensures
            r == self.says_precondition_failed(),
        decreases self,
    {
        match self {
            Error::PreconditionFailed(_) => true,
            Error::Context { context: _, source } => source.is_precondition_failed(),
            _ => false,
        }
    }

    /// The error in words.
    pub fn message(&self) -> (r: String)
        ensures
            r@ == self.text(),
        decreases self,
    {
        match self {
            Error::NotFound => "not found".to_owned(),
            Error::PreconditionFailed(m) => cat("precondition failed: ", m.as_str()),
            Error::ObjectStore(m) => m.clone(),
            Error::Meta(m) => m.clone(),
            Error::Io { op, detail } => {
                let mut s = cat(op, ": ");
                s.append(detail.as_str());
                s
            },
            Error::Fencing(m) => m.clone(),
            Error::Context { context, source } => {
                let inner = source.message();
                let mut s = cat(context.as_str(), ": ");
                s.append(inner.as_str());
                s
            },
        }
    }
}

/// Sorts a failed object-store call by its error code and HTTP status.
pub fn classify_failure(op: &str, code: Option<&str>, status: Option<u16>, message: &str) -> (r: Error)
    ensures
        ({
            let missing = (code matches Some(c) && (c@ == "NoSuchKey"@ || c@ == "NotFound"@))
                || status == Some(404u16);
            let text = op@ + ": "@ + message@;
            if missing {
                r is NotFound
            } else if status == Some(412u16) {
                r matches Error::PreconditionFailed(m) && m@ == text
            } else {
                r matches Error::ObjectStore(m) && m@ == text
            }
        }),
{
    if let Some(c) = code {
        if same(c, "NoSuchKey") || same(c, "NotFound") {
            return Error::NotFound;
        }
    }
    let mut text = cat(op, ": ");
    text.append(message);
    match status {
        Some(404) => Error::NotFound,
        Some(412) => Error::PreconditionFailed(text),
        _ => Error::ObjectStore(text),
    }
}

/// The body of a [`PutObjectInput`].
pub enum PutBody {
    /// Stream the file at this path.
    File(String),
    /// Upload these bytes.
    Bytes(Vec<u8>),
}

/// What is put into the object store.
pub struct PutObjectInput {
    pub bucket: String,
    pub key: String,
    pub body: PutBody,
    pub content_length: i64,
    /// User metadata; the fencing token lives here.
    pub metadata: Vec<(String, String)>,
    /// Conditional write against the observed entity tag.
    pub if_match: Option<String>,
    /// Conditional write for a first put (`*`).
    pub if_none_match: Option<String>,
}

/// What a put says.
pub struct PutObjectOutput {
    pub e_tag: Option<String>,
}

/// What is known of an object without reading it.
pub struct HeadObjectOutput {
    pub e_tag: Option<String>,
    pub metadata: Vec<(String, String)>,
    pub content_length: Option<i64>,
}

/// The user-metadata key holding the leadership term that wrote the snapshot.
pub const FENCE_META_KEY: &'static str = "fence";

/// `s` in small ASCII letters.
pub open spec fn ascii_small(s: Seq<char>) -> Seq<char> {
    s.map_values(|c: char| ascii_lower(c))
}

/// The pair gives a leadership term.
pub open spec fn gives_fence(p: (String, String)) -> bool {
    ascii_small(p.0@) == FENCE_META_KEY@ && i64_value(p.1@) is Some
}

/// The leadership term in an object's user metadata: that of the first pair that
/// gives one, else 0.
pub open spec fn fence_of(md: Seq<(String, String)>) -> int
    decreases md.len(),
{
    if md.len() == 0 {
        0
    } else if gives_fence(md[0]) {
        i64_value(md[0].1@)->0
    } else {
        fence_of(md.skip(1))
    }
}

/// Whether `k` is the fencing key, whatever the case of its letters.
fn is_fence_key(k: &str) -> (r: bool)
    ensures
        r == (ascii_small(k@) == FENCE_META_KEY@),
{
    let a = chars_of(k);
    let b = chars_of(FENCE_META_KEY);
    if a.len() != b.len() {
        assert(ascii_small(k@).len() != FENCE_META_KEY@.len());
        return false;
    }
    let mut i: usize = 0;
    while i < a.len()
        invariant
            i <= a@.len(),
            a@ == k@,
            b@ == FENCE_META_KEY@,
            a@.len() == b@.len(),
            forall|j: int| 0 <= j < i ==> ascii_lower(#[trigger] a@[j]) == b@[j],
        decreases a.len() - i,
    {
        let c = a[i];
        let l = if 'A' <= c && c <= 'Z' {
            (c as u8 + 32) as char
        } else {
            c
        };
        assert(l == ascii_lower(c));
        if l != b[i] {
            assert(ascii_small(k@)[i as int] != FENCE_META_KEY@[i as int]);
            return false;
        }
        i += 1;
    }
    assert(ascii_small(k@) =~= FENCE_META_KEY@);
    true
}

/// Reads the fencing token from an object's user metadata. Keys are
/// case-insensitive; a missing or malformed value reads as 0.
pub fn parse_fence(md: &Vec<(String, String)>) -> (r: i64)
    ensures
        r == fence_of(md@),
{
    let mut i: usize = 0;
    assert(md@.skip(0) =~= md@);
    while i < md.len()
        invariant
            i <= md@.len(),
            fence_of(md@) == fence_of(md@.skip(i as int)),
        decreases md.len() - i,
    {
        assert(md@.skip(i as int)[0] == md@[i as int]);
        assert(md@.skip(i as int).skip(1) =~= md@.skip(i + 1));
        if is_fence_key(md[i].0.as_str()) {
            if let Some(n) = parse_i64(md[i].1.as_str()) {
                return n;
            }
        }
        i += 1;
    }
    0
}

/// The decimal form of a 64-bit number reads back as that number.
pub proof fn decimal_reads_back(n: i64)
    ensures
        i64_value(decimal(n as int)) == Some(n as int),
{
    let s = decimal(n as int);
    if n < 0 {
        let d = digits((-n) as nat);
        lemma_digits_round_trip((-n) as nat);
        assert(s.skip(1) =~= d);
        assert(s[0] == '-');
        assert(int_value(s) == Some(n as int));
    } else {
        lemma_digits_round_trip(n as nat);
        assert(is_digit(s[0]));
    }
}

/// The metadata that marks a snapshot with a leadership term.
pub open spec fn is_fence_metadata(md: Seq<(String, String)>, fence: int) -> bool {
    md.len() == 1 && md[0].0@ == FENCE_META_KEY@ && md[0].1@ == decimal(fence)
}

/// What an upload writes as its leadership term is what is read from the object.
pub proof fn written_fence_reads_back(md: Seq<(String, String)>, fence: i64)
    requires
        is_fence_metadata(md, fence as int),
    ensures
        fence_of(md) == fence,
{
    decimal_reads_back(fence);
    reveal_strlit("fence");
    assert(ascii_small(md[0].0@) =~= FENCE_META_KEY@);
}

/// The standby's downloaded copy and the leader's change-detection baseline.
pub struct MetaSync {
    pub bucket: String,
    /// Object key for the snapshot.
    pub key: String,
    pub leader: bool,
    /// The current leadership term. Uploads carry it; a stale leader with a lower
    /// term is refused.
    pub fence: i64,
    /// The last snapshot downloaded while a standby.
    pub snapshot_path: Option<String>,
    /// Identifies the object that `snapshot_path` was downloaded from.
    pub snapshot_etag: Option<String>,
    /// A change watch is open.
    pub watching: bool,
    /// The database version at the last successful upload, where there was one.
    pub uploaded_version: i64,
    pub have_uploaded: bool,
}

/// What a sync cycle does first.
#[derive(Debug, Clone, Copy, PartialEq, Eq, Structural)]
pub enum SyncStart {
    /// The leader uploads, if something changed.
    Upload,
    /// A standby looks at the object.
    Head,
}

/// What a standby does once it has looked at the object.
#[derive(Debug, Clone, Copy, PartialEq, Eq, Structural)]
pub enum StandbyStep {
    /// There is no snapshot yet.
    Nothing,
    /// The copy at hand is the current one.
    Unchanged,
    /// The object is downloaded.
    Download,
}

/// Two optional texts are both there and equal.
pub open spec fn same_tag(a: Option<String>, b: Option<String>) -> bool {
    a matches Some(x) && b matches Some(y) && x@ == y@
}

fn tags_equal(a: &Option<String>, b: &Option<String>) -> (r: bool)
    ensures
        r == same_tag(*a, *b),
{
    match (a, b) {
        (Some(x), Some(y)) => same(x.as_str(), y.as_str()),
        _ => false,
    }
}

/// What a promotion does next.
pub enum PromoteStep {
    /// This process leads, on the database that it has.
    Local,
    /// The snapshot is downloaded first.
    Download,
    /// The copy at hand is the current one and is applied.
    Apply { path: String },
    /// The promotion failed; this process does not lead.
    Failed { error: Error },
}

/// What the watch on changes of the database says.
#[derive(Debug, Clone, Copy, PartialEq, Eq, Structural)]
pub enum WatchReading {
    /// The version of the database.
    Version(i64),
    /// The watch could not be opened.
    Unopened,
    /// The open watch could not be read.
    Broken,
}

impl MetaSync {
    /// A standby that has nothing.
    pub fn new(bucket: &str, key: &str) -> (r: MetaSync)
        ensures
            r.bucket@ == bucket@,
            r.key@ == key@,
            !r.leader,
            r.fence == 0,
            r.snapshot_path is None,
            r.snapshot_etag is None,
            !r.watching,
            !r.have_uploaded,
    {
        MetaSync {
            bucket: bucket.to_owned(),
            key: key.to_owned(),
            leader: false,
            fence: 0,
            snapshot_path: None,
            snapshot_etag: None,
            watching: false,
            uploaded_version: 0,
            have_uploaded: false,
        }
    }

    /// Whether this process considers itself the leader.
    pub fn is_leader(&self) -> (r: bool)
        ensures
            r == self.leader,
    {
        self.leader
    }

    /// Starts a sync cycle.
    pub fn sync_start(&self) -> (r: SyncStart)
        ensures
            r == (if self.leader {
                SyncStart::Upload
            } else {
                SyncStart::Head
            }),
    {
        if self.leader {
            SyncStart::Upload
        } else {
            SyncStart::Head
        }
    }

    /// Decides what a standby does with what it learned of the object. A failed look
    /// is not worth a failed cycle: the object is then downloaded. `copy_present`
    /// says whether the copy at hand is still there.
    pub fn standby_step(&self, head: &Result<HeadObjectOutput, Error>, copy_present: bool) -> (r:
        StandbyStep)
        ensures
            r == (match *head {
                Err(e) => if e.says_not_found() {
                    StandbyStep::Nothing
                } else {
                    StandbyStep::Download
                },
                Ok(h) => if self.snapshot_path is Some && same_tag(self.snapshot_etag, h.e_tag)
                    && copy_present {
                    StandbyStep::Unchanged
                } else {
                    StandbyStep::Download
                },
            }),
    {
        match head {
            Err(e) => {
                if e.is_not_found() {
                    StandbyStep::Nothing
                } else {
                    StandbyStep::Download
                }
            },
            Ok(h) => {
                if self.snapshot_path.is_some() && tags_equal(&self.snapshot_etag, &h.e_tag)
                    && copy_present {
                    StandbyStep::Unchanged
                } else {
                    StandbyStep::Download
                }
            },
        }
    }

    /// Records a downloaded snapshot for promotion.
    pub fn record_download(&mut self, path: &str, etag: Option<String>)
        ensures
            opt_text(final(self).snapshot_path) == Some(path@),
            final(self).snapshot_etag == etag,
            final(self).leader == old(self).leader,
            final(self).fence == old(self).fence,
            final(self).watching == old(self).watching,
            final(self).uploaded_version == old(self).uploaded_version,
            final(self).have_uploaded == old(self).have_uploaded,
            final(self).bucket == old(self).bucket,
            final(self).key == old(self).key,
    {
        self.snapshot_path = Some(path.to_owned());
        self.snapshot_etag = etag;
    }

    /// Decides whether the database changed since the last upload, given what the
    /// change watch read. Any doubt answers "changed". The version is what to record
    /// once the upload succeeded. A watch that broke is dropped, and with it what is
    /// known of the last upload.
    pub fn changed_since_upload(&mut self, reading: WatchReading) -> (r: (i64, bool))
        ensures
            match reading {
                WatchReading::Version(v) => {
                    &&& r.0 == v
                    &&& r.1 == (!old(self).have_uploaded || v != old(self).uploaded_version)
                    &&& final(self).have_uploaded == old(self).have_uploaded
                    &&& final(self).watching
                },
                WatchReading::Unopened => r == (0i64, true) && *final(self) == *old(self),
                WatchReading::Broken => r == (0i64, true) && !final(self).have_uploaded && !final(
                    self).watching,
            },
            final(self).uploaded_version == old(self).uploaded_version,
            final(self).leader == old(self).leader,
            final(self).fence == old(self).fence,
            final(self).snapshot_path == old(self).snapshot_path,
            final(self).snapshot_etag == old(self).snapshot_etag,
            final(self).bucket == old(self).bucket,
            final(self).key == old(self).key,
    {
        match reading {
            WatchReading::Version(v) => {
                self.watching = true;
                (v, !self.have_uploaded || v != self.uploaded_version)
            },
            WatchReading::Unopened => (0, true),
            WatchReading::Broken => {
                self.drop_watch();
                (0, true)
            },
        }
    }

    /// Forgets the upload baseline, so the next upload is unconditional.
    pub fn drop_watch(&mut self)
        ensures
            !final(self).watching,
            !final(self).have_uploaded,
            final(self).uploaded_version == old(self).uploaded_version,
            final(self).leader == old(self).leader,
            final(self).fence == old(self).fence,
            final(self).snapshot_path == old(self).snapshot_path,
            final(self).snapshot_etag == old(self).snapshot_etag,
            final(self).bucket == old(self).bucket,
            final(self).key == old(self).key,
    {
        self.watching = false;
        self.have_uploaded = false;
    }

    /// Prepares an upload, given what is known of the object that it would replace.
    /// The snapshot of a newer leadership term is never overwritten, and the write is
    /// conditional on the object that was looked at, or on there being none.
    pub fn upload_input(&self, snap: &str, size: i64, head: Result<HeadObjectOutput, Error>) -> (r:
        Result<PutObjectInput, Error>)
        ensures
            match head {
                Ok(h) => if fence_of(h.metadata@) > self.fence {
                    r matches Err(Error::Fencing(m)) && m@ == "fencing: local term "@ + decimal(
                        self.fence as int,
                    ) + " older than stored "@ + decimal(fence_of(h.metadata@))
                        + "; refusing to overwrite snapshot"@
                } else {
                    r matches Ok(p) && p.if_match == h.e_tag && p.if_none_match is None
                },
                Err(e) => if e.says_not_found() {
                    r matches Ok(p) && p.if_match is None && opt_text(p.if_none_match) == Some("*"@)
                } else {
                    r matches Err(w) && w.text() == "head snapshot: "@ + e.text()
                        && w.says_precondition_failed() == e.says_precondition_failed()
                },
            },
            r matches Ok(p) ==> {
                &&& p.bucket@ == self.bucket@
                &&& p.key@ == self.key@
                &&& p.content_length == size
                &&& p.body matches PutBody::File(f)
                &&& f@ == snap@
                &&& is_fence_metadata(p.metadata@, self.fence as int)
            },
    {
        let mut metadata: Vec<(String, String)> = Vec::new();
        metadata.push((FENCE_META_KEY.to_owned(), itoa(self.fence)));
        let mut put = PutObjectInput {
            bucket: self.bucket.clone(),
            key: self.key.clone(),
            body: PutBody::File(snap.to_owned()),
            content_length: size,
            metadata,
            if_match: None,
            if_none_match: None,
        };
        match head {
            Ok(h) => {
                let stored = parse_fence(&h.metadata);
                if stored > self.fence {
                    let mut m = "fencing: local term ".to_owned();
                    m.append(itoa(self.fence).as_str());
                    m.append(" older than stored ");
                    m.append(itoa(stored).as_str());
                    m.append("; refusing to overwrite snapshot");
                    return Err(Error::Fencing(m));
                }
                put.if_match = h.e_tag;
            },
            Err(e) => {
                if e.is_not_found() {
                    put.if_none_match = Some("*".to_owned());
                } else {
                    proof {
                        reveal_strlit("head snapshot");
                        reveal_strlit(": ");
                        reveal_strlit("head snapshot: ");
                        assert("head snapshot"@ + ": "@ =~= "head snapshot: "@);
                        assert("head snapshot"@ + ": "@ + e.text() == "head snapshot: "@ + e.text());
                    }
                    return Err(e.context("head snapshot"));
                }
            },
        }
        Ok(put)
    }

    /// Takes the outcome of an upload. A rejected conditional write means that
    /// another writer was faster; this cycle is skipped.
    pub fn record_upload(&mut self, version: i64, outcome: Result<(), Error>) -> (r: Result<
        (),
        Error,
    >)
        ensures
            match outcome {
                Ok(_) => r is Ok && final(self).have_uploaded && final(self).uploaded_version
                    == version,
                Err(e) => {
                    &&& final(self).have_uploaded == old(self).have_uploaded
                    &&& final(self).uploaded_version == old(self).uploaded_version
                    &&& r matches Err(w)
                    &&& w.says_precondition_failed() == e.says_precondition_failed()
                    &&& !e.says_precondition_failed() ==> w == e
                    &&& e.says_precondition_failed() ==> w.text()
                        == "fencing: snapshot changed under us (concurrent writer); skipping cycle"@
                        + ": "@ + e.text()
                },
            },
            final(self).leader == old(self).leader,
            final(self).fence == old(self).fence,
            final(self).watching == old(self).watching,
            final(self).snapshot_path == old(self).snapshot_path,
            final(self).snapshot_etag == old(self).snapshot_etag,
            final(self).bucket == old(self).bucket,
            final(self).key == old(self).key,
    {
        match outcome {
            Ok(_) => {
                self.uploaded_version = version;
                self.have_uploaded = true;
                Ok(())
            },
            Err(e) => {
                if e.is_precondition_failed() {
                    Err(
                        e.context(
                            "fencing: snapshot changed under us (concurrent writer); skipping cycle",
                        ),
                    )
                } else {
                    Err(e)
                }
            },
        }
    }

    /// Begins a promotion to leadership term `fence`, given what is known of the
    /// object now. The object store is the single authority: the copy fetched as a
    /// standby is used only while it is the current one, and local data only where
    /// there is no snapshot at all. Leadership is recorded only once the
    /// authoritative database is in place.
    pub fn promote(&mut self, fence: i64, head: Result<HeadObjectOutput, Error>) -> (r: PromoteStep)
        ensures
            final(self).fence == fence,
            !final(self).watching,
            !final(self).have_uploaded,
            final(self).snapshot_path is None,
            final(self).snapshot_etag is None,
            final(self).uploaded_version == old(self).uploaded_version,
            final(self).bucket == old(self).bucket,
            final(self).key == old(self).key,
            final(self).leader == (old(self).leader || r is Local),
            match head {
                Err(e) => if e.says_not_found() {
                    r is Local
                } else {
                    r matches PromoteStep::Failed { error } && error.text()
                        == "head snapshot on promote"@ + ": "@ + e.text()
                },
                Ok(h) => if old(self).snapshot_path is Some && same_tag(
                    old(self).snapshot_etag,
                    h.e_tag,
                ) {
                    r matches PromoteStep::Apply { path } && Some(path@) == opt_text(
                        old(self).snapshot_path,
                    )
                } else {
                    r is Download
                },
            },
    {
        self.fence = fence;
        self.drop_watch();
        let path = self.snapshot_path.take();
        let etag = self.snapshot_etag.take();
        match head {
            Err(e) => {
                if e.is_not_found() {
                    self.leader = true;
                    PromoteStep::Local
                } else {
                    PromoteStep::Failed { error: e.context("head snapshot on promote") }
                }
            },
            Ok(h) => match path {
                Some(p) => {
                    if tags_equal(&etag, &h.e_tag) {
                        PromoteStep::Apply { path: p }
                    } else {
                        PromoteStep::Download
                    }
                },
                None => PromoteStep::Download,
            },
        }
    }

    /// Goes on with a promotion once the snapshot was downloaded to `path`; `found`
    /// is false where the object vanished meanwhile, and local data is then all there
    /// is.
    pub fn promote_downloaded(&mut self, path: &str, found: Result<bool, Error>) -> (r: PromoteStep)
        ensures
            match found {
                Err(e) => r matches PromoteStep::Failed { error } && error.text()
                    == "download snapshot on promote"@ + ": "@ + e.text(),
                Ok(false) => r is Local,
                Ok(true) => r matches PromoteStep::Apply { path: p } && p@ == path@,
            },
            final(self).leader == (old(self).leader || r is Local),
            final(self).fence == old(self).fence,
            final(self).watching == old(self).watching,
            final(self).have_uploaded == old(self).have_uploaded,
            final(self).uploaded_version == old(self).uploaded_version,
            final(self).snapshot_path == old(self).snapshot_path,
            final(self).snapshot_etag == old(self).snapshot_etag,
            final(self).bucket == old(self).bucket,
            final(self).key == old(self).key,
    {
        match found {
            Err(e) => PromoteStep::Failed { error: e.context("download snapshot on promote") },
            Ok(true) => PromoteStep::Apply { path: path.to_owned() },
            Ok(false) => {
                self.leader = true;
                PromoteStep::Local
            },
        }
    }

    /// Ends a promotion once the snapshot was applied, or could not be.
    pub fn promote_applied(&mut self, applied: Result<(), Error>) -> (r: Result<(), Error>)
        ensures
            match applied {
                Ok(_) => r is Ok && final(self).leader,
                Err(e) => {
                    &&& final(self).leader == old(self).leader
                    &&& r matches Err(w)
                    &&& w.text() == "apply snapshot on promote"@ + ": "@ + e.text()
                },
            },
            final(self).fence == old(self).fence,
            final(self).watching == old(self).watching,
            final(self).have_uploaded == old(self).have_uploaded,
            final(self).uploaded_version == old(self).uploaded_version,
            final(self).snapshot_path == old(self).snapshot_path,
            final(self).snapshot_etag == old(self).snapshot_etag,
            final(self).bucket == old(self).bucket,
            final(self).key == old(self).key,
    {
        match applied {
            Ok(_) => {
                self.leader = true;
                Ok(())
            },
            Err(e) => Err(e.context("apply snapshot on promote")),
        }
    }

    /// Whether a last snapshot is uploaded when leadership is lost or the process
    /// stops: only a leader has something to flush.
    pub fn final_sync(&self) -> (r: bool)
        ensures
            r == self.leader,
    {
        self.leader
    }

    /// Ends leadership, once the last snapshot was flushed.
    pub fn demote(&mut self)
        ensures
            !final(self).leader,
            !final(self).watching,
            !final(self).have_uploaded,
            final(self).uploaded_version == old(self).uploaded_version,
            final(self).fence == old(self).fence,
            final(self).snapshot_path == old(self).snapshot_path,
            final(self).snapshot_etag == old(self).snapshot_etag,
            final(self).bucket == old(self).bucket,
            final(self).key == old(self).key,
    {
        self.leader = false;
        self.drop_watch();
    }
}

/// The term of a stored snapshot never goes down: an upload that is let through
/// writes a term no lower than the one it replaces.
pub proof fn stored_fence_never_goes_down(
    sync: MetaSync,
    head: HeadObjectOutput,
    put: PutObjectInput,
)
    requires
        fence_of(head.metadata@) <= sync.fence,
        is_fence_metadata(put.metadata@, sync.fence as int),
    ensures
        fence_of(head.metadata@) <= fence_of(put.metadata@),
{
    written_fence_reads_back(put.metadata@, sync.fence);
}

} // verus!
