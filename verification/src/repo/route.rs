//! What the formats have in common: which methods they take, what they fetch, and
//! how they answer an upload.

use vstd::prelude::*;

use crate::meta::RepoType;
use crate::repo::engine::Kind;
use crate::repo::maven::{file_time, last_modified};
use crate::repo::path::{join_upstream, joined};
use crate::repo::reply::{
    answer, http_error, is_read, reads, Answer, Method, Reply, INTERNAL_SERVER_ERROR,
    METHOD_NOT_ALLOWED,
};
use crate::times::Stamp;

verus! {

/// The status of an upload that is stored.
pub const CREATED: u16 = 201;

/// What becomes of a request to a repository.
pub enum Route {
    /// Serve the path.
    Serve,
    /// Store the body.
    Store,
    /// Answer at once.
    Answer(Reply),
}

/// What becomes of a request, without its text.
pub ghost enum Way {
    Serve,
    Store,
    Answer(Answer),
}

impl View for Route {
    type V = Way;

    open spec fn view(&self) -> Way {
        match self {
            Route::Serve => Way::Serve,
            Route::Store => Way::Store,
            Route::Answer(r) => Way::Answer(r@),
        }
    }
}

/// What becomes of a request: reads are served everywhere, uploads are stored in
/// hosted repositories only.
pub open spec fn way(method: Method, kind: RepoType) -> Way {
    if reads(method) {
        Way::Serve
    } else if method != Method::Put {
        Way::Answer(answer(METHOD_NOT_ALLOWED, "method not allowed"@))
    } else if kind == RepoType::Hosted {
        Way::Store
    } else {
        Way::Answer(answer(METHOD_NOT_ALLOWED, "uploads are only allowed on local repositories"@))
    }
}

/// Decides what becomes of a request to a repository whose format stores a body
/// under its path.
pub fn route(method: Method, kind: RepoType) -> (r: Route)
    ensures
        r@ == way(method, kind),
{
    if is_read(method) {
        return Route::Serve;
    }
    if method != Method::Put {
        return Route::Answer(http_error(METHOD_NOT_ALLOWED, "method not allowed"));
    }
    if kind != RepoType::Hosted {
        return Route::Answer(
            http_error(METHOD_NOT_ALLOWED, "uploads are only allowed on local repositories"),
        );
    }
    Route::Store
}

/// Nothing but a hosted repository ever stores what a client sends.
pub proof fn only_hosted_repositories_take_uploads(method: Method, kind: RepoType)
    requires
        kind != RepoType::Hosted,
    ensures
        way(method, kind) != Way::Store,
{
}

/// The answer to an upload that could not be stored; nothing where it was.
pub fn store_reply(stored: bool) -> (r: Option<Reply>)
    ensures
        match r {
            Some(a) => !stored && a@ == answer(INTERNAL_SERVER_ERROR, "store failed"@),
            None => stored,
        },
{
    if stored {
        None
    } else {
        Some(http_error(INTERNAL_SERVER_ERROR, "store failed"))
    }
}

/// Where the release time of what is fetched comes from.
#[derive(Debug, Clone, Copy, PartialEq, Eq, Structural)]
pub enum ReleaseSource {
    /// It has none.
    Unknown,
    /// The upstream's file time.
    FileTime,
    /// It is known before the fetch.
    Known(Stamp),
}

/// The release time of what is fetched, given the upstream's `Last-Modified` header.
pub open spec fn release_of(source: ReleaseSource, header: Option<&str>) -> Option<Stamp> {
    match source {
        ReleaseSource::Unknown => None,
        ReleaseSource::FileTime => file_time(header),
        ReleaseSource::Known(t) => Some(t),
    }
}

/// The release time of what is fetched, given the upstream's `Last-Modified` header.
pub fn release_time(source: ReleaseSource, header: Option<&str>) -> (r: Option<Stamp>)
    ensures
        r == release_of(source, header),
        r is Some && source is FileTime ==> r->0.wf(),
{
    match source {
        ReleaseSource::Unknown => None,
        ReleaseSource::FileTime => last_modified(header),
        ReleaseSource::Known(t) => Some(t),
    }
}

/// Parameterises a GET or HEAD for one request.
pub struct FetchSpec {
    /// Repo-relative storage key.
    pub path: String,
    /// The full upstream URL (proxy only).
    pub upstream_url: String,
    /// The upstream URL comes from the client, not from the administrator.
    pub untrusted_url: bool,
    pub kind: Kind,
    pub version: String,
    pub content_type: String,
    /// Sent as the upstream `Accept` header when non-empty.
    pub accept: String,
    /// Caps how many upstream bytes are cached; zero for all.
    pub max_store_bytes: i64,
    /// Where the release time comes from.
    pub published: ReleaseSource,
}

/// What a request fetches, without its text.
pub ghost struct Fetched {
    pub path: Seq<char>,
    pub upstream_url: Seq<char>,
    pub untrusted_url: bool,
    pub kind: Kind,
    pub version: Seq<char>,
    pub content_type: Seq<char>,
    pub accept: Seq<char>,
    pub max_store_bytes: i64,
    pub published: ReleaseSource,
}

impl View for FetchSpec {
    type V = Fetched;

    open spec fn view(&self) -> Fetched {
        Fetched {
            path: self.path@,
            upstream_url: self.upstream_url@,
            untrusted_url: self.untrusted_url,
            kind: self.kind,
            version: self.version@,
            content_type: self.content_type@,
            accept: self.accept@,
            max_store_bytes: self.max_store_bytes,
            published: self.published,
        }
    }
}

/// What a request for `path` fetches from the upstream at `base`, released at its file
/// time.
pub open spec fn fetched(
    base: Seq<char>,
    path: Seq<char>,
    kind: Kind,
    version: Seq<char>,
    content_type: Seq<char>,
) -> Fetched {
    Fetched {
        path,
        upstream_url: joined(base, path),
        untrusted_url: false,
        kind,
        version,
        content_type,
        accept: ""@,
        max_store_bytes: 0,
        published: ReleaseSource::FileTime,
    }
}

/// Builds the parameters of a request for `path`.
pub fn fetch_spec(
    base: &str,
    path: &str,
    kind: Kind,
    version: String,
    content_type: String,
) -> (r: FetchSpec)
    ensures
        r@ == fetched(base@, path@, kind, version@, content_type@),
{
    FetchSpec {
        path: path.to_owned(),
        upstream_url: join_upstream(base, path),
        untrusted_url: false,
        kind,
        version,
        content_type,
        accept: "".to_owned(),
        max_store_bytes: 0,
        published: ReleaseSource::FileTime,
    }
}

/// What a format makes of a request: the package and the version that the gates are
/// asked about, what becomes of the request, and what is fetched or stored.
pub struct Plan {
    pub pkg: String,
    pub version: String,
    pub route: Route,
    pub fetch: FetchSpec,
}

} // verus!
