//! The Cargo sparse-registry protocol:
//!
//! ```text
//! config.json                           registry config (synthesised)
//! <a>/<b>/<crate>                       sparse index entries  (metadata)
//! api/v1/crates/<crate>/<ver>/download  the .crate tarball    (artifact)
//! api/v1/crates/new                     cargo publish         (hosted, PUT)
//! api/v1/crates/<crate>/<ver>/yank      cargo yank            (hosted, DELETE)
//! api/v1/crates/<crate>/<ver>/unyank    cargo yank --undo     (hosted, PUT)
//! api/v1/crates?q=<query>               cargo search          (hosted, GET)
//! ```

use vstd::prelude::*;
use vstd::string::StrSliceExecFns;

use crate::bridge::{is_semver, json_literal, lowercase, quote, semver_parse, to_lowercase};
use crate::cut::{cut_once, split_once};
use crate::meta::RepoType;
use crate::repo::engine::Kind;
use crate::repo::path::{base_name, path_base};
use crate::repo::reply::{
    is_read, reads, Method, BAD_REQUEST, METHOD_NOT_ALLOWED, NOT_FOUND, SERVICE_UNAVAILABLE,
};
use crate::repo::route::{fetch_spec, fetched, route, way, FetchSpec, Plan};
use crate::text::{
    after_prefix, before_suffix, cat, contains, contains_seq, ends, ends_with, same, split,
    split_char, strip_prefix, strip_suffix, texts,
};

verus! {

// ---------------------------------------------------------------------------
// Paths

/// The kind of a path: downloads are artifacts, the rest is metadata.
pub open spec fn cargo_kind_of(p: Seq<char>) -> Kind {
    if contains_seq(p, "api/v1/crates/"@) && ends(p, "/download"@) {
        Kind::Artifact
    } else {
        Kind::Metadata
    }
}

/// Classifies a path. The download path arrives without a leading slash, so it is
/// matched anywhere.
pub fn cargo_kind(p: &str) -> (r: Kind)
    ensures
        r == cargo_kind_of(p@),
{
    if contains(p, "api/v1/crates/") && ends_with(p, "/download") {
        Kind::Artifact
    } else {
        Kind::Metadata
    }
}

/// The version that a download path names; empty where it names none.
pub open spec fn cargo_version_of(p: Seq<char>) -> Seq<char> {
    match cut_once(p, "api/v1/crates/"@) {
        Some((_, after)) => {
            let rest = match before_suffix(after, "/download"@) {
                Some(rest) => rest,
                None => after,
            };
            let parts = split(rest, '/');
            if parts.len() == 2 {
                parts[1]
            } else {
                ""@
            }
        },
        None => ""@,
    }
}

/// Extracts the version from a download path.
pub fn cargo_version(p: &str) -> (r: String)
    ensures
        r@ == cargo_version_of(p@),
{
    if let Some((_before, after)) = split_once(p, "api/v1/crates/") {
        let rest = match strip_suffix(after.as_str(), "/download") {
            Some(rest) => rest,
            None => after,
        };
        let parts = split_char(rest.as_str(), '/');
        assert(texts(parts@).len() == parts@.len());
        if parts.len() == 2 {
            assert(texts(parts@)[1] == parts@[1]@);
            return parts[1].as_str().to_owned();
        }
    }
    "".to_owned()
}

/// The crate that a path names; empty for the registry configuration.
pub open spec fn cargo_package_of(p: Seq<char>) -> Seq<char> {
    if p == "config.json"@ {
        ""@
    } else {
        match cut_once(p, "api/v1/crates/"@) {
            Some((_, after)) => match cut_once(after, "/"@) {
                Some((name, _)) => lowercase(name),
                None => lowercase(after),
            },
            None => lowercase(base_name(p)),
        }
    }
}

/// Extracts the crate name from a path: the crate segment of a download URL, or the
/// final segment of a sparse-index entry. Crate names are case-insensitive in the
/// index, so the result is in small letters.
pub fn cargo_package(p: &str) -> (r: String)
    ensures
        r@ == cargo_package_of(p@),
{
    if same(p, "config.json") {
        return "".to_owned();
    }
    if let Some((_before, after)) = split_once(p, "api/v1/crates/") {
        let name = match split_once(after.as_str(), "/") {
            Some((name, _rest)) => name,
            None => after,
        };
        return to_lowercase(name.as_str());
    }
    let base = path_base(p);
    to_lowercase(base.as_str())
}

/// The content type of a path.
pub open spec fn cargo_type_of(p: Seq<char>) -> Seq<char> {
    if cargo_kind_of(p) == Kind::Artifact {
        "application/gzip"@
    } else {
        "text/plain; charset=utf-8"@
    }
}

/// The content type of a path.
pub fn cargo_content_type(p: &str) -> (r: String)
    ensures
        r@ == cargo_type_of(p@),
{
    if cargo_kind(p) == Kind::Artifact {
        "application/gzip".to_owned()
    } else {
        "text/plain; charset=utf-8".to_owned()
    }
}

/// What a request for `path` fetches, before the upstream's own download location is
/// known.
pub fn cargo_fetch(upstream_url: &str, path: &str) -> (r: FetchSpec)
    ensures
        r@ == fetched(
            upstream_url@,
            path@,
            cargo_kind_of(path@),
            cargo_version_of(path@),
            cargo_type_of(path@),
        ),
{
    fetch_spec(upstream_url, path, cargo_kind(path), cargo_version(path), cargo_content_type(path))
}

// ---------------------------------------------------------------------------
// The web API

/// A call of the registry's web API, as opposed to an index or download request.
pub enum CargoApiOp {
    Search,
    Publish,
    SetYanked { name: String, version: String, yanked: bool },
    Unsupported,
}

/// A call of the web API, without its text.
pub ghost enum ApiCall {
    Search,
    Publish,
    SetYanked { name: Seq<char>, version: Seq<char>, yanked: bool },
    Unsupported,
}

impl View for CargoApiOp {
    type V = ApiCall;

    open spec fn view(&self) -> ApiCall {
        match self {
            CargoApiOp::Search => ApiCall::Search,
            CargoApiOp::Publish => ApiCall::Publish,
            CargoApiOp::SetYanked { name, version, yanked } => ApiCall::SetYanked {
                name: name@,
                version: version@,
                yanked: *yanked,
            },
            CargoApiOp::Unsupported => ApiCall::Unsupported,
        }
    }
}

/// The call that the segments after `api/v1/` name.
pub open spec fn api_call(method: Method, segments: Seq<Seq<char>>) -> ApiCall {
    if segments.len() == 1 && segments[0] == "crates"@ && reads(method) {
        ApiCall::Search
    } else if segments.len() == 2 && segments[0] == "crates"@ && segments[1] == "new"@ && method
        == Method::Put {
        ApiCall::Publish
    } else if segments.len() == 4 && segments[0] == "crates"@ && segments[3] == "yank"@ && method
        == Method::Delete {
        ApiCall::SetYanked { name: segments[1], version: segments[2], yanked: true }
    } else if segments.len() == 4 && segments[0] == "crates"@ && segments[3] == "unyank"@ && method
        == Method::Put {
        ApiCall::SetYanked { name: segments[1], version: segments[2], yanked: false }
    } else {
        ApiCall::Unsupported
    }
}

/// The call of the web API that a request makes; nothing for any other request.
/// Downloads stay on the artifact path.
pub open spec fn api_call_of(method: Method, path: Seq<char>) -> Option<ApiCall> {
    match after_prefix(path, "api/v1/"@) {
        Some(rest) => if cargo_kind_of(path) == Kind::Artifact {
            None
        } else {
            Some(api_call(method, split(rest, '/')))
        },
        None => None,
    }
}

/// Classifies a repo-relative path as a call of the web API.
pub fn cargo_api_op(method: Method, path: &str) -> (r: Option<CargoApiOp>)
    ensures
        match r {
            Some(op) => api_call_of(method, path@) == Some(op@),
            None => api_call_of(method, path@) is None,
        },
{
    let rest = match strip_prefix(path, "api/v1/") {
        Some(rest) => rest,
        None => return None,
    };
    if cargo_kind(path) == Kind::Artifact {
        return None;
    }
    let segments = split_char(rest.as_str(), '/');
    let n: usize = segments.len();
    proof {
        let t = texts(segments@);
        assert(t.len() == n);
        assert forall|i: int| 0 <= i < n implies #[trigger] t[i] == segments@[i]@ by {}
    }
    if n == 0 || !same(segments[0].as_str(), "crates") {
        return Some(CargoApiOp::Unsupported);
    }
    if n == 1 && is_read(method) {
        return Some(CargoApiOp::Search);
    }
    if n == 2 && method == Method::Put && same(segments[1].as_str(), "new") {
        return Some(CargoApiOp::Publish);
    }
    if n == 4 {
        if method == Method::Delete && same(segments[3].as_str(), "yank") {
            return Some(
                CargoApiOp::SetYanked {
                    name: segments[1].as_str().to_owned(),
                    version: segments[2].as_str().to_owned(),
                    yanked: true,
                },
            );
        }
        if method == Method::Put && same(segments[3].as_str(), "unyank") {
            return Some(
                CargoApiOp::SetYanked {
                    name: segments[1].as_str().to_owned(),
                    version: segments[2].as_str().to_owned(),
                    yanked: false,
                },
            );
        }
    }
    Some(CargoApiOp::Unsupported)
}

/// What becomes of a request to a Cargo registry.
pub enum CargoStep {
    /// A call of the web API.
    Api(CargoApiOp),
    /// The synthesised registry configuration.
    Config,
    /// An index or download request.
    Plan(Plan),
}

/// Plans a request to a Cargo registry: calls of the web API and the registry
/// configuration come first, the rest is fetched or stored.
pub fn handle_cargo(method: Method, kind: RepoType, upstream_url: &str, path: &str) -> (r: CargoStep)
    ensures
        match r {
            CargoStep::Api(op) => api_call_of(method, path@) == Some(op@),
            CargoStep::Config => api_call_of(method, path@) is None && path@ == "config.json"@
                && reads(method),
            CargoStep::Plan(plan) => {
                &&& api_call_of(method, path@) is None
                &&& !(path@ == "config.json"@ && reads(method))
                &&& plan.pkg@ == cargo_package_of(path@)
                &&& plan.version@ == cargo_version_of(path@)
                &&& plan.route@ == way(method, kind)
                &&& plan.fetch@ == fetched(
                    upstream_url@,
                    path@,
                    cargo_kind_of(path@),
                    cargo_version_of(path@),
                    cargo_type_of(path@),
                )
            },
        },
{
    if let Some(op) = cargo_api_op(method, path) {
        return CargoStep::Api(op);
    }
    if same(path, "config.json") && is_read(method) {
        return CargoStep::Config;
    }
    CargoStep::Plan(
        Plan {
            pkg: cargo_package(path),
            version: cargo_version(path),
            route: route(method, kind),
            fetch: cargo_fetch(upstream_url, path),
        },
    )
}

/// The body of an answer in the envelope of the web API, which cargo prints as the
/// cause of a failed command.
pub open spec fn error_body(detail: Seq<char>) -> Seq<char> {
    "{\"errors\":[{\"detail\":"@ + json_literal(detail) + "}]}"@
}

/// Renders an error in the envelope of the web API.
pub fn cargo_error_body(detail: &str) -> (r: String)
    ensures
        r@ == error_body(detail@),
{
    let quoted = quote(detail);
    let mut out = cat("{\"errors\":[{\"detail\":", quoted.as_str());
    out.append("}]}");
    out
}

/// The body of a successful yank or unyank.
pub fn cargo_ok_body() -> (r: String)
    ensures
        r@ == "{\"ok\":true}"@,
{
    "{\"ok\":true}".to_owned()
}

/// The body of a successful publish. There is never anything to warn about.
pub fn cargo_publish_body() -> (r: String)
    ensures
        r@ == "{\"warnings\":{\"invalid_categories\":[],\"invalid_badges\":[],\"other\":[]}}"@,
{
    "{\"warnings\":{\"invalid_categories\":[],\"invalid_badges\":[],\"other\":[]}}".to_owned()
}

/// An answer in the envelope of the web API.
pub struct ApiReply {
    pub status: u16,
    pub body: String,
}

/// An error in the envelope of the web API.
pub open spec fn is_api_error(r: ApiReply, status: u16, detail: Seq<char>) -> bool {
    r.status == status && r.body@ == error_body(detail)
}

/// Renders an error in the envelope of the web API.
pub fn cargo_api_error(status: u16, detail: &str) -> (r: ApiReply)
    ensures
        is_api_error(r, status, detail@),
{
    ApiReply { status, body: cargo_error_body(detail) }
}

/// What a client must be allowed to do.
#[derive(Debug, Clone, Copy, PartialEq, Eq, Structural)]
pub enum Need {
    Read,
    Write,
}

/// What a call of the web API needs: search needs `read`; publish and yank both need
/// `write`, even though yank arrives as DELETE. Nothing where it is refused in any
/// case.
pub open spec fn need_of(op: ApiCall) -> Option<Need> {
    match op {
        ApiCall::Unsupported => None,
        ApiCall::Search => Some(Need::Read),
        _ => Some(Need::Write),
    }
}

/// What a call of the web API needs.
pub fn api_need(op: &CargoApiOp) -> (r: Option<Need>)
    ensures
        r == need_of(op@),
{
    match op {
        CargoApiOp::Unsupported => None,
        CargoApiOp::Search => Some(Need::Read),
        _ => Some(Need::Write),
    }
}

/// The refusal of a call of the web API that the client may make; nothing where it
/// goes on. Only hosted repositories are published to.
pub fn api_refusal(op: &CargoApiOp, kind: RepoType) -> (r: Option<ApiReply>)
    ensures
        match r {
            Some(a) => {
                ||| op@ == ApiCall::Unsupported && is_api_error(
                    a,
                    NOT_FOUND,
                    "this registry supports only search, publish, yank and unyank"@,
                )
                ||| op@ == ApiCall::Search && kind != RepoType::Hosted && is_api_error(
                    a,
                    NOT_FOUND,
                    "search is only available on hosted repositories"@,
                )
                ||| need_of(op@) == Some(Need::Write) && kind != RepoType::Hosted && is_api_error(
                    a,
                    METHOD_NOT_ALLOWED,
                    "publishing is only allowed on hosted repositories"@,
                )
            },
            None => op@ != ApiCall::Unsupported && kind == RepoType::Hosted,
        },
{
    match op {
        CargoApiOp::Unsupported => Some(
            cargo_api_error(
                NOT_FOUND,
                "this registry supports only search, publish, yank and unyank",
            ),
        ),
        CargoApiOp::Search => {
            if kind != RepoType::Hosted {
                return Some(
                    cargo_api_error(NOT_FOUND, "search is only available on hosted repositories"),
                );
            }
            None
        },
        _ => {
            if kind != RepoType::Hosted {
                return Some(
                    cargo_api_error(
                        METHOD_NOT_ALLOWED,
                        "publishing is only allowed on hosted repositories",
                    ),
                );
            }
            None
        },
    }
}

/// The version under which a publication is kept: without build metadata.
pub open spec fn version_identity(version: Seq<char>) -> Seq<char> {
    match cut_once(version, "+"@) {
        Some((before, _)) => before,
        None => version,
    }
}

/// The identity under which a crate version is looked up: its name in small letters
/// and its version without build metadata.
pub fn yank_identity(name: &str, version: &str, available: bool) -> (r: Result<
    (String, String),
    ApiReply,
>)
    ensures
        match r {
            Ok((n, v)) => available && is_semver(version@) && n@ == lowercase(name@) && v@
                == version_identity(version@),
            Err(a) => if !available {
                is_api_error(a, SERVICE_UNAVAILABLE, "yank is unavailable"@)
            } else {
                !is_semver(version@) && is_api_error(a, BAD_REQUEST, "invalid crate version"@)
            },
        },
{
    if !available {
        return Err(cargo_api_error(SERVICE_UNAVAILABLE, "yank is unavailable"));
    }
    let parsed = match semver_parse(version) {
        Some(v) => v,
        None => return Err(cargo_api_error(BAD_REQUEST, "invalid crate version")),
    };
    let identity = match split_once(parsed.as_str(), "+") {
        Some((before, _build)) => before,
        None => parsed,
    };
    Ok((to_lowercase(name), identity))
}

/// What the store answers to a lookup.
#[derive(Debug, Clone, Copy, PartialEq, Eq, Structural)]
pub enum Found {
    Yes,
    No,
    Unknown,
}

/// The refusal where a crate version cannot be found.
pub fn yank_lookup_refusal(found: Found) -> (r: Option<ApiReply>)
    ensures
        match r {
            Some(a) => {
                ||| found == Found::No && is_api_error(a, NOT_FOUND, "crate version not found"@)
                ||| found == Found::Unknown && is_api_error(
                    a,
                    SERVICE_UNAVAILABLE,
                    "crate version could not be looked up"@,
                )
            },
            None => found == Found::Yes,
        },
{
    match found {
        Found::Yes => None,
        Found::No => Some(cargo_api_error(NOT_FOUND, "crate version not found")),
        Found::Unknown => Some(
            cargo_api_error(SERVICE_UNAVAILABLE, "crate version could not be looked up"),
        ),
    }
}

// ---------------------------------------------------------------------------
// The registry configuration

/// The registry configuration: whether reading needs credentials, where crates are
/// downloaded from, and where the web API is.
pub open spec fn config_text(base: Seq<char>, auth_required: bool, api: bool) -> Seq<char> {
    let first = if auth_required {
        "{\"auth-required\":true,"@
    } else {
        "{"@
    };
    let second = first + "\"dl\":"@ + json_literal(
        base + "/api/v1/crates/{crate}/{version}/download"@,
    );
    if api {
        second + ",\"api\":"@ + json_literal(base) + "}\n"@
    } else {
        second + "}\n"@
    }
}

/// Where a repository is seen from outside, under the name it is served under.
pub open spec fn cargo_base(external: Seq<char>, name: Seq<char>) -> Seq<char> {
    external + "/cargo/"@ + name
}

/// Synthesises the registry's `config.json`, which points cargo at this repository's
/// own download endpoint. Hosted repositories and groups also name the web API,
/// where uploads are to be had.
pub fn cargo_config(
    external: &str,
    name: &str,
    kind: RepoType,
    via_group: bool,
    uploads: bool,
    auth_required: bool,
) -> (r: String)
    ensures
        r@ == config_text(
            cargo_base(external@, name@),
            auth_required,
            (kind == RepoType::Hosted || via_group) && uploads,
        ),
{
    let mut base = cat(external, "/cargo/");
    base.append(name);
    let dl = cat(base.as_str(), "/api/v1/crates/{crate}/{version}/download");
    let quoted_dl = quote(dl.as_str());
    let mut out = if auth_required {
        "{\"auth-required\":true,".to_owned()
    } else {
        "{".to_owned()
    };
    out.append("\"dl\":");
    out.append(quoted_dl.as_str());
    if (kind == RepoType::Hosted || via_group) && uploads {
        let quoted = quote(base.as_str());
        out.append(",\"api\":");
        out.append(quoted.as_str());
    }
    out.append("}\n");
    out
}

/// The base URL under which this server is seen: as configured, or else as the
/// request and its proxy headers tell.
pub open spec fn external_base_of(
    configured: Seq<char>,
    https: bool,
    forwarded_proto: Seq<char>,
    host: Seq<char>,
    authority: Seq<char>,
    forwarded_host: Seq<char>,
) -> Seq<char> {
    let scheme = if https || forwarded_proto == "https"@ {
        "https"@
    } else {
        "http"@
    };
    let name = if forwarded_host.len() > 0 {
        forwarded_host
    } else if host.len() > 0 {
        host
    } else {
        authority
    };
    if configured.len() > 0 {
        configured
    } else {
        scheme + "://"@ + name
    }
}

/// The externally visible base URL. What is derived from the request is under the
/// client's control, so it never enters a cached body.
pub fn external_base(
    configured: &str,
    https: bool,
    forwarded_proto: &str,
    host: &str,
    authority: &str,
    forwarded_host: &str,
) -> (r: String)
    ensures
        r@ == external_base_of(
            configured@,
            https,
            forwarded_proto@,
            host@,
            authority@,
            forwarded_host@,
        ),
{
    if configured.unicode_len() != 0 {
        return configured.to_owned();
    }
    let scheme = if https || same(forwarded_proto, "https") {
        "https"
    } else {
        "http"
    };
    let mut out = cat(scheme, "://");
    if forwarded_host.unicode_len() != 0 {
        out.append(forwarded_host);
    } else if host.unicode_len() != 0 {
        out.append(host);
    } else {
        out.append(authority);
    }
    out
}

} // verus!
