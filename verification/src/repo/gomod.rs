//! The Go module proxy protocol. Paths mirror the layout of a module proxy:
//!
//! ```text
//! <module>/@v/list            list of versions          (metadata)
//! <module>/@v/<version>.info  version metadata + time   (metadata)
//! <module>/@v/<version>.mod   the go.mod file           (artifact)
//! <module>/@v/<version>.zip   the module zip            (artifact)
//! <module>/@latest            latest version info       (metadata)
//! ```

use vstd::prelude::*;

use crate::cut::{cut_once, split_once};
use crate::meta::RepoType;
use crate::repo::engine::Kind;
use crate::repo::reply::Method;
use crate::repo::route::{fetch_spec, fetched, route, way, FetchSpec, Plan};
use crate::text::{before_suffix, ends, ends_with, strip_suffix};

verus! {

/// The kind of a path.
pub open spec fn go_kind_of(p: Seq<char>) -> Kind {
    if ends(p, "/@v/list"@) || ends(p, "/@latest"@) || ends(p, ".info"@) {
        Kind::Metadata
    } else {
        Kind::Artifact
    }
}

/// Classifies a path.
pub fn go_kind(p: &str) -> (r: Kind)
    ensures
        r == go_kind_of(p@),
{
    if ends_with(p, "/@v/list") || ends_with(p, "/@latest") || ends_with(p, ".info") {
        Kind::Metadata
    } else {
        Kind::Artifact
    }
}

/// The module that a path names; empty where it names none.
pub open spec fn go_package_of(p: Seq<char>) -> Seq<char> {
    match cut_once(p, "/@v/"@) {
        Some((before, _)) => before,
        None => match before_suffix(p, "/@latest"@) {
            Some(module) => module,
            None => ""@,
        },
    }
}

/// Extracts the module path (everything before `/@v/` or `/@latest`), keeping its
/// escaped form.
pub fn go_package(p: &str) -> (r: String)
    ensures
        r@ == go_package_of(p@),
{
    if let Some((before, _rest)) = split_once(p, "/@v/") {
        return before;
    }
    if let Some(module) = strip_suffix(p, "/@latest") {
        return module;
    }
    "".to_owned()
}

/// The version in a file name of the protocol; empty where it holds none.
pub open spec fn go_file_version(file: Seq<char>) -> Seq<char> {
    match before_suffix(file, ".info"@) {
        Some(v) => v,
        None => match before_suffix(file, ".mod"@) {
            Some(v) => v,
            None => match before_suffix(file, ".zip"@) {
                Some(v) => v,
                None => ""@,
            },
        },
    }
}

/// The version that a path names; empty where it names none.
pub open spec fn go_version_of(p: Seq<char>) -> Seq<char> {
    match cut_once(p, "/@v/"@) {
        Some((_, file)) => go_file_version(file),
        None => ""@,
    }
}

/// Extracts the version from a path.
pub fn go_version(p: &str) -> (r: String)
    ensures
        r@ == go_version_of(p@),
{
    let rest = match split_once(p, "/@v/") {
        Some((_before, rest)) => rest,
        None => return "".to_owned(),
    };
    if let Some(v) = strip_suffix(rest.as_str(), ".info") {
        return v;
    }
    if let Some(v) = strip_suffix(rest.as_str(), ".mod") {
        return v;
    }
    if let Some(v) = strip_suffix(rest.as_str(), ".zip") {
        return v;
    }
    "".to_owned()
}

/// The content type of a path, by its ending.
pub open spec fn go_type_of(p: Seq<char>) -> Seq<char> {
    if ends(p, ".info"@) || ends(p, "/@latest"@) {
        "application/json"@
    } else if ends(p, ".mod"@) {
        "text/plain; charset=utf-8"@
    } else if ends(p, ".zip"@) {
        "application/zip"@
    } else {
        "text/plain; charset=utf-8"@
    }
}

/// The content type of a path, by its ending.
pub fn go_content_type(p: &str) -> (r: String)
    ensures
        r@ == go_type_of(p@),
{
    let ct = if ends_with(p, ".info") || ends_with(p, "/@latest") {
        "application/json"
    } else if ends_with(p, ".mod") {
        "text/plain; charset=utf-8"
    } else if ends_with(p, ".zip") {
        "application/zip"
    } else {
        "text/plain; charset=utf-8"
    };
    ct.to_owned()
}

/// What a request for `path` fetches.
pub fn go_fetch(upstream_url: &str, path: &str) -> (r: FetchSpec)
    ensures
        r@ == fetched(
            upstream_url@,
            path@,
            go_kind_of(path@),
            go_version_of(path@),
            go_type_of(path@),
        ),
{
    fetch_spec(upstream_url, path, go_kind(path), go_version(path), go_content_type(path))
}

/// Plans a request to a Go module proxy.
pub fn handle_go(method: Method, kind: RepoType, upstream_url: &str, path: &str) -> (r: Plan)
    ensures
        r.pkg@ == go_package_of(path@),
        r.version@ == go_version_of(path@),
        r.route@ == way(method, kind),
        r.fetch@ == fetched(
            upstream_url@,
            path@,
            go_kind_of(path@),
            go_version_of(path@),
            go_type_of(path@),
        ),
{
    Plan {
        pkg: go_package(path),
        version: go_version(path),
        route: route(method, kind),
        fetch: go_fetch(upstream_url, path),
    }
}

} // verus!
