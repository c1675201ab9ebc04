//! Names that the metadata store and the rules share.

use vstd::prelude::*;

use crate::times::Stamp;

verus! {

/// The Maven repository layout.
pub const FORMAT_MAVEN: &'static str = "maven";

/// The npm registry protocol.
pub const FORMAT_NPM: &'static str = "npm";

/// The Cargo sparse registry protocol.
pub const FORMAT_CARGO: &'static str = "cargo";

/// The Go module proxy protocol.
pub const FORMAT_GO: &'static str = "go";

/// The Python simple index.
pub const FORMAT_PYPI: &'static str = "pypi";

/// The OCI distribution protocol.
pub const FORMAT_OCI: &'static str = "oci";

/// What a repository does.
#[derive(Debug, Clone, Copy, PartialEq, Eq, Structural)]
pub enum RepoType {
    /// Stores what clients upload.
    Hosted,
    /// Caches what an upstream serves.
    Proxy,
    /// Serves what its members serve.
    Group,
}

/// One repository.
pub struct Repository {
    pub id: i64,
    pub name: String,
    pub format: String,
    pub kind: RepoType,
    /// Where a proxy repository fetches from.
    pub upstream_url: String,
}

/// One stored artifact. Instants are in nanoseconds.
pub struct Artifact {
    pub repo_id: i64,
    pub path: String,
    pub version: String,
    pub blob_sha256: String,
    pub size: i64,
    pub content_type: String,
    pub artifact_role: String,
    pub published_at: Option<Stamp>,
    pub cached_at: i128,
    pub last_accessed_at: i128,
    pub cached_by: String,
}

} // verus!
