//! The Maven repository layout, which Gradle also consumes. Artifacts live at
//! `<group-path>/<artifact>/<version>/<file>`; `maven-metadata.xml` documents are
//! mutable indexes.

use vstd::prelude::*;

use crate::meta::RepoType;
use crate::repo::engine::Kind;
use crate::repo::path::{base_name, path_base};
use crate::repo::reply::Method;
use crate::repo::route::{fetch_spec, fetched, route, way, FetchSpec, Plan};
use crate::text::{
    ends, ends_with, join, join_texts, lemma_split_pieces, split, split_char, starts, starts_with, texts,
    trim_both, trim_char, trim_end,
};
use crate::times::{http_date_stamp, parse_http_stamp, Stamp};

verus! {

/// A path names a metadata document or one of its checksums.
pub open spec fn is_maven_metadata(p: Seq<char>) -> bool {
    starts(base_name(p), "maven-metadata.xml"@)
}

/// The kind of a path.
pub open spec fn maven_kind_of(p: Seq<char>) -> Kind {
    if is_maven_metadata(p) {
        Kind::Metadata
    } else {
        Kind::Artifact
    }
}

/// Classifies `maven-metadata.xml` (and its checksums) as mutable metadata;
/// everything else is an immutable artifact.
pub fn maven_kind(p: &str) -> (r: Kind)
    ensures
        r == maven_kind_of(p@),
{
    let base = path_base(p);
    if starts_with(base.as_str(), "maven-metadata.xml") {
        Kind::Metadata
    } else {
        Kind::Artifact
    }
}

/// The version directory of an artifact path; empty where there is none.
pub open spec fn maven_version_of(p: Seq<char>) -> Seq<char> {
    let parts = split(p, '/');
    if is_maven_metadata(p) || parts.len() < 2 {
        ""@
    } else {
        parts[parts.len() - 2]
    }
}

/// Extracts the version directory from an artifact path.
pub fn maven_version(p: &str) -> (r: String)
    ensures
        r@ == maven_version_of(p@),
{
    if maven_kind(p) == Kind::Metadata {
        return "".to_owned();
    }
    let parts = split_char(p, '/');
    let n: usize = parts.len();
    assert(texts(parts@).len() == n);
    if n < 2 {
        return "".to_owned();
    }
    assert(texts(parts@)[n - 2] == parts@[n - 2]@);
    parts[n - 2].as_str().to_owned()
}

/// The segments of a path that name group and artifact.
pub open spec fn coordinate_parts(p: Seq<char>) -> Seq<Seq<char>> {
    let parts = split(trim_both(p, '/'), '/');
    if is_maven_metadata(p) {
        let above = parts.drop_last();
        if above.len() > 0 && ends(above.last(), "-SNAPSHOT"@) {
            above.drop_last()
        } else {
            above
        }
    } else if parts.len() >= 2 {
        parts.take(parts.len() - 2)
    } else {
        Seq::empty()
    }
}

/// The `group:artifact` coordinate of a path; empty where too few segments remain.
pub open spec fn maven_package_of(p: Seq<char>) -> Seq<char> {
    let parts = coordinate_parts(p);
    if parts.len() < 2 {
        ""@
    } else {
        join(parts.drop_last(), "."@) + ":"@ + parts.last()
    }
}

/// Extracts the `group:artifact` coordinate from a repository path.
/// `maven-metadata.xml` sits at the artifact level, or inside a `-SNAPSHOT` version
/// directory.
pub fn maven_package(p: &str) -> (r: String)
    ensures
        r@ == maven_package_of(p@),
{
    let trimmed = trim_char(p, '/');
    let parts = split_char(trimmed.as_str(), '/');
    let ghost all = texts(parts@);
    let mut n: usize = parts.len();
    assert(all.len() == n);
    if maven_kind(p) == Kind::Metadata {
        n = n - 1;
        assert(all.drop_last() =~= all.take(n as int));
        if n > 0 {
            assert(all.take(n as int).last() == parts@[n - 1]@);
            if ends_with(parts[n - 1].as_str(), "-SNAPSHOT") {
                assert(all.take(n as int).drop_last() =~= all.take(n - 1));
                n = n - 1;
            }
        }
    } else if n >= 2 {
        n = n - 2;
    } else {
        assert(Seq::<Seq<char>>::empty().len() == 0);
        return "".to_owned();
    }
    assert(coordinate_parts(p@) =~= all.take(n as int));
    if n < 2 {
        return "".to_owned();
    }
    assert(all.take(n as int).drop_last() =~= all.subrange(0, n - 1));
    assert(all.take(n as int).last() == parts@[n - 1]@);
    let mut out = join_texts(&parts, 0, n - 1, ".");
    out.append(":");
    out.append(parts[n - 1].as_str());
    out
}

/// The content type of a path, by its ending.
pub open spec fn maven_type_of(p: Seq<char>) -> Seq<char> {
    if ends(p, ".xml"@) || ends(p, ".pom"@) {
        "application/xml"@
    } else if ends(p, ".jar"@) || ends(p, ".war"@) {
        "application/java-archive"@
    } else if ends(p, ".module"@) || ends(p, ".json"@) {
        "application/json"@
    } else if ends(p, ".sha1"@) || ends(p, ".md5"@) || ends(p, ".sha256"@) || ends(p, ".sha512"@) {
        "text/plain"@
    } else {
        "application/octet-stream"@
    }
}

/// The content type of a path, by its ending.
pub fn maven_content_type(p: &str) -> (r: String)
    ensures
        r@ == maven_type_of(p@),
{
    let ct = if ends_with(p, ".xml") || ends_with(p, ".pom") {
        "application/xml"
    } else if ends_with(p, ".jar") || ends_with(p, ".war") {
        "application/java-archive"
    } else if ends_with(p, ".module") || ends_with(p, ".json") {
        "application/json"
    } else if ends_with(p, ".sha1") || ends_with(p, ".md5") || ends_with(p, ".sha256") || ends_with(
        p,
        ".sha512",
    ) {
        "text/plain"
    } else {
        "application/octet-stream"
    };
    ct.to_owned()
}

/// What a request for `path` fetches.
pub fn maven_fetch(upstream_url: &str, path: &str) -> (r: FetchSpec)
    ensures
        r@ == fetched(
            upstream_url@,
            path@,
            maven_kind_of(path@),
            maven_version_of(path@),
            maven_type_of(path@),
        ),
{
    fetch_spec(upstream_url, path, maven_kind(path), maven_version(path), maven_content_type(path))
}

/// Plans a request to a Maven repository.
pub fn handle_maven(method: Method, kind: RepoType, upstream_url: &str, path: &str) -> (r: Plan)
    ensures
        r.pkg@ == maven_package_of(path@),
        r.version@ == maven_version_of(path@),
        r.route@ == way(method, kind),
        r.fetch@ == fetched(
            upstream_url@,
            path@,
            maven_kind_of(path@),
            maven_version_of(path@),
            maven_type_of(path@),
        ),
{
    Plan {
        pkg: maven_package(path),
        version: maven_version(path),
        route: route(method, kind),
        fetch: maven_fetch(upstream_url, path),
    }
}

/// The file time that a `Last-Modified` header states.
pub open spec fn file_time(header: Option<&str>) -> Option<Stamp> {
    if header is Some && header->0@.len() > 0 {
        http_date_stamp(header->0@)
    } else {
        None
    }
}

/// The release time in a `Last-Modified` header, for the age policy. Maven artifacts
/// carry no timestamp of their own, so the upstream's file time is the best there is.
pub fn last_modified(header: Option<&str>) -> (r: Option<Stamp>)
    ensures
        r == file_time(header),
        r is Some ==> r->0.wf(),
{
    let v = match header {
        Some(v) => v,
        None => return None,
    };
    if v.is_empty() {
        return None;
    }
    parse_http_stamp(v)
}

/// A path that ends in a segment of its own splits before that segment.
proof fn lemma_split_segment(a: Seq<char>, b: Seq<char>)
    requires
        !b.contains('/'),
    ensures
        split(a + "/"@ + b, '/') == split(a, '/').push(b),
    decreases b.len(),
{
    reveal_strlit("/");
    let s = a + "/"@ + b;
    if b.len() == 0 {
        assert(s.drop_last() =~= a);
        assert(s.last() == '/');
        assert(b =~= Seq::empty());
    } else {
        let c = b.drop_last();
        assert forall|i: int| 0 <= i < c.len() implies c[i] != '/' by {
            assert(b.contains(b[i]));
        }
        lemma_split_segment(a, c);
        assert(s.drop_last() =~= a + "/"@ + c);
        assert(s.last() == b.last());
        assert(b.contains(b.last()));
        let p = split(a, '/').push(c);
        assert(p.drop_last() =~= split(a, '/'));
        assert(c.push(b.last()) =~= b);
    }
}

proof fn lemma_untrimmed(s: Seq<char>)
    requires
        s.len() > 0,
        s[0] != '/',
        s.last() != '/',
    ensures
        trim_both(s, '/') == s,
        trim_end(s, '/') == s,
{
}

proof fn lemma_metadata_name()
    ensures
        !"maven-metadata.xml"@.contains('/'),
        "/maven-metadata.xml"@ == "/"@ + "maven-metadata.xml"@,
        "maven-metadata.xml"@.len() == 18,
{
    reveal_strlit("/");
    reveal_strlit("maven-metadata.xml");
    reveal_strlit("/maven-metadata.xml");
    assert("/maven-metadata.xml"@ =~= "/"@ + "maven-metadata.xml"@);
}

/// The artifacts of a version and the metadata document beside its directory name
/// the same package.
pub proof fn metadata_names_the_same_package(above: Seq<char>, version: Seq<char>, file: Seq<char>)
    requires
        above.len() > 0,
        above[0] != '/',
        !version.contains('/'),
        file.len() > 0,
        !file.contains('/'),
        !starts(file, "maven-metadata.xml"@),
        !ends(split(above, '/').last(), "-SNAPSHOT"@),
    ensures
        maven_package_of(above + "/"@ + version + "/"@ + file) == maven_package_of(
            above + "/maven-metadata.xml"@,
        ),
{
    reveal_strlit("/");
    lemma_metadata_name();
    let m = "maven-metadata.xml"@;
    let p = above + "/"@ + version + "/"@ + file;
    let q = above + "/maven-metadata.xml"@;
    assert(q =~= above + "/"@ + m);
    lemma_split_segment(above, version);
    lemma_split_segment(above + "/"@ + version, file);
    lemma_split_segment(above, m);
    assert(file.contains(file.last()));
    assert(m.contains(m.last()));
    assert(p[0] == above[0] && q[0] == above[0]);
    assert(p.last() == file.last() && q.last() == m.last());
    lemma_untrimmed(p);
    lemma_untrimmed(q);
    assert(base_name(p) == file);
    assert(base_name(q) == m);
    assert(m.take(m.len() as int) =~= m);
    lemma_split_pieces(above, '/');
    assert(split(p, '/').take(split(p, '/').len() - 2) =~= split(above, '/'));
    assert(split(q, '/').drop_last() =~= split(above, '/'));
}

} // verus!
