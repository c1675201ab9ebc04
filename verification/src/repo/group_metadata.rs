//! Merges mutable indexes across every member of a group repository, so a client
//! sees one aggregate document instead of whichever member answered first.

use vstd::prelude::*;
use vstd::utf8::encode_utf8;

use crate::bridge::{
    from_utf8_lossy, hex, hex_text, lossy_text, lowercase, sha1, sha1_digest, sha256, sha256_digest,
    to_lowercase,
};
use crate::json::object_text;
use crate::meta::{
    FORMAT_CARGO, FORMAT_GO, FORMAT_MAVEN, FORMAT_NPM, FORMAT_OCI, FORMAT_PYPI,
};
use crate::repo::gosemver::{
    go_semver_valid, is_version, version_order, version_order_is_antisymmetric,
    version_order_is_transitive, version_sign,
};
use crate::repo::merge::{
    all_can_be_cut, all_entries, all_lines, all_objects, ascending_tags, documents_can_be_cut,
    first_entries, is_latest, maven_agree, maven_merged, merge_cargo_group, merge_go_latest_group,
    merge_maven_group, merge_npm_group, merge_oci_tags_group, merge_pypi_group, npm_group_map,
    pypi_html_text, pypi_json_map, tags_agree, tags_name, tags_text, GoInfo, MavenMetadata,
    PYPI_JSON_TYPE,
};
use crate::repo::npm::members_of;
use crate::text::{
    before_suffix, cat, contains, contains_seq, contains_text, ends, ends_with, join, join_texts,
    same, split, split_char, split_whitespace, starts, starts_with, strip_suffix, texts, trim,
    trim_start, trim_start_char, trimmed, words,
};

verus! {

/// The bytes of each document.
pub open spec fn bodies(v: Seq<&[u8]>) -> Seq<Seq<u8>> {
    v.map_values(|b: &[u8]| b@)
}

/// A merged document and its content type.
pub open spec fn is_document(r: Option<(Vec<u8>, String)>, text: Seq<char>, kind: Seq<char>) -> bool {
    r matches Some((body, content_type)) && body@ == encode_utf8(text) && content_type@ == kind
}

// ---------------------------------------------------------------------------
// Go version lists

/// The words of all documents, in order.
pub open spec fn all_words(values: Seq<Seq<u8>>) -> Seq<Seq<char>>
    decreases values.len(),
{
    if values.len() == 0 {
        Seq::empty()
    } else {
        all_words(values.drop_last()) + words(lossy_text(values.last()))
    }
}

/// The versions among the words, each where it occurs first.
pub open spec fn listed_versions(s: Seq<Seq<char>>) -> Seq<Seq<char>>
    decreases s.len(),
{
    if s.len() == 0 {
        Seq::empty()
    } else {
        let p = listed_versions(s.drop_last());
        if is_version(s.last()) && !p.contains(s.last()) {
            p.push(s.last())
        } else {
            p
        }
    }
}

/// `v` put into the ordered list `s`, behind all that do not come after it.
pub open spec fn insert_version(s: Seq<Seq<char>>, v: Seq<char>) -> Seq<Seq<char>>
    decreases s.len(),
{
    if s.len() == 0 || version_order(s.last(), v) <= 0 {
        s.push(v)
    } else {
        insert_version(s.drop_last(), v).push(s.last())
    }
}

/// The versions in order; versions of the same rank stay as they were.
pub open spec fn in_version_order(s: Seq<Seq<char>>) -> Seq<Seq<char>>
    decreases s.len(),
{
    if s.len() == 0 {
        Seq::empty()
    } else {
        insert_version(in_version_order(s.drop_last()), s.last())
    }
}

/// `s` is ordered by version.
pub open spec fn version_sorted(s: Seq<Seq<char>>) -> bool {
    forall|i: int, j: int| 0 <= i < j < s.len() ==> version_order(s[i], s[j]) <= 0
}

proof fn lemma_insert_version(s: Seq<Seq<char>>, v: Seq<char>)
    requires
        version_sorted(s),
    ensures
        version_sorted(insert_version(s, v)),
        insert_version(s, v).to_multiset() == s.to_multiset().insert(v),
        insert_version(s, v).len() == s.len() + 1,
        forall|u: Seq<char>|
            (forall|i: int| 0 <= i < s.len() ==> version_order(#[trigger] s[i], u) <= 0)
                && version_order(v, u) <= 0 ==> forall|i: int|
                0 <= i <= s.len() ==> version_order(#[trigger] insert_version(s, v)[i], u) <= 0,
    decreases s.len(),
{
    broadcast use vstd::seq_lib::group_to_multiset_ensures;

    let r = insert_version(s, v);
    if s.len() == 0 || version_order(s.last(), v) <= 0 {
        assert forall|i: int, j: int| 0 <= i < j < r.len() implies version_order(r[i], r[j])
            <= 0 by {
            if j == s.len() && i < s.len() - 1 {
                version_order_is_transitive(s[i], s.last(), v);
            }
        }
        assert(s.push(v).to_multiset() =~= s.to_multiset().insert(v));
    } else {
        let t = s.drop_last();
        lemma_insert_version(t, v);
        let q = insert_version(t, v);
        version_order_is_antisymmetric(s.last(), v);
        assert(forall|i: int| 0 <= i < t.len() ==> t[i] == s[i]);
        assert(forall|i: int| 0 <= i < t.len() ==> version_order(#[trigger] t[i], s.last()) <= 0);
        assert forall|i: int, j: int| 0 <= i < j < r.len() implies version_order(r[i], r[j])
            <= 0 by {
            if j < q.len() {
                assert(r[i] == q[i] && r[j] == q[j]);
            } else {
                assert(r[i] == q[i]);
            }
        }
        assert(s =~= t.push(s.last()));
        assert(q.push(s.last()).to_multiset() =~= q.to_multiset().insert(s.last()));
        assert(t.push(s.last()).to_multiset() =~= t.to_multiset().insert(s.last()));
        assert(r.to_multiset() =~= s.to_multiset().insert(v));
        assert forall|u: Seq<char>|
            (forall|i: int| 0 <= i < s.len() ==> version_order(#[trigger] s[i], u) <= 0)
                && version_order(v, u) <= 0 implies forall|i: int|
            0 <= i <= s.len() ==> version_order(#[trigger] r[i], u) <= 0 by {
            assert(forall|i: int| 0 <= i < t.len() ==> version_order(#[trigger] t[i], u) <= 0);
            assert(version_order(s[s.len() - 1], u) <= 0);
            assert forall|i: int| 0 <= i <= s.len() implies version_order(#[trigger] r[i], u)
                <= 0 by {
                if i < q.len() {
                    assert(r[i] == q[i]);
                }
            }
        }
    }
}

/// The ordered list holds the same versions as the list it was made from, and is
/// ordered.
pub proof fn in_version_order_sorts(s: Seq<Seq<char>>)
    ensures
        version_sorted(in_version_order(s)),
        in_version_order(s).to_multiset() == s.to_multiset(),
    decreases s.len(),
{
    broadcast use vstd::seq_lib::group_to_multiset_ensures;

    if s.len() > 0 {
        let t = s.drop_last();
        in_version_order_sorts(t);
        lemma_insert_version(in_version_order(t), s.last());
        assert(s =~= t.push(s.last()));
        assert(t.push(s.last()).to_multiset() =~= t.to_multiset().insert(s.last()));
    } else {
        assert(in_version_order(s) =~= s);
    }
}

/// Puts `x` into the ordered list, behind all that do not come after it.
fn insert_by_version(v: &mut Vec<String>, x: String)
    ensures
        texts(final(v)@) == insert_version(texts(old(v)@), x@),
{
    let ghost s = texts(v@);
    let ghost k = x@;
    let mut j: usize = v.len();
    assert(s.take(s.len() as int) =~= s);
    assert(insert_version(s, k) =~= insert_version(s.take(j as int), k) + s.skip(j as int));
    while j > 0 && version_sign(v[j - 1].as_str(), x.as_str()) > 0
        invariant
            j <= v@.len(),
            s == texts(v@),
            k == x@,
            insert_version(s, k) == insert_version(s.take(j as int), k) + s.skip(j as int),
        decreases j,
    {
        proof {
            let t = s.take(j as int);
            assert(t.last() == s[j - 1]);
            assert(t.drop_last() =~= s.take(j - 1));
            assert(insert_version(s.take(j - 1), k).push(s[j - 1]) + s.skip(j as int)
                =~= insert_version(s.take(j - 1), k) + s.skip(j - 1));
        }
        j -= 1;
    }
    proof {
        let t = s.take(j as int);
        if j > 0 {
            assert(t.last() == s[j - 1]);
        }
        assert(insert_version(t, k) == t.push(k));
    }
    v.insert(j, x);
    assert(texts(v@) =~= s.take(j as int).push(k) + s.skip(j as int));
}

/// The merged list of the versions that the members list: each version once, in
/// order, one on a line.
pub open spec fn go_list_text(values: Seq<Seq<u8>>) -> Seq<char> {
    join(in_version_order(listed_versions(all_words(values))), "\n"@) + "\n"@
}

/// Merges member version lists.
pub fn merge_go_list_group(values: &[&[u8]]) -> (r: Option<(Vec<u8>, String)>)
    ensures
        is_document(r, go_list_text(bodies(values@)), "text/plain; charset=utf-8"@),
{
    let mut versions: Vec<String> = Vec::new();
    let ghost all = bodies(values@);
    let mut i: usize = 0;
    assert(all.take(0) =~= Seq::empty());
    assert(texts(versions@) =~= Seq::empty());
    while i < values.len()
        invariant
            i <= values@.len(),
            all == bodies(values@),
            texts(versions@) == listed_versions(all_words(all.take(i as int))),
        decreases values.len() - i,
    {
        let text = from_utf8_lossy(values[i]);
        let found = split_whitespace(text.as_str());
        let ghost before = all_words(all.take(i as int));
        let ghost more = words(text@);
        proof {
            assert(all.take(i + 1).drop_last() =~= all.take(i as int));
            assert(all.take(i + 1).last() == values@[i as int]@);
            assert(before + more.take(0) =~= before);
        }
        let mut j: usize = 0;
        while j < found.len()
            invariant
                j <= found@.len(),
                texts(found@) == more,
                texts(versions@) == listed_versions(before + more.take(j as int)),
            decreases found.len() - j,
        {
            proof {
                let next = before + more.take(j + 1);
                assert(next.drop_last() =~= before + more.take(j as int));
                assert(next.last() == more[j as int]);
                assert(more[j as int] == found@[j as int]@);
            }
            if go_semver_valid(found[j].as_str()) && !contains_text(&versions, found[j].as_str()) {
                let ghost kept = texts(versions@);
                versions.push(found[j].clone());
                assert(texts(versions@) =~= kept.push(found@[j as int]@));
            }
            j += 1;
        }
        assert(more.take(more.len() as int) =~= more);
        i += 1;
    }
    assert(all.take(all.len() as int) =~= all);
    let ghost listed = texts(versions@);
    let mut ordered: Vec<String> = Vec::new();
    let mut k: usize = 0;
    assert(listed.take(0) =~= Seq::empty());
    assert(texts(ordered@) =~= Seq::empty());
    while k < versions.len()
        invariant
            k <= versions@.len(),
            listed == texts(versions@),
            texts(ordered@) == in_version_order(listed.take(k as int)),
        decreases versions.len() - k,
    {
        proof {
            assert(listed.take(k + 1).drop_last() =~= listed.take(k as int));
            assert(listed.take(k + 1).last() == versions@[k as int]@);
        }
        insert_by_version(&mut ordered, versions[k].clone());
        k += 1;
    }
    assert(listed.take(listed.len() as int) =~= listed);
    let mut text = join_texts(&ordered, 0, ordered.len(), "\n");
    assert(texts(ordered@).subrange(0, ordered@.len() as int) =~= texts(ordered@));
    text.append("\n");
    Some((text.as_str().as_bytes_vec(), "text/plain; charset=utf-8".to_owned()))
}

// ---------------------------------------------------------------------------
// Which requests address an index

/// The kind of index that a path addresses; empty where it addresses an immutable
/// asset.
pub open spec fn index_kind(format: Seq<char>, path: Seq<char>) -> Seq<char> {
    if format == FORMAT_MAVEN@ {
        let low = lowercase(path);
        if ends(low, "maven-metadata.xml"@) || ends(low, "maven-metadata.xml.sha1"@) || ends(
            low,
            "maven-metadata.xml.sha256"@,
        ) {
            "maven"@
        } else {
            ""@
        }
    } else if format == FORMAT_NPM@ {
        if path.len() > 0 && !contains_seq(path, "/-/"@) {
            "npm"@
        } else {
            ""@
        }
    } else if format == FORMAT_CARGO@ {
        if path != "config.json"@ && !contains_seq(path, "/api/v1/crates/"@) && !starts(
            path,
            "api/v1/"@,
        ) {
            "cargo"@
        } else {
            ""@
        }
    } else if format == FORMAT_GO@ {
        if ends(path, "/@v/list"@) {
            "go-list"@
        } else if ends(path, "/@latest"@) {
            "go-latest"@
        } else {
            ""@
        }
    } else if format == FORMAT_PYPI@ && starts(path, "simple/"@) {
        "pypi"@
    } else if format == FORMAT_OCI@ && ends(path, "/tags/list"@) {
        "oci-tags"@
    } else {
        ""@
    }
}

/// Classifies a request as an aggregatable index, or `""` when it addresses an
/// immutable asset.
pub fn group_metadata_kind(format: &str, wildcard: &str) -> (r: &'static str)
    ensures
        r@ == index_kind(format@, wildcard@),
{
    if same(format, FORMAT_MAVEN) {
        let low = to_lowercase(wildcard);
        if ends_with(low.as_str(), "maven-metadata.xml") || ends_with(
            low.as_str(),
            "maven-metadata.xml.sha1",
        ) || ends_with(low.as_str(), "maven-metadata.xml.sha256") {
            return "maven";
        }
        return "";
    }
    if same(format, FORMAT_NPM) {
        if !wildcard.is_empty() && !contains(wildcard, "/-/") {
            return "npm";
        }
        return "";
    }
    if same(format, FORMAT_CARGO) {
        // `api/v1/` also covers `api/v1/crates?q=`, whose path has no trailing slash
        // and is a search, not a sparse-index entry.
        if !same(wildcard, "config.json") && !contains(wildcard, "/api/v1/crates/") && !starts_with(
            wildcard,
            "api/v1/",
        ) {
            return "cargo";
        }
        return "";
    }
    if same(format, FORMAT_GO) {
        if ends_with(wildcard, "/@v/list") {
            return "go-list";
        }
        if ends_with(wildcard, "/@latest") {
            return "go-latest";
        }
        return "";
    }
    if same(format, FORMAT_PYPI) && starts_with(wildcard, "simple/") {
        return "pypi";
    }
    if same(format, FORMAT_OCI) && ends_with(wildcard, "/tags/list") {
        return "oci-tags";
    }
    ""
}

/// What of an index is asked for: the document or a checksum of it, and for the
/// simple index its form.
pub open spec fn representation_of(kind: Seq<char>, path: Seq<char>, accept: Seq<char>) -> Seq<char> {
    if kind == "maven"@ && ends(path, ".sha1"@) {
        kind + ":sha1"@
    } else if kind == "maven"@ && ends(path, ".sha256"@) {
        kind + ":sha256"@
    } else if kind == "pypi"@ && contains_seq(lowercase(accept), PYPI_JSON_TYPE@) {
        kind + ":json"@
    } else {
        kind + ":default"@
    }
}

/// Names what of an index is asked for.
pub fn group_metadata_representation(kind: &str, path: &str, accept: &str) -> (r: String)
    ensures
        r@ == representation_of(kind@, path@, accept@),
{
    if same(kind, "maven") {
        if ends_with(path, ".sha1") {
            return cat(kind, ":sha1");
        }
        if ends_with(path, ".sha256") {
            return cat(kind, ":sha256");
        }
    }
    if same(kind, "pypi") && contains(to_lowercase(accept).as_str(), PYPI_JSON_TYPE) {
        return cat(kind, ":json");
    }
    cat(kind, ":default")
}

/// The content type of a cached aggregate.
pub open spec fn content_type_of(representation: Seq<char>) -> Seq<char> {
    if representation == "maven:default"@ {
        "application/xml"@
    } else if representation == "npm:default"@ || representation == "pypi:json"@ || representation
        == "go-latest:default"@ || representation == "oci-tags:default"@ {
        "application/json"@
    } else if representation == "maven:sha1"@ || representation == "maven:sha256"@
        || representation == "cargo:default"@ || representation == "go-list:default"@ {
        "text/plain; charset=utf-8"@
    } else {
        "text/html; charset=utf-8"@
    }
}

/// The content type of a cached aggregate.
pub fn group_metadata_content_type(representation: &str) -> (r: &'static str)
    ensures
        r@ == content_type_of(representation@),
{
    if same(representation, "maven:default") {
        "application/xml"
    } else if same(representation, "npm:default") || same(representation, "pypi:json") || same(
        representation,
        "go-latest:default",
    ) || same(representation, "oci-tags:default") {
        "application/json"
    } else if same(representation, "maven:sha1") || same(representation, "maven:sha256") || same(
        representation,
        "cargo:default",
    ) || same(representation, "go-list:default") {
        "text/plain; charset=utf-8"
    } else {
        "text/html; charset=utf-8"
    }
}

/// A digest in quotes: the strong entity tag.
pub open spec fn etag_of(digest: Seq<char>) -> Seq<char> {
    "\""@ + digest + "\""@
}

/// One of the listed entity tags is that of `digest`.
pub open spec fn etag_listed(header: Seq<char>, digest: Seq<char>) -> bool {
    exists|i: int|
        0 <= i < split(header, ',').len() && trimmed(#[trigger] split(header, ',')[i]) == etag_of(
            digest,
        )
}

/// A digest in quotes: the strong entity tag.
pub fn etag(digest: &str) -> (r: String)
    ensures
        r@ == etag_of(digest@),
{
    let mut out = "\"".to_owned();
    out.append(digest);
    out.append("\"");
    out
}

/// Whether an `If-None-Match` header lists the entity tag of `digest`.
pub fn etag_matches(header: &str, digest: &str) -> (r: bool)
    ensures
        r == etag_listed(header@, digest@),
{
    let want = etag(digest);
    let parts = split_char(header, ',');
    let mut i: usize = 0;
    while i < parts.len()
        invariant
            i <= parts@.len(),
            texts(parts@) == split(header@, ','),
            want@ == etag_of(digest@),
            forall|j: int|
                0 <= j < i ==> trimmed(#[trigger] split(header@, ',')[j]) != etag_of(digest@),
        decreases parts.len() - i,
    {
        assert(split(header@, ',')[i as int] == parts@[i as int]@);
        if same(trim(parts[i].as_str()).as_str(), want.as_str()) {
            return true;
        }
        i += 1;
    }
    false
}

// ---------------------------------------------------------------------------
// Serving an aggregate

/// How a request for an index is answered.
pub struct GroupPlan {
    pub kind: &'static str,
    pub representation: String,
    /// What the members are asked for: the document, where a checksum is wanted.
    pub member_wildcard: String,
    /// The ending of the checksum that is wanted, or nothing.
    pub checksum: &'static str,
}

/// The path of the document whose checksum is asked for, with the ending.
pub open spec fn checksum_of(kind: Seq<char>, path: Seq<char>) -> (Seq<char>, Seq<char>) {
    if kind == "maven"@ && ends(path, ".sha256"@) {
        (before_suffix(path, ".sha256"@)->0, ".sha256"@)
    } else if kind == "maven"@ && ends(path, ".sha1"@) {
        (before_suffix(path, ".sha1"@)->0, ".sha1"@)
    } else {
        (path, ""@)
    }
}

/// Decides how a request for the remainder `path` of a group is answered. `None`
/// falls through to the first-hit member fan-out.
pub fn group_plan(format: &str, path: &str, accept: &str) -> (r: Option<GroupPlan>)
    ensures
        ({
            let wildcard = trim_start(path@, '/');
            let kind = index_kind(format@, wildcard);
            match r {
                Some(p) => kind.len() > 0 && p.kind@ == kind && p.representation@
                    == representation_of(kind, wildcard, accept@) && (
                    p.member_wildcard@,
                    p.checksum@,
                ) == checksum_of(kind, wildcard),
                None => kind.len() == 0,
            }
        }),
{
    let wildcard = trim_start_char(path, '/');
    let kind = group_metadata_kind(format, wildcard.as_str());
    if kind.is_empty() {
        return None;
    }
    let representation = group_metadata_representation(kind, wildcard.as_str(), accept);
    if same(kind, "maven") {
        if let Some(before) = strip_suffix(wildcard.as_str(), ".sha256") {
            return Some(
                GroupPlan { kind, representation, member_wildcard: before, checksum: ".sha256" },
            );
        }
        if let Some(before) = strip_suffix(wildcard.as_str(), ".sha1") {
            return Some(
                GroupPlan { kind, representation, member_wildcard: before, checksum: ".sha1" },
            );
        }
    }
    Some(GroupPlan { kind, representation, member_wildcard: wildcard, checksum: "" })
}

/// `path` with its third slash-separated segment replaced, where it has one.
pub open spec fn with_repo(path: Seq<char>, repo: Seq<char>) -> Seq<char> {
    let parts = split(path, '/');
    if parts.len() > 2 {
        join(parts.update(2, repo), "/"@)
    } else {
        join(parts, "/"@)
    }
}

/// Replaces the repository segment of a request path.
pub fn path_with_repo(path: &str, repo: &str) -> (r: String)
    ensures
        r@ == with_repo(path@, repo@),
{
    let mut parts = split_char(path, '/');
    let ghost before = texts(parts@);
    if parts.len() > 2 {
        parts.set(2, repo.to_owned());
        assert(texts(parts@) =~= before.update(2, repo@));
    }
    assert(texts(parts@).subrange(0, parts@.len() as int) =~= texts(parts@));
    join_texts(&parts, 0, parts.len(), "/")
}

/// The path that one member is asked for: its own name in place of the group's,
/// and, where a checksum is wanted, the document in place of the checksum.
pub open spec fn member_path(
    path: Seq<char>,
    member: Seq<char>,
    member_wildcard: Seq<char>,
    wildcard: Seq<char>,
) -> Seq<char> {
    let p = with_repo(path, member);
    if member_wildcard != wildcard && ends(p, wildcard) {
        before_suffix(p, wildcard)->0 + member_wildcard
    } else {
        p
    }
}

/// Rebuilds the request target for one member.
pub fn request_with_member(
    path: &str,
    query: Option<&str>,
    member: &str,
    member_wildcard: &str,
    wildcard: &str,
) -> (r: String)
    ensures
        r@ == (match query {
            Some(q) => member_path(path@, member@, member_wildcard@, wildcard@) + "?"@ + q@,
            None => member_path(path@, member@, member_wildcard@, wildcard@),
        }),
{
    let mut rebuilt = path_with_repo(path, member);
    if !same(member_wildcard, wildcard) {
        if let Some(before) = strip_suffix(rebuilt.as_str(), wildcard) {
            rebuilt = cat(before.as_str(), member_wildcard);
        }
    }
    if let Some(q) = query {
        rebuilt.append("?");
        rebuilt.append(q);
    }
    rebuilt
}

/// Caps the bytes one member may contribute to an aggregate.
pub const MAX_GROUP_METADATA_BYTES: usize = 67_108_864;

/// Whether a member's body, of which `read` bytes were read, is longer than an aggregate
/// may take.
pub fn over_group_limit(read: usize) -> (r: bool)
    ensures
        r == (read > MAX_GROUP_METADATA_BYTES),
{
    read > MAX_GROUP_METADATA_BYTES
}

/// One member's response, read into memory.
pub struct CapturedGroupResponse {
    pub status: u16,
    pub content_type: String,
    pub body: Vec<u8>,
    /// The body is longer than an aggregate may take.
    pub over: bool,
    /// The body as a Maven metadata document, where it is one.
    pub maven: Option<MavenMetadata>,
    /// The body as a module version, where it is one.
    pub info: Option<GoInfo>,
}

/// The usable responses so far.
pub struct GroupCollector {
    pub bodies: Vec<Vec<u8>>,
    /// The content type of the first usable response.
    pub content_type: String,
    pub maven: Vec<MavenMetadata>,
    pub infos: Vec<GoInfo>,
}

/// What a group answers.
pub enum GroupReply {
    /// An error with its message.
    Error { status: u16, message: &'static str },
    /// A member's response, passed on.
    Relay { response: CapturedGroupResponse },
    /// A merged document with its content type.
    Body { body: Vec<u8>, content_type: String },
    /// A merged Maven metadata document, to be rendered.
    Maven { document: MavenMetadata },
    /// The newest module version, to be rendered.
    Latest { info: GoInfo },
}

/// The bytes of the collected documents.
pub open spec fn collected(v: Seq<Vec<u8>>) -> Seq<Seq<u8>> {
    v.map_values(|b: Vec<u8>| b@)
}

/// A status in the two hundreds.
pub open spec fn is_success(status: u16) -> bool {
    200 <= status < 300
}

/// The response adds nothing.
pub open spec fn is_missing(c: CapturedGroupResponse) -> bool {
    !c.over && c.status == 404
}

/// The response is one to merge.
pub open spec fn is_usable(c: CapturedGroupResponse) -> bool {
    !c.over && is_success(c.status)
}

impl GroupCollector {
    /// Nothing collected.
    pub fn new() -> (r: GroupCollector)
        ensures
            r.bodies@.len() == 0,
            r.content_type@.len() == 0,
            r.maven@.len() == 0,
            r.infos@.len() == 0,
    {
        GroupCollector {
            bodies: Vec::new(),
            content_type: String::new(),
            maven: Vec::new(),
            infos: Vec::new(),
        }
    }

    /// Takes the next member's response. A reply ends the request: a member that
    /// fails other than by not having the document decides it.
    pub fn take(&mut self, c: CapturedGroupResponse) -> (r: Option<GroupReply>)
        ensures
            match r {
                Some(GroupReply::Error { status, message }) => c.over && status == 502 && message@
                    == "group metadata exceeds aggregation limit"@,
                Some(GroupReply::Relay { response }) => response == c && !c.over && !is_missing(c)
                    && !is_usable(c),
                Some(_) => false,
                None => is_missing(c) || is_usable(c),
            },
            is_usable(c) ==> {
                &&& final(self).bodies@ == old(self).bodies@.push(c.body)
                &&& final(self).content_type@ == (if old(self).bodies@.len() == 0 {
                    c.content_type@
                } else {
                    old(self).content_type@
                })
                &&& final(self).maven@ == (match c.maven {
                    Some(d) => old(self).maven@.push(d),
                    None => old(self).maven@,
                })
                &&& final(self).infos@ == (match c.info {
                    Some(d) => old(self).infos@.push(d),
                    None => old(self).infos@,
                })
            },
            !is_usable(c) ==> *final(self) == *old(self),
    {
        if c.over {
            return Some(
                GroupReply::Error {
                    status: 502,
                    message: "group metadata exceeds aggregation limit",
                },
            );
        }
        if c.status == 404 {
            return None;
        }
        if c.status < 200 || c.status >= 300 {
            return Some(GroupReply::Relay { response: c });
        }
        if self.bodies.len() == 0 {
            self.content_type = c.content_type;
        }
        self.bodies.push(c.body);
        if let Some(d) = c.maven {
            self.maven.push(d);
        }
        if let Some(d) = c.info {
            self.infos.push(d);
        }
        None
    }

    /// The documents collected so far as slices.
    fn slices(&self) -> (r: Vec<&[u8]>)
        ensures
            bodies(r@) == collected(self.bodies@),
    {
        let mut out: Vec<&[u8]> = Vec::new();
        let mut i: usize = 0;
        while i < self.bodies.len()
            invariant
                i <= self.bodies@.len(),
                bodies(out@) == collected(self.bodies@.take(i as int)),
            decreases self.bodies.len() - i,
        {
            let ghost done = bodies(out@);
            out.push(self.bodies[i].as_slice());
            proof {
                assert(bodies(out@) =~= done.push(self.bodies@[i as int]@));
                assert(collected(self.bodies@.take(i + 1)) =~= collected(
                    self.bodies@.take(i as int),
                ).push(self.bodies@[i as int]@));
            }
            i += 1;
        }
        assert(self.bodies@.take(self.bodies@.len() as int) =~= self.bodies@);
        out
    }

    /// `r` is what merging the collected documents of `kind` gives.
    pub open spec fn merges_to(self, kind: Seq<char>, r: Option<GroupReply>) -> bool {
        let docs = collected(self.bodies@);
        if kind == "maven"@ {
            &&& r is Some <==> self.maven@.len() == docs.len() && maven_agree(self.maven@)
            &&& r matches Some(reply) ==> reply matches GroupReply::Maven { document }
                && maven_merged(self.maven@, document)
        } else if kind == "go-latest"@ {
            &&& r is Some <==> self.infos@.len() == docs.len() && forall|i: int|
                0 <= i < self.infos@.len() ==> is_version((#[trigger] self.infos@[i]).version@)
            &&& r matches Some(reply) ==> reply matches GroupReply::Latest { info } && is_latest(
                self.infos@,
                info,
            )
        } else if kind == "npm"@ {
            &&& r is Some <==> all_objects(docs)
            &&& r matches Some(reply) ==> is_body(
                reply,
                object_text(members_of(npm_group_map(docs))),
                "application/json"@,
            )
        } else if kind == "cargo"@ {
            &&& r is Some <==> all_entries(all_lines(docs))
            &&& r matches Some(reply) ==> is_body(
                reply,
                join(first_entries(all_lines(docs)), "\n"@) + "\n"@,
                "text/plain; charset=utf-8"@,
            )
        } else if kind == "go-list"@ {
            r matches Some(reply) && is_body(
                reply,
                go_list_text(docs),
                "text/plain; charset=utf-8"@,
            )
        } else if kind == "pypi"@ {
            if contains_seq(self.content_type@, "json"@) {
                &&& r is Some <==> all_objects(docs)
                &&& r matches Some(reply) ==> is_body(
                    reply,
                    object_text(members_of(pypi_json_map(docs))),
                    PYPI_JSON_TYPE@,
                )
            } else {
                &&& r is Some <==> all_can_be_cut(docs)
                &&& r matches Some(reply) ==> is_body(
                    reply,
                    pypi_html_text(docs),
                    "text/html; charset=utf-8"@,
                )
            }
        } else if kind == "oci-tags"@ {
            &&& r is Some <==> tags_agree(docs)
            &&& r matches Some(reply) ==> exists|tags: Seq<Seq<char>>|
                ascending_tags(docs, tags) && #[trigger] is_body(
                    reply,
                    tags_text(tags_name(docs), tags),
                    "oci-tags"@,
                )
        } else {
            r is None
        }
    }

    /// Merges the collected documents. `None` means that they could not be
    /// aggregated; so it is with a page whose anchors cannot be cut out.
    pub fn merge_group_metadata(&self, kind: &str) -> (r: Option<GroupReply>)
        ensures
            self.merges_to(kind@, r),
    {
        let values = self.slices();
        proof {
            lemma_kinds_differ();
        }
        if same(kind, "maven") {
            if self.maven.len() != self.bodies.len() {
                return None;
            }
            return match merge_maven_group(&self.maven) {
                Some(document) => Some(GroupReply::Maven { document }),
                None => None,
            };
        }
        if same(kind, "go-latest") {
            if self.infos.len() != self.bodies.len() {
                return None;
            }
            return match merge_go_latest_group(&self.infos) {
                Some(info) => Some(GroupReply::Latest { info }),
                None => None,
            };
        }
        let merged = if same(kind, "npm") {
            merge_npm_group(values.as_slice())
        } else if same(kind, "cargo") {
            merge_cargo_group(values.as_slice())
        } else if same(kind, "go-list") {
            merge_go_list_group(values.as_slice())
        } else if same(kind, "pypi") {
            if contains(self.content_type.as_str(), "json") || documents_can_be_cut(
                values.as_slice(),
            ) {
                merge_pypi_group(values.as_slice(), self.content_type.as_str())
            } else {
                None
            }
        } else if same(kind, "oci-tags") {
            merge_oci_tags_group(values.as_slice())
        } else {
            None
        };
        match merged {
            Some((body, content_type)) => {
                let reply = GroupReply::Body { body, content_type };
                proof {
                    if kind@ == "oci-tags"@ {
                        let docs = collected(self.bodies@);
                        let tags = choose|tags: Seq<Seq<char>>|
                            ascending_tags(docs, tags) && #[trigger] is_document(
                                merged,
                                tags_text(tags_name(docs), tags),
                                "oci-tags"@,
                            );
                        assert(is_body(reply, tags_text(tags_name(docs), tags), "oci-tags"@));
                    }
                }
                Some(reply)
            },
            None => None,
        }
    }

    /// What the group answers when every member has answered.
    pub fn finish(&self, kind: &str) -> (r: GroupReply)
        ensures
            self.bodies@.len() == 0 ==> r == (GroupReply::Error {
                status: 404,
                message: "404 page not found",
            }),
            self.bodies@.len() > 0 ==> self.merges_to(kind@, Some(r)) || (self.merges_to(
                kind@,
                None,
            ) && r == (GroupReply::Error {
                status: 502,
                message: "member metadata cannot be aggregated",
            })),
    {
        if self.bodies.len() == 0 {
            return GroupReply::Error { status: 404, message: "404 page not found" };
        }
        match self.merge_group_metadata(kind) {
            Some(reply) => reply,
            None => GroupReply::Error {
                status: 502,
                message: "member metadata cannot be aggregated",
            },
        }
    }
}

/// The reply is a document of that text and content type.
pub open spec fn is_body(reply: GroupReply, text: Seq<char>, kind: Seq<char>) -> bool {
    reply matches GroupReply::Body { body, content_type } && body@ == encode_utf8(text)
        && content_type@ == kind
}

proof fn lemma_kinds_differ()
    ensures
        "oci-tags"@ != "npm"@,
        "oci-tags"@ != "cargo"@,
        "oci-tags"@ != "go-list"@,
        "oci-tags"@ != "pypi"@,
{
    reveal_strlit("oci-tags");
    reveal_strlit("npm");
    reveal_strlit("cargo");
    reveal_strlit("go-list");
    reveal_strlit("pypi");
    assert("oci-tags"@.len() == 8);
    assert("npm"@.len() == 3);
    assert("cargo"@.len() == 5);
    assert("go-list"@.len() == 7);
    assert("pypi"@.len() == 4);
}

/// The document that a checksum request is answered with: the digest in
/// hexadecimal and a line end.
pub open spec fn checksum_text(checksum: Seq<char>, body: Seq<u8>) -> Seq<char> {
    if checksum == ".sha1"@ {
        hex_text(sha1_digest(body)) + "\n"@
    } else {
        hex_text(sha256_digest(body)) + "\n"@
    }
}

/// Replaces a merged document by its checksum, where one is wanted.
pub fn checksum_body(checksum: &str, body: Vec<u8>, content_type: String) -> (r: (Vec<u8>, String))
    ensures
        checksum@.len() == 0 ==> r.0@ == body@ && r.1@ == content_type@,
        checksum@.len() > 0 ==> r.0@ == encode_utf8(checksum_text(checksum@, body@)) && r.1@
            == "text/plain; charset=utf-8"@,
{
    if checksum.is_empty() {
        return (body, content_type);
    }
    let mut text = if same(checksum, ".sha1") {
        hex(sha1(body.as_slice()).as_slice())
    } else {
        hex(sha256(body.as_slice()).as_slice())
    };
    text.append("\n");
    (text.as_str().as_bytes_vec(), "text/plain; charset=utf-8".to_owned())
}

/// Status and headers of the answer to a request for an aggregate.
pub struct IndexReply {
    pub status: u16,
    /// Whether the document follows.
    pub with_body: bool,
    pub content_type: String,
    pub etag: Option<String>,
}

/// Answers a request for an aggregate: with its headers alone where the client has
/// the document, or asks for no more. `digest` is absent where the document could
/// not be cached.
pub fn index_reply(digest: Option<&str>, if_none_match: &str, head: bool, content_type: &str) -> (r:
    IndexReply)
    ensures
        r.status == 200 || r.status == 304,
        r.status == 304 <==> (digest matches Some(d) && etag_listed(if_none_match@, d@)),
        r.with_body <==> r.status == 200 && !head,
        r.content_type@ == content_type@,
        match digest {
            Some(d) => r.etag matches Some(e) && e@ == etag_of(d@),
            None => r.etag is None,
        },
{
    let known = match digest {
        Some(d) => etag_matches(if_none_match, d),
        None => false,
    };
    let tag = match digest {
        Some(d) => Some(etag(d)),
        None => None,
    };
    IndexReply {
        status: if known {
            304
        } else {
            200
        },
        with_body: !known && !head,
        content_type: content_type.to_owned(),
        etag: tag,
    }
}

} // verus!
