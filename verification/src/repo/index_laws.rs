//! What holds of merged indexes: which requests ask for one, what the members are asked
//! for, which of their answers count, and how the result goes out.

use vstd::prelude::*;
use vstd::utf8::encode_utf8;

use crate::bridge::{hex_text, json_values, lowercase, sha1_digest, sha256_digest};
use crate::repo::gosemver::{is_version, version_order};
use crate::repo::group_cache::{
    copy_captured_response, group_cache_entry, group_lock_key, serve_group_metadata_blob,
    GroupMetadataCache, MetadataLocks, Relayed,
};
use crate::repo::group_metadata::{
    checksum_body, checksum_of, collected, content_type_of, etag_listed, group_plan, in_version_order,
    in_version_order_sorts, index_kind, index_reply, listed_versions, member_path, over_group_limit,
    representation_of, with_repo, CapturedGroupResponse, GroupCollector, GroupPlan, GroupReply,
    IndexReply,
};
use crate::repo::merge::tags_agree;
use crate::repo::path_laws::{
    lemma_ends_last, lemma_ends_with_tail, lemma_join_splits, lemma_one_piece, lemma_split_behind,
};
use crate::text::{contains_seq, decimal, ends, is_white, join, split, starts, trim_start, trimmed};
use crate::text_laws::ends_are_trimmed;

verus! {

proof fn lemma_formats()
    ensures
        "maven"@ != "npm"@,
        "maven"@ != "cargo"@,
        "maven"@ != "go"@,
        "maven"@ != "pypi"@,
        "maven"@ != "oci"@,
        "npm"@ != "cargo"@,
        "npm"@ != "go"@,
        "npm"@ != "pypi"@,
        "npm"@ != "oci"@,
        "cargo"@ != "go"@,
        "cargo"@ != "pypi"@,
        "cargo"@ != "oci"@,
        "go"@ != "pypi"@,
        "go"@ != "oci"@,
        "pypi"@ != "oci"@,
        "maven"@.len() == 5,
        "npm"@.len() == 3,
        "cargo"@.len() == 5,
        "go"@.len() == 2,
        "pypi"@.len() == 4,
        "oci"@.len() == 3,
        ""@.len() == 0,
{
    reveal_strlit("maven");
    reveal_strlit("npm");
    reveal_strlit("cargo");
    reveal_strlit("go");
    reveal_strlit("pypi");
    reveal_strlit("oci");
    reveal_strlit("");
    assert("maven"@.len() == 5 && "npm"@.len() == 3 && "cargo"@.len() == 5 && "go"@.len() == 2
        && "pypi"@.len() == 4 && "oci"@.len() == 3);
    assert("maven"@[0] == 'm' && "cargo"@[0] == 'c' && "npm"@[0] == 'n' && "oci"@[0] == 'o');
}

// ---------------------------------------------------------------------------
// Requests

/// Of a Maven group the metadata and its two checksums are merged, in any case of letters,
/// and nothing else.
pub proof fn maven_metadata_is_merged(path: Seq<char>)
    ensures
        ends(lowercase(path), "maven-metadata.xml"@) ==> index_kind("maven"@, path) == "maven"@,
        ends(lowercase(path), "maven-metadata.xml.sha1"@) ==> index_kind("maven"@, path)
            == "maven"@,
        ends(lowercase(path), "maven-metadata.xml.sha256"@) ==> index_kind("maven"@, path)
            == "maven"@,
        !ends(lowercase(path), "maven-metadata.xml"@) && !ends(
            lowercase(path),
            "maven-metadata.xml.sha1"@,
        ) && !ends(lowercase(path), "maven-metadata.xml.sha256"@) ==> index_kind(
            "maven"@,
            path,
        ).len() == 0,
{
    lemma_formats();
}

/// Of an npm group the packuments are merged and the tarballs are not; of a Cargo group the
/// index entries are, and neither its configuration nor its API is.
pub proof fn packuments_and_entries_are_merged(path: Seq<char>, rest: Seq<char>)
    ensures
        path.len() > 0 && !contains_seq(path, "/-/"@) ==> index_kind("npm"@, path) == "npm"@,
        contains_seq(path, "/-/"@) ==> index_kind("npm"@, path).len() == 0,
        index_kind("npm"@, Seq::empty()).len() == 0,
        index_kind("cargo"@, "config.json"@).len() == 0,
        index_kind("cargo"@, "api/v1/"@ + rest).len() == 0,
        contains_seq(path, "/api/v1/crates/"@) ==> index_kind("cargo"@, path).len() == 0,
        path != "config.json"@ && !starts(path, "api/v1/"@) && !contains_seq(
            path,
            "/api/v1/crates/"@,
        ) ==> index_kind("cargo"@, path) == "cargo"@,
{
    lemma_formats();
    assert(("api/v1/"@ + rest).take("api/v1/"@.len() as int) =~= "api/v1/"@);
}

/// Of a Go group the version list and the newest version are merged, of a Python group all
/// below the simple index, and of a group of images the tag lists.
pub proof fn lists_are_merged(dir: Seq<char>, rest: Seq<char>, path: Seq<char>)
    ensures
        index_kind("go"@, dir + "/@v/list"@) == "go-list"@,
        index_kind("go"@, dir + "/@latest"@) == "go-latest"@,
        !ends(path, "/@v/list"@) && !ends(path, "/@latest"@) ==> index_kind("go"@, path).len() == 0,
        index_kind("pypi"@, "simple/"@ + rest) == "pypi"@,
        !starts(path, "simple/"@) ==> index_kind("pypi"@, path).len() == 0,
        index_kind("oci"@, dir + "/tags/list"@) == "oci-tags"@,
        !ends(path, "/tags/list"@) ==> index_kind("oci"@, path).len() == 0,
{
    lemma_formats();
    lemma_ends_with_tail(dir, "/@v/list"@);
    lemma_ends_with_tail(dir, "/@latest"@);
    lemma_ends_with_tail(dir, "/tags/list"@);
    assert(("simple/"@ + rest).take("simple/"@.len() as int) =~= "simple/"@);
    reveal_strlit("/@v/list");
    reveal_strlit("/@latest");
    assert("/@v/list"@.last() == 't');
    assert("/@latest"@.last() == 't' && "/@latest"@.len() == 8 && "/@v/list"@.len() == 8
        && "/@latest"@[2] == 'l' && "/@v/list"@[2] == 'v');
    let p = dir + "/@latest"@;
    assert(p.skip(p.len() - 8)[2] == 'l');
}

/// A group that merges answers with a plan; one that does not leaves the request to its
/// members. Slashes in front of the path do not count.
pub proof fn plans_are_made_for_indexes(
    format: &str,
    path: &str,
    accept: &str,
    r: Option<GroupPlan>,
)
    requires
        call_ensures(group_plan, (format, path, accept), r),
    ensures
        r is Some <==> index_kind(format@, trim_start(path@, '/')).len() > 0,
        r is Some ==> r->0.kind@ == index_kind(format@, trim_start(path@, '/')),
        r is Some && r->0.kind@ != "maven"@ ==> r->0.checksum@.len() == 0
            && r->0.member_wildcard@ == trim_start(path@, '/'),
{
    lemma_formats();
}

/// For a checksum the members are asked for the document itself: the path without the
/// ending. Otherwise they are asked for what the client asks for.
pub proof fn checksums_are_of_the_document(doc: Seq<char>, path: Seq<char>)
    ensures
        checksum_of("maven"@, doc + ".sha1"@) == (doc, ".sha1"@),
        checksum_of("maven"@, doc + ".sha256"@) == (doc, ".sha256"@),
        !ends(path, ".sha1"@) && !ends(path, ".sha256"@) ==> checksum_of("maven"@, path) == (
            path,
            ""@,
        ),
        representation_of("maven"@, doc + ".sha1"@, Seq::empty()) == "maven:sha1"@,
        representation_of("maven"@, doc + ".sha256"@, Seq::empty()) == "maven:sha256"@,
{
    lemma_formats();
    lemma_ends_with_tail(doc, ".sha1"@);
    lemma_ends_with_tail(doc, ".sha256"@);
    reveal_strlit(".sha1");
    reveal_strlit(".sha256");
    assert(".sha1"@.last() == '1' && ".sha256"@.last() == '6');
    if ends(doc + ".sha1"@, ".sha256"@) {
        lemma_ends_last(doc + ".sha1"@, ".sha256"@);
    }
    if ends(doc + ".sha256"@, ".sha1"@) {
        lemma_ends_last(doc + ".sha256"@, ".sha1"@);
    }
    let a = doc + ".sha1"@;
    let b = doc + ".sha256"@;
    assert(a.take(a.len() - 5) =~= doc);
    assert(b.take(b.len() - 7) =~= doc);
    reveal_strlit("maven");
    reveal_strlit(":sha1");
    reveal_strlit(":sha256");
    reveal_strlit("maven:sha1");
    reveal_strlit("maven:sha256");
    assert("maven"@ + ":sha1"@ =~= "maven:sha1"@);
    assert("maven"@ + ":sha256"@ =~= "maven:sha256"@);
}

/// The simple index is served in JSON to those who accept it; every other index comes in
/// one form.
pub proof fn forms_are_negotiated(path: Seq<char>, accept: Seq<char>)
    ensures
        contains_seq(lowercase(accept), "application/vnd.pypi.simple.v1+json"@)
            ==> representation_of("pypi"@, path, accept) == "pypi:json"@,
        !contains_seq(lowercase(accept), "application/vnd.pypi.simple.v1+json"@)
            ==> representation_of("pypi"@, path, accept) == "pypi:default"@,
        representation_of("npm"@, path, accept) == "npm:default"@,
        representation_of("cargo"@, path, accept) == "cargo:default"@,
{
    lemma_formats();
    reveal_strlit("pypi");
    reveal_strlit("npm");
    reveal_strlit("cargo");
    reveal_strlit(":json");
    reveal_strlit(":default");
    reveal_strlit("pypi:json");
    reveal_strlit("pypi:default");
    reveal_strlit("npm:default");
    reveal_strlit("cargo:default");
    assert("pypi"@ + ":json"@ =~= "pypi:json"@);
    assert("pypi"@ + ":default"@ =~= "pypi:default"@);
    assert("npm"@ + ":default"@ =~= "npm:default"@);
    assert("cargo"@ + ":default"@ =~= "cargo:default"@);
}

/// Each form of a kept index has its content type.
pub proof fn forms_have_their_types()
    ensures
        content_type_of("maven:default"@) == "application/xml"@,
        content_type_of("npm:default"@) == "application/json"@,
        content_type_of("pypi:json"@) == "application/json"@,
        content_type_of("go-latest:default"@) == "application/json"@,
        content_type_of("oci-tags:default"@) == "application/json"@,
        content_type_of("maven:sha1"@) == "text/plain; charset=utf-8"@,
        content_type_of("maven:sha256"@) == "text/plain; charset=utf-8"@,
        content_type_of("cargo:default"@) == "text/plain; charset=utf-8"@,
        content_type_of("go-list:default"@) == "text/plain; charset=utf-8"@,
        content_type_of("pypi:default"@) == "text/html; charset=utf-8"@,
{
    reveal_strlit("maven:default");
    reveal_strlit("npm:default");
    reveal_strlit("pypi:json");
    reveal_strlit("go-latest:default");
    reveal_strlit("oci-tags:default");
    reveal_strlit("maven:sha1");
    reveal_strlit("maven:sha256");
    reveal_strlit("cargo:default");
    reveal_strlit("go-list:default");
    reveal_strlit("pypi:default");
    assert("maven:default"@.len() == 13 && "npm:default"@.len() == 11 && "pypi:json"@.len() == 9);
    assert("go-latest:default"@.len() == 17 && "oci-tags:default"@.len() == 16
        && "maven:sha1"@.len() == 10);
    assert("maven:sha256"@.len() == 12 && "cargo:default"@.len() == 13 && "go-list:default"@.len()
        == 15 && "pypi:default"@.len() == 12);
    assert("maven:default"@[0] == 'm' && "cargo:default"@[0] == 'c' && "maven:sha256"@[0] == 'm'
        && "pypi:default"@[0] == 'p');
}

/// A member is asked for the path of the request with its own name in place of the
/// group's.
pub proof fn members_are_asked_under_their_name(
    a: Seq<char>,
    b: Seq<char>,
    group: Seq<char>,
    rest: Seq<Seq<char>>,
    member: Seq<char>,
    wildcard: Seq<char>,
)
    requires
        !a.contains('/'),
        !b.contains('/'),
        !group.contains('/'),
        forall|i: int| 0 <= i < rest.len() ==> !(#[trigger] rest[i]).contains('/'),
    ensures
        with_repo(join(seq![a, b, group] + rest, seq!['/']), member) == join(
            seq![a, b, member] + rest,
            seq!['/'],
        ),
        member_path(join(seq![a, b, group] + rest, seq!['/']), member, wildcard, wildcard) == join(
            seq![a, b, member] + rest,
            seq!['/'],
        ),
{
    let parts = seq![a, b, group] + rest;
    assert forall|i: int| 0 <= i < parts.len() implies !(#[trigger] parts[i]).contains('/') by {
        if i >= 3 {
            assert(parts[i] == rest[i - 3]);
        }
    }
    lemma_join_splits(parts, '/');
    assert(parts.update(2, member) =~= seq![a, b, member] + rest);
    reveal_strlit("/");
    assert("/"@ =~= seq!['/']);
}

/// Where a checksum is wanted the member's path ends with the document in place of it.
pub proof fn members_are_asked_for_the_document(
    path: Seq<char>,
    front: Seq<char>,
    member: Seq<char>,
    doc: Seq<char>,
    wildcard: Seq<char>,
)
    requires
        with_repo(path, member) == front + wildcard,
        doc != wildcard,
    ensures
        member_path(path, member, doc, wildcard) == front + doc,
{
    lemma_ends_with_tail(front, wildcard);
    let p = front + wildcard;
    assert(p.take(p.len() - wildcard.len()) =~= front);
}

// ---------------------------------------------------------------------------
// Members' answers

/// An answer longer than 64 MiB is too long.
pub proof fn long_answers_are_refused(read: usize, r: bool)
    requires
        call_ensures(over_group_limit, (read,), r),
    ensures
        r <==> read > 64 * 1024 * 1024,
{
}

/// A success is merged behind those before it, a missing document adds nothing, and
/// anything else ends the request: it is passed on as it came, or refused where it is too
/// long.
pub proof fn answers_are_collected(
    s: &mut GroupCollector,
    c: CapturedGroupResponse,
    r: Option<GroupReply>,
)
    requires
        call_ensures(GroupCollector::take, (s, c), r),
    ensures
        c.over ==> r is Some && r->0 is Error && r->0->Error_status == 502,
        !c.over && c.status == 404 ==> r is None && *final(s) == *old(s),
        !c.over && 200 <= c.status < 300 ==> r is None && final(s).bodies@ == old(s).bodies@.push(
            c.body,
        ),
        !c.over && c.status != 404 && !(200 <= c.status < 300) ==> r is Some && r->0 is Relay
            && r->0->response == c,
        !c.over && 200 <= c.status < 300 && old(s).bodies@.len() == 0
            ==> final(s).content_type@ == c.content_type@,
        !c.over && 200 <= c.status < 300 && old(s).bodies@.len() > 0
            ==> final(s).content_type@ == old(s).content_type@,
{
}

/// Where no member has the document the group has none; where the members' documents do not
/// go together the answer is an error of the gateway.
pub proof fn groups_answer_for_their_members(s: &GroupCollector, kind: &str, r: GroupReply)
    requires
        call_ensures(GroupCollector::finish, (s, kind), r),
    ensures
        s.bodies@.len() == 0 ==> r is Error && r->Error_status == 404,
        s.bodies@.len() > 0 && r is Error ==> r->Error_status == 502,
        s.bodies@.len() > 0 && kind@ == "go-list"@ ==> r is Body,
        s.bodies@.len() > 0 && kind@ == "maven"@ && !(r is Error) ==> r is Maven
            && s.maven@.len() == s.bodies@.len(),
        s.bodies@.len() > 0 && kind@ == "go-latest"@ && !(r is Error) ==> r is Latest
            && s.infos@.len() == s.bodies@.len(),
        !(r is Relay),
{
    lemma_formats();
    reveal_strlit("go-list");
    reveal_strlit("go-latest");
    reveal_strlit("maven");
    reveal_strlit("oci-tags");
    assert("go-list"@.len() == 7 && "go-latest"@.len() == 9 && "maven"@.len() == 5
        && "oci-tags"@.len() == 8);
}

// ---------------------------------------------------------------------------
// Version lists

/// The merged list names each version that any member names, in any place, once, and
/// nothing else.
pub proof fn every_listed_version_is_merged(s: Seq<Seq<char>>, v: Seq<char>)
    ensures
        in_version_order(listed_versions(s)).contains(v) <==> s.contains(v) && is_version(v),
        in_version_order(listed_versions(s)).no_duplicates(),
{
    broadcast use vstd::seq_lib::group_to_multiset_ensures;

    lemma_listed(s);
    let l = listed_versions(s);
    in_version_order_sorts(l);
    let o = in_version_order(l);
    l.to_multiset_ensures();
    o.to_multiset_ensures();
    assert(l.contains(v) <==> l.to_multiset().count(v) > 0);
    assert(o.contains(v) <==> o.to_multiset().count(v) > 0);
    l.lemma_multiset_has_no_duplicates();
    o.lemma_multiset_has_no_duplicates_conv();
    assert(l.contains(v) <==> s.contains(v) && is_version(v));
}

proof fn lemma_listed(s: Seq<Seq<char>>)
    ensures
        listed_versions(s).no_duplicates(),
        forall|v: Seq<char>| #[trigger]
            listed_versions(s).contains(v) <==> s.contains(v) && is_version(v),
    decreases s.len(),
{
    if s.len() > 0 {
        let front = s.drop_last();
        lemma_listed(front);
        let p = listed_versions(front);
        let r = listed_versions(s);
        assert forall|v: Seq<char>| #[trigger] r.contains(v) <==> s.contains(v) && is_version(
            v,
        ) by {
            if s.contains(v) {
                let i = choose|i: int| 0 <= i < s.len() && s[i] == v;
                if i < front.len() {
                    assert(front[i] == v);
                    assert(front.contains(v));
                } else {
                    assert(v == s.last());
                }
            }
            if front.contains(v) {
                let i = choose|i: int| 0 <= i < front.len() && front[i] == v;
                assert(s[i] == v);
            }
            assert(s[s.len() - 1] == s.last());
            assert(p.contains(v) <==> front.contains(v) && is_version(v));
            if r.len() > p.len() {
                assert(r[p.len() as int] == s.last());
                if p.contains(v) {
                    let i = choose|i: int| 0 <= i < p.len() && p[i] == v;
                    assert(r[i] == v);
                }
                if r.contains(v) && v != s.last() {
                    let i = choose|i: int| 0 <= i < r.len() && r[i] == v;
                    assert(p[i] == v);
                }
            }
        }
    }
}

/// In the merged list no version stands before one that it comes after.
pub proof fn merged_versions_ascend(s: Seq<Seq<char>>, i: int, j: int)
    requires
        0 <= i < j < in_version_order(listed_versions(s)).len(),
    ensures
        version_order(
            in_version_order(listed_versions(s))[i],
            in_version_order(listed_versions(s))[j],
        ) <= 0,
{
    in_version_order_sorts(listed_versions(s));
}

// ---------------------------------------------------------------------------
// Serving

/// A checksum goes out as its digits and a line end, under plain text; a document goes out
/// as it is.
pub proof fn checksums_go_out_as_digits(
    checksum: &str,
    body: Vec<u8>,
    content_type: String,
    r: (Vec<u8>, String),
)
    requires
        call_ensures(checksum_body, (checksum, body, content_type), r),
    ensures
        checksum@ == ""@ ==> r.0@ == body@ && r.1@ == content_type@,
        checksum@ == ".sha1"@ ==> r.0@ == encode_utf8(hex_text(sha1_digest(body@)) + "\n"@) && r.1@
            == "text/plain; charset=utf-8"@,
        checksum@ == ".sha256"@ ==> r.0@ == encode_utf8(hex_text(sha256_digest(body@)) + "\n"@)
            && r.1@ == "text/plain; charset=utf-8"@,
{
    reveal_strlit("");
    reveal_strlit(".sha1");
    reveal_strlit(".sha256");
    assert(".sha1"@.len() == 5 && ".sha256"@.len() == 7);
}

/// A client that names the digest in quotes has the document: it is told so, without it.
pub proof fn known_documents_are_not_sent(
    digest: Seq<char>,
    header: &str,
    head: bool,
    content_type: &str,
    d: Option<&str>,
    r: IndexReply,
)
    requires
        call_ensures(index_reply, (d, header, head, content_type), r),
    ensures
        d is None ==> r.status == 200 && r.etag is None,
        d is Some && header@ == "\""@ + d->0@ + "\""@ && !d->0@.contains(',') ==> r.status == 304
            && !r.with_body,
        d is Some && header@.len() == 0 ==> r.status == 200,
        d is Some ==> r.etag is Some && r.etag->0@ == "\""@ + d->0@ + "\""@,
        r.status == 200 && !head ==> r.with_body,
        head ==> !r.with_body,
        r.content_type@ == content_type@,
{
    if d is Some {
        let tag = "\""@ + d->0@ + "\""@;
        reveal_strlit("\"");
        if header@ == tag && !d->0@.contains(',') {
            assert(!tag.contains(',')) by {
                assert forall|i: int| 0 <= i < tag.len() implies tag[i] != ',' by {
                    if 1 <= i < tag.len() - 1 {
                        assert(tag[i] == d->0@[i - 1]);
                    }
                }
            }
            lemma_one_piece(tag, ',');
            assert(split(tag, ',')[0] == tag);
            assert(crate::text::trim_white_start(tag) == tag);
            assert(tag.last() == '"');
            assert(crate::text::trim_white_end(tag) == tag);
            assert(trimmed(tag) == tag);
            assert(etag_listed(header@, d->0@));
        }
        if header@.len() == 0 {
            assert(header@ =~= Seq::empty());
            assert(!header@.contains(','));
            lemma_one_piece(header@, ',');
            assert forall|i: int| 0 <= i < split(header@, ',').len() implies trimmed(
                #[trigger] split(header@, ',')[i],
            ).len() == 0 by {
                assert(split(header@, ',')[i] == header@);
            }
            assert(tag.len() >= 2);
        }
    }
}

/// A kept index is good for half a minute, and remembers what it was made of and for.
pub proof fn indexes_are_kept_for_half_a_minute(
    group_id: i64,
    path: &str,
    representation: &str,
    digest: &str,
    size: i64,
    members: &Vec<String>,
    revision: &str,
    now: i128,
    r: GroupMetadataCache,
)
    requires
        call_ensures(
            group_cache_entry,
            (group_id, path, representation, digest, size, members, revision, now),
            r,
        ),
    ensures
        r.expires_at == now + 30 * 1_000_000_000,
        r.group_repo_id == group_id,
        r.path@ == path@,
        r.representation@ == representation@,
        r.blob_sha256@ == digest@,
        r.size == size,
        r.config_revision@ == revision@,
{
}

/// A kept index is served under the type of its form.
pub proof fn kept_indexes_are_served(
    digest: &str,
    header: &str,
    head: bool,
    representation: &str,
    r: IndexReply,
)
    requires
        call_ensures(serve_group_metadata_blob, (digest, header, head, representation), r),
    ensures
        header@.len() == 0 ==> r.status == 200,
        header@.len() == 0 && !head ==> r.with_body,
        head ==> !r.with_body,
        r.content_type@ == content_type_of(representation@),
        r.etag is Some && r.etag->0@ == "\""@ + digest@ + "\""@,
{
    reveal_strlit("\"");
    if header@.len() == 0 {
        assert(header@ =~= Seq::empty());
        assert(!header@.contains(','));
        lemma_one_piece(header@, ',');
        assert forall|i: int| 0 <= i < split(header@, ',').len() implies trimmed(
            #[trigger] split(header@, ',')[i],
        ).len() == 0 by {
            assert(split(header@, ',')[i] == header@);
        }
        assert(("\""@ + digest@ + "\""@).len() >= 2);
    }
}

/// A member's answer is passed on with its status and type.
pub proof fn answers_are_passed_on(response: &CapturedGroupResponse, head: bool, r: Relayed)
    requires
        call_ensures(copy_captured_response, (response, head), r),
    ensures
        r.status == response.status,
        r.with_body <==> !head,
        response.content_type@.len() > 0 ==> r.content_type is Some && r.content_type->0@
            == response.content_type@,
        response.content_type@.len() == 0 ==> r.content_type is None,
{
}

/// The first to come to a lock has it; the others wait, and each who leaves makes room for
/// one.
pub proof fn the_first_has_the_lock(s: &mut MetadataLocks, key: &str, r: bool)
    requires
        call_ensures(MetadataLocks::enter, (s, key), r),
        old(s)@.contains_key(key@) ==> 0 < old(s)@[key@] < usize::MAX,
    ensures
        r <==> !old(s)@.contains_key(key@),
        final(s)@.contains_key(key@),
        r ==> final(s)@[key@] == 1,
        !r ==> final(s)@[key@] == old(s)@[key@] + 1,
        forall|k: Seq<char>|
            k != key@ ==> (#[trigger] final(s)@.contains_key(k) <==> old(s)@.contains_key(k)),
{
}

/// The digest may stand anywhere in the list of the client, with white space around it.
pub proof fn any_listed_tag_counts(
    before: Seq<char>,
    front: Seq<char>,
    back: Seq<char>,
    header: &str,
    head: bool,
    content_type: &str,
    d: &str,
    r: IndexReply,
)
    requires
        call_ensures(index_reply, (Some(d), header, head, content_type), r),
        header@ == before + seq![','] + (front + ("\""@ + d@ + "\""@) + back),
        forall|i: int| 0 <= i < front.len() ==> is_white(#[trigger] front[i]),
        forall|i: int| 0 <= i < back.len() ==> is_white(#[trigger] back[i]),
        !d@.contains(','),
    ensures
        r.status == 304,
        !r.with_body,
{
    let tag = "\""@ + d@ + "\""@;
    reveal_strlit("\"");
    assert(tag[0] == '"' && tag.last() == '"');
    let piece = front + tag + back;
    assert(!piece.contains(',')) by {
        assert forall|i: int| 0 <= i < piece.len() implies piece[i] != ',' by {
            if i < front.len() {
                assert(piece[i] == front[i]);
            } else if i < front.len() + tag.len() {
                let k = i - front.len();
                assert(piece[i] == tag[k]);
                if 1 <= k < tag.len() - 1 {
                    assert(tag[k] == d@[k - 1]);
                }
            } else {
                assert(piece[i] == back[i - front.len() - tag.len()]);
            }
        }
    }
    lemma_split_behind(before, piece, ',');
    ends_are_trimmed(front, tag, back);
    let all = split(header@, ',');
    assert(all[all.len() - 1] == piece);
    assert(etag_listed(header@, d@));
}

/// A document that the client does not name is sent.
pub proof fn unknown_documents_are_sent(
    header: &str,
    content_type: &str,
    d: &str,
    r: IndexReply,
)
    requires
        call_ensures(index_reply, (Some(d), header, false, content_type), r),
        forall|i: int|
            0 <= i < split(header@, ',').len() ==> trimmed(#[trigger] split(header@, ',')[i])
                != "\""@ + d@ + "\""@,
    ensures
        r.status == 200,
        r.with_body,
{
}

/// Each index of a group in each representation has a lock of its own.
pub proof fn locks_are_of_group_path_and_form(
    group: i64,
    path: &str,
    representation: &str,
    r: String,
)
    requires
        call_ensures(group_lock_key, (group, path, representation), r),
    ensures
        r@ == decimal(group as int) + seq!['\0'] + path@ + seq!['\0'] + representation@,
{
}

/// What the members gave is merged by its kind: a simple index in the form that they gave
/// it in, tags where the lists are of one image, packuments and index entries where all
/// can be read.
pub proof fn documents_are_merged_by_kind(
    s: &GroupCollector,
    kind: &str,
    r: Option<GroupReply>,
)
    requires
        call_ensures(GroupCollector::merge_group_metadata, (s, kind), r),
    ensures
        ({
            let docs = collected(s.bodies@);
            let json = contains_seq(s.content_type@, "json"@);
            &&& kind@ == "oci-tags"@ ==> (r is Some <==> tags_agree(docs))
            &&& kind@ == "npm"@ || (kind@ == "pypi"@ && json) ==> (r is Some <==> forall|i: int|
                0 <= i < docs.len() ==> json_values(#[trigger] docs[i]) is Some)
            &&& kind@ == "pypi"@ && json && r is Some ==> r->0 is Body && (
            r->0->Body_content_type)@ == "application/vnd.pypi.simple.v1+json"@
            &&& kind@ == "pypi"@ && !json && r is Some ==> r->0 is Body && (
            r->0->Body_content_type)@ == "text/html; charset=utf-8"@
            &&& kind@ == "npm"@ && r is Some ==> r->0 is Body && (r->0->Body_content_type)@
                == "application/json"@
            &&& (kind@ == "cargo"@ || kind@ == "go-list"@) && r is Some ==> r->0 is Body && (
            r->0->Body_content_type)@ == "text/plain; charset=utf-8"@
            &&& kind@ == "go-list"@ ==> r is Some
        }),
{
    lemma_formats();
    reveal_strlit("go-list");
    reveal_strlit("go-latest");
    reveal_strlit("oci-tags");
    assert("go-list"@.len() == 7 && "go-latest"@.len() == 9 && "oci-tags"@.len() == 8);
}

} // verus!
