//! What holds of publishing and of fetching by rules of the format: what a publish stores,
//! how an upload is framed, and where crates are downloaded from.

use vstd::prelude::*;
use vstd::utf8::encode_utf8;

use crate::bridge::{base64_bytes, firsts, json_object, json_string, json_values, lowercase};
use crate::json::{json_values_at, member_map, object_text, Members};
use crate::repo::cargo_dl::{
    cargo_upstream_download_url, checksum_in, entry_good, expanded, has_marker, index_line,
    prefix_of, read_template, within_bound,
};
use crate::repo::document_laws::records_hold_their_fields;
use crate::repo::engine::Kind;
use crate::repo::native_upload::{
    closing_boundary, dist_tag, escaped, multipart_content_type, native_upload_principal,
    native_upload_problem, npm_publish_atomic, part_header, reads_on, ContentFields, FieldStep,
    NpmUpload,
};
use crate::repo::npm::{decoded_path, version_of};
use crate::repo::npm_serve::{
    attachment_tarballs, npm_publish, npm_request_path, other_members_stay, packument_fetch,
    publish_store_failed, published_in, string_member, tarball_fetch, without_member, PublishPart,
    PublishPlan,
};
use crate::repo::path::{base_name, joined};
use crate::repo::path_laws::{lemma_cut_behind, lemma_ends_last, lemma_ends_with_tail};
use crate::repo::pypi::{distribution_name, folded};
use crate::repo::reply::Reply;
use crate::repo::route::{FetchSpec, ReleaseSource};
use crate::repo::span::named_twice;
use crate::text::{contains_seq, ends, occurs_at, replaced, trim_end};
use crate::text_laws::{occurrences_are_replaced, other_texts_stay, the_last_separator_cuts};
use crate::times::{rfc3339_stamp, Stamp};

verus! {

// ---------------------------------------------------------------------------
// npm

/// A publish of one attachment with data is taken; any other number of attachments, an
/// attachment without data, and data that is no base64 are refused.
pub proof fn one_attachment_is_published(body: &[u8], r: Result<NpmUpload, Reply>)
    requires
        call_ensures(npm_publish_atomic, (body,), r),
    ensures
        ({
            let atts = json_values_at(body@, "_attachments"@);
            let tags = json_values_at(body@, "dist-tags"@);
            let m = json_values(encode_utf8(atts[0].1));
            &&& atts.len() != 1 ==> r is Err
            &&& atts.len() == 1 && m is None ==> r is Err
            &&& atts.len() == 1 && m is Some ==> (r is Ok <==> atts[0].0.len() > 0 && string_member(
                m->0,
                "data"@,
            ).len() > 0 && base64_bytes(string_member(m->0, "data"@)) is Some)
            &&& r is Err ==> r->Err_0.status == 400
            &&& r is Ok ==> r->Ok_0.filename@ == base_name(atts[0].0) && base64_bytes(
                string_member(m->0, "data"@),
            ) == Some(r->Ok_0.tarball@)
            &&& r is Ok && tags.len() == 0 ==> r->Ok_0.dist_tag@ == "latest"@
        }),
{
}

/// A publish goes under "latest" where its document names that tag, wherever among the tags
/// it stands, and under the first tag otherwise.
pub proof fn publishes_are_tagged(tags: Members, i: int)
    requires
        0 <= i < tags.len(),
    ensures
        tags[i].0 == "latest"@ ==> dist_tag(tags) == "latest"@,
        (forall|j: int| 0 <= j < tags.len() ==> (#[trigger] tags[j]).0 != "latest"@) ==> dist_tag(
            tags,
        ) == tags[0].0,
        dist_tag(Seq::empty()) == "latest"@,
{
}

/// Each attachment is stored under the package, by the last element of its name; all of
/// them are where all can be read.
pub proof fn attachments_are_stored_under_the_package(path: Seq<char>, atts: Members, i: int)
    requires
        0 <= i < atts.len(),
        forall|j: int|
            0 <= j < atts.len() ==> json_values(encode_utf8((#[trigger] atts[j]).1)) is Some
                && base64_bytes(
                string_member(json_values(encode_utf8(atts[j].1))->0, "data"@),
            ) is Some,
    ensures
        attachment_tarballs(path, atts).1,
        attachment_tarballs(path, atts).0.len() == atts.len(),
        attachment_tarballs(path, atts).0[i].0 == path + "/-/"@ + base_name(atts[i].0),
        attachment_tarballs(path, atts).0[i].1 == version_of(path + "/-/"@ + base_name(atts[i].0)),
        Some(attachment_tarballs(path, atts).0[i].2) == base64_bytes(
            string_member(json_values(encode_utf8(atts[i].1))->0, "data"@),
        ),
    decreases atts.len(),
{
    let front = atts.drop_last();
    assert(atts[atts.len() - 1] == atts.last());
    if front.len() > 0 {
        assert forall|j: int| 0 <= j < front.len() implies json_values(
            encode_utf8((#[trigger] front[j]).1),
        ) is Some && base64_bytes(
            string_member(json_values(encode_utf8(front[j].1))->0, "data"@),
        ) is Some by {
            assert(front[j] == atts[j]);
        }
        attachments_are_stored_under_the_package(
            path,
            front,
            if i < front.len() {
                i
            } else {
                0
            },
        );
    }
}

/// A publish stores what was sent as the index, all of it but the attachments.
pub proof fn the_index_is_what_was_sent(
    body: &[u8],
    path: &str,
    r: Result<PublishPlan, Reply>,
    p: (Seq<char>, Seq<char>),
)
    requires
        call_ensures(npm_publish, (body, path), r),
        json_values(body@) is Some ==> firsts(json_values(body@)->0).no_duplicates(),
    ensures
        r is Ok <==> json_values(body@) is Some,
        r is Err ==> r->Err_0.status == 400,
        r is Ok ==> ({
            let m = json_values(body@)->0;
            let w = without_member(m, "_attachments"@);
            &&& r->Ok_0.index@ == object_text(w)
            &&& w.contains(p) <==> m.contains(p) && p.0 != "_attachments"@
        }),
{
    if r is Ok {
        other_members_stay(json_values(body@)->0, "_attachments"@);
        assert(without_member(json_values(body@)->0, "_attachments"@).contains(p)
            <==> json_values(body@)->0.contains(p) && p.0 != "_attachments"@);
    }
}

/// A tarball is fetched as a file of its version, judged by the time that its packument
/// names; a packument is fetched as metadata, up to 64 MiB, and has no age.
pub proof fn npm_fetches_are_of_their_kind(
    upstream: &str,
    path: &str,
    age: bool,
    time: Option<Stamp>,
    tarball: FetchSpec,
    packument: FetchSpec,
)
    requires
        call_ensures(tarball_fetch, (upstream, path, age, time), tarball),
        call_ensures(packument_fetch, (upstream, path), packument),
    ensures
        tarball@.kind == Kind::Artifact,
        tarball@.path == path@,
        tarball@.upstream_url == joined(upstream@, path@),
        tarball@.version == version_of(path@),
        tarball@.content_type == "application/octet-stream"@,
        age && time is Some ==> tarball@.published == ReleaseSource::Known(time->0),
        !(age && time is Some) ==> tarball@.published == ReleaseSource::FileTime,
        packument@.kind == Kind::Metadata,
        packument@.path == path@,
        packument@.upstream_url == joined(upstream@, path@),
        packument@.content_type == "application/json"@,
        packument@.max_store_bytes == 64 * 1024 * 1024,
        packument@.published == ReleaseSource::Unknown,
        packument@.version.len() == 0,
{
    reveal_strlit("");
}

// ---------------------------------------------------------------------------
// Uploads

/// Those who publish without credentials go under one name; others under their own.
pub proof fn publishers_are_named(
    name: &str,
    source: &str,
    own: (String, String),
    nobody: (String, String),
)
    requires
        call_ensures(native_upload_principal, (Some((name, source)),), own),
        call_ensures(native_upload_principal, (None,), nobody),
    ensures
        own.0@ == name@ && own.1@ == source@,
        nobody.0@ == "native-client"@ && nobody.1@ == "protocol"@,
{
}

/// One field of the form holds the distribution: the first such is forwarded, a second is
/// refused, and all others are passed over.
pub proof fn one_field_is_forwarded(s: &mut ContentFields, name: Option<&str>, r: FieldStep)
    requires
        call_ensures(ContentFields::step, (s, name), r),
    ensures
        name is None ==> r is Skip,
        name is Some && name->0@ != "content"@ ==> r is Skip,
        name is Some && name->0@ == "content"@ && !old(s).found ==> r is Forward,
        name is Some && name->0@ == "content"@ && old(s).found ==> r is Fail,
        final(s).found <==> old(s).found || (name is Some && name->0@ == "content"@),
{
}

/// A form without the distribution is refused.
pub proof fn forms_hold_a_distribution(s: &ContentFields, r: Option<&'static str>)
    requires
        call_ensures(ContentFields::finish, (s,), r),
    ensures
        r is None <==> s.found,
{
}

/// Of a field that is dropped a mebibyte is read.
pub proof fn dropped_fields_are_read_so_far(seen: i64, r: bool)
    requires
        call_ensures(reads_on, (seen,), r),
    ensures
        r <==> seen < 1024 * 1024,
{
}

/// Quotes and backslashes are escaped, each by a backslash; nothing else is.
pub proof fn quotes_are_escaped(c: char)
    ensures
        escaped(seq!['"']) == seq!['\\', '"'],
        escaped(seq!['\\']) == seq!['\\', '\\'],
        c != '"' && c != '\\' ==> escaped(seq![c]) == seq![c],
        escaped(seq!['\\', '"']) == seq!['\\', '\\', '\\', '"'],
{
    reveal_strlit("\\");
    reveal_strlit("\\\\");
    reveal_strlit("\"");
    reveal_strlit("\\\"");
    let b = "\\"@;
    let q = "\""@;
    assert(b =~= seq!['\\']);
    assert(q =~= seq!['"']);
    let none = Seq::<char>::empty();
    assert("\\\\"@ =~= seq!['\\', '\\']);
    assert("\\\""@ =~= seq!['\\', '"']);
    lemma_one_char(b, "\\\\"@, '"', none);
    lemma_one_char(b, "\\\\"@, '\\', none);
    lemma_one_char(b, "\\\\"@, c, none);
    lemma_one_char(b, "\\\\"@, '\\', seq!['"']);
    lemma_one_char(q, "\\\""@, '"', none);
    lemma_one_char(q, "\\\""@, c, none);
    lemma_one_char(q, "\\\""@, '\\', none);
    lemma_one_char(q, "\\\""@, '\\', seq!['\\']);
    lemma_one_char(q, "\\\""@, '\\', seq!['"']);
    lemma_one_char(q, "\\\""@, '\\', seq!['\\', '"']);
    assert(seq!['\\'] + none =~= seq!['\\']);
    assert(seq!['"'] + none =~= seq!['"']);
    assert(seq![c] + none =~= seq![c]);
    assert(replaced(none, b, "\\\\"@) =~= none);
    assert(replaced(none, q, "\\\""@) =~= none);
    assert(seq!['\\', '\\'] + none =~= seq!['\\', '\\']);
    assert(seq!['\\', '"'] + none =~= seq!['\\', '"']);
    assert(seq!['\\'] + seq!['\\'] =~= seq!['\\', '\\']);
    assert(seq!['\\'] + seq!['"'] =~= seq!['\\', '"']);
    assert(seq!['\\', '\\'] + seq!['"'] =~= seq!['\\', '\\', '"']);
    assert(seq!['\\'] + seq!['\\', '"'] =~= seq!['\\', '\\', '"']);
    assert(seq!['\\'] + seq!['\\', '\\', '"'] =~= seq!['\\', '\\', '\\', '"']);
}

proof fn lemma_one_char(p: Seq<char>, t: Seq<char>, c: char, rest: Seq<char>)
    requires
        p.len() == 1,
    ensures
        replaced(seq![c] + rest, p, t) == (if c == p[0] {
            t
        } else {
            seq![c]
        }) + replaced(rest, p, t),
        replaced(Seq::empty(), p, t).len() == 0,
{
    occurrences_are_replaced(p, t, c, rest);
    if c == p[0] {
        assert(seq![c] =~= p);
    } else {
        let s = seq![c] + rest;
        assert(s.take(1)[0] == c);
    }
}

/// A part is announced by the boundary and named in quotes; a file's part says its name and
/// that it is a file.
pub proof fn parts_are_announced(
    boundary: &str,
    name: &str,
    file: &str,
    field: String,
    part: String,
    end: String,
    kind: String,
)
    requires
        call_ensures(part_header, (boundary, name, None), field),
        call_ensures(part_header, (boundary, name, Some(file)), part),
        call_ensures(closing_boundary, (boundary,), end),
        call_ensures(multipart_content_type, (boundary,), kind),
    ensures
        field@ == "--"@ + boundary@ + "\r\nContent-Disposition: form-data; name=\""@ + escaped(
            name@,
        ) + "\""@ + "\r\n\r\n"@,
        part@ == "--"@ + boundary@ + "\r\nContent-Disposition: form-data; name=\""@ + escaped(name@)
            + "\""@ + "; filename=\""@ + escaped(file@) + "\""@
            + "\r\nContent-Type: application/octet-stream"@ + "\r\n\r\n"@,
        end@ == "--"@ + boundary@ + "--\r\n"@,
        kind@ == "multipart/form-data; boundary="@ + boundary@,
{
}

/// A problem is reported under its own status where it is one, and as an error of the
/// server otherwise.
pub proof fn problems_keep_their_status(status: u16, detail: &str, r: Reply)
    requires
        call_ensures(native_upload_problem, (status, detail), r),
    ensures
        100 <= status <= 999 ==> r.status == status,
        status < 100 || status > 999 ==> r.status == 500,
        r.message@ == detail@,
{
}

// ---------------------------------------------------------------------------
// Crates

/// A template without markers gets the crate, the version and `download` behind it.
pub proof fn plain_templates_are_continued(
    dl: Seq<char>,
    name: Seq<char>,
    version: Seq<char>,
    checksum: Option<Seq<char>>,
)
    requires
        !dl.contains('{'),
        dl.len() > 0,
        dl.last() != '/',
    ensures
        expanded(dl, name, version, checksum) == Some(
            dl + "/"@ + name + "/"@ + version + "/download"@,
        ),
        expanded(dl + seq!['/'], name, version, checksum) == Some(
            dl + "/"@ + name + "/"@ + version + "/download"@,
        ),
{
    let e = dl + seq!['/'];
    assert(!e.contains('{')) by {
        assert forall|i: int| 0 <= i < e.len() implies e[i] != '{' by {
            if i < dl.len() {
                assert(dl.contains(dl[i]));
            }
        }
    }
    lemma_unmarked(dl);
    lemma_unmarked(e);
    assert(e.drop_last() =~= dl);
}

proof fn lemma_no_brace(s: Seq<char>, p: Seq<char>)
    requires
        !s.contains('{'),
        p.len() > 0,
        p[0] == '{',
    ensures
        !contains_seq(s, p),
{
    if contains_seq(s, p) {
        let i = choose|i: int| occurs_at(s, p, i);
        assert(s.subrange(i, i + p.len())[0] == s[i]);
        assert(s.contains(s[i]));
    }
}

/// `m` is a marker: it starts with a brace and holds no other.
pub open spec fn is_marker(m: Seq<char>) -> bool {
    m.len() > 1 && m[0] == '{' && !m.skip(1).contains('{')
}

proof fn lemma_markers()
    ensures
        is_marker("{crate}"@),
        "{crate}"@[1] == 'c',
        is_marker("{version}"@),
        "{version}"@[1] == 'v',
        is_marker("{prefix}"@),
        "{prefix}"@[1] == 'p',
        is_marker("{lowerprefix}"@),
        "{lowerprefix}"@[1] == 'l',
        is_marker("{sha256-checksum}"@),
        "{sha256-checksum}"@[1] == 's',
{
    reveal_strlit("{crate}");
    reveal_strlit("{version}");
    reveal_strlit("{prefix}");
    reveal_strlit("{lowerprefix}");
    reveal_strlit("{sha256-checksum}");
    assert("{crate}"@.skip(1) =~= seq!['c', 'r', 'a', 't', 'e', '}']);
    assert(!seq!['c', 'r', 'a', 't', 'e', '}'].contains('{'));
    assert("{version}"@.skip(1) =~= seq!['v', 'e', 'r', 's', 'i', 'o', 'n', '}']);
    assert(!seq!['v', 'e', 'r', 's', 'i', 'o', 'n', '}'].contains('{'));
    assert("{prefix}"@.skip(1) =~= seq!['p', 'r', 'e', 'f', 'i', 'x', '}']);
    assert(!seq!['p', 'r', 'e', 'f', 'i', 'x', '}'].contains('{'));
    assert("{lowerprefix}"@.skip(1) =~= seq!['l', 'o', 'w', 'e', 'r', 'p', 'r', 'e', 'f', 'i', 'x', '}']);
    assert(!seq!['l', 'o', 'w', 'e', 'r', 'p', 'r', 'e', 'f', 'i', 'x', '}'].contains('{'));
    assert("{sha256-checksum}"@.skip(1) =~= seq!['s', 'h', 'a', '2', '5', '6', '-', 'c', 'h', 'e', 'c', 'k', 's', 'u', 'm', '}']);
    assert(!seq!['s', 'h', 'a', '2', '5', '6', '-', 'c', 'h', 'e', 'c', 'k', 's', 'u', 'm', '}'].contains('{'));
}

proof fn lemma_unmarked(s: Seq<char>)
    requires
        !s.contains('{'),
    ensures
        !has_marker(s),
{
    lemma_markers();
    lemma_no_brace(s, "{crate}"@);
    lemma_no_brace(s, "{version}"@);
    lemma_no_brace(s, "{prefix}"@);
    lemma_no_brace(s, "{lowerprefix}"@);
    lemma_no_brace(s, "{sha256-checksum}"@);
}

proof fn lemma_marker_replaced(a: Seq<char>, m: Seq<char>, b: Seq<char>, t: Seq<char>)
    requires
        !a.contains('{'),
        !b.contains('{'),
        is_marker(m),
    ensures
        replaced(a + m + b, m, t) == a + t + b,
    decreases a.len(),
{
    let s = a + m + b;
    if a.len() == 0 {
        assert(s =~= m + b);
        occurrences_are_replaced(m, t, 'x', b);
        lemma_no_brace(b, m);
        other_texts_stay(b, m, t);
        assert(t + b =~= a + t + b);
    } else {
        let r = a.skip(1);
        assert forall|i: int| 0 <= i < r.len() implies r[i] != '{' by {
            assert(a.contains(a[i + 1]));
        }
        lemma_marker_replaced(r, m, b, t);
        assert(a.contains(a[0]));
        assert(s =~= seq![a[0]] + (r + m + b));
        assert(s.take(m.len() as int)[0] == a[0]);
        occurrences_are_replaced(m, t, a[0], r + m + b);
        assert(seq![a[0]] + (r + t + b) =~= a + t + b);
    }
}

proof fn lemma_other_marker(a: Seq<char>, m: Seq<char>, b: Seq<char>, p: Seq<char>)
    requires
        !a.contains('{'),
        !b.contains('{'),
        is_marker(m),
        is_marker(p),
        m[1] != p[1],
    ensures
        !contains_seq(a + m + b, p),
{
    let s = a + m + b;
    if contains_seq(s, p) {
        let i = choose|i: int| occurs_at(s, p, i);
        let u = s.subrange(i, i + p.len());
        assert(u[0] == s[i] && u[1] == s[i + 1]);
        if i < a.len() {
            assert(a.contains(a[i]));
        } else if i == a.len() {
            assert(s[i + 1] == m[1]);
        } else if i < a.len() + m.len() {
            assert(s[i] == m.skip(1)[i - a.len() - 1]);
            assert(m.skip(1).contains(s[i]));
        } else {
            assert(s[i] == b[i - a.len() - m.len()]);
            assert(b.contains(s[i]));
        }
    }
}

/// A marker is substituted where it stands: by the crate, the version, the directory, the
/// directory in small letters, or the checksum, without which there is no URL.
pub proof fn markers_are_substituted(
    a: Seq<char>,
    b: Seq<char>,
    name: Seq<char>,
    version: Seq<char>,
    sum: Seq<char>,
)
    requires
        !a.contains('{'),
        !b.contains('{'),
        !name.contains('{'),
        !version.contains('{'),
        !prefix_of(name).contains('{'),
        !prefix_of(lowercase(name)).contains('{'),
    ensures
        expanded(a + "{crate}"@ + b, name, version, Some(sum)) == Some(a + name + b),
        expanded(a + "{version}"@ + b, name, version, Some(sum)) == Some(a + version + b),
        expanded(a + "{prefix}"@ + b, name, version, Some(sum)) == Some(a + prefix_of(name) + b),
        expanded(a + "{lowerprefix}"@ + b, name, version, Some(sum)) == Some(
            a + prefix_of(lowercase(name)) + b,
        ),
        expanded(a + "{sha256-checksum}"@ + b, name, version, Some(sum)) == Some(a + sum + b),
        expanded(a + "{sha256-checksum}"@ + b, name, version, None) is None,
        expanded(a + "{crate}"@ + b, name, version, None) == Some(a + name + b),
{
    lemma_markers();
    let (c, v, p, l, k) = (
        "{crate}"@,
        "{version}"@,
        "{prefix}"@,
        "{lowerprefix}"@,
        "{sha256-checksum}"@,
    );
    let own = prefix_of(name);
    let low = prefix_of(lowercase(name));
    lemma_present(a, c, b);
    lemma_present(a, v, b);
    lemma_present(a, p, b);
    lemma_present(a, l, b);
    lemma_present(a, k, b);
    // The crate.
    lemma_marker_replaced(a, c, b, name);
    lemma_without_brace(a, name, b);
    lemma_plain(a + name + b, name, version);
    // The version.
    lemma_other_marker(a, v, b, c);
    other_texts_stay(a + v + b, c, name);
    lemma_marker_replaced(a, v, b, version);
    lemma_without_brace(a, version, b);
    lemma_plain(a + version + b, name, version);
    // The directory.
    lemma_other_marker(a, p, b, c);
    other_texts_stay(a + p + b, c, name);
    lemma_other_marker(a, p, b, v);
    other_texts_stay(a + p + b, v, version);
    lemma_marker_replaced(a, p, b, own);
    lemma_without_brace(a, own, b);
    lemma_plain(a + own + b, name, version);
    // The directory in small letters.
    lemma_other_marker(a, l, b, c);
    other_texts_stay(a + l + b, c, name);
    lemma_other_marker(a, l, b, v);
    other_texts_stay(a + l + b, v, version);
    lemma_other_marker(a, l, b, p);
    other_texts_stay(a + l + b, p, own);
    lemma_marker_replaced(a, l, b, low);
    lemma_without_brace(a, low, b);
    lemma_plain(a + low + b, name, version);
    // The checksum.
    lemma_other_marker(a, k, b, c);
    other_texts_stay(a + k + b, c, name);
    lemma_other_marker(a, k, b, v);
    other_texts_stay(a + k + b, v, version);
    lemma_other_marker(a, k, b, p);
    other_texts_stay(a + k + b, p, own);
    lemma_other_marker(a, k, b, l);
    other_texts_stay(a + k + b, l, low);
    lemma_marker_replaced(a, k, b, sum);
}

proof fn lemma_present(a: Seq<char>, m: Seq<char>, b: Seq<char>)
    ensures
        contains_seq(a + m + b, m),
{
    let n = a.len() as int;
    assert((a + m + b).subrange(n, n + m.len()) =~= m);
    assert(occurs_at(a + m + b, m, n));
}

proof fn lemma_without_brace(a: Seq<char>, x: Seq<char>, b: Seq<char>)
    requires
        !a.contains('{'),
        !x.contains('{'),
        !b.contains('{'),
    ensures
        !(a + x + b).contains('{'),
{
    let s = a + x + b;
    assert forall|i: int| 0 <= i < s.len() implies s[i] != '{' by {
        if i < a.len() {
            assert(a.contains(a[i]));
        } else if i < a.len() + x.len() {
            assert(x.contains(x[i - a.len()]));
        } else {
            assert(b.contains(b[i - a.len() - x.len()]));
        }
    }
}

/// A text without braces is what substituting leaves of it.
proof fn lemma_plain(s: Seq<char>, name: Seq<char>, version: Seq<char>)
    requires
        !s.contains('{'),
    ensures
        replaced(s, "{version}"@, version) == s,
        replaced(s, "{prefix}"@, prefix_of(name)) == s,
        replaced(s, "{lowerprefix}"@, prefix_of(lowercase(name))) == s,
        !contains_seq(s, "{sha256-checksum}"@),
{
    lemma_markers();
    lemma_no_brace(s, "{version}"@);
    lemma_no_brace(s, "{prefix}"@);
    lemma_no_brace(s, "{lowerprefix}"@);
    lemma_no_brace(s, "{sha256-checksum}"@);
    other_texts_stay(s, "{version}"@, version);
    other_texts_stay(s, "{prefix}"@, prefix_of(name));
    other_texts_stay(s, "{lowerprefix}"@, prefix_of(lowercase(name)));
}

/// Without a template the crate is fetched from the index host, and so it is where its
/// template needs a checksum that is not known.
pub proof fn crates_have_a_place(
    base: &str,
    path: &str,
    name: &str,
    version: &str,
    dl: Option<&str>,
    checksum: Option<&str>,
    r: Option<String>,
)
    requires
        call_ensures(cargo_upstream_download_url, (base, path, dl, name, version, checksum), r),
    ensures
        dl is None ==> r is Some && r->0@ == joined(base@, path@),
        dl is Some && !dl->0@.contains('{') ==> r is Some && r->0@ == trim_end(dl->0@, '/') + "/"@
            + name@ + "/"@ + version@ + "/download"@,
        dl is Some && r is Some && expanded(
            dl->0@,
            name@,
            version@,
            match checksum {
                Some(c) => Some(c@),
                None => None,
            },
        ) is None ==> r->0@ == joined(base@, path@),
{
    if dl is Some && !dl->0@.contains('{') {
        lemma_unmarked(dl->0@);
    }
}

/// The checksum of a version is that of the first line that names it; lines of other
/// versions and lines that cannot be read are passed over.
pub proof fn checksums_are_of_their_version(
    line: Seq<char>,
    rest: Seq<Seq<char>>,
    version: Seq<char>,
    named: Seq<char>,
    sum: Seq<char>,
)
    ensures
        checksum_in(Seq::empty(), version) is None,
        index_line(line) == Some((version, sum)) ==> checksum_in(seq![line] + rest, version)
            == Some(sum),
        index_line(line) == Some((named, sum)) && named != version ==> checksum_in(
            seq![line] + rest,
            version,
        ) == checksum_in(rest, version),
        index_line(line) is None ==> checksum_in(seq![line] + rest, version) == checksum_in(
            rest,
            version,
        ),
{
    let all = seq![line] + rest;
    assert(all[0] == line);
    assert(all.skip(1) =~= rest);
}

/// A template is good for a quarter of an hour, and that there is none for a minute.
pub proof fn templates_are_reused(e: (i128, Option<String>), now: int)
    ensures
        e.1 is Some ==> (entry_good(e, now) <==> now - e.0 < 15 * 60 * 1_000_000_000),
        e.1 is None ==> (entry_good(e, now) <==> now - e.0 < 60 * 1_000_000_000),
{
}

/// A document of more than a mebibyte, announced or read, is not taken.
pub proof fn long_documents_are_not_read(announced: Option<u64>, read: u64, r: bool)
    requires
        call_ensures(within_bound, (announced, read), r),
    ensures
        read > 1024 * 1024 ==> !r,
        announced is Some && announced->0 > 1024 * 1024 ==> !r,
        read <= 1024 * 1024 && announced is None ==> r,
        read <= 1024 * 1024 && announced is Some && announced->0 <= 1024 * 1024 ==> r,
{
}

// ---------------------------------------------------------------------------
// Python

/// In a name each run of hyphens, underscores and dots counts as one hyphen, and every
/// other character as itself.
pub proof fn separators_count_as_one_hyphen(a: Seq<char>, c: char, d: char)
    requires
        c == '-' || c == '_' || c == '.',
    ensures
        d == '-' || d == '_' || d == '.' ==> folded(a.push(c).push(d)) == folded(a.push(c)),
        d != '-' && d != '_' && d != '.' ==> folded(a.push(d)) == folded(a).push(d),
        d != '-' && d != '_' && d != '.' ==> folded(a.push(d).push(c)) == folded(a).push(d).push(
            '-',
        ),
        folded(seq![c]) == seq!['-'],
        folded(Seq::empty()).len() == 0,
{
    assert(a.push(c).push(d).drop_last() =~= a.push(c));
    assert(a.push(d).drop_last() =~= a);
    assert(a.push(d).push(c).drop_last() =~= a.push(d));
    assert(seq![c].drop_last() =~= Seq::empty());
    reveal_with_fuel(folded, 3);
    assert(folded(seq![c]) =~= seq!['-']);
}

/// A wheel names its package before its first hyphen, and any other distribution before its
/// last; metadata is named after its distribution.
pub proof fn distributions_name_their_package(
    name: Seq<char>,
    rest: Seq<char>,
    any: Seq<char>,
    version: Seq<char>,
)
    requires
        !name.contains('-'),
        !version.contains('-'),
        !ends(any + seq!['-'] + version, ".whl"@),
        !ends(any + seq!['-'] + version, ".metadata"@),
    ensures
        distribution_name(name + "-"@ + rest + ".whl"@) == Some(name),
        distribution_name(name + "-"@ + rest + ".whl"@ + ".metadata"@) == Some(name),
        distribution_name(any + seq!['-'] + version) == Some(any),
        distribution_name(any + seq!['-'] + version + ".metadata"@) == Some(any),
        !version.contains('-') && !ends(version, ".whl"@) && !ends(version, ".metadata"@)
            ==> distribution_name(version) is None,
{
    reveal_strlit("-");
    reveal_strlit(".whl");
    reveal_strlit(".metadata");
    assert("-"@ =~= seq!['-']);
    let w = name + "-"@ + rest + ".whl"@;
    lemma_ends_with_tail(name + "-"@ + rest, ".whl"@);
    assert(".whl"@.last() == 'l' && ".metadata"@.last() == 'a');
    if ends(w, ".metadata"@) {
        lemma_ends_last(w, ".metadata"@);
        lemma_ends_last(w, ".whl"@);
    }
    lemma_cut_behind(name, "-"@, rest + ".whl"@, 0);
    assert(w =~= name + "-"@ + (rest + ".whl"@));
    let wm = w + ".metadata"@;
    lemma_ends_with_tail(w, ".metadata"@);
    assert(wm.take(wm.len() - ".metadata"@.len()) =~= w);
    let s = any + seq!['-'] + version;
    the_last_separator_cuts(any, '-', version);
    let sm = s + ".metadata"@;
    lemma_ends_with_tail(s, ".metadata"@);
    assert(sm.take(sm.len() - ".metadata"@.len()) =~= s);
}

// ---------------------------------------------------------------------------
// npm requests

/// A path that climbs, in its decoded form too, is refused.
pub proof fn climbing_paths_are_refused(raw: &str, r: Result<String, Reply>)
    requires
        call_ensures(npm_request_path, (raw,), r),
    ensures
        r is Err <==> contains_seq(decoded_path(raw@), ".."@),
        r is Err ==> r->Err_0.status == 400,
        r is Ok ==> r->Ok_0@ == decoded_path(raw@),
{
    if r is Err {
        assert(r->Err_0@.status == r->Err_0.status);
    }
}

/// A version was released when its packument says, where it says so.
pub proof fn release_times_are_the_packuments(times: Members, version: Seq<char>)
    ensures
        version.len() > 0 && member_map(times).contains_key(version) ==> published_in(
            Some(times),
            version,
        ) == rfc3339_stamp(member_map(times)[version]),
        !member_map(times).contains_key(version) ==> published_in(Some(times), version) is None,
        published_in(None, version) is None,
        published_in(Some(times), Seq::empty()) is None,
{
}

/// What could not be stored is said.
pub proof fn failed_publishes_are_answered(tarball: Reply, packument: Reply)
    requires
        call_ensures(publish_store_failed, (PublishPart::Tarball,), tarball),
        call_ensures(publish_store_failed, (PublishPart::Packument,), packument),
    ensures
        tarball@.status == 500 && tarball@.message == "store tarball failed"@,
        packument@.status == 500 && packument@.message == "store packument failed"@,
{
}

/// The template of a registry is the text under `dl` of its configuration; an empty one,
/// one that is no text and none at all are no template.
pub proof fn templates_are_read(body: &[u8], r: Option<String>)
    requires
        call_ensures(read_template, (body,), r),
        json_object(body@) is Some,
        !named_twice(body@, "dl"@),
    ensures
        ({
            let m = member_map(json_object(body@)->0);
            let dl = json_string(encode_utf8(m["dl"@]));
            &&& !m.contains_key("dl"@) || dl is None ==> r is None
            &&& m.contains_key("dl"@) && dl is Some && dl->0.len() == 0 ==> r is None
            &&& m.contains_key("dl"@) && dl is Some && dl->0.len() > 0 ==> r is Some && r->0@
                == dl->0
        }),
{
    records_hold_their_fields(body@, "dl"@, Seq::empty());
}

/// An attachment whose data is no base64 ends the publish: those before it are stored, and
/// none behind it. What is no attachment at all is passed over.
pub proof fn unreadable_attachments_end_a_publish(
    path: Seq<char>,
    atts: Members,
    i: int,
    other: (Seq<char>, Seq<char>),
)
    requires
        0 <= i < atts.len(),
        forall|j: int|
            0 <= j < i ==> json_values(encode_utf8((#[trigger] atts[j]).1)) is Some
                && base64_bytes(
                string_member(json_values(encode_utf8(atts[j].1))->0, "data"@),
            ) is Some,
        json_values(encode_utf8(atts[i].1)) is Some,
        base64_bytes(string_member(json_values(encode_utf8(atts[i].1))->0, "data"@)) is None,
        json_values(encode_utf8(other.1)) is None,
    ensures
        !attachment_tarballs(path, atts).1,
        attachment_tarballs(path, atts).0.len() == i,
        attachment_tarballs(path, atts.take(i).push(other)) == attachment_tarballs(
            path,
            atts.take(i),
        ),
    decreases atts.len(),
{
    let front = atts.drop_last();
    assert(atts.take(i).push(other).drop_last() =~= atts.take(i));
    assert forall|j: int| 0 <= j < i implies json_values(
        encode_utf8((#[trigger] front[j]).1),
    ) is Some && base64_bytes(
        string_member(json_values(encode_utf8(front[j].1))->0, "data"@),
    ) is Some by {
        assert(front[j] == atts[j]);
    }
    if i < front.len() {
        assert(front[i] == atts[i]);
        assert(front.take(i) =~= atts.take(i));
        unreadable_attachments_end_a_publish(path, front, i, other);
    } else {
        assert(atts.last() == atts[i]);
        if front.len() > 0 {
            attachments_are_stored_under_the_package(path, front, 0);
        }
    }
}

} // verus!
