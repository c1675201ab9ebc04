//! What holds of documents as they are read and merged: tags and references in pages,
//! records, and the merges as they are called.

use vstd::prelude::*;
use vstd::utf8::encode_utf8;

use crate::bridge::{json_array, json_object, json_string, json_string_list, lossy_text};
use crate::json::{member_map, object_text};
use crate::record::record;
use crate::repo::gosemver::is_version;
use crate::repo::group_metadata::{bodies, is_document, merge_go_list_group};
use crate::repo::merge::{
    all_entries, all_lines, all_objects, anchor_key, ascending_tags, entry_version, first_anchors,
    first_entries, is_latest, maven_agree, maven_merged, merge_cargo_group, merge_go_latest_group,
    merge_maven_group, merge_oci_tags_group, merge_pypi_group, pypi_html_text, pypi_json_map,
    tag_depth, tags_agree, tags_document, tags_name, tags_text, unescaped, without_tags, GoInfo, MavenMetadata,
};
use crate::repo::npm::members_of;
use crate::repo::span::named_twice;
use crate::text::{contains_seq, join, occurs_at, replaced, split, trimmed};
use crate::text_laws::{occurrences_are_replaced, other_texts_stay};

verus! {

// ---------------------------------------------------------------------------
// Pages

/// What stands outside tags stays, and a tag goes whole.
pub proof fn tags_are_stripped(a: Seq<char>, t: Seq<char>)
    requires
        !t.contains('<'),
        !t.contains('>'),
        tag_depth(a) == 0,
    ensures
        without_tags(Seq::empty()).len() == 0,
        without_tags(a + t) == without_tags(a) + t,
        tag_depth(a + t) == 0,
        without_tags(a + seq!['<'] + t + seq!['>']) == without_tags(a),
        tag_depth(a + seq!['<'] + t + seq!['>']) == 0,
{
    lemma_text_run(a, t);
    let o = a + seq!['<'];
    assert(o.drop_last() =~= a);
    assert(o.last() == '<');
    lemma_tag_run(o, t);
    let w = o + t + seq!['>'];
    assert(w.drop_last() =~= o + t);
    assert(w.last() == '>');
}

proof fn lemma_text_run(a: Seq<char>, t: Seq<char>)
    requires
        !t.contains('<'),
        !t.contains('>'),
        tag_depth(a) == 0,
    ensures
        without_tags(a + t) == without_tags(a) + t,
        tag_depth(a + t) == 0,
    decreases t.len(),
{
    if t.len() > 0 {
        let u = t.drop_last();
        assert(t.contains(t.last()));
        assert forall|i: int| 0 <= i < u.len() implies u[i] != '<' && u[i] != '>' by {
            assert(t.contains(t[i]));
        }
        lemma_text_run(a, u);
        assert((a + t).drop_last() =~= a + u);
        assert((a + t).last() == t.last());
        assert((without_tags(a) + u).push(t.last()) =~= without_tags(a) + t);
    } else {
        assert(a + t =~= a);
        assert(without_tags(a) + t =~= without_tags(a));
    }
}

proof fn lemma_tag_run(o: Seq<char>, t: Seq<char>)
    requires
        !t.contains('<'),
        !t.contains('>'),
        tag_depth(o) == 1,
    ensures
        without_tags(o + t) == without_tags(o),
        tag_depth(o + t) == 1,
    decreases t.len(),
{
    if t.len() > 0 {
        let u = t.drop_last();
        assert(t.contains(t.last()));
        assert forall|i: int| 0 <= i < u.len() implies u[i] != '<' && u[i] != '>' by {
            assert(t.contains(t[i]));
        }
        lemma_tag_run(o, u);
        assert((o + t).drop_last() =~= o + u);
        assert((o + t).last() == t.last());
    } else {
        assert(o + t =~= o);
    }
}

/// `m` is a reference: it starts with an ampersand and holds no other.
pub open spec fn is_reference(m: Seq<char>) -> bool {
    m.len() > 0 && m[0] == '&' && !m.skip(1).contains('&')
}

proof fn lemma_plain(s: Seq<char>, p: Seq<char>)
    requires
        !s.contains('&'),
        is_reference(p),
    ensures
        !contains_seq(s, p),
{
    if contains_seq(s, p) {
        let i = choose|i: int| occurs_at(s, p, i);
        assert(s.subrange(i, i + p.len())[0] == s[i]);
        assert(s.contains(s[i]));
    }
}

proof fn lemma_reference(a: Seq<char>, m: Seq<char>, b: Seq<char>, t: Seq<char>)
    requires
        !a.contains('&'),
        !b.contains('&'),
        is_reference(m),
    ensures
        replaced(a + m + b, m, t) == a + t + b,
    decreases a.len(),
{
    let s = a + m + b;
    if a.len() == 0 {
        assert(s =~= m + b);
        occurrences_are_replaced(m, t, 'x', b);
        lemma_plain(b, m);
        other_texts_stay(b, m, t);
        assert(t + b =~= a + t + b);
    } else {
        let r = a.skip(1);
        assert forall|i: int| 0 <= i < r.len() implies r[i] != '&' by {
            assert(a.contains(a[i + 1]));
        }
        lemma_reference(r, m, b, t);
        assert(a.contains(a[0]));
        assert(s =~= seq![a[0]] + (r + m + b));
        assert(s.take(m.len() as int)[0] == a[0]);
        occurrences_are_replaced(m, t, a[0], r + m + b);
        assert(seq![a[0]] + (r + t + b) =~= a + t + b);
    }
}

proof fn lemma_other(a: Seq<char>, m: Seq<char>, b: Seq<char>, p: Seq<char>, t: Seq<char>, k: int)
    requires
        !a.contains('&'),
        !b.contains('&'),
        is_reference(m),
        is_reference(p),
        0 <= k < m.len(),
        k < p.len(),
        m[k] != p[k],
    ensures
        replaced(a + m + b, p, t) == a + m + b,
{
    let s = a + m + b;
    if contains_seq(s, p) {
        let i = choose|i: int| occurs_at(s, p, i);
        let u = s.subrange(i, i + p.len());
        assert(u[0] == s[i] && u[k] == s[i + k]);
        if i < a.len() {
            assert(a.contains(a[i]));
        } else if i == a.len() {
            assert(s[i + k] == m[k]);
        } else if i < a.len() + m.len() {
            assert(s[i] == m.skip(1)[i - a.len() - 1]);
            assert(m.skip(1).contains(s[i]));
        } else {
            assert(s[i] == b[i - a.len() - m.len()]);
            assert(b.contains(s[i]));
        }
    }
    other_texts_stay(s, p, t);
}

proof fn lemma_done(s: Seq<char>, p: Seq<char>, t: Seq<char>)
    requires
        !s.contains('&'),
        is_reference(p),
    ensures
        replaced(s, p, t) == s,
{
    lemma_plain(s, p);
    other_texts_stay(s, p, t);
}

proof fn lemma_references()
    ensures
        "&lt;"@ == seq!['&', 'l', 't', ';'],
        "&gt;"@ == seq!['&', 'g', 't', ';'],
        "&quot;"@ == seq!['&', 'q', 'u', 'o', 't', ';'],
        "&#34;"@ == seq!['&', '#', '3', '4', ';'],
        "&apos;"@ == seq!['&', 'a', 'p', 'o', 's', ';'],
        "&#39;"@ == seq!['&', '#', '3', '9', ';'],
        "&amp;"@ == seq!['&', 'a', 'm', 'p', ';'],
        is_reference("&lt;"@),
        is_reference("&gt;"@),
        is_reference("&quot;"@),
        is_reference("&#34;"@),
        is_reference("&apos;"@),
        is_reference("&#39;"@),
        is_reference("&amp;"@),
{
    reveal_strlit("&lt;");
    reveal_strlit("&gt;");
    reveal_strlit("&quot;");
    reveal_strlit("&#34;");
    reveal_strlit("&apos;");
    reveal_strlit("&#39;");
    reveal_strlit("&amp;");
    assert("&lt;"@ =~= seq!['&', 'l', 't', ';']);
    assert("&gt;"@ =~= seq!['&', 'g', 't', ';']);
    assert("&quot;"@ =~= seq!['&', 'q', 'u', 'o', 't', ';']);
    assert("&#34;"@ =~= seq!['&', '#', '3', '4', ';']);
    assert("&apos;"@ =~= seq!['&', 'a', 'p', 'o', 's', ';']);
    assert("&#39;"@ =~= seq!['&', '#', '3', '9', ';']);
    assert("&amp;"@ =~= seq!['&', 'a', 'm', 'p', ';']);
    assert("&lt;"@.skip(1) =~= seq!['l', 't', ';']);
    assert("&gt;"@.skip(1) =~= seq!['g', 't', ';']);
    assert("&quot;"@.skip(1) =~= seq!['q', 'u', 'o', 't', ';']);
    assert("&#34;"@.skip(1) =~= seq!['#', '3', '4', ';']);
    assert("&apos;"@.skip(1) =~= seq!['a', 'p', 'o', 's', ';']);
    assert("&#39;"@.skip(1) =~= seq!['#', '3', '9', ';']);
    assert("&amp;"@.skip(1) =~= seq!['a', 'm', 'p', ';']);
    assert(!seq!['l', 't', ';'].contains('&'));
    assert(!seq!['g', 't', ';'].contains('&'));
    assert(!seq!['q', 'u', 'o', 't', ';'].contains('&'));
    assert(!seq!['#', '3', '4', ';'].contains('&'));
    assert(!seq!['a', 'p', 'o', 's', ';'].contains('&'));
    assert(!seq!['#', '3', '9', ';'].contains('&'));
    assert(!seq!['a', 'm', 'p', ';'].contains('&'));
}

proof fn lemma_no_amp(a: Seq<char>, t: Seq<char>, b: Seq<char>)
    requires
        !a.contains('&'),
        !b.contains('&'),
        !t.contains('&'),
    ensures
        !(a + t + b).contains('&'),
{
    let s = a + t + b;
    assert forall|i: int| 0 <= i < s.len() implies s[i] != '&' by {
        if i < a.len() {
            assert(a.contains(a[i]));
        } else if i < a.len() + t.len() {
            assert(t.contains(t[i - a.len()]));
        } else {
            assert(b.contains(b[i - a.len() - t.len()]));
        }
    }
}

/// A reference to a markup character or a quote stands for that character; a text without
/// references stands for itself.
pub proof fn references_are_resolved(a: Seq<char>, b: Seq<char>)
    requires
        !a.contains('&'),
        !b.contains('&'),
    ensures
        unescaped(a) == a,
        unescaped(a + "&lt;"@ + b) == a + "<"@ + b,
        unescaped(a + "&gt;"@ + b) == a + ">"@ + b,
        unescaped(a + "&amp;"@ + b) == a + "&"@ + b,
{
    lemma_references();
    reveal_strlit("<");
    reveal_strlit(">");
    let (lt, gt, quot, n34, apos, n39, amp) = (
        "&lt;"@,
        "&gt;"@,
        "&quot;"@,
        "&#34;"@,
        "&apos;"@,
        "&#39;"@,
        "&amp;"@,
    );
    lemma_settled(a);
    // Less than.
    lemma_reference(a, lt, b, "<"@);
    assert(!"<"@.contains('&')) by {
        assert("<"@ =~= seq!['<']);
    }
    lemma_no_amp(a, "<"@, b);
    lemma_settled(a + "<"@ + b);
    // Greater than.
    lemma_other(a, gt, b, lt, "<"@, 1);
    lemma_reference(a, gt, b, ">"@);
    assert(!">"@.contains('&')) by {
        assert(">"@ =~= seq!['>']);
    }
    lemma_no_amp(a, ">"@, b);
    lemma_settled(a + ">"@ + b);
    // The ampersand.
    lemma_other(a, amp, b, lt, "<"@, 1);
    lemma_other(a, amp, b, gt, ">"@, 1);
    lemma_other(a, amp, b, quot, "\""@, 1);
    lemma_other(a, amp, b, n34, "\""@, 1);
    lemma_other(a, amp, b, apos, "'"@, 2);
    lemma_other(a, amp, b, n39, "'"@, 1);
    lemma_reference(a, amp, b, "&"@);
}

/// Both spellings of a quote stand for it.
pub proof fn quotes_are_resolved(a: Seq<char>, b: Seq<char>)
    requires
        !a.contains('&'),
        !b.contains('&'),
    ensures
        unescaped(a + "&quot;"@ + b) == a + "\""@ + b,
        unescaped(a + "&#34;"@ + b) == a + "\""@ + b,
        unescaped(a + "&apos;"@ + b) == a + "'"@ + b,
        unescaped(a + "&#39;"@ + b) == a + "'"@ + b,
{
    lemma_references();
    reveal_strlit("\"");
    reveal_strlit("'");
    let (lt, gt, quot, n34, apos, n39) = (
        "&lt;"@,
        "&gt;"@,
        "&quot;"@,
        "&#34;"@,
        "&apos;"@,
        "&#39;"@,
    );
    assert(!"\""@.contains('&')) by {
        assert("\""@ =~= seq!['"']);
    }
    assert(!"'"@.contains('&')) by {
        assert("'"@ =~= seq!['\'']);
    }
    lemma_no_amp(a, "\""@, b);
    lemma_no_amp(a, "'"@, b);
    lemma_settled(a + "\""@ + b);
    lemma_settled(a + "'"@ + b);
    lemma_other(a, quot, b, lt, "<"@, 1);
    lemma_other(a, quot, b, gt, ">"@, 1);
    lemma_reference(a, quot, b, "\""@);
    lemma_other(a, n34, b, lt, "<"@, 1);
    lemma_other(a, n34, b, gt, ">"@, 1);
    lemma_other(a, n34, b, quot, "\""@, 1);
    lemma_reference(a, n34, b, "\""@);
    lemma_other(a, apos, b, lt, "<"@, 1);
    lemma_other(a, apos, b, gt, ">"@, 1);
    lemma_other(a, apos, b, quot, "\""@, 1);
    lemma_other(a, apos, b, n34, "\""@, 1);
    lemma_reference(a, apos, b, "'"@);
    lemma_other(a, n39, b, lt, "<"@, 1);
    lemma_other(a, n39, b, gt, ">"@, 1);
    lemma_other(a, n39, b, quot, "\""@, 1);
    lemma_other(a, n39, b, n34, "\""@, 3);
    lemma_other(a, n39, b, apos, "'"@, 1);
    lemma_reference(a, n39, b, "'"@);
}

proof fn lemma_settled(s: Seq<char>)
    requires
        !s.contains('&'),
    ensures
        replaced(s, "&lt;"@, "<"@) == s,
        replaced(s, "&gt;"@, ">"@) == s,
        replaced(s, "&quot;"@, "\""@) == s,
        replaced(s, "&#34;"@, "\""@) == s,
        replaced(s, "&apos;"@, "'"@) == s,
        replaced(s, "&#39;"@, "'"@) == s,
        replaced(s, "&amp;"@, "&"@) == s,
        unescaped(s) == s,
{
    lemma_references();
    lemma_done(s, "&lt;"@, "<"@);
    lemma_done(s, "&gt;"@, ">"@);
    lemma_done(s, "&quot;"@, "\""@);
    lemma_done(s, "&#34;"@, "\""@);
    lemma_done(s, "&apos;"@, "'"@);
    lemma_done(s, "&#39;"@, "'"@);
    lemma_done(s, "&amp;"@, "&"@);
}

/// Two anchors offer the same file where they show the same text; an anchor that shows
/// nothing stands for itself.
pub proof fn anchors_are_known_by_their_text(attributes: Seq<char>, text: Seq<char>)
    requires
        !attributes.contains('<'),
        !attributes.contains('>'),
        !text.contains('<'),
        !text.contains('>'),
        !text.contains('&'),
    ensures
        ({
            let anchor = Seq::<char>::empty() + seq!['<'] + attributes + seq!['>'] + text + seq!['<']
                + seq!['/', 'a'] + seq!['>'];
            &&& trimmed(text).len() > 0 ==> anchor_key(anchor) == trimmed(text)
            &&& trimmed(text).len() == 0 ==> anchor_key(anchor) == anchor
        }),
{
    let none = Seq::<char>::empty();
    let open = none + seq!['<'] + attributes + seq!['>'];
    let shown = open + text;
    let end = seq!['/', 'a'];
    tags_are_stripped(none, attributes);
    tags_are_stripped(open, text);
    assert(without_tags(open) =~= none);
    assert(none + text =~= text);
    assert(!end.contains('<') && !end.contains('>'));
    tags_are_stripped(shown, end);
    lemma_settled(text);
}

/// A merged page is one of its anchors, a line each.
pub proof fn pages_are_written_whole(values: Seq<Seq<u8>>)
    ensures
        pypi_html_text(values) == "<!doctype html><html><body>\n"@ + join(
            first_anchors(crate::repo::merge::all_anchors(values)),
            "\n"@,
        ) + "\n</body></html>\n"@,
{
}

// ---------------------------------------------------------------------------
// Records

/// A field is what the object holds under its name, or what the array holds in its place;
/// an object that names it twice is no record, nor is an array with more than the fields.
pub proof fn records_hold_their_fields(body: Seq<u8>, name: Seq<char>, items: Seq<Seq<char>>)
    ensures
        json_object(body) is Some && !named_twice(body, name) ==> record(body, seq![name]) is Some,
        json_object(body) is Some && !named_twice(body, name) && member_map(
            json_object(body)->0,
        ).contains_key(name) ==> (record(body, seq![name])->0)[0] == Some(
            member_map(json_object(body)->0)[name],
        ),
        json_object(body) is Some && !named_twice(body, name) && !member_map(
            json_object(body)->0,
        ).contains_key(name) ==> (record(body, seq![name])->0)[0] is None,
        json_object(body) is Some && named_twice(body, name) ==> record(body, seq![name]) is None,
        json_object(body) is None && json_array(body) == Some(items) && items.len() == 1 ==> record(
            body,
            seq![name],
        ) is Some && (record(body, seq![name])->0)[0] == Some(items[0]),
        json_object(body) is None && json_array(body) == Some(items) && items.len() == 0 ==> record(
            body,
            seq![name],
        ) is Some && (record(body, seq![name])->0)[0] is None,
        json_object(body) is None && json_array(body) == Some(items) && items.len() > 1 ==> record(
            body,
            seq![name],
        ) is None,
        json_object(body) is None && json_array(body) is None ==> record(body, seq![name]) is None,
{
    let names = seq![name];
    assert(names[0] == name);
    if json_object(body) is Some && named_twice(body, name) {
        assert(named_twice(body, names[0]));
    }
    if json_object(body) is Some && !named_twice(body, name) {
        assert(!crate::record::repeats(body, names));
    }
}

// ---------------------------------------------------------------------------
// Merges

/// Maven documents of one artifact make one, others make none.
pub proof fn maven_documents_are_merged(docs: &Vec<MavenMetadata>, r: Option<MavenMetadata>)
    requires
        call_ensures(merge_maven_group, (docs,), r),
    ensures
        r is Some <==> maven_agree(docs@),
        r is Some ==> maven_merged(docs@, r->0),
{
}

/// The newest version is given where all are versions.
pub proof fn newest_versions_are_given(infos: &Vec<GoInfo>, r: Option<GoInfo>, i: int)
    requires
        call_ensures(merge_go_latest_group, (infos,), r),
    ensures
        r is Some ==> is_latest(infos@, r->0),
        0 <= i < infos@.len() && !is_version(infos@[i].version@) ==> r is None,
        (forall|j: int| 0 <= j < infos@.len() ==> is_version((#[trigger] infos@[j]).version@))
            ==> r is Some,
{
}

/// Index entries are merged where each line names a version, one line for each version.
pub proof fn index_entries_are_merged(
    values: &[&[u8]],
    r: Option<(Vec<u8>, String)>,
    i: int,
)
    requires
        call_ensures(merge_cargo_group, (values,), r),
    ensures
        ({
            let lines = all_lines(bodies(values@));
            &&& 0 <= i < lines.len() && (entry_version(lines[i]) is None || entry_version(
                lines[i],
            )->0.len() == 0) ==> r is None
            &&& (forall|j: int|
                0 <= j < lines.len() ==> entry_version(#[trigger] lines[j]) is Some
                    && entry_version(lines[j])->0.len() > 0) ==> is_document(
                r,
                join(first_entries(lines), "\n"@) + "\n"@,
                "text/plain; charset=utf-8"@,
            )
        }),
{
    let lines = all_lines(bodies(values@));
    if 0 <= i < lines.len() && (entry_version(lines[i]) is None || entry_version(lines[i])->0.len()
        == 0) {
        assert(!crate::repo::merge::is_entry(lines[i]));
        assert(!all_entries(lines));
    }
    if forall|j: int|
        0 <= j < lines.len() ==> entry_version(#[trigger] lines[j]) is Some && entry_version(
            lines[j],
        )->0.len() > 0 {
        assert(all_entries(lines));
    }
}

/// The lines of an index are read of every member, without the white space around them.
pub proof fn every_line_is_read(values: Seq<Seq<u8>>, v: Seq<u8>)
    ensures
        all_lines(Seq::empty()).len() == 0,
        all_lines(values.push(v)) == all_lines(values) + split(trimmed(lossy_text(v)), '\n'),
{
    assert(values.push(v).drop_last() =~= values);
}

/// A simple index is merged in the form that the first member answered in.
pub proof fn simple_indexes_are_merged(
    values: &[&[u8]],
    kind: &str,
    r: Option<(Vec<u8>, String)>,
)
    requires
        call_ensures(merge_pypi_group, (values, kind), r),
    ensures
        contains_seq(kind@, "json"@) ==> (r is Some <==> all_objects(bodies(values@))),
        contains_seq(kind@, "json"@) && r is Some ==> is_document(
            r,
            object_text(members_of(pypi_json_map(bodies(values@)))),
            "application/vnd.pypi.simple.v1+json"@,
        ),
        !contains_seq(kind@, "json"@) ==> is_document(
            r,
            pypi_html_text(bodies(values@)),
            "text/html; charset=utf-8"@,
        ),
{
}

/// Tag lists of one image make one, others make none.
pub proof fn tag_lists_are_merged(values: &[&[u8]], r: Option<(Vec<u8>, String)>)
    requires
        call_ensures(merge_oci_tags_group, (values,), r),
    ensures
        r is Some <==> tags_agree(bodies(values@)),
        r is Some ==> exists|tags: Seq<Seq<char>>|
            ascending_tags(bodies(values@), tags) && #[trigger] is_document(
                r,
                tags_text(tags_name(bodies(values@)), tags),
                "oci-tags"@,
            ),
{
}

/// Version lists are always merged, each version once, in order, a line each.
pub proof fn version_lists_are_merged(values: &[&[u8]], r: Option<(Vec<u8>, String)>)
    requires
        call_ensures(merge_go_list_group, (values,), r),
    ensures
        is_document(
            r,
            join(
                crate::repo::group_metadata::in_version_order(
                    crate::repo::group_metadata::listed_versions(
                        crate::repo::group_metadata::all_words(bodies(values@)),
                    ),
                ),
                "\n"@,
            ) + "\n"@,
            "text/plain; charset=utf-8"@,
        ),
{
}

/// A document is its bytes and its type.
pub proof fn documents_are_bytes_and_a_type(
    body: Vec<u8>,
    kind: String,
    text: Seq<char>,
    name: Seq<char>,
)
    ensures
        is_document(Some((body, kind)), text, name) <==> body@ == encode_utf8(text) && kind@ == name,
        !is_document(None, text, name),
{
}

/// A list of tags gives its name and its tags; what it leaves out is empty, and what is
/// neither text nor list makes it no list.
pub proof fn tag_lists_are_read(body: Seq<u8>)
    requires
        json_object(body) is Some,
        !named_twice(body, "name"@),
        !named_twice(body, "tags"@),
    ensures
        ({
            let m = member_map(json_object(body)->0);
            let name = json_string(encode_utf8(m["name"@]));
            let tags = json_string_list(encode_utf8(m["tags"@]));
            let r = tags_document(body);
            &&& m.contains_key("name"@) && name is None ==> r is None
            &&& m.contains_key("tags"@) && tags is None ==> r is None
            &&& m.contains_key("name"@) && name is Some && m.contains_key("tags"@) && tags is Some
                ==> r == Some((name->0, tags->0))
            &&& m.contains_key("name"@) && name is Some && !m.contains_key("tags"@) ==> r is Some
                && (r->0).0 == name->0 && (r->0).1.len() == 0
            &&& !m.contains_key("name"@) && m.contains_key("tags"@) && tags is Some ==> r is Some
                && (r->0).0.len() == 0 && (r->0).1 == tags->0
            &&& !m.contains_key("name"@) && !m.contains_key("tags"@) ==> r is Some
        }),
{
    let names = seq!["name"@, "tags"@];
    assert(names[0] == "name"@ && names[1] == "tags"@);
    assert(!crate::record::repeats(body, names)) by {
        assert forall|i: int| 0 <= i < names.len() implies !named_twice(
            body,
            #[trigger] names[i],
        ) by {
            assert(names[i] == "name"@ || names[i] == "tags"@);
        }
    }
}

/// A line of an index names its version; one that leaves it out names none.
pub proof fn index_lines_are_read(line: Seq<char>)
    requires
        json_object(encode_utf8(line)) is Some,
        !named_twice(encode_utf8(line), "vers"@),
    ensures
        ({
            let m = member_map(json_object(encode_utf8(line))->0);
            &&& m.contains_key("vers"@) ==> entry_version(line) == json_string(
                encode_utf8(m["vers"@]),
            )
            &&& !m.contains_key("vers"@) ==> entry_version(line) is Some && entry_version(
                line,
            )->0.len() == 0
        }),
{
    records_hold_their_fields(encode_utf8(line), "vers"@, Seq::empty());
}

} // verus!
