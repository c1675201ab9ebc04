//! What a merged index owes to each member of a group: every document is read, and what
//! it alone lists is found in the result.

use vstd::prelude::*;

use crate::bridge::{firsts, json_literal, json_values, lossy_text};
use crate::json::{
    add_members, json_items, json_values_at, member_map, member_text, named_in, object_text,
    Members,
};
use crate::repo::anchors::anchors_of;
use crate::repo::gosemver::version_order;
use crate::repo::group_metadata::all_words;
use crate::repo::merge::{
    all_anchors, all_items, all_lines, array_text, ascending_tags, first_document,
    first_member_has_priority, is_latest, literals, maven_agree, maven_identity, maven_lists,
    maven_merged, maven_stamp, npm_group_map, pypi_json_map, tags_agree, tags_document, tags_name,
    tags_text, union_at, unique_items, GoInfo, MavenMetadata,
};
use crate::text::{
    contains_seq, join, lemma_text_lt_irreflexive, lemma_text_lt_transitive, occurs_at, split,
    text_lt, texts, trimmed, words,
};

verus! {

// ---------------------------------------------------------------------------
// Texts of objects and lists

/// What is put together holds each of its parts.
proof fn lemma_join_holds(parts: Seq<Seq<char>>, sep: Seq<char>, i: int)
    requires
        0 <= i < parts.len(),
    ensures
        contains_seq(join(parts, sep), parts[i]),
    decreases parts.len(),
{
    let s = join(parts, sep);
    if parts.len() == 1 {
        assert(s.subrange(0, s.len() as int) =~= parts[0]);
        assert(occurs_at(s, parts[i], 0));
    } else {
        let front = join(parts.drop_last(), sep);
        if i == parts.len() - 1 {
            let at = front.len() + sep.len();
            assert(s.subrange(at as int, at as int + parts[i].len()) =~= parts[i]);
            assert(occurs_at(s, parts[i], at as int));
        } else {
            lemma_join_holds(parts.drop_last(), sep, i);
            let k = choose|k: int| occurs_at(front, parts[i], k);
            assert(s.subrange(k, k + parts[i].len()) =~= front.subrange(k, k + parts[i].len()));
            assert(occurs_at(s, parts[i], k));
        }
    }
}

/// Every member of an object is written, as its name, a colon and its value; the whole
/// stands between braces.
pub proof fn every_member_is_written(m: Members, i: int)
    requires
        0 <= i < m.len(),
    ensures
        contains_seq(object_text(m), json_literal(m[i].0) + seq![':'] + m[i].1),
        object_text(m)[0] == '{',
        object_text(m).last() == '}',
{
    let parts = m.map_values(|p: (Seq<char>, Seq<char>)| member_text(p));
    lemma_join_holds(parts, seq![','], i);
    let inner = join(parts, seq![',']);
    let k = choose|k: int| occurs_at(inner, parts[i], k);
    let s = object_text(m);
    assert(s.subrange(k + 1, k + 1 + parts[i].len()) =~= inner.subrange(k, k + parts[i].len()));
    assert(occurs_at(s, parts[i], k + 1));
}

/// An object is as long as its members and what stands between them: nothing else is
/// written.
pub proof fn nothing_else_is_written(m: Members, p: (Seq<char>, Seq<char>))
    ensures
        object_text(Seq::empty()) == seq!['{', '}'],
        object_text(seq![p]) == seq!['{'] + (json_literal(p.0) + seq![':'] + p.1) + seq!['}'],
        m.len() > 0 ==> object_text(m.push(p)).len() == object_text(m).len() + 1 + (json_literal(
            p.0,
        ) + seq![':'] + p.1).len(),
{
    let f = |x: (Seq<char>, Seq<char>)| member_text(x);
    let none = Seq::<(Seq<char>, Seq<char>)>::empty();
    assert(none.map_values(f) =~= Seq::<Seq<char>>::empty());
    assert(object_text(none) =~= seq!['{', '}']);
    assert(seq![p].map_values(f) =~= seq![member_text(p)]);
    assert(m.push(p).map_values(f).drop_last() =~= m.map_values(f));
    assert(m.push(p).map_values(f).last() == member_text(p));
}

/// Every item of an array is written, between brackets.
pub proof fn every_item_is_written(items: Seq<Seq<char>>, i: int)
    requires
        0 <= i < items.len(),
    ensures
        contains_seq(array_text(items), items[i]),
        array_text(items)[0] == '[',
        array_text(items).last() == ']',
{
    reveal_strlit("[");
    reveal_strlit("]");
    lemma_join_holds(items, ","@, i);
    let inner = join(items, ","@);
    let k = choose|k: int| occurs_at(inner, items[i], k);
    let s = array_text(items);
    assert(s.subrange(k + 1, k + 1 + items[i].len()) =~= inner.subrange(k, k + items[i].len()));
    assert(occurs_at(s, items[i], k + 1));
}

// ---------------------------------------------------------------------------
// npm

/// A field of the merged packument whose members are united over all documents.
pub open spec fn is_united(key: Seq<char>) -> bool {
    key == "versions"@ || key == "dist-tags"@ || key == "time"@
}

/// Under `versions`, `dist-tags` and `time` the merged packument holds what any document
/// names there: each name once, with the value of the first document that names it.
pub proof fn merged_fields_hold_what_any_member_names(
    values: Seq<Seq<u8>>,
    key: Seq<char>,
    i: int,
    p: int,
)
    requires
        is_united(key),
        0 <= i < values.len(),
        0 <= p < json_values_at(values[i], key).len(),
        forall|q: int|
            0 <= q < p ==> (#[trigger] json_values_at(values[i], key)[q]).0 != json_values_at(
                values[i],
                key,
            )[p].0,
        forall|j: int|
            0 <= j < i ==> !named_in(
                json_values_at(#[trigger] values[j], key),
                json_values_at(values[i], key)[p].0,
            ),
    ensures
        npm_group_map(values).contains_key(key),
        exists|m: Members| #[trigger]
            object_text(m) == npm_group_map(values)[key] && m.contains(
                json_values_at(values[i], key)[p],
            ) && firsts(m).no_duplicates(),
        contains_seq(
            npm_group_map(values)[key],
            json_literal(json_values_at(values[i], key)[p].0) + seq![':'] + json_values_at(
                values[i],
                key,
            )[p].1,
        ),
{
    lemma_fields_differ();
    first_member_has_priority(values, key, i, p);
    let m = union_at(values, key);
    let x = json_values_at(values[i], key)[p];
    let k = choose|k: int| 0 <= k < m.len() && m[k] == x;
    every_member_is_written(m, k);
    assert(npm_group_map(values)[key] == object_text(m));
    assert(m.contains(x));
}

proof fn lemma_fields_differ()
    ensures
        "versions"@ != "dist-tags"@,
        "versions"@ != "time"@,
        "dist-tags"@ != "time"@,
{
    reveal_strlit("versions");
    reveal_strlit("dist-tags");
    reveal_strlit("time");
    assert("versions"@.len() == 8 && "dist-tags"@.len() == 9 && "time"@.len() == 4);
}

/// Nothing is held there that no document names.
pub proof fn merged_fields_hold_nothing_else(values: Seq<Seq<u8>>, key: Seq<char>)
    requires
        is_united(key),
    ensures
        exists|m: Members| #[trigger]
            object_text(m) == npm_group_map(values)[key] && forall|k: int|
                0 <= k < m.len() ==> exists|i: int|
                    0 <= i < values.len() && json_values_at(#[trigger] values[i], key).contains(
                        #[trigger] m[k],
                    ),
{
    lemma_fields_differ();
    let m = union_at(values, key);
    lemma_union_from(values, key);
    assert(object_text(m) == npm_group_map(values)[key]);
}

proof fn lemma_union_from(values: Seq<Seq<u8>>, key: Seq<char>)
    ensures
        forall|k: int|
            0 <= k < union_at(values, key).len() ==> exists|i: int|
                0 <= i < values.len() && json_values_at(#[trigger] values[i], key).contains(
                    #[trigger] union_at(values, key)[k],
                ),
    decreases values.len(),
{
    if values.len() > 0 {
        let init = values.drop_last();
        lemma_union_from(init, key);
        let u = union_at(init, key);
        let src = json_values_at(values.last(), key);
        lemma_added_from(u, src);
        let all = union_at(values, key);
        assert forall|k: int| 0 <= k < all.len() implies exists|i: int|
            0 <= i < values.len() && json_values_at(#[trigger] values[i], key).contains(
                #[trigger] all[k],
            ) by {
            if u.contains(all[k]) {
                let j = choose|j: int| 0 <= j < u.len() && u[j] == all[k];
                let i = choose|i: int|
                    0 <= i < init.len() && json_values_at(#[trigger] init[i], key).contains(u[j]);
                assert(values[i] == init[i]);
                assert(json_values_at(values[i], key).contains(all[k]));
            } else {
                assert(values[values.len() - 1] == values.last());
                assert(json_values_at(values[values.len() - 1], key).contains(all[k]));
            }
        }
    }
}

proof fn lemma_added_from(target: Members, source: Members)
    ensures
        forall|k: int|
            0 <= k < add_members(target, source).len() ==> target.contains(
                #[trigger] add_members(target, source)[k],
            ) || source.contains(add_members(target, source)[k]),
    decreases source.len(),
{
    let all = add_members(target, source);
    if source.len() == 0 {
        assert forall|k: int| 0 <= k < all.len() implies target.contains(#[trigger] all[k]) by {}
    } else {
        let front = source.drop_last();
        let p = add_members(target, front);
        lemma_added_from(target, front);
        assert forall|k: int| 0 <= k < all.len() implies target.contains(#[trigger] all[k])
            || source.contains(all[k]) by {
            if k < p.len() {
                assert(all[k] == p[k]);
                if front.contains(p[k]) {
                    let j = choose|j: int| 0 <= j < front.len() && front[j] == p[k];
                    assert(source[j] == p[k]);
                }
            } else {
                assert(source[source.len() - 1] == all[k]);
            }
        }
    }
}

/// Every other field of the merged packument is that of the first document that has any.
pub proof fn other_fields_are_the_first_documents(
    values: Seq<Seq<u8>>,
    i: int,
    key: Seq<char>,
)
    requires
        0 <= i < values.len(),
        forall|j: int| 0 <= j < i ==> json_values(#[trigger] values[j]) == Some(
            Seq::<(Seq<char>, Seq<char>)>::empty(),
        ),
        json_values(values[i]) is Some,
        json_values(values[i])->0.len() > 0,
        !is_united(key),
    ensures
        npm_group_map(values).contains_key(key) <==> member_map(
            json_values(values[i])->0,
        ).contains_key(key),
        npm_group_map(values).contains_key(key) ==> npm_group_map(values)[key] == member_map(
            json_values(values[i])->0,
        )[key],
{
    lemma_first_document(values, i);
}

proof fn lemma_first_document(values: Seq<Seq<u8>>, i: int)
    requires
        0 <= i < values.len(),
        forall|j: int| 0 <= j < i ==> json_values(#[trigger] values[j]) == Some(
            Seq::<(Seq<char>, Seq<char>)>::empty(),
        ),
        json_values(values[i]) is Some,
        json_values(values[i])->0.len() > 0,
    ensures
        first_document(values) == json_values(values[i])->0,
    decreases values.len(),
{
    let init = values.drop_last();
    if i < init.len() {
        assert(forall|j: int| 0 <= j < init.len() ==> init[j] == values[j]);
        lemma_first_document(init, i);
    } else {
        lemma_no_document(init);
    }
}

proof fn lemma_no_document(values: Seq<Seq<u8>>)
    requires
        forall|j: int| 0 <= j < values.len() ==> json_values(#[trigger] values[j]) == Some(
            Seq::<(Seq<char>, Seq<char>)>::empty(),
        ),
    ensures
        first_document(values).len() == 0,
    decreases values.len(),
{
    if values.len() > 0 {
        let init = values.drop_last();
        assert(forall|j: int| 0 <= j < init.len() ==> init[j] == values[j]);
        lemma_no_document(init);
        assert(values[values.len() - 1] == values.last());
    }
}

// ---------------------------------------------------------------------------
// Every document is read

/// Each member's document is read, behind those of the members before it: the lines of a
/// sparse index, the words of a version list, the links and the items of a simple index.
pub proof fn every_document_is_read(
    values: Seq<Seq<u8>>,
    doc: Seq<u8>,
    key: Seq<char>,
    field: Seq<char>,
)
    ensures
        all_lines(values.push(doc)) == all_lines(values) + split(trimmed(lossy_text(doc)), '\n'),
        all_words(values.push(doc)) == all_words(values) + words(lossy_text(doc)),
        all_anchors(values.push(doc)) == all_anchors(values) + anchors_of(lossy_text(doc)),
        all_items(values.push(doc), key, field) == all_items(values, key, field) + json_items(
            doc,
            key,
            field,
        ),
        all_lines(Seq::empty()).len() == 0,
        all_words(Seq::empty()).len() == 0,
        all_anchors(Seq::empty()).len() == 0,
        all_items(Seq::empty(), key, field).len() == 0,
{
    assert(values.push(doc).drop_last() =~= values);
    assert(values.push(doc).last() == doc);
}

/// An item of the merged list is one that a member names, the first of its name.
pub proof fn listed_items_are_the_first_of_their_name(
    items: Seq<(Option<Seq<char>>, Seq<char>)>,
    k: int,
)
    requires
        0 <= k < unique_items(items).len(),
    ensures
        exists|i: int|
            0 <= i < items.len() && (#[trigger] items[i]).1 == unique_items(items)[k] && items[i].0
                is Some && items[i].0->0.len() > 0 && forall|j: int|
                0 <= j < i ==> (#[trigger] items[j]).0 != items[i].0,
    decreases items.len(),
{
    let init = items.drop_last();
    let p = unique_items(init);
    let r = unique_items(items);
    if k < p.len() {
        listed_items_are_the_first_of_their_name(init, k);
        let i = choose|i: int|
            0 <= i < init.len() && (#[trigger] init[i]).1 == p[k] && init[i].0 is Some
                && init[i].0->0.len() > 0 && forall|j: int|
                0 <= j < i ==> (#[trigger] init[j]).0 != init[i].0;
        assert(items[i] == init[i]);
        assert forall|j: int| 0 <= j < i implies (#[trigger] items[j]).0 != items[i].0 by {
            assert(init[j] == items[j]);
        }
    } else {
        let i = items.len() - 1;
        assert(items[i] == items.last());
        assert forall|j: int| 0 <= j < i implies (#[trigger] items[j]).0 != items[i].0 by {
            assert(init[j] == items[j]);
        }
    }
}

/// The merged simple index in JSON states the version of the protocol, and lists files and
/// projects where there are any.
pub proof fn the_simple_index_lists_files_and_projects(values: Seq<Seq<u8>>)
    ensures
        ({
            let m = pypi_json_map(values);
            let files = unique_items(all_items(values, "files"@, "filename"@));
            let projects = unique_items(all_items(values, "projects"@, "name"@));
            &&& m.contains_key("meta"@) && m["meta"@] == "{\"api-version\":\"1.0\"}"@
            &&& m.contains_key("files"@) <==> files.len() > 0
            &&& files.len() > 0 ==> m["files"@] == array_text(files)
            &&& m.contains_key("projects"@) <==> projects.len() > 0
            &&& projects.len() > 0 ==> m["projects"@] == array_text(projects)
            &&& forall|k: Seq<char>| #[trigger]
                m.contains_key(k) ==> k == "meta"@ || k == "files"@ || k == "projects"@
        }),
{
    reveal_strlit("meta");
    reveal_strlit("files");
    reveal_strlit("projects");
    assert("meta"@.len() == 4 && "files"@.len() == 5 && "projects"@.len() == 8);
}

// ---------------------------------------------------------------------------
// Maven

/// Documents of one artifact are merged, documents of two are not.
pub proof fn one_artifact_is_merged(docs: Seq<MavenMetadata>)
    requires
        docs.len() > 0,
        docs[0].group_id@.len() > 0,
    ensures
        maven_agree(docs) <==> forall|i: int|
            0 <= i < docs.len() ==> (#[trigger] docs[i]).group_id@ == docs[0].group_id@
                && docs[i].artifact_id@ == docs[0].artifact_id@,
        maven_identity(docs) == (docs[0].group_id@, docs[0].artifact_id@),
{
    assert forall|n: int| 0 < n <= docs.len() implies #[trigger] maven_identity(docs.take(n)) == (
        docs[0].group_id@,
        docs[0].artifact_id@,
    ) by {
        lemma_identity(docs, n);
    }
    assert(docs.take(docs.len() as int) =~= docs);
    if maven_agree(docs) {
        assert forall|i: int| 0 <= i < docs.len() implies (#[trigger] docs[i]).group_id@
            == docs[0].group_id@ && docs[i].artifact_id@ == docs[0].artifact_id@ by {
            assert(maven_identity(docs.take(i + 1)) == (docs[0].group_id@, docs[0].artifact_id@));
        }
    }
    if forall|i: int|
        0 <= i < docs.len() ==> (#[trigger] docs[i]).group_id@ == docs[0].group_id@
            && docs[i].artifact_id@ == docs[0].artifact_id@ {
        assert forall|i: int| 0 <= i < docs.len() implies maven_identity(docs.take(i + 1)) == (
            (#[trigger] docs[i]).group_id@,
            docs[i].artifact_id@,
        ) by {
            assert(maven_identity(docs.take(i + 1)) == (docs[0].group_id@, docs[0].artifact_id@));
        }
    }
}

proof fn lemma_identity(docs: Seq<MavenMetadata>, n: int)
    requires
        0 < n <= docs.len(),
        docs[0].group_id@.len() > 0,
    ensures
        maven_identity(docs.take(n)) == (docs[0].group_id@, docs[0].artifact_id@),
    decreases n,
{
    if n == 1 {
        assert(docs.take(1).drop_last() =~= Seq::empty());
        assert(docs.take(1).last() == docs[0]);
        assert(maven_identity(docs.take(1).drop_last()).0.len() == 0);
    } else {
        assert(docs.take(n).drop_last() =~= docs.take(n - 1));
        lemma_identity(docs, n - 1);
    }
}

/// The merged document lists every version that any document lists, and no other, in
/// order; the last of them is its latest and its release, and its time of update is the
/// latest of theirs.
pub proof fn merged_metadata_lists_every_version(
    docs: Seq<MavenMetadata>,
    m: MavenMetadata,
    i: int,
    v: Seq<char>,
)
    requires
        maven_merged(docs, m),
        0 <= i < docs.len(),
    ensures
        texts(docs[i].versions@).contains(v) ==> texts(m.versions@).contains(v) && (v == m.latest@
            || text_lt(v, m.latest@)),
        texts(m.versions@).contains(v) ==> exists|j: int|
            0 <= j < docs.len() && texts((#[trigger] docs[j]).versions@).contains(v),
        m.release@ == m.latest@,
        m.versions@.len() > 0 ==> texts(m.versions@).contains(m.latest@),
        forall|a: int, b: int|
            0 <= a < b < m.versions@.len() ==> text_lt(
                (#[trigger] m.versions@[a])@,
                (#[trigger] m.versions@[b])@,
            ),
        !text_lt(m.last_updated@, docs[i].last_updated@),
        exists|j: int|
            0 <= j < docs.len() && ((#[trigger] docs[j]).last_updated@ == m.last_updated@
                || m.last_updated@.len() == 0),
{
    let all = texts(m.versions@);
    if texts(docs[i].versions@).contains(v) {
        assert(maven_lists(docs, v));
        assert(all.contains(v));
        let k = choose|k: int| 0 <= k < all.len() && all[k] == v;
        assert(all[all.len() - 1] == m.versions@.last()@);
        if k < all.len() - 1 {
            assert(text_lt(all[k], all[all.len() - 1]));
        }
    }
    if m.versions@.len() > 0 {
        assert(all[all.len() - 1] == m.latest@);
    }
    assert forall|a: int, b: int| 0 <= a < b < m.versions@.len() implies text_lt(
        (#[trigger] m.versions@[a])@,
        (#[trigger] m.versions@[b])@,
    ) by {
        assert(all[a] == m.versions@[a]@ && all[b] == m.versions@[b]@);
    }
    lemma_stamp(docs);
    if m.last_updated@.len() > 0 {
        let j = choose|j: int|
            0 <= j < docs.len() && (#[trigger] docs[j]).last_updated@ == maven_stamp(docs);
        assert(docs[j].last_updated@ == m.last_updated@);
    } else {
        assert(docs[i].last_updated@ == docs[i].last_updated@);
    }
}

proof fn lemma_stamp(docs: Seq<MavenMetadata>)
    ensures
        forall|i: int|
            0 <= i < docs.len() ==> !text_lt(maven_stamp(docs), (#[trigger] docs[i]).last_updated@),
        maven_stamp(docs).len() > 0 ==> exists|j: int|
            0 <= j < docs.len() && (#[trigger] docs[j]).last_updated@ == maven_stamp(docs),
    decreases docs.len(),
{
    if docs.len() > 0 {
        let init = docs.drop_last();
        lemma_stamp(init);
        let p = maven_stamp(init);
        let s = maven_stamp(docs);
        let last = docs.last().last_updated@;
        assert(docs[docs.len() - 1] == docs.last());
        lemma_text_lt_irreflexive(s);
        assert forall|i: int| 0 <= i < docs.len() implies !text_lt(
            s,
            (#[trigger] docs[i]).last_updated@,
        ) by {
            if i < init.len() {
                assert(init[i] == docs[i]);
                if text_lt(p, last) && text_lt(last, docs[i].last_updated@) {
                    lemma_text_lt_transitive(p, last, docs[i].last_updated@);
                }
            }
        }
        if s.len() > 0 && s == p {
            let j = choose|j: int|
                0 <= j < init.len() && (#[trigger] init[j]).last_updated@ == p;
            assert(docs[j] == init[j]);
        }
    }
}

// ---------------------------------------------------------------------------
// Go and image tags

/// The newest of the members' versions is one of theirs, and none of theirs is newer; of
/// equals it is that of the first member.
pub proof fn the_newest_version_is_served(infos: Seq<GoInfo>, best: GoInfo, j: int)
    requires
        is_latest(infos, best),
        0 <= j < infos.len(),
    ensures
        version_order(infos[j].version@, best.version@) <= 0,
        exists|i: int|
            0 <= i < infos.len() && (#[trigger] infos[i]).version@ == best.version@
                && infos[i].time@ == best.time@ && forall|k: int|
                0 <= k < i ==> version_order((#[trigger] infos[k]).version@, best.version@) < 0,
{
}

/// Members that name an image must name the same; the merged list goes under that name and
/// holds every tag that a member lists, and no other, in order.
pub proof fn one_image_is_merged(values: Seq<Seq<u8>>, tags: Seq<Seq<char>>, i: int, t: Seq<char>)
    requires
        tags_agree(values),
        ascending_tags(values, tags),
        0 <= i < values.len(),
    ensures
        tags_document(values[i]) is Some,
        (tags_document(values[i])->0).0.len() > 0 ==> (tags_document(values[i])->0).0 == tags_name(
            values,
        ),
        (tags_document(values[i])->0).1.contains(t) ==> tags.contains(t),
        tags.contains(t) ==> exists|j: int|
            0 <= j < values.len() && (tags_document(#[trigger] values[j])->0).1.contains(t),
        forall|a: int, b: int| 0 <= a < b < tags.len() ==> text_lt(tags[a], tags[b]),
        tags_text(tags_name(values), tags) == "{\"name\":"@ + json_literal(tags_name(values))
            + ",\"tags\":"@ + array_text(tags.map_values(|x: Seq<char>| json_literal(x))) + "}"@,
{
    assert(tags_document(values[i]) is Some);
    if (tags_document(values[i])->0).0.len() > 0 {
        lemma_name_stays(values, i + 1);
    }
    assert(literals(tags) =~= tags.map_values(|x: Seq<char>| json_literal(x)));
}

proof fn lemma_name_stays(values: Seq<Seq<u8>>, n: int)
    requires
        0 <= n <= values.len(),
        tags_name(values.take(n)).len() > 0,
    ensures
        tags_name(values) == tags_name(values.take(n)),
    decreases values.len(),
{
    if n == values.len() {
        assert(values.take(n) =~= values);
    } else {
        assert(values.drop_last().take(n) =~= values.take(n));
        lemma_name_stays(values.drop_last(), n);
    }
}

/// Members that name different images are not merged.
pub proof fn two_images_are_not_merged(values: Seq<Seq<u8>>, i: int, j: int)
    requires
        0 <= i < values.len(),
        0 <= j < values.len(),
        tags_document(values[i]) is Some,
        tags_document(values[j]) is Some,
        (tags_document(values[i])->0).0.len() > 0,
        (tags_document(values[j])->0).0.len() > 0,
        (tags_document(values[i])->0).0 != (tags_document(values[j])->0).0,
    ensures
        !tags_agree(values),
{
    if tags_agree(values) {
        assert(tags_document(values[i]) is Some);
        assert(tags_document(values[j]) is Some);
        lemma_name_stays(values, i + 1);
        lemma_name_stays(values, j + 1);
    }
}

} // verus!
