//! Merges the index documents of the members of a group, one function for each
//! kind of document. A member that comes first has priority.

use vstd::prelude::*;
use vstd::utf8::encode_utf8;

use crate::bridge::{
    firsts, from_utf8_lossy, json_literal, json_string, json_string_list, json_values, lossy_text,
    pairs, parse_string, parse_string_list, parse_values, quote,
};
use crate::json::{
    add_members, add_missing, item_views, items_at, json_items, json_values_at, lemma_add_members,
    lemma_add_takes, member_map, named_in, object_text, sorted_object, values_at, Members,
    RawObject,
};
use crate::record::{read_record_of_one, read_record_of_two, record};
use crate::repo::anchors::{anchors_can_be_cut, anchors_of, can_cut, find_anchors};
use crate::repo::group_metadata::{bodies, is_document};
use crate::repo::gosemver::{
    go_semver_valid, is_version, version_order, version_order_is_antisymmetric,
    version_order_is_reflexive, version_order_is_transitive, version_sign,
};
use crate::repo::npm::{lemma_members_of, members_of};
use crate::text::{
    ascending, chars_of, contains, contains_seq, contains_text, insert_sorted, join, join_texts,
    less, opt_text, replace, replaced, same, split, split_char, text_lt, texts, trim, trimmed,
};

verus! {

// ---------------------------------------------------------------------------
// Go: the latest version

/// What is known of one module version.
pub struct GoInfo {
    pub version: String,
    pub time: String,
}

/// `best` is the first of the newest of the versions, or empty where there are
/// none.
pub open spec fn is_latest(infos: Seq<GoInfo>, best: GoInfo) -> bool {
    &&& infos.len() == 0 ==> best.version@.len() == 0 && best.time@.len() == 0
    &&& infos.len() > 0 ==> exists|i: int|
        {
            &&& 0 <= i < infos.len()
            &&& best.version@ == (#[trigger] infos[i]).version@
            &&& best.time@ == infos[i].time@
            &&& forall|j: int|
                0 <= j < infos.len() ==> version_order((#[trigger] infos[j]).version@, best.version@)
                    <= 0
            &&& forall|j: int|
                0 <= j < i ==> version_order((#[trigger] infos[j]).version@, best.version@) < 0
        }
}

/// The newest of the members' latest versions: of several that are equally new the
/// one that comes first. Nothing where a member's version is none; without members
/// an empty version.
pub fn merge_go_latest_group(infos: &Vec<GoInfo>) -> (r: Option<GoInfo>)
    ensures
        r is Some <==> forall|i: int| 0 <= i < infos@.len() ==> is_version((#[trigger] infos@[i]).version@),
        r matches Some(best) ==> is_latest(infos@, best),
{
    let mut best: usize = 0;
    let mut i: usize = 0;
    while i < infos.len()
        invariant
            i <= infos@.len(),
            i > 0 ==> best < i,
            forall|j: int| 0 <= j < i ==> is_version((#[trigger] infos@[j]).version@),
            forall|j: int|
                0 <= j < i ==> version_order((#[trigger] infos@[j]).version@, infos@[best as int].version@)
                    <= 0,
            forall|j: int|
                0 <= j < best ==> version_order(
                    (#[trigger] infos@[j]).version@,
                    infos@[best as int].version@,
                ) < 0,
            i == 0 ==> best == 0,
        decreases infos.len() - i,
    {
        let info = &infos[i];
        if !go_semver_valid(info.version.as_str()) {
            assert(!is_version(infos@[i as int].version@));
            return None;
        }
        proof {
            version_order_is_reflexive(info.version@);
        }
        if i > 0 {
            let ghost top = infos@[best as int].version@;
            let o = version_sign(info.version.as_str(), infos[best].version.as_str());
            proof {
                version_order_is_antisymmetric(info.version@, top);
            }
            if o > 0 {
                proof {
                    assert forall|j: int| 0 <= j < i implies version_order(
                        (#[trigger] infos@[j]).version@,
                        info.version@,
                    ) < 0 by {
                        version_order_is_transitive(infos@[j].version@, top, info.version@);
                        version_order_is_antisymmetric(infos@[j].version@, info.version@);
                        if version_order(infos@[j].version@, info.version@) == 0 {
                            version_order_is_transitive(info.version@, infos@[j].version@, top);
                        }
                    }
                }
                best = i;
            }
        }
        i += 1;
    }
    if infos.len() == 0 {
        return Some(GoInfo { version: String::new(), time: String::new() });
    }
    assert(infos@[best as int].version@ == infos@[best as int].version@);
    Some(GoInfo { version: infos[best].version.clone(), time: infos[best].time.clone() })
}

// ---------------------------------------------------------------------------
// Maven

/// A `maven-metadata.xml` document.
pub struct MavenMetadata {
    pub group_id: String,
    pub artifact_id: String,
    pub latest: String,
    pub release: String,
    pub versions: Vec<String>,
    pub last_updated: String,
}

/// The group and artifact that the documents seen so far agree on: that of the
/// last while no group was named, then that of the first that named one.
pub open spec fn maven_identity(docs: Seq<MavenMetadata>) -> (Seq<char>, Seq<char>)
    decreases docs.len(),
{
    if docs.len() == 0 {
        (Seq::empty(), Seq::empty())
    } else {
        let p = maven_identity(docs.drop_last());
        if p.0.len() == 0 {
            (docs.last().group_id@, docs.last().artifact_id@)
        } else {
            p
        }
    }
}

/// Each document is of the artifact that those up to it agree on.
pub open spec fn maven_agree(docs: Seq<MavenMetadata>) -> bool {
    forall|i: int|
        0 <= i < docs.len() ==> maven_identity(docs.take(i + 1)) == (
            (#[trigger] docs[i]).group_id@,
            docs[i].artifact_id@,
        )
}

/// The greatest of the update stamps.
pub open spec fn maven_stamp(docs: Seq<MavenMetadata>) -> Seq<char>
    decreases docs.len(),
{
    if docs.len() == 0 {
        Seq::empty()
    } else {
        let p = maven_stamp(docs.drop_last());
        if text_lt(p, docs.last().last_updated@) {
            docs.last().last_updated@
        } else {
            p
        }
    }
}

/// One of the documents lists `v`.
pub open spec fn maven_lists(docs: Seq<MavenMetadata>, v: Seq<char>) -> bool {
    exists|i: int| 0 <= i < docs.len() && texts((#[trigger] docs[i]).versions@).contains(v)
}

/// `m` is the union of the documents: their artifact and their greatest stamp,
/// their versions in ascending order, and the last of these as latest and release.
pub open spec fn maven_merged(docs: Seq<MavenMetadata>, m: MavenMetadata) -> bool {
    &&& (m.group_id@, m.artifact_id@) == maven_identity(docs)
    &&& m.last_updated@ == maven_stamp(docs)
    &&& ascending(texts(m.versions@))
    &&& forall|v: Seq<char>| #[trigger] texts(m.versions@).contains(v) <==> maven_lists(docs, v)
    &&& m.latest@ == m.release@
    &&& m.versions@.len() > 0 ==> m.latest@ == m.versions@.last()@
    &&& m.versions@.len() == 0 ==> m.latest@.len() == 0
}

/// Merges the members' documents of one artifact: the union of their versions in
/// ascending order, of which the last is the latest and the release. Nothing where
/// the members do not agree on the artifact.
pub fn merge_maven_group(docs: &Vec<MavenMetadata>) -> (r: Option<MavenMetadata>)
    ensures
        r is Some <==> maven_agree(docs@),
        r matches Some(m) ==> maven_merged(docs@, m),
{
    let mut group_id = String::new();
    let mut artifact_id = String::new();
    let mut last_updated = String::new();
    let mut versions: Vec<String> = Vec::new();
    let mut i: usize = 0;
    let ghost all = docs@;
    assert(all.take(0) =~= Seq::empty());
    while i < docs.len()
        invariant
            i <= docs@.len(),
            all == docs@,
            (group_id@, artifact_id@) == maven_identity(all.take(i as int)),
            last_updated@ == maven_stamp(all.take(i as int)),
            ascending(texts(versions@)),
            forall|v: Seq<char>| #[trigger]
                texts(versions@).contains(v) <==> maven_lists(all.take(i as int), v),
            forall|j: int|
                0 <= j < i ==> maven_identity(all.take(j + 1)) == (
                    (#[trigger] all[j]).group_id@,
                    all[j].artifact_id@,
                ),
        decreases docs.len() - i,
    {
        let doc = &docs[i];
        let ghost done = all.take(i as int);
        let ghost next = all.take(i + 1);
        proof {
            assert(next.drop_last() =~= done);
            assert(next.last() == all[i as int]);
        }
        if group_id.as_str().is_empty() {
            group_id = doc.group_id.clone();
            artifact_id = doc.artifact_id.clone();
        }
        assert((group_id@, artifact_id@) == maven_identity(next));
        if !same(group_id.as_str(), doc.group_id.as_str()) || !same(
            artifact_id.as_str(),
            doc.artifact_id.as_str(),
        ) {
            assert(maven_identity(all.take(i + 1)) != (all[i as int].group_id@, all[i as int].artifact_id@));
            return None;
        }
        let mut j: usize = 0;
        let ghost before = texts(versions@);
        while j < doc.versions.len()
            invariant
                j <= doc.versions@.len(),
                ascending(texts(versions@)),
                forall|v: Seq<char>| #[trigger]
                    texts(versions@).contains(v) <==> before.contains(v) || texts(
                        doc.versions@,
                    ).take(j as int).contains(v),
            decreases doc.versions.len() - j,
        {
            let ghost listed = texts(doc.versions@);
            insert_sorted(&mut versions, doc.versions[j].clone());
            proof {
                let x = listed[j as int];
                assert(x == doc.versions@[j as int]@);
                assert(listed.take(j + 1) =~= listed.take(j as int).push(x));
                assert forall|v: Seq<char>|
                    listed.take(j as int).contains(v) || v == x <==> #[trigger] listed.take(
                        j + 1,
                    ).contains(v) by {
                    let a = listed.take(j as int);
                    let b = listed.take(j + 1);
                    if a.contains(v) {
                        let k = choose|k: int| 0 <= k < a.len() && a[k] == v;
                        assert(b[k] == v);
                    }
                    if b.contains(v) {
                        let k = choose|k: int| 0 <= k < b.len() && b[k] == v;
                        if k < j {
                            assert(a[k] == v);
                        }
                    }
                    assert(b[j as int] == x);
                }
            }
            j += 1;
        }
        proof {
            let listed = texts(doc.versions@);
            assert(listed.take(listed.len() as int) =~= listed);
            assert forall|v: Seq<char>| #[trigger] texts(versions@).contains(v) <==> maven_lists(
                next,
                v,
            ) by {
                assert(before.contains(v) <==> maven_lists(done, v));
                if maven_lists(done, v) {
                    let k = choose|k: int|
                        0 <= k < done.len() && texts((#[trigger] done[k]).versions@).contains(v);
                    assert(next[k] == done[k]);
                }
                if listed.contains(v) {
                    assert(next[i as int] == all[i as int]);
                }
                if maven_lists(next, v) {
                    let k = choose|k: int|
                        0 <= k < next.len() && texts((#[trigger] next[k]).versions@).contains(v);
                    if k < i {
                        assert(done[k] == next[k]);
                    }
                }
            }
        }
        if less(last_updated.as_str(), doc.last_updated.as_str()) {
            last_updated = doc.last_updated.clone();
        }
        i += 1;
    }
    assert(all.take(all.len() as int) =~= all);
    let mut latest = String::new();
    let mut release = String::new();
    if versions.len() > 0 {
        latest = versions[versions.len() - 1].clone();
        release = latest.clone();
    }
    Some(MavenMetadata { group_id, artifact_id, latest, release, versions, last_updated })
}

// ---------------------------------------------------------------------------
// npm

/// Every document is a JSON object.
pub open spec fn all_objects(values: Seq<Seq<u8>>) -> bool {
    forall|i: int| 0 <= i < values.len() ==> json_values(#[trigger] values[i]) is Some
}

/// The members of the objects under `key`, in the order in which the documents first
/// name them; of a name that occurs in several documents, the value in the first.
pub open spec fn union_at(values: Seq<Seq<u8>>, key: Seq<char>) -> Members
    decreases values.len(),
{
    if values.len() == 0 {
        Seq::empty()
    } else {
        add_members(union_at(values.drop_last(), key), json_values_at(values.last(), key))
    }
}

/// The first document that has members.
pub open spec fn first_document(values: Seq<Seq<u8>>) -> Members
    decreases values.len(),
{
    if values.len() == 0 {
        Seq::empty()
    } else {
        let p = first_document(values.drop_last());
        if p.len() == 0 {
            json_values(values.last())->0
        } else {
            p
        }
    }
}

/// The first document, with the versions, dist-tags and times of all.
pub open spec fn npm_group_map(values: Seq<Seq<u8>>) -> Map<Seq<char>, Seq<char>> {
    member_map(first_document(values)).insert(
        "versions"@,
        object_text(union_at(values, "versions"@)),
    ).insert("dist-tags"@, object_text(union_at(values, "dist-tags"@))).insert(
        "time"@,
        object_text(union_at(values, "time"@)),
    )
}

/// A name keeps the value that it has in the first document that names it.
pub proof fn first_member_has_priority(values: Seq<Seq<u8>>, key: Seq<char>, i: int, p: int)
    requires
        0 <= i < values.len(),
        0 <= p < json_values_at(values[i], key).len(),
        forall|q: int|
            0 <= q < p ==> (#[trigger] json_values_at(values[i], key)[q]).0 != json_values_at(
                values[i],
                key,
            )[p].0,
        forall|j: int|
            0 <= j < i ==> !named_in(
                json_values_at(#[trigger] values[j], key),
                json_values_at(values[i], key)[p].0,
            ),
    ensures
        union_at(values, key).contains(json_values_at(values[i], key)[p]),
        firsts(union_at(values, key)).no_duplicates(),
    decreases values.len(),
{
    let init = values.drop_last();
    let x = json_values_at(values[i], key)[p];
    lemma_union_names(init, key);
    lemma_add_members(union_at(init, key), json_values_at(values.last(), key));
    if i < init.len() {
        assert(forall|j: int| 0 <= j < init.len() ==> init[j] == values[j]);
        first_member_has_priority(init, key, i, p);
        let u = union_at(init, key);
        let n = choose|n: int| 0 <= n < u.len() && u[n] == x;
        assert(union_at(values, key).take(u.len() as int)[n] == x);
        assert(union_at(values, key)[n] == x);
    } else {
        assert(!named_in(union_at(init, key), x.0)) by {
            if named_in(union_at(init, key), x.0) {
                let j = choose|j: int|
                    0 <= j < init.len() && named_in(json_values_at(#[trigger] init[j], key), x.0);
                assert(values[j] == init[j]);
            }
        }
        lemma_add_takes(union_at(init, key), json_values_at(values[i], key), p);
    }
}

/// The union names what one of the documents names, and no name twice.
proof fn lemma_union_names(values: Seq<Seq<u8>>, key: Seq<char>)
    ensures
        firsts(union_at(values, key)).no_duplicates(),
        forall|k: Seq<char>| #[trigger]
            named_in(union_at(values, key), k) ==> exists|j: int|
                0 <= j < values.len() && named_in(json_values_at(#[trigger] values[j], key), k),
    decreases values.len(),
{
    if values.len() > 0 {
        let init = values.drop_last();
        lemma_union_names(init, key);
        lemma_add_members(union_at(init, key), json_values_at(values.last(), key));
        assert forall|k: Seq<char>| #[trigger] named_in(union_at(values, key), k) implies exists|
            j: int,
        |
            0 <= j < values.len() && named_in(json_values_at(#[trigger] values[j], key), k) by {
            if named_in(union_at(init, key), k) {
                let j = choose|j: int|
                    0 <= j < init.len() && named_in(json_values_at(#[trigger] init[j], key), k);
                assert(values[j] == init[j]);
            } else {
                assert(named_in(json_values_at(values[values.len() - 1], key), k));
            }
        }
    }
}

/// Merges the members' packuments.
pub fn merge_npm_group(values: &[&[u8]]) -> (r: Option<(Vec<u8>, String)>)
    ensures
        r is Some <==> all_objects(bodies(values@)),
        r is Some ==> is_document(
            r,
            object_text(members_of(npm_group_map(bodies(values@)))),
            "application/json"@,
        ),
{
    let mut first: Vec<(String, String)> = Vec::new();
    let mut versions: Vec<(String, String)> = Vec::new();
    let mut tags: Vec<(String, String)> = Vec::new();
    let mut times: Vec<(String, String)> = Vec::new();
    let ghost all = bodies(values@);
    let mut i: usize = 0;
    proof {
        assert(all.take(0) =~= Seq::empty());
        assert(pairs(first@) =~= Seq::empty());
        assert(firsts(pairs(first@)) =~= Seq::empty());
    }
    while i < values.len()
        invariant
            i <= values@.len(),
            all == bodies(values@),
            forall|j: int| 0 <= j < i ==> json_values(#[trigger] all[j]) is Some,
            pairs(first@) == first_document(all.take(i as int)),
            firsts(pairs(first@)).no_duplicates(),
            pairs(versions@) == union_at(all.take(i as int), "versions"@),
            pairs(tags@) == union_at(all.take(i as int), "dist-tags"@),
            pairs(times@) == union_at(all.take(i as int), "time"@),
        decreases values.len() - i,
    {
        proof {
            assert(all.take(i + 1).drop_last() =~= all.take(i as int));
            assert(all.take(i + 1).last() == values@[i as int]@);
            assert(all[i as int] == values@[i as int]@);
            assert(pairs(first@).len() == first@.len());
        }
        match parse_values(values[i]) {
            Some(members) => {
                if first.len() == 0 {
                    first = members;
                }
            },
            None => {
                assert(json_values(all[i as int]) is None);
                return None;
            },
        }
        add_missing(&mut versions, values_at(values[i], "versions"));
        add_missing(&mut tags, values_at(values[i], "dist-tags"));
        add_missing(&mut times, values_at(values[i], "time"));
        i += 1;
    }
    assert(all.take(all.len() as int) =~= all);
    let mut merged = sorted_object(first);
    let versions = RawObject { members: versions };
    let tags = RawObject { members: tags };
    let times = RawObject { members: times };
    merged.insert("versions".to_owned(), versions.text());
    merged.insert("dist-tags".to_owned(), tags.text());
    merged.insert("time".to_owned(), times.text());
    proof {
        lemma_members_of(merged@);
    }
    let text = merged.text();
    Some((text.as_str().as_bytes_vec(), "application/json".to_owned()))
}

// ---------------------------------------------------------------------------
// Cargo

/// The version that a line of a sparse index names; empty where it names none, and
/// nothing where the line is no entry.
pub open spec fn entry_version(line: Seq<char>) -> Option<Seq<char>> {
    match record(encode_utf8(line), seq!["vers"@]) {
        Some(fields) => match fields[0] {
            Some(raw) => json_string(encode_utf8(raw)),
            None => Some(Seq::empty()),
        },
        None => None,
    }
}

/// The line is an entry that names a version.
pub open spec fn is_entry(line: Seq<char>) -> bool {
    entry_version(line) matches Some(v) && v.len() > 0
}

/// The lines of all documents, in order.
pub open spec fn all_lines(values: Seq<Seq<u8>>) -> Seq<Seq<char>>
    decreases values.len(),
{
    if values.len() == 0 {
        Seq::empty()
    } else {
        all_lines(values.drop_last()) + split(trimmed(lossy_text(values.last())), '\n')
    }
}

/// Every line is an entry.
pub open spec fn all_entries(lines: Seq<Seq<char>>) -> bool {
    forall|i: int| 0 <= i < lines.len() ==> is_entry(#[trigger] lines[i])
}

/// The versions of the lines.
pub open spec fn entry_versions(lines: Seq<Seq<char>>) -> Seq<Seq<char>> {
    lines.map_values(|l: Seq<char>| entry_version(l)->0)
}

/// The lines whose version no earlier line names.
pub open spec fn first_entries(lines: Seq<Seq<char>>) -> Seq<Seq<char>>
    decreases lines.len(),
{
    if lines.len() == 0 {
        Seq::empty()
    } else {
        let p = first_entries(lines.drop_last());
        if entry_versions(lines.drop_last()).contains(entry_version(lines.last())->0) {
            p
        } else {
            p.push(lines.last())
        }
    }
}

/// Reads the version that a line of a sparse index names.
pub fn read_entry_version(line: &str) -> (r: Option<String>)
    ensures
        opt_text(r) == entry_version(line@),
{
    match read_record_of_one(line.as_bytes(), "vers") {
        Some(field) => match field {
            Some(raw) => parse_string(raw.as_str().as_bytes()),
            None => Some(String::new()),
        },
        None => None,
    }
}

/// Merges the members' sparse index documents of one crate: one line for each
/// version, from the first member that has it.
pub fn merge_cargo_group(values: &[&[u8]]) -> (r: Option<(Vec<u8>, String)>)
    ensures
        r is Some <==> all_entries(all_lines(bodies(values@))),
        r is Some ==> is_document(
            r,
            join(first_entries(all_lines(bodies(values@))), "\n"@) + "\n"@,
            "text/plain; charset=utf-8"@,
        ),
{
    let mut seen: Vec<String> = Vec::new();
    let mut lines: Vec<String> = Vec::new();
    let ghost all = bodies(values@);
    let ghost every = all_lines(all);
    let mut i: usize = 0;
    assert(all.take(0) =~= Seq::empty());
    assert(texts(seen@) =~= entry_versions(all_lines(all.take(0))));
    assert(texts(lines@) =~= Seq::empty());
    while i < values.len()
        invariant
            i <= values@.len(),
            all == bodies(values@),
            every == all_lines(all),
            all_entries(all_lines(all.take(i as int))),
            texts(seen@) == entry_versions(all_lines(all.take(i as int))),
            texts(lines@) == first_entries(all_lines(all.take(i as int))),
        decreases values.len() - i,
    {
        let text = from_utf8_lossy(values[i]);
        let found = split_char(trim(text.as_str()).as_str(), '\n');
        let ghost before = all_lines(all.take(i as int));
        let ghost more = split(trimmed(text@), '\n');
        proof {
            assert(all.take(i + 1).drop_last() =~= all.take(i as int));
            assert(all.take(i + 1).last() == values@[i as int]@);
            assert(before + more.take(0) =~= before);
        }
        let mut j: usize = 0;
        while j < found.len()
            invariant
                j <= found@.len(),
                i < values@.len(),
                all == bodies(values@),
                every == all_lines(all),
                before == all_lines(all.take(i as int)),
                all_lines(all.take(i + 1)) == before + more,
                texts(found@) == more,
                all_entries(before + more.take(j as int)),
                texts(seen@) == entry_versions(before + more.take(j as int)),
                texts(lines@) == first_entries(before + more.take(j as int)),
            decreases found.len() - j,
        {
            let ghost now = before + more.take(j as int);
            let ghost next = before + more.take(j + 1);
            proof {
                assert(next.drop_last() =~= now);
                assert(next.last() == more[j as int]);
                assert(more[j as int] == found@[j as int]@);
                assert(next =~= now.push(more[j as int]));
            }
            let version = match read_entry_version(found[j].as_str()) {
                Some(v) => v,
                None => String::new(),
            };
            if version.as_str().is_empty() {
                proof {
                    assert(!is_entry(more[j as int]));
                    lemma_lines_prefix(all, i + 1);
                    assert((before + more)[before.len() + j] == more[j as int]);
                    assert(every[before.len() + j] == more[j as int]);
                }
                return None;
            }
            let ghost kept = texts(lines@);
            let ghost known = texts(seen@);
            if !contains_text(&seen, version.as_str()) {
                lines.push(found[j].clone());
                assert(texts(lines@) =~= kept.push(more[j as int]));
            }
            let ghost v = version@;
            seen.push(version);
            proof {
                assert(texts(seen@) =~= known.push(v));
                assert(entry_versions(next) =~= entry_versions(now).push(v));
                assert forall|k: int| 0 <= k < next.len() implies is_entry(#[trigger] next[k]) by {
                    if k < now.len() {
                        assert(next[k] == now[k]);
                    }
                }
            }
            j += 1;
        }
        assert(before + more.take(more.len() as int) =~= before + more);
        i += 1;
    }
    assert(all.take(all.len() as int) =~= all);
    let mut text = join_texts(&lines, 0, lines.len(), "\n");
    assert(texts(lines@).subrange(0, lines@.len() as int) =~= texts(lines@));
    text.append("\n");
    Some((text.as_str().as_bytes_vec(), "text/plain; charset=utf-8".to_owned()))
}

proof fn lemma_lines_prefix(values: Seq<Seq<u8>>, n: int)
    requires
        0 <= n <= values.len(),
    ensures
        all_lines(values.take(n)).len() <= all_lines(values).len(),
        forall|k: int|
            0 <= k < all_lines(values.take(n)).len() ==> all_lines(values)[k] == #[trigger] all_lines(
                values.take(n),
            )[k],
    decreases values.len(),
{
    if n == values.len() {
        assert(values.take(n) =~= values);
    } else {
        lemma_lines_prefix(values.drop_last(), n);
        assert(values.drop_last().take(n) =~= values.take(n));
    }
}

// ---------------------------------------------------------------------------
// PyPI: JSON

/// The media type of a simple index in JSON.
pub const PYPI_JSON_TYPE: &'static str = "application/vnd.pypi.simple.v1+json";

/// The items of all documents, in order.
pub open spec fn all_items(values: Seq<Seq<u8>>, key: Seq<char>, field: Seq<char>) -> Seq<
    (Option<Seq<char>>, Seq<char>),
>
    decreases values.len(),
{
    if values.len() == 0 {
        Seq::empty()
    } else {
        all_items(values.drop_last(), key, field) + json_items(values.last(), key, field)
    }
}

/// The item carries a name.
pub open spec fn is_named(item: (Option<Seq<char>>, Seq<char>)) -> bool {
    item.0 matches Some(n) && n.len() > 0
}

/// One of the items carries the name `n`.
pub open spec fn names(items: Seq<(Option<Seq<char>>, Seq<char>)>, n: Seq<char>) -> bool {
    exists|i: int| 0 <= i < items.len() && (#[trigger] items[i]).0 == Some(n)
}

/// The items that carry a name which no earlier item carries.
pub open spec fn unique_items(items: Seq<(Option<Seq<char>>, Seq<char>)>) -> Seq<Seq<char>>
    decreases items.len(),
{
    if items.len() == 0 {
        Seq::empty()
    } else {
        let p = unique_items(items.drop_last());
        if is_named(items.last()) && !names(items.drop_last(), items.last().0->0) {
            p.push(items.last().1)
        } else {
            p
        }
    }
}

/// The compact text of an array whose items are already encoded.
pub open spec fn array_text(items: Seq<Seq<char>>) -> Seq<char> {
    "["@ + join(items, ","@) + "]"@
}

fn array_of(items: &Vec<String>) -> (r: String)
    ensures
        r@ == array_text(texts(items@)),
{
    let mut out = "[".to_owned();
    out.append(join_texts(items, 0, items.len(), ",").as_str());
    assert(texts(items@).subrange(0, items@.len() as int) =~= texts(items@));
    out.append("]");
    out
}

/// Appends the items that carry a not-yet-seen name.
fn collect_unique(
    items: Vec<(Option<String>, String)>,
    seen: &mut Vec<String>,
    out: &mut Vec<String>,
    Ghost(before): Ghost<Seq<(Option<Seq<char>>, Seq<char>)>>,
)
    requires
        texts(old(out)@) == unique_items(before),
        forall|n: Seq<char>| #[trigger]
            texts(old(seen)@).contains(n) <==> n.len() > 0 && names(before, n),
    ensures
        texts(final(out)@) == unique_items(before + item_views(items@)),
        forall|n: Seq<char>| #[trigger]
            texts(final(seen)@).contains(n) <==> n.len() > 0 && names(
                before + item_views(items@),
                n,
            ),
{
    let ghost more = item_views(items@);
    let mut i: usize = 0;
    assert(before + more.take(0) =~= before);
    while i < items.len()
        invariant
            i <= items@.len(),
            more == item_views(items@),
            texts(out@) == unique_items(before + more.take(i as int)),
            forall|n: Seq<char>| #[trigger]
                texts(seen@).contains(n) <==> n.len() > 0 && names(before + more.take(i as int), n),
        decreases items.len() - i,
    {
        let ghost now = before + more.take(i as int);
        let ghost next = before + more.take(i + 1);
        let ghost item = more[i as int];
        proof {
            assert(next.drop_last() =~= now);
            assert(next.last() == item);
            assert(next =~= now.push(item));
            assert forall|n: Seq<char>| #[trigger] names(next, n) <==> names(now, n) || item.0
                == Some(n) by {
                if names(now, n) {
                    let k = choose|k: int| 0 <= k < now.len() && (#[trigger] now[k]).0 == Some(n);
                    assert(next[k].0 == Some(n));
                }
                if names(next, n) {
                    let k = choose|k: int| 0 <= k < next.len() && (#[trigger] next[k]).0 == Some(n);
                    if k < now.len() {
                        assert(now[k].0 == Some(n));
                    }
                }
                assert(next[now.len() as int] == item);
            }
        }
        let ghost known = texts(seen@);
        let ghost kept = texts(out@);
        if let Some(name) = &items[i].0 {
            if !name.as_str().is_empty() && !contains_text(seen, name.as_str()) {
                seen.push(name.clone());
                out.push(items[i].1.clone());
                proof {
                    assert(texts(out@) =~= kept.push(item.1));
                    assert(texts(seen@) =~= known.push(name@));
                    assert forall|n: Seq<char>| #[trigger]
                        texts(seen@).contains(n) <==> known.contains(n) || n == name@ by {
                        let t = known.push(name@);
                        if known.contains(n) {
                            let k = choose|k: int| 0 <= k < known.len() && known[k] == n;
                            assert(t[k] == n);
                        }
                        if t.contains(n) {
                            let k = choose|k: int| 0 <= k < t.len() && t[k] == n;
                            if k < known.len() {
                                assert(known[k] == n);
                            }
                        }
                        assert(t[known.len() as int] == name@);
                    }
                }
            }
        }
        proof {
            assert forall|n: Seq<char>| #[trigger]
                texts(seen@).contains(n) <==> n.len() > 0 && names(next, n) by {
                assert(known.contains(n) <==> n.len() > 0 && names(now, n));
                assert(names(next, n) <==> names(now, n) || item.0 == Some(n));
            }
        }
        i += 1;
    }
    assert(more.take(more.len() as int) =~= more);
}

/// The merged simple index in JSON: the API version, and the files and the
/// projects of all members, each where there are any.
pub open spec fn pypi_json_map(values: Seq<Seq<u8>>) -> Map<Seq<char>, Seq<char>> {
    let files = unique_items(all_items(values, "files"@, "filename"@));
    let projects = unique_items(all_items(values, "projects"@, "name"@));
    let meta = Map::<Seq<char>, Seq<char>>::empty().insert("meta"@, "{\"api-version\":\"1.0\"}"@);
    let with_files = if files.len() > 0 {
        meta.insert("files"@, array_text(files))
    } else {
        meta
    };
    if projects.len() > 0 {
        with_files.insert("projects"@, array_text(projects))
    } else {
        with_files
    }
}

fn merge_pypi_json(values: &[&[u8]]) -> (r: Option<(Vec<u8>, String)>)
    ensures
        r is Some <==> all_objects(bodies(values@)),
        r is Some ==> is_document(
            r,
            object_text(members_of(pypi_json_map(bodies(values@)))),
            PYPI_JSON_TYPE@,
        ),
{
    let mut files: Vec<String> = Vec::new();
    let mut projects: Vec<String> = Vec::new();
    let mut seen_files: Vec<String> = Vec::new();
    let mut seen_projects: Vec<String> = Vec::new();
    let ghost all = bodies(values@);
    let mut i: usize = 0;
    proof {
        assert(all.take(0) =~= Seq::empty());
        assert(texts(files@) =~= Seq::empty());
        assert(texts(seen_files@) =~= Seq::empty());
    }
    while i < values.len()
        invariant
            i <= values@.len(),
            all == bodies(values@),
            forall|j: int| 0 <= j < i ==> json_values(#[trigger] all[j]) is Some,
            texts(files@) == unique_items(
                all_items(all.take(i as int), "files"@, "filename"@),
            ),
            texts(projects@) == unique_items(
                all_items(all.take(i as int), "projects"@, "name"@),
            ),
            forall|n: Seq<char>| #[trigger]
                texts(seen_files@).contains(n) <==> n.len() > 0 && names(
                    all_items(all.take(i as int), "files"@, "filename"@),
                    n,
                ),
            forall|n: Seq<char>| #[trigger]
                texts(seen_projects@).contains(n) <==> n.len() > 0 && names(
                    all_items(all.take(i as int), "projects"@, "name"@),
                    n,
                ),
        decreases values.len() - i,
    {
        proof {
            assert(all.take(i + 1).drop_last() =~= all.take(i as int));
            assert(all.take(i + 1).last() == values@[i as int]@);
            assert(all[i as int] == values@[i as int]@);
        }
        if parse_values(values[i]).is_none() {
            assert(json_values(all[i as int]) is None);
            return None;
        }
        collect_unique(
            items_at(values[i], "files", "filename"),
            &mut seen_files,
            &mut files,
            Ghost(all_items(all.take(i as int), "files"@, "filename"@)),
        );
        collect_unique(
            items_at(values[i], "projects", "name"),
            &mut seen_projects,
            &mut projects,
            Ghost(all_items(all.take(i as int), "projects"@, "name"@)),
        );
        i += 1;
    }
    assert(all.take(all.len() as int) =~= all);
    let mut merged = RawObject::new();
    merged.insert("meta".to_owned(), "{\"api-version\":\"1.0\"}".to_owned());
    if files.len() > 0 {
        merged.insert("files".to_owned(), array_of(&files));
    }
    if projects.len() > 0 {
        merged.insert("projects".to_owned(), array_of(&projects));
    }
    proof {
        lemma_members_of(merged@);
    }
    let text = merged.text();
    Some((text.as_str().as_bytes_vec(), PYPI_JSON_TYPE.to_owned()))
}

// ---------------------------------------------------------------------------
// PyPI: HTML

/// How many tags are open at the end of `s`.
pub open spec fn tag_depth(s: Seq<char>) -> nat
    decreases s.len(),
{
    if s.len() == 0 {
        0
    } else {
        let d = tag_depth(s.drop_last());
        if s.last() == '<' {
            d + 1
        } else if s.last() == '>' && d > 0 {
            (d - 1) as nat
        } else {
            d
        }
    }
}

/// `s` without its tags.
pub open spec fn without_tags(s: Seq<char>) -> Seq<char>
    decreases s.len(),
{
    if s.len() == 0 {
        Seq::empty()
    } else {
        let p = without_tags(s.drop_last());
        if s.last() == '<' || s.last() == '>' || tag_depth(s.drop_last()) > 0 {
            p
        } else {
            p.push(s.last())
        }
    }
}

/// `s` without its tags.
fn strip_html_tags(value: &str) -> (r: String)
    ensures
        r@ == without_tags(value@),
{
    let v = chars_of(value);
    let mut out = String::new();
    let mut depth: usize = 0;
    let mut i: usize = 0;
    while i < v.len()
        invariant
            i <= v@.len(),
            v@ == value@,
            depth <= i,
            depth == tag_depth(value@.take(i as int)),
            out@ == without_tags(value@.take(i as int)),
        decreases v.len() - i,
    {
        let c = v[i];
        proof {
            assert(value@.take(i + 1).drop_last() =~= value@.take(i as int));
            assert(value@.take(i + 1).last() == c);
        }
        if c == '<' {
            depth += 1;
        } else if c == '>' {
            if depth > 0 {
                depth -= 1;
            }
        } else if depth == 0 {
            out.push(c);
        }
        i += 1;
    }
    assert(value@.take(value@.len() as int) =~= value@);
    out
}

/// `s` with the character references for markup characters and quotes resolved,
/// the ampersand last.
pub open spec fn unescaped(s: Seq<char>) -> Seq<char> {
    let a = replaced(s, "&lt;"@, "<"@);
    let b = replaced(a, "&gt;"@, ">"@);
    let c = replaced(b, "&quot;"@, "\""@);
    let d = replaced(c, "&#34;"@, "\""@);
    let e = replaced(d, "&apos;"@, "'"@);
    let f = replaced(e, "&#39;"@, "'"@);
    replaced(f, "&amp;"@, "&"@)
}

fn unescape_html(value: &str) -> (r: String)
    ensures
        r@ == unescaped(value@),
{
    proof {
        reveal_strlit("&lt;");
        reveal_strlit("&gt;");
        reveal_strlit("&quot;");
        reveal_strlit("&#34;");
        reveal_strlit("&apos;");
        reveal_strlit("&#39;");
        reveal_strlit("&amp;");
    }
    let a = replace(value, "&lt;", "<");
    let b = replace(a.as_str(), "&gt;", ">");
    let c = replace(b.as_str(), "&quot;", "\"");
    let d = replace(c.as_str(), "&#34;", "\"");
    let e = replace(d.as_str(), "&apos;", "'");
    let f = replace(e.as_str(), "&#39;", "'");
    replace(f.as_str(), "&amp;", "&")
}

/// What two anchors have in common when they offer the same file: the text shown,
/// or, where that is empty, the whole anchor.
pub open spec fn anchor_key(anchor: Seq<char>) -> Seq<char> {
    let k = trimmed(unescaped(without_tags(anchor)));
    if k.len() == 0 {
        anchor
    } else {
        k
    }
}

fn key_of_anchor(anchor: &str) -> (r: String)
    ensures
        r@ == anchor_key(anchor@),
{
    let k = trim(unescape_html(strip_html_tags(anchor).as_str()).as_str());
    if k.as_str().is_empty() {
        anchor.to_owned()
    } else {
        k
    }
}

/// The anchors of all documents, in order.
pub open spec fn all_anchors(values: Seq<Seq<u8>>) -> Seq<Seq<char>>
    decreases values.len(),
{
    if values.len() == 0 {
        Seq::empty()
    } else {
        all_anchors(values.drop_last()) + anchors_of(lossy_text(values.last()))
    }
}

/// The keys of the anchors.
pub open spec fn anchor_keys(anchors: Seq<Seq<char>>) -> Seq<Seq<char>> {
    anchors.map_values(|a: Seq<char>| anchor_key(a))
}

/// The anchors whose key no earlier anchor has.
pub open spec fn first_anchors(anchors: Seq<Seq<char>>) -> Seq<Seq<char>>
    decreases anchors.len(),
{
    if anchors.len() == 0 {
        Seq::empty()
    } else {
        let p = first_anchors(anchors.drop_last());
        if anchor_keys(anchors.drop_last()).contains(anchor_key(anchors.last())) {
            p
        } else {
            p.push(anchors.last())
        }
    }
}

/// The anchors of every document can be cut out of it.
pub open spec fn all_can_be_cut(values: Seq<Seq<u8>>) -> bool {
    forall|i: int| 0 <= i < values.len() ==> can_cut(lossy_text(#[trigger] values[i]))
}

/// Whether the anchors of every document can be cut out of it.
pub fn documents_can_be_cut(values: &[&[u8]]) -> (r: bool)
    ensures
        r == all_can_be_cut(bodies(values@)),
{
    let ghost all = bodies(values@);
    let mut i: usize = 0;
    while i < values.len()
        invariant
            i <= values@.len(),
            all == bodies(values@),
            forall|k: int| 0 <= k < i ==> can_cut(lossy_text(#[trigger] all[k])),
        decreases values.len() - i,
    {
        let text = from_utf8_lossy(values[i]);
        assert(all[i as int] == values@[i as int]@);
        if !anchors_can_be_cut(text.as_str()) {
            return false;
        }
        i += 1;
    }
    true
}

/// The merged simple index in HTML.
pub open spec fn pypi_html_text(values: Seq<Seq<u8>>) -> Seq<char> {
    "<!doctype html><html><body>\n"@ + join(first_anchors(all_anchors(values)), "\n"@)
        + "\n</body></html>\n"@
}

fn merge_pypi_html(values: &[&[u8]]) -> (r: Option<(Vec<u8>, String)>)
    requires
        all_can_be_cut(bodies(values@)),
    ensures
        is_document(r, pypi_html_text(bodies(values@)), "text/html; charset=utf-8"@),
{
    let mut seen: Vec<String> = Vec::new();
    let mut anchors: Vec<String> = Vec::new();
    let ghost all = bodies(values@);
    let mut i: usize = 0;
    assert(all.take(0) =~= Seq::empty());
    assert(texts(seen@) =~= anchor_keys(all_anchors(all.take(0))));
    assert(texts(anchors@) =~= Seq::empty());
    while i < values.len()
        invariant
            i <= values@.len(),
            all == bodies(values@),
            all_can_be_cut(all),
            texts(seen@) == anchor_keys(all_anchors(all.take(i as int))),
            texts(anchors@) == first_anchors(all_anchors(all.take(i as int))),
        decreases values.len() - i,
    {
        let text = from_utf8_lossy(values[i]);
        assert(all[i as int] == values@[i as int]@);
        assert(can_cut(lossy_text(all[i as int])));
        let found = find_anchors(text.as_str());
        let ghost before = all_anchors(all.take(i as int));
        let ghost more = anchors_of(text@);
        proof {
            assert(all.take(i + 1).drop_last() =~= all.take(i as int));
            assert(all.take(i + 1).last() == values@[i as int]@);
            assert(before + more.take(0) =~= before);
        }
        let mut j: usize = 0;
        while j < found.len()
            invariant
                j <= found@.len(),
                texts(found@) == more,
                texts(seen@) == anchor_keys(before + more.take(j as int)),
                texts(anchors@) == first_anchors(before + more.take(j as int)),
            decreases found.len() - j,
        {
            let ghost now = before + more.take(j as int);
            let ghost next = before + more.take(j + 1);
            proof {
                assert(next.drop_last() =~= now);
                assert(next.last() == more[j as int]);
                assert(more[j as int] == found@[j as int]@);
            }
            let key = key_of_anchor(found[j].as_str());
            let ghost kept = texts(anchors@);
            let ghost known = texts(seen@);
            let ghost k = key@;
            if !contains_text(&seen, key.as_str()) {
                anchors.push(found[j].clone());
                assert(texts(anchors@) =~= kept.push(more[j as int]));
            }
            seen.push(key);
            proof {
                assert(texts(seen@) =~= known.push(k));
                assert(anchor_keys(next) =~= anchor_keys(now).push(k));
            }
            j += 1;
        }
        assert(more.take(more.len() as int) =~= more);
        i += 1;
    }
    assert(all.take(all.len() as int) =~= all);
    let mut text = "<!doctype html><html><body>\n".to_owned();
    text.append(join_texts(&anchors, 0, anchors.len(), "\n").as_str());
    assert(texts(anchors@).subrange(0, anchors@.len() as int) =~= texts(anchors@));
    text.append("\n</body></html>\n");
    Some((text.as_str().as_bytes_vec(), "text/html; charset=utf-8".to_owned()))
}

/// Merges the members' simple index documents, in the form that the first member
/// answered in. Pages in HTML are such as their anchors can be cut out of.
pub fn merge_pypi_group(values: &[&[u8]], content_type: &str) -> (r: Option<(Vec<u8>, String)>)
    requires
        !contains_seq(content_type@, "json"@) ==> all_can_be_cut(bodies(values@)),
    ensures
        contains_seq(content_type@, "json"@) ==> {
            &&& r is Some <==> all_objects(bodies(values@))
            &&& r is Some ==> is_document(
                r,
                object_text(members_of(pypi_json_map(bodies(values@)))),
                PYPI_JSON_TYPE@,
            )
        },
        !contains_seq(content_type@, "json"@) ==> is_document(
            r,
            pypi_html_text(bodies(values@)),
            "text/html; charset=utf-8"@,
        ),
{
    if contains(content_type, "json") {
        merge_pypi_json(values)
    } else {
        merge_pypi_html(values)
    }
}

// ---------------------------------------------------------------------------
// OCI tags

/// Name and tags of a `tags/list` document; either may be left out.
pub open spec fn tags_document(body: Seq<u8>) -> Option<(Seq<char>, Seq<Seq<char>>)> {
    match record(body, seq!["name"@, "tags"@]) {
        None => None,
        Some(fields) => {
            let name = match fields[0] {
                Some(raw) => json_string(encode_utf8(raw)),
                None => Some(Seq::empty()),
            };
            let tags = match fields[1] {
                Some(raw) => json_string_list(encode_utf8(raw)),
                None => Some(Seq::empty()),
            };
            match (name, tags) {
                (Some(n), Some(t)) => Some((n, t)),
                _ => None,
            }
        },
    }
}

fn read_tags_document(body: &[u8]) -> (r: Option<(String, Vec<String>)>)
    ensures
        match r {
            Some((n, t)) => tags_document(body@) == Some((n@, texts(t@))),
            None => tags_document(body@) is None,
        },
{
    match read_record_of_two(body, "name", "tags") {
        None => None,
        Some((name, tags)) => {
            let name = match name {
                Some(raw) => parse_string(raw.as_str().as_bytes()),
                None => Some(String::new()),
            };
            let tags = match tags {
                Some(raw) => parse_string_list(raw.as_str().as_bytes()),
                None => {
                    let none: Vec<String> = Vec::new();
                    assert(texts(none@) =~= Seq::empty());
                    Some(none)
                },
            };
            match (name, tags) {
                (Some(n), Some(t)) => Some((n, t)),
                _ => None,
            }
        },
    }
}

/// The first name that a document gives.
pub open spec fn tags_name(values: Seq<Seq<u8>>) -> Seq<char>
    decreases values.len(),
{
    if values.len() == 0 {
        Seq::empty()
    } else {
        let p = tags_name(values.drop_last());
        if p.len() == 0 {
            (tags_document(values.last())->0).0
        } else {
            p
        }
    }
}

/// Every document reads, and those that give a name give the same.
pub open spec fn tags_agree(values: Seq<Seq<u8>>) -> bool {
    forall|i: int|
        0 <= i < values.len() ==> (tags_document(#[trigger] values[i]) matches Some((n, _)) && (
        n.len() == 0 || n == tags_name(values.take(i + 1))))
}

/// One of the documents lists the tag `t`.
pub open spec fn tags_list(values: Seq<Seq<u8>>, t: Seq<char>) -> bool {
    exists|i: int|
        0 <= i < values.len() && (tags_document(#[trigger] values[i])->0).1.contains(t)
}

/// `tags` are the tags that the documents list, in ascending order.
pub open spec fn ascending_tags(values: Seq<Seq<u8>>, tags: Seq<Seq<char>>) -> bool {
    &&& ascending(tags)
    &&& forall|t: Seq<char>| #[trigger] tags.contains(t) <==> tags_list(values, t)
}

/// The JSON literals of texts.
pub open spec fn literals(s: Seq<Seq<char>>) -> Seq<Seq<char>> {
    s.map_values(|t: Seq<char>| json_literal(t))
}

/// The text of a `tags/list` document.
pub open spec fn tags_text(name: Seq<char>, tags: Seq<Seq<char>>) -> Seq<char> {
    "{\"name\":"@ + json_literal(name) + ",\"tags\":"@ + array_text(literals(tags)) + "}"@
}

/// The JSON array of strings.
pub fn quoted_array(items: &Vec<String>) -> (r: String)
    ensures
        r@ == array_text(literals(texts(items@))),
{
    let mut quoted: Vec<String> = Vec::new();
    let mut k: usize = 0;
    assert(texts(quoted@) =~= literals(texts(items@).take(0)));
    while k < items.len()
        invariant
            k <= items@.len(),
            texts(quoted@) == literals(texts(items@).take(k as int)),
        decreases items.len() - k,
    {
        let ghost done = texts(quoted@);
        quoted.push(quote(items[k].as_str()));
        proof {
            let x = texts(items@)[k as int];
            assert(texts(quoted@) =~= done.push(json_literal(x)));
            assert(literals(texts(items@).take(k + 1)) =~= literals(
                texts(items@).take(k as int),
            ).push(json_literal(x)));
        }
        k += 1;
    }
    assert(texts(items@).take(items@.len() as int) =~= texts(items@));
    array_of(&quoted)
}

/// Merges the members' `tags/list` responses: the union of their tags in ascending
/// order, under the first name given. A name that differs is refused.
pub fn merge_oci_tags_group(values: &[&[u8]]) -> (r: Option<(Vec<u8>, String)>)
    ensures
        r is Some <==> tags_agree(bodies(values@)),
        r is Some ==> exists|tags: Seq<Seq<char>>|
            ascending_tags(bodies(values@), tags) && #[trigger] is_document(
                r,
                tags_text(tags_name(bodies(values@)), tags),
                "oci-tags"@,
            ),
{
    let mut name = String::new();
    let mut tags: Vec<String> = Vec::new();
    let ghost all = bodies(values@);
    let mut i: usize = 0;
    assert(all.take(0) =~= Seq::empty());
    assert(texts(tags@) =~= Seq::empty());
    while i < values.len()
        invariant
            i <= values@.len(),
            all == bodies(values@),
            name@ == tags_name(all.take(i as int)),
            ascending(texts(tags@)),
            forall|t: Seq<char>| #[trigger]
                texts(tags@).contains(t) <==> tags_list(all.take(i as int), t),
            forall|j: int|
                0 <= j < i ==> (tags_document(#[trigger] all[j]) matches Some((n, _)) && (n.len()
                    == 0 || n == tags_name(all.take(j + 1)))),
        decreases values.len() - i,
    {
        let ghost done = all.take(i as int);
        let ghost next = all.take(i + 1);
        proof {
            assert(next.drop_last() =~= done);
            assert(next.last() == values@[i as int]@);
            assert(all[i as int] == values@[i as int]@);
        }
        let (doc_name, doc_tags) = match read_tags_document(values[i]) {
            Some(d) => d,
            None => {
                assert(tags_document(all[i as int]) is None);
                return None;
            },
        };
        if name.as_str().is_empty() {
            name = doc_name.clone();
        }
        assert(name@ == tags_name(next));
        if !doc_name.as_str().is_empty() && !same(doc_name.as_str(), name.as_str()) {
            assert(!(tags_document(all[i as int]) matches Some((n, _)) && (n.len() == 0 || n
                == tags_name(all.take(i + 1)))));
            return None;
        }
        let ghost before = texts(tags@);
        let ghost listed = texts(doc_tags@);
        let mut j: usize = 0;
        while j < doc_tags.len()
            invariant
                j <= doc_tags@.len(),
                listed == texts(doc_tags@),
                ascending(texts(tags@)),
                forall|v: Seq<char>| #[trigger]
                    texts(tags@).contains(v) <==> before.contains(v) || listed.take(
                        j as int,
                    ).contains(v),
            decreases doc_tags.len() - j,
        {
            insert_sorted(&mut tags, doc_tags[j].clone());
            proof {
                let x = listed[j as int];
                assert(x == doc_tags@[j as int]@);
                assert forall|v: Seq<char>|
                    listed.take(j as int).contains(v) || v == x <==> #[trigger] listed.take(
                        j + 1,
                    ).contains(v) by {
                    let a = listed.take(j as int);
                    let b = listed.take(j + 1);
                    if a.contains(v) {
                        let k = choose|k: int| 0 <= k < a.len() && a[k] == v;
                        assert(b[k] == v);
                    }
                    if b.contains(v) {
                        let k = choose|k: int| 0 <= k < b.len() && b[k] == v;
                        if k < j {
                            assert(a[k] == v);
                        }
                    }
                    assert(b[j as int] == x);
                }
            }
            j += 1;
        }
        proof {
            assert(listed.take(listed.len() as int) =~= listed);
            assert((tags_document(next[i as int])->0).1 == listed);
            assert forall|t: Seq<char>| #[trigger] texts(tags@).contains(t) <==> tags_list(
                next,
                t,
            ) by {
                assert(before.contains(t) <==> tags_list(done, t));
                if tags_list(done, t) {
                    let k = choose|k: int|
                        0 <= k < done.len() && (tags_document(#[trigger] done[k])->0).1.contains(t);
                    assert(next[k] == done[k]);
                }
                if tags_list(next, t) {
                    let k = choose|k: int|
                        0 <= k < next.len() && (tags_document(#[trigger] next[k])->0).1.contains(t);
                    if k < i {
                        assert(done[k] == next[k]);
                    }
                }
            }
        }
        i += 1;
    }
    assert(all.take(all.len() as int) =~= all);
    let mut text = "{\"name\":".to_owned();
    text.append(quote(name.as_str()).as_str());
    text.append(",\"tags\":");
    text.append(quoted_array(&tags).as_str());
    text.append("}");
    let r = Some((text.as_str().as_bytes_vec(), "oci-tags".to_owned()));
    assert(is_document(r, tags_text(tags_name(all), texts(tags@)), "oci-tags"@));
    r
}

} // verus!
