//! What holds of merged indexes, whatever the members answer: nothing that a member
//! lists is lost, nothing is listed twice, and the earlier member is preferred.

use vstd::prelude::*;

use crate::repo::gosemver::is_version;
use crate::repo::group_metadata::{
    all_words, in_version_order, in_version_order_sorts, listed_versions, version_sorted,
};
use crate::repo::merge::{
    all_anchors, all_items, all_lines, anchor_key, anchor_keys, entry_version, entry_versions,
    first_anchors, first_entries, is_named, names, unique_items,
};

verus! {

/// In a merged sparse index every version that a member lists occurs once, in the
/// line of the first member that lists it.
pub proof fn index_lines_come_from_the_first_member(values: Seq<Seq<u8>>)
    ensures
        entry_versions(first_entries(all_lines(values))).no_duplicates(),
        forall|i: int|
            0 <= i < all_lines(values).len() && (forall|j: int|
                0 <= j < i ==> entry_version(#[trigger] all_lines(values)[j])->0 != entry_version(
                    all_lines(values)[i],
                )->0) ==> first_entries(all_lines(values)).contains(#[trigger] all_lines(values)[i]),
        forall|v: Seq<char>| #[trigger]
            entry_versions(first_entries(all_lines(values))).contains(v) <==> entry_versions(
                all_lines(values),
            ).contains(v),
{
    lemma_first_entries(all_lines(values));
}

proof fn lemma_first_entries(lines: Seq<Seq<char>>)
    ensures
        entry_versions(first_entries(lines)).no_duplicates(),
        forall|i: int|
            0 <= i < lines.len() && (forall|j: int|
                0 <= j < i ==> entry_version(#[trigger] lines[j])->0 != entry_version(lines[i])->0)
                ==> first_entries(lines).contains(#[trigger] lines[i]),
        forall|v: Seq<char>| #[trigger]
            entry_versions(first_entries(lines)).contains(v) <==> entry_versions(lines).contains(v),
    decreases lines.len(),
{
    if lines.len() > 0 {
        let init = lines.drop_last();
        lemma_first_entries(init);
        let p = first_entries(init);
        let r = first_entries(lines);
        let x = lines.last();
        let v = entry_version(x)->0;
        let known = entry_versions(init).contains(v);
        assert(entry_versions(lines) =~= entry_versions(init).push(v));
        lemma_push_contains(entry_versions(init), v);
        assert(entry_versions(p).contains(v) <==> known);
        if !known {
            assert(entry_versions(r) =~= entry_versions(p).push(v));
            lemma_push_contains(entry_versions(p), v);
        }
        assert forall|i: int|
            0 <= i < lines.len() && (forall|j: int|
                0 <= j < i ==> entry_version(#[trigger] lines[j])->0 != entry_version(lines[i])->0)
            implies r.contains(#[trigger] lines[i]) by {
            if i < init.len() {
                assert(init[i] == lines[i]);
                assert forall|j: int| 0 <= j < i implies entry_version(#[trigger] init[j])->0
                    != entry_version(init[i])->0 by {
                    assert(init[j] == lines[j]);
                }
                assert(p.contains(init[i]));
                let k = choose|k: int| 0 <= k < p.len() && p[k] == init[i];
                assert(r[k] == lines[i]);
            } else {
                if known {
                    let k = choose|k: int|
                        0 <= k < entry_versions(init).len() && entry_versions(init)[k] == v;
                    assert(entry_version(lines[k])->0 == v);
                }
                assert(r[p.len() as int] == lines[i]);
            }
        }
    }
}

/// In a merged simple index every link that a member lists occurs once, as the first
/// member that lists it writes it.
pub proof fn links_come_from_the_first_member(values: Seq<Seq<u8>>)
    ensures
        anchor_keys(first_anchors(all_anchors(values))).no_duplicates(),
        forall|i: int|
            0 <= i < all_anchors(values).len() && (forall|j: int|
                0 <= j < i ==> anchor_key(#[trigger] all_anchors(values)[j]) != anchor_key(
                    all_anchors(values)[i],
                )) ==> first_anchors(all_anchors(values)).contains(#[trigger] all_anchors(values)[i]),
        forall|k: Seq<char>| #[trigger]
            anchor_keys(first_anchors(all_anchors(values))).contains(k) <==> anchor_keys(
                all_anchors(values),
            ).contains(k),
{
    lemma_first_anchors(all_anchors(values));
}

proof fn lemma_first_anchors(anchors: Seq<Seq<char>>)
    ensures
        anchor_keys(first_anchors(anchors)).no_duplicates(),
        forall|i: int|
            0 <= i < anchors.len() && (forall|j: int|
                0 <= j < i ==> anchor_key(#[trigger] anchors[j]) != anchor_key(anchors[i]))
                ==> first_anchors(anchors).contains(#[trigger] anchors[i]),
        forall|k: Seq<char>| #[trigger]
            anchor_keys(first_anchors(anchors)).contains(k) <==> anchor_keys(anchors).contains(k),
    decreases anchors.len(),
{
    if anchors.len() > 0 {
        let init = anchors.drop_last();
        lemma_first_anchors(init);
        let p = first_anchors(init);
        let r = first_anchors(anchors);
        let x = anchors.last();
        let key = anchor_key(x);
        let known = anchor_keys(init).contains(key);
        assert(anchor_keys(anchors) =~= anchor_keys(init).push(key));
        lemma_push_contains(anchor_keys(init), key);
        assert(anchor_keys(p).contains(key) <==> known);
        if !known {
            assert(anchor_keys(r) =~= anchor_keys(p).push(key));
            lemma_push_contains(anchor_keys(p), key);
        }
        assert forall|i: int|
            0 <= i < anchors.len() && (forall|j: int|
                0 <= j < i ==> anchor_key(#[trigger] anchors[j]) != anchor_key(anchors[i]))
            implies r.contains(#[trigger] anchors[i]) by {
            if i < init.len() {
                assert(init[i] == anchors[i]);
                assert forall|j: int| 0 <= j < i implies anchor_key(#[trigger] init[j])
                    != anchor_key(init[i]) by {
                    assert(init[j] == anchors[j]);
                }
                assert(p.contains(init[i]));
                let k = choose|k: int| 0 <= k < p.len() && p[k] == init[i];
                assert(r[k] == anchors[i]);
            } else {
                if known {
                    let k = choose|k: int|
                        0 <= k < anchor_keys(init).len() && anchor_keys(init)[k] == key;
                    assert(anchor_key(anchors[k]) == key);
                }
                assert(r[p.len() as int] == anchors[i]);
            }
        }
    }
}

/// In a merged simple index in JSON every file and every project that a member names
/// is listed, as the first member that names it describes it.
pub proof fn items_come_from_the_first_member(
    values: Seq<Seq<u8>>,
    key: Seq<char>,
    field: Seq<char>,
    i: int,
)
    requires
        0 <= i < all_items(values, key, field).len(),
        is_named(all_items(values, key, field)[i]),
        !names(all_items(values, key, field).take(i), all_items(values, key, field)[i].0->0),
    ensures
        unique_items(all_items(values, key, field)).contains(all_items(values, key, field)[i].1),
{
    lemma_unique_items(all_items(values, key, field), i);
}

proof fn lemma_unique_items(items: Seq<(Option<Seq<char>>, Seq<char>)>, i: int)
    requires
        0 <= i < items.len(),
        is_named(items[i]),
        !names(items.take(i), items[i].0->0),
    ensures
        unique_items(items).contains(items[i].1),
    decreases items.len(),
{
    let init = items.drop_last();
    let p = unique_items(init);
    let r = unique_items(items);
    if i < init.len() {
        assert(init.take(i) =~= items.take(i));
        lemma_unique_items(init, i);
        let k = choose|k: int| 0 <= k < p.len() && p[k] == items[i].1;
        assert(r[k] == items[i].1);
    } else {
        assert(items.take(i) =~= init);
        assert(r[p.len() as int] == items[i].1);
    }
}

/// A merged version list holds every version that a member lists, and nothing else,
/// each once and in order.
pub proof fn version_lists_are_united(values: Seq<Seq<u8>>)
    ensures
        ({
            let merged = in_version_order(listed_versions(all_words(values)));
            &&& version_sorted(merged)
            &&& merged.no_duplicates()
            &&& forall|v: Seq<char>| #[trigger]
                merged.contains(v) <==> is_version(v) && all_words(values).contains(v)
        }),
{
    let words = all_words(values);
    let listed = listed_versions(words);
    let merged = in_version_order(listed);
    in_version_order_sorts(listed);
    lemma_listed(words);
    listed.lemma_multiset_has_no_duplicates();
    merged.lemma_multiset_has_no_duplicates_conv();
    assert forall|v: Seq<char>| #[trigger] merged.contains(v) <==> is_version(v) && words.contains(
        v,
    ) by {
        merged.to_multiset_ensures();
        listed.to_multiset_ensures();
        assert(merged.contains(v) <==> merged.to_multiset().count(v) > 0);
        assert(listed.contains(v) <==> listed.to_multiset().count(v) > 0);
    }
}

proof fn lemma_listed(s: Seq<Seq<char>>)
    ensures
        listed_versions(s).no_duplicates(),
        forall|v: Seq<char>| #[trigger]
            listed_versions(s).contains(v) <==> is_version(v) && s.contains(v),
    decreases s.len(),
{
    if s.len() > 0 {
        let init = s.drop_last();
        lemma_listed(init);
        lemma_push_contains(init, s.last());
        lemma_push_contains(listed_versions(init), s.last());
        assert(s =~= init.push(s.last()));
    }
}

proof fn lemma_push_contains(s: Seq<Seq<char>>, x: Seq<char>)
    ensures
        forall|v: Seq<char>| #[trigger] s.push(x).contains(v) <==> s.contains(v) || v == x,
{
    let t = s.push(x);
    assert forall|v: Seq<char>| #[trigger] t.contains(v) <==> s.contains(v) || v == x by {
        if s.contains(v) {
            let k = choose|k: int| 0 <= k < s.len() && s[k] == v;
            assert(t[k] == v);
        }
        if t.contains(v) {
            let k = choose|k: int| 0 <= k < t.len() && t[k] == v;
            if k < s.len() {
                assert(s[k] == v);
            }
        }
        assert(t[s.len() as int] == x);
    }
}

} // verus!
