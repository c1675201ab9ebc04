//! Serves `cargo search` for a hosted Cargo repository from its managed publications.
//!
//! Matching is on the crate name only, ignoring case and hyphen/underscore
//! differences, and every whitespace-separated term must occur in the name. Crates
//! whose every version is yanked are left out.

use vstd::prelude::*;

use crate::bridge::{
    form_pairs, is_semver, json_literal, lowercase, pairs, parse_form, quote, semver_at_least,
    semver_ge, semver_parse, to_lowercase,
};
use crate::cut::{cut_last, parse_usize, rsplit_char, usize_value};
use crate::meta::FORMAT_CARGO;
use crate::table::Table;
use crate::text::{
    ascending, cat, chars_of, contains, contains_seq, digits, insert_sorted, join, join_texts,
    lemma_push_contains, lemma_sorted_set, lemma_sorted_set_holds, same, sorted_set,
    split_whitespace, starts, starts_with, texts, utoa, words,
};

verus! {

/// Results per page when cargo names no number.
pub const DEFAULT_PER_PAGE: usize = 10;

/// The largest page cargo can request.
pub const MAX_PER_PAGE: usize = 100;

/// One managed publication.
pub struct ArtifactPublication {
    pub format: String,
    /// `name@version`, as the publisher spelled it.
    pub coordinate: String,
    pub yanked: bool,
}

/// One crate in the result: its display name and highest version that is not yanked.
pub struct CrateHit {
    pub name: String,
    pub max_version: String,
}

// ---------------------------------------------------------------------------
// Names

/// A crate name as it is compared: small letters, hyphens for underscores.
pub open spec fn canonical_name(name: Seq<char>) -> Seq<char> {
    lowercase(name).map_values(
        |c: char|
            if c == '_' {
                '-'
            } else {
                c
            },
    )
}

/// A crate name as it is compared: small letters, hyphens for underscores.
pub fn cargo_canonical_name(name: &str) -> (r: String)
    ensures
        r@ == canonical_name(name@),
{
    let low = to_lowercase(name);
    let v = chars_of(low.as_str());
    let mut out = String::new();
    let mut i: usize = 0;
    let ghost want = canonical_name(name@);
    while i < v.len()
        invariant
            i <= v@.len(),
            v@ == lowercase(name@),
            want == canonical_name(name@),
            out@ == want.take(i as int),
        decreases v@.len() - i,
    {
        if v[i] == '_' {
            out.push('-');
        } else {
            out.push(v[i]);
        }
        i += 1;
        assert(want.take(i as int) =~= want.take(i - 1).push(want[i - 1]));
    }
    assert(want.take(v@.len() as int) =~= want);
    out
}

// ---------------------------------------------------------------------------
// The query

/// The canonical forms of texts.
pub open spec fn canonical_names(s: Seq<Seq<char>>) -> Seq<Seq<char>> {
    s.map_values(|t: Seq<char>| canonical_name(t))
}

/// The search terms of a query: those of its last `q`.
pub open spec fn terms_in(query: Seq<(Seq<char>, Seq<char>)>) -> Seq<Seq<char>>
    decreases query.len(),
{
    if query.len() == 0 {
        Seq::empty()
    } else if query.last().0 == "q"@ {
        canonical_names(words(query.last().1))
    } else {
        terms_in(query.drop_last())
    }
}

/// `n`, moved into the range of page sizes.
pub open spec fn page_size(n: int) -> int {
    if n < 1 {
        1
    } else if n > MAX_PER_PAGE {
        MAX_PER_PAGE as int
    } else {
        n
    }
}

/// The page size of a query: that of its last `per_page` that is a number.
pub open spec fn page_in(query: Seq<(Seq<char>, Seq<char>)>) -> int
    decreases query.len(),
{
    if query.len() == 0 {
        DEFAULT_PER_PAGE as int
    } else if query.last().0 == "per_page"@ && usize_value(query.last().1) is Some {
        page_size(usize_value(query.last().1)->0)
    } else {
        page_in(query.drop_last())
    }
}

fn canonical_terms(value: &str) -> (r: Vec<String>)
    ensures
        texts(r@) == canonical_names(words(value@)),
{
    let all = split_whitespace(value);
    let mut out: Vec<String> = Vec::new();
    let mut i: usize = 0;
    let ghost want = canonical_names(words(value@));
    while i < all.len()
        invariant
            i <= all@.len(),
            texts(all@) == words(value@),
            want == canonical_names(words(value@)),
            texts(out@) == want.take(i as int),
        decreases all@.len() - i,
    {
        assert(texts(all@)[i as int] == all@[i as int]@);
        let name = cargo_canonical_name(all[i].as_str());
        out.push(name);
        i += 1;
        assert(texts(out@) =~= want.take(i - 1).push(want[i - 1]));
        assert(want.take(i as int) =~= want.take(i - 1).push(want[i - 1]));
    }
    assert(texts(all@).len() == all@.len());
    assert(want.take(all@.len() as int) =~= want);
    out
}

/// Reads the canonical search terms and the page size from the query string.
pub fn search_params(query: &str) -> (r: (Vec<String>, usize))
    ensures
        texts(r.0@) == terms_in(form_pairs(query@)),
        r.1 == page_in(form_pairs(query@)),
        1 <= r.1 <= MAX_PER_PAGE,
{
    let all = parse_form(query);
    let ghost q = form_pairs(query@);
    let mut terms: Vec<String> = Vec::new();
    let mut per_page: usize = DEFAULT_PER_PAGE;
    let mut i: usize = 0;
    assert(q.take(0) =~= Seq::empty());
    assert(texts(terms@) =~= Seq::empty());
    proof {
        reveal_strlit("q");
        reveal_strlit("per_page");
        assert("q"@.len() != "per_page"@.len());
    }
    while i < all.len()
        invariant
            i <= all@.len(),
            pairs(all@) == q,
            "q"@ != "per_page"@,
            texts(terms@) == terms_in(q.take(i as int)),
            per_page == page_in(q.take(i as int)),
            1 <= per_page <= MAX_PER_PAGE,
        decreases all@.len() - i,
    {
        proof {
            assert(q[i as int] == (all@[i as int].0@, all@[i as int].1@));
            assert(q.take(i + 1).drop_last() =~= q.take(i as int));
            assert(q.take(i + 1).last() == q[i as int]);
        }
        if same(all[i].0.as_str(), "q") {
            terms = canonical_terms(all[i].1.as_str());
        } else if same(all[i].0.as_str(), "per_page") {
            if let Some(n) = parse_usize(all[i].1.as_str()) {
                per_page = if n < 1 {
                    1
                } else if n > MAX_PER_PAGE {
                    MAX_PER_PAGE
                } else {
                    n
                };
            }
        }
        i += 1;
    }
    assert(pairs(all@).len() == all@.len());
    assert(q.take(q.len() as int) =~= q);
    (terms, per_page)
}

// ---------------------------------------------------------------------------
// Ranking

/// Every term occurs in the name.
pub open spec fn all_occur(terms: Seq<Seq<char>>, name: Seq<char>) -> bool {
    forall|i: int| 0 <= i < terms.len() ==> contains_seq(name, #[trigger] terms[i])
}

fn every_term_occurs(terms: &Vec<String>, name: &str) -> (r: bool)
    ensures
        r == all_occur(texts(terms@), name@),
{
    let mut i: usize = 0;
    while i < terms.len()
        invariant
            i <= terms@.len(),
            forall|j: int| 0 <= j < i ==> contains_seq(name@, #[trigger] texts(terms@)[j]),
        decreases terms@.len() - i,
    {
        assert(texts(terms@)[i as int] == terms@[i as int]@);
        if !contains(name, terms[i].as_str()) {
            return false;
        }
        i += 1;
    }
    true
}

/// The crate version that a publication offers: its canonical name, its own spelling
/// and its version. Nothing where it is no live Cargo publication, or where a term
/// does not occur in its name.
pub open spec fn offer(p: ArtifactPublication, terms: Seq<Seq<char>>) -> Option<
    (Seq<char>, Seq<char>, Seq<char>),
> {
    if p.format@ != FORMAT_CARGO@ || p.yanked {
        None
    } else {
        match cut_last(p.coordinate@, '@') {
            Some((name, version)) => if is_semver(version) && all_occur(
                terms,
                canonical_name(name),
            ) {
                Some((canonical_name(name), name, version))
            } else {
                None
            },
            None => None,
        }
    }
}

/// The crates that the publications offer, by canonical name: the spelling and the
/// version of the first of the highest offers.
pub open spec fn crates_of(pubs: Seq<ArtifactPublication>, terms: Seq<Seq<char>>) -> Map<
    Seq<char>,
    (Seq<char>, Seq<char>),
>
    decreases pubs.len(),
{
    if pubs.len() == 0 {
        Map::empty()
    } else {
        let before = crates_of(pubs.drop_last(), terms);
        match offer(pubs.last(), terms) {
            Some((canonical, name, version)) => if before.contains_key(canonical)
                && semver_at_least(before[canonical].1, version) {
                before
            } else {
                before.insert(canonical, (name, version))
            },
            None => before,
        }
    }
}

/// `version` is at least as high as every version that the publications offer of the
/// crate `k`.
pub open spec fn is_highest(
    pubs: Seq<ArtifactPublication>,
    terms: Seq<Seq<char>>,
    k: Seq<char>,
    version: Seq<char>,
) -> bool {
    forall|i: int|
        0 <= i < pubs.len() && offer(#[trigger] pubs[i], terms) is Some && (offer(
            pubs[i],
            terms,
        )->0).0 == k ==> (offer(pubs[i], terms)->0).2 == version || semver_at_least(
            version,
            (offer(pubs[i], terms)->0).2,
        )
}

/// How well a name fits: exactly, from its start on, or anywhere.
pub open spec fn score(canonical: Seq<char>, terms: Seq<Seq<char>>) -> int {
    if terms.len() > 0 && canonical == join(terms, "-"@) {
        0
    } else if terms.len() == 0 || starts(canonical, terms[0]) {
        1
    } else {
        2
    }
}

/// The canonical names that the publications offer and that fit this well.
pub open spec fn names_scored(
    pubs: Seq<ArtifactPublication>,
    terms: Seq<Seq<char>>,
    n: int,
) -> Seq<Seq<char>>
    decreases pubs.len(),
{
    if pubs.len() == 0 {
        Seq::empty()
    } else {
        let before = names_scored(pubs.drop_last(), terms, n);
        match offer(pubs.last(), terms) {
            Some((canonical, _, _)) => if score(canonical, terms) == n {
                before.push(canonical)
            } else {
                before
            },
            None => before,
        }
    }
}

/// The canonical names of the result, in order: an exact match first, then names
/// that start with the first term, then the rest, each group alphabetically.
pub open spec fn ranked_names(pubs: Seq<ArtifactPublication>, terms: Seq<Seq<char>>) -> Seq<
    Seq<char>,
> {
    sorted_set(names_scored(pubs, terms, 0)) + sorted_set(names_scored(pubs, terms, 1))
        + sorted_set(names_scored(pubs, terms, 2))
}

/// The views of hits.
pub open spec fn hit_views(v: Seq<CrateHit>) -> Seq<(Seq<char>, Seq<char>)> {
    v.map_values(|h: CrateHit| (h.name@, h.max_version@))
}

/// The result of a search.
pub open spec fn ranked(pubs: Seq<ArtifactPublication>, terms: Seq<Seq<char>>) -> Seq<
    (Seq<char>, Seq<char>),
> {
    let m = crates_of(pubs, terms);
    ranked_names(pubs, terms).map_values(|k: Seq<char>| m[k])
}

/// The texts inside a table.
pub open spec fn crate_views(m: Map<Seq<char>, (String, String)>) -> Map<
    Seq<char>,
    (Seq<char>, Seq<char>),
> {
    Map::new(|k: Seq<char>| m.contains_key(k), |k: Seq<char>| (m[k].0@, m[k].1@))
}

fn score_of(canonical: &str, terms: &Vec<String>, exact: &str) -> (r: usize)
    requires
        exact@ == join(texts(terms@), "-"@),
    ensures
        r == score(canonical@, texts(terms@)),
{
    assert(texts(terms@).len() == terms@.len());
    if terms.len() > 0 && same(canonical, exact) {
        return 0;
    }
    if terms.len() == 0 {
        return 1;
    }
    assert(texts(terms@)[0] == terms@[0]@);
    if starts_with(canonical, terms[0].as_str()) {
        1
    } else {
        2
    }
}

/// The crate version that a publication offers.
fn read_offer(p: &ArtifactPublication, terms: &Vec<String>) -> (r: Option<(String, String, String)>)
    ensures
        match r {
            Some((c, n, v)) => offer(*p, texts(terms@)) == Some((c@, n@, v@)) && is_semver(v@),
            None => offer(*p, texts(terms@)) is None,
        },
{
    if !same(p.format.as_str(), FORMAT_CARGO) || p.yanked {
        return None;
    }
    let (name, version) = match rsplit_char(p.coordinate.as_str(), '@') {
        Some(cut) => cut,
        None => return None,
    };
    let version = match semver_parse(version.as_str()) {
        Some(v) => v,
        None => return None,
    };
    let canonical = cargo_canonical_name(name.as_str());
    if !every_term_occurs(terms, canonical.as_str()) {
        return None;
    }
    Some((canonical, name, version))
}

/// Every name that is ranked has a crate, and every version in a crate is one.
proof fn lemma_crates(pubs: Seq<ArtifactPublication>, terms: Seq<Seq<char>>)
    ensures
        forall|n: int, k: Seq<char>| #[trigger]
            names_scored(pubs, terms, n).contains(k) ==> crates_of(pubs, terms).contains_key(k)
                && score(k, terms) == n,
        forall|k: Seq<char>| #[trigger]
            crates_of(pubs, terms).contains_key(k) ==> is_semver(crates_of(pubs, terms)[k].1)
                && names_scored(pubs, terms, score(k, terms)).contains(k),
    decreases pubs.len(),
{
    if pubs.len() > 0 {
        let front = pubs.drop_last();
        lemma_crates(front, terms);
        assert forall|n: int, k: Seq<char>| #[trigger]
            names_scored(pubs, terms, n).contains(k) implies crates_of(pubs, terms).contains_key(k)
            && score(k, terms) == n by {
            if let Some((c, _, _)) = offer(pubs.last(), terms) {
                if score(c, terms) == n {
                    lemma_push_contains(names_scored(front, terms, n), c);
                }
            }
            if names_scored(front, terms, n).contains(k) {
            }
        }
        assert forall|k: Seq<char>| #[trigger] crates_of(pubs, terms).contains_key(k) implies is_semver(
            crates_of(pubs, terms)[k].1,
        ) && names_scored(pubs, terms, score(k, terms)).contains(k) by {
            let n = score(k, terms);
            if let Some((c, _, _)) = offer(pubs.last(), terms) {
                lemma_push_contains(names_scored(front, terms, n), c);
            }
            if crates_of(front, terms).contains_key(k) {
                assert(names_scored(front, terms, n).contains(k));
            }
        }
    }
}

fn hits_for(names: &Vec<String>, crates: &Table<(String, String)>, hits: &mut Vec<CrateHit>)
    requires
        crates.wf(),
        forall|i: int| 0 <= i < names@.len() ==> crates@.contains_key((#[trigger] names@[i])@),
    ensures
        hit_views(final(hits)@) == hit_views(old(hits)@) + texts(names@).map_values(
            |k: Seq<char>| crate_views(crates@)[k],
        ),
{
    let ghost before = hit_views(hits@);
    let ghost want = texts(names@).map_values(|k: Seq<char>| crate_views(crates@)[k]);
    let mut i: usize = 0;
    assert(hit_views(hits@) =~= before + want.take(0));
    while i < names.len()
        invariant
            i <= names@.len(),
            crates.wf(),
            want == texts(names@).map_values(|k: Seq<char>| crate_views(crates@)[k]),
            forall|i: int| 0 <= i < names@.len() ==> crates@.contains_key((#[trigger] names@[i])@),
            hit_views(hits@) == before + want.take(i as int),
        decreases names@.len() - i,
    {
        assert(crates@.contains_key(names@[i as int]@));
        assert(texts(names@)[i as int] == names@[i as int]@);
        if let Some(c) = crates.get(names[i].as_str()) {
            let hit = CrateHit {
                name: c.0.as_str().to_owned(),
                max_version: c.1.as_str().to_owned(),
            };
            let ghost now = hit_views(hits@);
            let ghost h = (hit.name@, hit.max_version@);
            hits.push(hit);
            assert(hit_views(hits@) =~= now.push(h));
            assert(want[i as int] == h);
            assert(want.take(i + 1) =~= want.take(i as int).push(h));
            assert(hit_views(hits@) =~= before + want.take(i + 1));
        }
        i += 1;
    }
    assert(texts(names@).len() == names@.len());
    assert(want.take(names@.len() as int) =~= want);
}

/// Groups Cargo publications into crates, keeps those whose name contains every
/// term, and orders them: an exact name match first, then names that start with the
/// first term, then the rest, each group alphabetically.
pub fn rank_crates(publications: &Vec<ArtifactPublication>, terms: &Vec<String>) -> (r: Vec<
    CrateHit,
>)
    ensures
        hit_views(r@) == ranked(publications@, texts(terms@)),
        forall|k: Seq<char>| #[trigger]
            crates_of(publications@, texts(terms@)).contains_key(k) ==> is_highest(
                publications@,
                texts(terms@),
                k,
                crates_of(publications@, texts(terms@))[k].1,
            ),
{
    let ghost t = texts(terms@);
    let ghost pubs = publications@;
    let exact = join_texts(terms, 0, terms.len(), "-");
    assert(t.subrange(0, terms@.len() as int) =~= t);
    let mut crates: Table<(String, String)> = Table::new();
    let mut first: Vec<String> = Vec::new();
    let mut second: Vec<String> = Vec::new();
    let mut third: Vec<String> = Vec::new();
    let mut i: usize = 0;
    proof {
        assert(pubs.take(0) =~= Seq::empty());
        assert(crate_views(crates@) =~= Map::empty());
        assert(texts(first@) =~= Seq::empty());
        assert(texts(second@) =~= Seq::empty());
        assert(texts(third@) =~= Seq::empty());
    }
    while i < publications.len()
        invariant
            i <= pubs.len(),
            pubs == publications@,
            t == texts(terms@),
            exact@ == join(t, "-"@),
            crates.wf(),
            crate_views(crates@) == crates_of(pubs.take(i as int), t),
            forall|k: Seq<char>| #[trigger]
                crates_of(pubs.take(i as int), t).contains_key(k) ==> is_highest(
                    pubs.take(i as int),
                    t,
                    k,
                    crates_of(pubs.take(i as int), t)[k].1,
                ),
            ascending(texts(first@)),
            ascending(texts(second@)),
            ascending(texts(third@)),
            forall|x: Seq<char>| #[trigger]
                texts(first@).contains(x) <==> names_scored(pubs.take(i as int), t, 0).contains(x),
            forall|x: Seq<char>| #[trigger]
                texts(second@).contains(x) <==> names_scored(pubs.take(i as int), t, 1).contains(x),
            forall|x: Seq<char>| #[trigger]
                texts(third@).contains(x) <==> names_scored(pubs.take(i as int), t, 2).contains(x),
        decreases pubs.len() - i,
    {
        let ghost front = pubs.take(i as int);
        let ghost next = pubs.take(i + 1);
        proof {
            assert(next.drop_last() =~= front);
            assert(next.last() == pubs[i as int]);
            lemma_crates(front, t);
            assert forall|j: int| 0 <= j < front.len() implies #[trigger] next[j] == front[j] by {}
        }
        if let Some((canonical, name, version)) = read_offer(&publications[i], terms) {
            let ghost c = canonical@;
            let ghost before = crate_views(crates@);
            proof {
                lemma_push_contains(names_scored(front, t, 0), c);
                lemma_push_contains(names_scored(front, t, 1), c);
                lemma_push_contains(names_scored(front, t, 2), c);
            }
            let ghost was = crates_of(front, t);
            let ghost new = version@;
            let keep = match crates.get(canonical.as_str()) {
                Some(entry) => {
                    assert(before.contains_key(c));
                    semver_ge(entry.1.as_str(), version.as_str())
                },
                None => false,
            };
            if !keep {
                let ghost nv = (name@, version@);
                crates.insert(canonical.as_str(), (name, version));
                assert(crate_views(crates@) =~= before.insert(c, nv));
            }
            proof {
                let now = crates_of(next, t);
                assert forall|k: Seq<char>| #[trigger] now.contains_key(k) implies is_highest(
                    next,
                    t,
                    k,
                    now[k].1,
                ) by {
                    lemma_still_highest(front, next, t, k, was, now, c, new);
                }
            }
            match score_of(canonical.as_str(), terms, exact.as_str()) {
                0 => insert_sorted(&mut first, canonical),
                1 => insert_sorted(&mut second, canonical),
                _ => insert_sorted(&mut third, canonical),
            }
        }
        proof {
            if offer(pubs[i as int], t) is None {
                assert forall|k: Seq<char>| #[trigger]
                    crates_of(next, t).contains_key(k) implies is_highest(
                    next,
                    t,
                    k,
                    crates_of(next, t)[k].1,
                ) by {
                    assert(is_highest(front, t, k, crates_of(front, t)[k].1));
                    assert forall|j: int|
                        0 <= j < next.len() && offer(#[trigger] next[j], t) is Some && (offer(
                            next[j],
                            t,
                        )->0).0 == k implies (offer(next[j], t)->0).2 == crates_of(next, t)[k].1
                        || semver_at_least(crates_of(next, t)[k].1, (offer(next[j], t)->0).2) by {
                        assert(next[j] == front[j]);
                    }
                }
            }
        }
        i += 1;
    }
    assert(pubs.take(pubs.len() as int) =~= pubs);
    let mut hits: Vec<CrateHit> = Vec::new();
    proof {
        lemma_crates(pubs, t);
        lemma_sorted_set(texts(first@), names_scored(pubs, t, 0));
        lemma_sorted_set(texts(second@), names_scored(pubs, t, 1));
        lemma_sorted_set(texts(third@), names_scored(pubs, t, 2));
        lemma_all_known(&first, names_scored(pubs, t, 0), crates@, crates_of(pubs, t));
        lemma_all_known(&second, names_scored(pubs, t, 1), crates@, crates_of(pubs, t));
        lemma_all_known(&third, names_scored(pubs, t, 2), crates@, crates_of(pubs, t));
        assert(hit_views(hits@) =~= Seq::empty());
    }
    hits_for(&first, &crates, &mut hits);
    hits_for(&second, &crates, &mut hits);
    hits_for(&third, &crates, &mut hits);
    assert(hit_views(hits@) =~= ranked(pubs, t));
    hits
}

proof fn lemma_still_highest(
    front: Seq<ArtifactPublication>,
    next: Seq<ArtifactPublication>,
    t: Seq<Seq<char>>,
    k: Seq<char>,
    was: Map<Seq<char>, (Seq<char>, Seq<char>)>,
    now: Map<Seq<char>, (Seq<char>, Seq<char>)>,
    c: Seq<char>,
    new: Seq<char>,
)
    requires
        next.len() == front.len() + 1,
        forall|j: int| 0 <= j < front.len() ==> next[j] == #[trigger] front[j],
        was == crates_of(front, t),
        offer(next.last(), t) is Some,
        (offer(next.last(), t)->0).0 == c,
        (offer(next.last(), t)->0).2 == new,
        now.contains_key(k),
        was.contains_key(k) ==> is_highest(front, t, k, was[k].1),
        k != c ==> was.contains_key(k) && now[k] == was[k],
        k == c && was.contains_key(c) ==> (now[c] == was[c] && semver_at_least(was[c].1, new)) || (
        now[c].1 == new && semver_at_least(new, was[c].1) && forall|x: Seq<char>|
            is_semver(x) && #[trigger] semver_at_least(was[c].1, x) ==> semver_at_least(new, x)),
        k == c && !was.contains_key(c) ==> now[c].1 == new,
    ensures
        is_highest(next, t, k, now[k].1),
{
    let best = now[k].1;
    assert forall|i: int|
        0 <= i < next.len() && offer(#[trigger] next[i], t) is Some && (offer(next[i], t)->0).0
            == k implies (offer(next[i], t)->0).2 == best || semver_at_least(
        best,
        (offer(next[i], t)->0).2,
    ) by {
        if i < front.len() {
            assert(next[i] == front[i]);
            if !was.contains_key(k) {
                listed_crates_are_those_offered(front, t, k);
            }
        } else {
            assert(next[i] == next.last());
        }
    }
}

proof fn lemma_all_known(
    names: &Vec<String>,
    scored: Seq<Seq<char>>,
    crates: Map<Seq<char>, (String, String)>,
    m: Map<Seq<char>, (Seq<char>, Seq<char>)>,
)
    requires
        crate_views(crates) == m,
        forall|x: Seq<char>| #[trigger] texts(names@).contains(x) <==> scored.contains(x),
        forall|x: Seq<char>| #[trigger] scored.contains(x) ==> m.contains_key(x),
    ensures
        forall|i: int| 0 <= i < names@.len() ==> crates.contains_key((#[trigger] names@[i])@),
{
    assert forall|i: int| 0 <= i < names@.len() implies crates.contains_key(
        (#[trigger] names@[i])@,
    ) by {
        assert(texts(names@)[i] == names@[i]@);
        assert(texts(names@).contains(names@[i]@));
        assert(scored.contains(names@[i]@));
        assert(m.contains_key(names@[i]@));
    }
}

// ---------------------------------------------------------------------------
// Bodies

/// One search result.
pub open spec fn summary_text(
    name: Seq<char>,
    version: Seq<char>,
    description: Seq<char>,
) -> Seq<char> {
    "{\"name\":"@ + json_literal(name) + ",\"max_version\":"@ + json_literal(version)
        + ",\"description\":"@ + json_literal(description) + "}"@
}

/// Renders one search result.
pub fn crate_summary_body(hit: &CrateHit, description: &str) -> (r: String)
    ensures
        r@ == summary_text(hit.name@, hit.max_version@, description@),
{
    let d = quote(description);
    let v = quote(hit.max_version.as_str());
    let n = quote(hit.name.as_str());
    let mut out = cat("{\"name\":", n.as_str());
    out.append(",\"max_version\":");
    out.append(v.as_str());
    out.append(",\"description\":");
    out.append(d.as_str());
    out.append("}");
    out
}

/// The answer to a search: a page of results and the number of all.
pub fn search_body(crates: &Vec<String>, total: u64) -> (r: String)
    ensures
        r@ == "{\"crates\":["@ + join(texts(crates@), ","@) + "],\"meta\":{\"total\":"@ + digits(
            total as nat,
        ) + "}}"@,
{
    let list = join_texts(crates, 0, crates.len(), ",");
    assert(texts(crates@).subrange(0, crates@.len() as int) =~= texts(crates@));
    let n = utoa(total);
    let mut out = cat("{\"crates\":[", list.as_str());
    out.append("],\"meta\":{\"total\":");
    out.append(n.as_str());
    out.append("}}");
    out
}

/// The path under which the crate file of a hit is stored.
pub fn hit_path(hit: &CrateHit) -> (r: String)
    ensures
        r@ == "api/v1/crates/"@ + hit.name@ + "/"@ + hit.max_version@ + "/download"@,
{
    let mut out = cat("api/v1/crates/", hit.name.as_str());
    out.append("/");
    out.append(hit.max_version.as_str());
    out.append("/download");
    out
}

// ---------------------------------------------------------------------------
// Laws

/// A crate is listed exactly where a live publication offers it under a name in
/// which every term occurs.
pub proof fn listed_crates_are_those_offered(
    pubs: Seq<ArtifactPublication>,
    terms: Seq<Seq<char>>,
    k: Seq<char>,
)
    ensures
        crates_of(pubs, terms).contains_key(k) <==> exists|i: int|
            0 <= i < pubs.len() && offer(#[trigger] pubs[i], terms) is Some && (offer(
                pubs[i],
                terms,
            )->0).0 == k,
    decreases pubs.len(),
{
    if pubs.len() > 0 {
        let front = pubs.drop_last();
        listed_crates_are_those_offered(front, terms, k);
        if crates_of(pubs, terms).contains_key(k) {
            if crates_of(front, terms).contains_key(k) {
                let i = choose|i: int|
                    0 <= i < front.len() && offer(#[trigger] front[i], terms) is Some && (offer(
                        front[i],
                        terms,
                    )->0).0 == k;
                assert(pubs[i] == front[i]);
            } else {
                assert(pubs[pubs.len() - 1] == pubs.last());
            }
        }
        if exists|i: int|
            0 <= i < pubs.len() && offer(#[trigger] pubs[i], terms) is Some && (offer(
                pubs[i],
                terms,
            )->0).0 == k {
            let i = choose|i: int|
                0 <= i < pubs.len() && offer(#[trigger] pubs[i], terms) is Some && (offer(
                    pubs[i],
                    terms,
                )->0).0 == k;
            if i < front.len() {
                assert(front[i] == pubs[i]);
            }
        }
    }
}

/// What is yanked, or is no Cargo publication, changes no result.
pub proof fn yanked_versions_do_not_count(
    pubs: Seq<ArtifactPublication>,
    p: ArtifactPublication,
    terms: Seq<Seq<char>>,
)
    requires
        p.yanked || p.format@ != FORMAT_CARGO@,
    ensures
        ranked(pubs.push(p), terms) == ranked(pubs, terms),
{
    assert(pubs.push(p).drop_last() =~= pubs);
}

/// An exact match comes before everything else.
pub proof fn exact_match_comes_first(pubs: Seq<ArtifactPublication>, terms: Seq<Seq<char>>)
    requires
        terms.len() > 0,
        crates_of(pubs, terms).contains_key(join(terms, "-"@)),
    ensures
        ranked(pubs, terms).len() > 0,
        ranked_names(pubs, terms)[0] == join(terms, "-"@),
{
    let exact = join(terms, "-"@);
    lemma_crates(pubs, terms);
    lemma_sorted_set_holds(names_scored(pubs, terms, 0));
    let s = sorted_set(names_scored(pubs, terms, 0));
    assert(names_scored(pubs, terms, 0).contains(exact));
    assert(s.contains(exact));
    assert(s.contains(s[0]));
    assert(names_scored(pubs, terms, 0).contains(s[0]));
    assert(ranked_names(pubs, terms)[0] == s[0]);
}

proof fn lemma_spelling(pubs: Seq<ArtifactPublication>, terms: Seq<Seq<char>>, k: Seq<char>)
    requires
        crates_of(pubs, terms).contains_key(k),
    ensures
        canonical_name(crates_of(pubs, terms)[k].0) == k,
    decreases pubs.len(),
{
    if pubs.len() > 0 {
        if crates_of(pubs.drop_last(), terms).contains_key(k) {
            lemma_spelling(pubs.drop_last(), terms, k);
        }
    }
}

/// The version of a crate in a search result is the highest on offer: whatever other
/// version a live publication offers under that name, wherever among the publications it
/// stands, the one listed is at least as high.
pub proof fn searches_list_the_highest_version(
    publications: &Vec<ArtifactPublication>,
    terms: &Vec<String>,
    r: Vec<CrateHit>,
    h: int,
    i: int,
    name: Seq<char>,
    version: Seq<char>,
)
    requires
        call_ensures(rank_crates, (publications, terms), r),
        0 <= h < r@.len(),
        0 <= i < publications@.len(),
        publications@[i].format@ == "cargo"@,
        !publications@[i].yanked,
        cut_last(publications@[i].coordinate@, '@') == Some((name, version)),
        is_semver(version),
        all_occur(texts(terms@), canonical_name(name)),
        canonical_name(r@[h].name@) == canonical_name(name),
    ensures
        r@[h].max_version@ == version || semver_at_least(r@[h].max_version@, version),
{
    let pubs = publications@;
    let t = texts(terms@);
    let m = crates_of(pubs, t);
    let names = ranked_names(pubs, t);
    let k = names[h];
    assert(hit_views(r@).len() == r@.len());
    assert(ranked(pubs, t).len() == names.len());
    assert(hit_views(r@)[h] == (r@[h].name@, r@[h].max_version@));
    assert(ranked(pubs, t)[h] == m[k]);
    lemma_crates(pubs, t);
    lemma_sorted_set_holds(names_scored(pubs, t, 0));
    lemma_sorted_set_holds(names_scored(pubs, t, 1));
    lemma_sorted_set_holds(names_scored(pubs, t, 2));
    let (a, b, c) = (
        sorted_set(names_scored(pubs, t, 0)),
        sorted_set(names_scored(pubs, t, 1)),
        sorted_set(names_scored(pubs, t, 2)),
    );
    if h < a.len() {
        assert(a.contains(k));
    } else if h < a.len() + b.len() {
        assert(k == b[h - a.len()]);
        assert(b.contains(k));
    } else {
        assert(k == c[h - a.len() - b.len()]);
        assert(c.contains(k));
    }
    assert(m.contains_key(k));
    lemma_spelling(pubs, t, k);
    assert(is_highest(pubs, t, k, m[k].1));
    assert(offer(pubs[i], t) == Some((k, name, version)));
}

} // verus!
