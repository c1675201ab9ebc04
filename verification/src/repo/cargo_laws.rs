//! What a Cargo registry answers: which crate and version a path means, which call of the
//! web API a request makes, and what a search finds.

use vstd::prelude::*;

use crate::bridge::{form_pairs, is_semver, json_literal, lowercase, semver_at_least};
use crate::cut::{cut_last, last_place, usize_value};
use crate::meta::{RepoType, FORMAT_CARGO};
use crate::repo::cargo::{
    api_call_of, api_need, api_refusal, cargo_base, cargo_config, cargo_kind_of, cargo_package_of,
    cargo_type_of, cargo_version_of, config_text, error_body, external_base, external_base_of,
    handle_cargo, need_of, version_identity, yank_identity, yank_lookup_refusal, ApiCall, ApiReply,
    CargoApiOp, CargoStep, Found, Need,
};
use crate::repo::cargo_search::{
    canonical_name, crates_of, listed_crates_are_those_offered, names_scored, offer, page_in,
    ranked_names, score, search_params, summary_text, terms_in, ArtifactPublication,
};
use crate::repo::engine::Kind;
use crate::repo::path_laws::{
    last_element_is_the_file, lemma_cut_behind, lemma_ends_last, lemma_ends_with_tail,
    lemma_one_piece, lemma_split_behind,
};
use crate::repo::reply::Method;
use crate::text::{
    ascending, contains_seq, ends, find_in, join, lemma_find_from, lemma_sorted_set_holds,
    occurs_at, sorted_set, split, starts, text_lt, texts, words,
};

verus! {

// ---------------------------------------------------------------------------
// Paths

proof fn lemma_literals()
    ensures
        "api/v1/crates/"@.len() == 14,
        "api/v1/crates/"@ == "api/v1/"@ + ("crates"@ + "/"@),
        "api/v1/"@.len() == 7,
        "crates"@.len() == 6,
        !"crates"@.contains('/'),
        "crates"@.last() == 's',
        "/"@ == seq!['/'],
        "/download"@.len() == 9,
        "/download"@ == "/"@ + "download"@,
        "/download"@.last() == 'd',
        !"download"@.contains('/'),
        "/yank"@ == "/"@ + "yank"@,
        "/unyank"@ == "/"@ + "unyank"@,
        !"yank"@.contains('/'),
        !"unyank"@.contains('/'),
        "yank"@.len() == 4 && "yank"@.last() == 'k',
        "unyank"@.len() == 6 && "unyank"@.last() == 'k',
        "new"@.len() == 3 && "new"@.last() == 'w',
        !"new"@.contains('/'),
        "config.json"@.len() == 11,
        "config.json"@[0] == 'c',
        "api/v1/crates/"@[0] == 'a',
        ""@ == Seq::<char>::empty(),
{
    reveal_strlit("api/v1/crates/");
    reveal_strlit("api/v1/");
    reveal_strlit("crates");
    reveal_strlit("/");
    reveal_strlit("/download");
    reveal_strlit("download");
    reveal_strlit("/yank");
    reveal_strlit("/unyank");
    reveal_strlit("yank");
    reveal_strlit("unyank");
    reveal_strlit("new");
    reveal_strlit("config.json");
    reveal_strlit("");
    assert("api/v1/crates/"@ =~= "api/v1/"@ + ("crates"@ + "/"@));
    assert("/"@ =~= seq!['/']);
    assert("/download"@ =~= "/"@ + "download"@);
    assert("/yank"@ =~= "/"@ + "yank"@);
    assert("/unyank"@ =~= "/"@ + "unyank"@);
    assert(""@ =~= Seq::<char>::empty());
}

/// The path under which a crate file is downloaded.
pub open spec fn download_path(name: Seq<char>, version: Seq<char>) -> Seq<char> {
    "api/v1/crates/"@ + name + "/"@ + version + "/download"@
}

proof fn lemma_starts_here(p: Seq<char>, rest: Seq<char>)
    ensures
        find_in(p + rest, p) == Some(0int),
        starts(p + rest, p),
        (p + rest).skip(p.len() as int) == rest,
{
    assert((p + rest).subrange(0, p.len() as int) =~= p);
    assert((p + rest).take(p.len() as int) =~= p);
    assert((p + rest).skip(p.len() as int) =~= rest);
    assert(occurs_at(p + rest, p, 0));
}

/// A download is a file that never changes, and names its crate and its version. It is no
/// call of the web API.
pub proof fn downloads_name_crate_and_version(name: Seq<char>, version: Seq<char>, method: Method)
    requires
        !name.contains('/'),
        !version.contains('/'),
    ensures
        cargo_kind_of(download_path(name, version)) == Kind::Artifact,
        cargo_version_of(download_path(name, version)) == version,
        cargo_package_of(download_path(name, version)) == lowercase(name),
        cargo_type_of(download_path(name, version)) == "application/gzip"@,
        api_call_of(method, download_path(name, version)) is None,
{
    lemma_literals();
    let p = download_path(name, version);
    let crates = "api/v1/crates/"@;
    let after = name + "/"@ + version + "/download"@;
    let rest = name + "/"@ + version;
    assert(p =~= crates + after);
    lemma_starts_here(crates, after);
    assert(occurs_at(p, crates, 0)) by {
        assert(p.subrange(0, 14) =~= crates);
    }
    lemma_ends_with_tail(crates + name + "/"@ + version, "/download"@);
    lemma_ends_with_tail(rest, "/download"@);
    assert(after =~= rest + "/download"@);
    assert(after.take(after.len() - 9) =~= rest);
    assert(p.skip(14) =~= after);
    lemma_one_piece(name, '/');
    lemma_split_behind(name, version, '/');
    assert(split(rest, '/') =~= seq![name, version]);
    assert(after =~= name + "/"@ + (version + "/download"@));
    lemma_cut_behind(name, "/"@, version + "/download"@, 0);
    assert(p != "config.json"@) by {
        assert(p[0] == 'a');
    }
}

/// Everything but a download is an index that may change. An entry of the sparse index
/// names the crate by its file.
pub proof fn index_entries_name_their_crate(dir: Seq<char>, name: Seq<char>)
    requires
        name.len() > 0,
        !name.contains('/'),
        !contains_seq(dir + "/"@ + name, "api/v1/crates/"@),
    ensures
        cargo_kind_of(dir + "/"@ + name) == Kind::Metadata,
        cargo_package_of(dir + "/"@ + name) == lowercase(name),
        cargo_version_of(dir + "/"@ + name) == Seq::<char>::empty(),
        cargo_type_of(dir + "/"@ + name) == "text/plain; charset=utf-8"@,
{
    lemma_literals();
    let p = dir + "/"@ + name;
    lemma_find_from(p, "api/v1/crates/"@, 0);
    last_element_is_the_file(dir, name);
    assert(p != "config.json"@) by {
        reveal_strlit("config.json");
        assert(p[dir.len() as int] == '/');
    }
}

/// The registry configuration belongs to no crate.
pub proof fn the_configuration_is_no_crate()
    ensures
        cargo_package_of("config.json"@) == Seq::<char>::empty(),
        cargo_kind_of("config.json"@) == Kind::Metadata,
{
    lemma_literals();
    let p = "config.json"@;
    if contains_seq(p, "api/v1/crates/"@) {
        let i = choose|i: int| occurs_at(p, "api/v1/crates/"@, i);
        assert(p.len() == 11);
    }
}

// ---------------------------------------------------------------------------
// The web API

proof fn lemma_no_download(p: Seq<char>)
    requires
        p.len() > 0,
        p.last() != 'd',
    ensures
        cargo_kind_of(p) == Kind::Metadata,
{
    lemma_literals();
    if ends(p, "/download"@) {
        lemma_ends_last(p, "/download"@);
    }
}

/// What cargo sends is understood: a search, a publish, a yank and its reversal, each by
/// its own method and no other.
pub proof fn api_calls_are_understood(name: Seq<char>, version: Seq<char>, method: Method)
    requires
        !name.contains('/'),
        !version.contains('/'),
    ensures
        api_call_of(method, "api/v1/"@ + "crates"@) == Some(
            if method == Method::Get || method == Method::Head {
                ApiCall::Search
            } else {
                ApiCall::Unsupported
            },
        ),
        api_call_of(method, "api/v1/crates/"@ + "new"@) == Some(
            if method == Method::Put {
                ApiCall::Publish
            } else {
                ApiCall::Unsupported
            },
        ),
        api_call_of(method, "api/v1/crates/"@ + name + "/"@ + version + "/yank"@) == Some(
            if method == Method::Delete {
                ApiCall::SetYanked { name, version, yanked: true }
            } else {
                ApiCall::Unsupported
            },
        ),
        api_call_of(method, "api/v1/crates/"@ + name + "/"@ + version + "/unyank"@) == Some(
            if method == Method::Put {
                ApiCall::SetYanked { name, version, yanked: false }
            } else {
                ApiCall::Unsupported
            },
        ),
{
    lemma_literals();
    let api = "api/v1/"@;
    let search = api + "crates"@;
    lemma_starts_here(api, "crates"@);
    lemma_one_piece("crates"@, '/');
    lemma_no_download(search);
    let publish = "api/v1/crates/"@ + "new"@;
    let two = "crates"@ + "/"@ + "new"@;
    assert(publish =~= api + two);
    lemma_starts_here(api, two);
    lemma_split_behind("crates"@, "new"@, '/');
    assert(split(two, '/') =~= seq!["crates"@, "new"@]);
    lemma_no_download(publish);
    lemma_four(name, version, "yank"@, "/yank"@);
    lemma_four(name, version, "unyank"@, "/unyank"@);
    assert("yank"@.len() != "unyank"@.len());
}

proof fn lemma_four(name: Seq<char>, version: Seq<char>, verb: Seq<char>, tail: Seq<char>)
    requires
        !name.contains('/'),
        !version.contains('/'),
        !verb.contains('/'),
        verb.len() > 0,
        verb.last() == 'k',
        tail == "/"@ + verb,
    ensures
        ({
            let p = "api/v1/crates/"@ + name + "/"@ + version + tail;
            &&& starts(p, "api/v1/"@)
            &&& split(p.skip("api/v1/"@.len() as int), '/') == seq!["crates"@, name, version, verb]
            &&& cargo_kind_of(p) == Kind::Metadata
        }),
{
    lemma_literals();
    let p = "api/v1/crates/"@ + name + "/"@ + version + tail;
    let a = "crates"@ + "/"@ + name;
    let b = a + "/"@ + version;
    let c = b + "/"@ + verb;
    assert(p =~= "api/v1/"@ + c);
    lemma_starts_here("api/v1/"@, c);
    lemma_one_piece("crates"@, '/');
    lemma_split_behind("crates"@, name, '/');
    lemma_split_behind(a, version, '/');
    lemma_split_behind(b, verb, '/');
    assert(split(c, '/') =~= seq!["crates"@, name, version, verb]);
    lemma_no_download(p);
}

/// Nothing outside the web API's own prefix is a call of it.
pub proof fn other_paths_are_no_calls(method: Method, path: Seq<char>)
    requires
        !starts(path, "api/v1/"@),
    ensures
        api_call_of(method, path) is None,
{
}

/// A search needs no more than reading; whatever changes the registry needs writing.
pub proof fn changes_need_writing(name: Seq<char>, version: Seq<char>, yanked: bool)
    ensures
        need_of(ApiCall::Search) == Some(Need::Read),
        need_of(ApiCall::Publish) == Some(Need::Write),
        need_of(ApiCall::SetYanked { name, version, yanked }) == Some(Need::Write),
        need_of(ApiCall::Unsupported) is None,
{
}

/// A version is kept without its build metadata.
pub proof fn build_metadata_does_not_count(version: Seq<char>, build: Seq<char>)
    requires
        !version.contains('+'),
    ensures
        version_identity(version + "+"@ + build) == version,
        version_identity(version) == version,
{
    reveal_strlit("+");
    lemma_cut_behind(version, "+"@, build, 0);
    lemma_find_from(version, "+"@, 0);
    assert forall|i: int| !occurs_at(version, "+"@, i) by {
        if occurs_at(version, "+"@, i) {
            assert(version.subrange(i, i + 1)[0] == version[i]);
            assert(version.contains(version[i]));
        }
    }
}

/// Cargo is told where to download from and, where it may publish or search, where the web
/// API is; credentials are asked for exactly where reading needs them.
pub proof fn the_configuration_points_here(external: Seq<char>, name: Seq<char>)
    ensures
        ({
            let base = external + "/cargo/"@ + name;
            let dl = json_literal(base + "/api/v1/crates/{crate}/{version}/download"@);
            &&& cargo_base(external, name) == base
            &&& config_text(base, false, false) == "{"@ + "\"dl\":"@ + dl + "}\n"@
            &&& config_text(base, true, false) == "{\"auth-required\":true,"@ + "\"dl\":"@ + dl
                + "}\n"@
            &&& config_text(base, false, true) == "{"@ + "\"dl\":"@ + dl + ",\"api\":"@
                + json_literal(base) + "}\n"@
            &&& config_text(base, true, true) == "{\"auth-required\":true,"@ + "\"dl\":"@ + dl
                + ",\"api\":"@ + json_literal(base) + "}\n"@
        }),
{
}

/// A failed call is answered in the envelope that cargo prints.
pub proof fn errors_are_in_the_envelope(detail: Seq<char>)
    ensures
        error_body(detail) == "{\"errors\":[{\"detail\":"@ + json_literal(detail) + "}]}"@,
{
}

/// The server is seen under the configured base, where there is one; else as the proxy
/// headers tell, and else as the request does. Either the connection or the proxy makes it
/// secure.
pub proof fn the_base_is_the_configured_one(
    configured: Seq<char>,
    https: bool,
    proto: Seq<char>,
    host: Seq<char>,
    authority: Seq<char>,
    forwarded: Seq<char>,
)
    ensures
        configured.len() > 0 ==> external_base_of(
            configured,
            https,
            proto,
            host,
            authority,
            forwarded,
        ) == configured,
        configured.len() == 0 ==> ({
            let base = external_base_of(configured, https, proto, host, authority, forwarded);
            let scheme = if https || proto == "https"@ {
                "https"@
            } else {
                "http"@
            };
            &&& forwarded.len() > 0 ==> base == scheme + "://"@ + forwarded
            &&& forwarded.len() == 0 && host.len() > 0 ==> base == scheme + "://"@ + host
            &&& forwarded.len() == 0 && host.len() == 0 ==> base == scheme + "://"@ + authority
        }),
{
}

// ---------------------------------------------------------------------------
// Search

/// A crate name is compared in small letters, with hyphens for underscores, and is
/// otherwise as it is.
pub proof fn names_are_compared_by_letters(name: Seq<char>, i: int)
    requires
        0 <= i < lowercase(name).len(),
    ensures
        canonical_name(name).len() == lowercase(name).len(),
        lowercase(name)[i] == '_' ==> canonical_name(name)[i] == '-',
        lowercase(name)[i] != '_' ==> canonical_name(name)[i] == lowercase(name)[i],
{
}

proof fn lemma_last_place(a: Seq<char>, c: char, b: Seq<char>)
    requires
        !b.contains(c),
    ensures
        last_place(a + seq![c] + b, c) == Some(a.len() as int),
    decreases b.len(),
{
    let s = a + seq![c] + b;
    if b.len() == 0 {
        assert(s.last() == c);
    } else {
        let d = b.drop_last();
        assert forall|i: int| 0 <= i < d.len() implies d[i] != c by {
            assert(b.contains(b[i]));
        }
        assert(b.contains(b.last()));
        assert(s.last() == b.last());
        assert(s.drop_last() =~= a + seq![c] + d);
        lemma_last_place(a, c, d);
    }
}

/// A live Cargo publication `name@version` offers that version of that crate to every
/// search whose terms all occur in the name, and to no other. One that is yanked, of
/// another format or without a proper version offers nothing.
pub proof fn publications_offer_what_they_name(
    p: ArtifactPublication,
    name: Seq<char>,
    version: Seq<char>,
    terms: Seq<Seq<char>>,
)
    requires
        p.coordinate@ == name + "@"@ + version,
        !version.contains('@'),
    ensures
        p.format@ == FORMAT_CARGO@ && !p.yanked && is_semver(version) && (forall|i: int|
            0 <= i < terms.len() ==> contains_seq(canonical_name(name), #[trigger] terms[i]))
            ==> offer(p, terms) == Some((canonical_name(name), name, version)),
        p.yanked ==> offer(p, terms) is None,
        p.format@ != FORMAT_CARGO@ ==> offer(p, terms) is None,
        !is_semver(version) ==> offer(p, terms) is None,
        forall|i: int|
            0 <= i < terms.len() && !contains_seq(canonical_name(name), #[trigger] terms[i])
                ==> offer(p, terms) is None,
{
    reveal_strlit("@");
    assert("@"@ =~= seq!['@']);
    let s = p.coordinate@;
    lemma_last_place(name, '@', version);
    assert(s.take(name.len() as int) =~= name);
    assert(s.skip(name.len() as int + 1) =~= version);
    assert(cut_last(s, '@') == Some((name, version)));
}

/// The version that a search lists of a crate is one that is offered, under the spelling
/// that its publisher gave it, and is at least as high as every other that is offered.
pub proof fn the_highest_version_is_listed(
    pubs: Seq<ArtifactPublication>,
    terms: Seq<Seq<char>>,
    k: Seq<char>,
)
    requires
        crates_of(pubs, terms).contains_key(k),
        forall|a: Seq<char>, b: Seq<char>|
            is_semver(a) && is_semver(b) ==> semver_at_least(a, b) || #[trigger] semver_at_least(
                b,
                a,
            ),
        forall|a: Seq<char>, b: Seq<char>, c: Seq<char>|
            is_semver(a) && is_semver(b) && is_semver(c) && #[trigger] semver_at_least(a, b)
                && #[trigger] semver_at_least(b, c) ==> semver_at_least(a, c),
    ensures
        exists|i: int|
            0 <= i < pubs.len() && offer(#[trigger] pubs[i], terms) == Some(
                (k, crates_of(pubs, terms)[k].0, crates_of(pubs, terms)[k].1),
            ),
        forall|i: int|
            0 <= i < pubs.len() && offer(#[trigger] pubs[i], terms) is Some && (offer(
                pubs[i],
                terms,
            )->0).0 == k ==> semver_at_least(
                crates_of(pubs, terms)[k].1,
                (offer(pubs[i], terms)->0).2,
            ),
        is_semver(crates_of(pubs, terms)[k].1),
    decreases pubs.len(),
{
    let front = pubs.drop_last();
    let best = crates_of(pubs, terms)[k];
    assert forall|i: int| 0 <= i < front.len() implies #[trigger] pubs[i] == front[i] by {}
    assert(pubs[pubs.len() - 1] == pubs.last());
    listed_crates_are_those_offered(front, terms, k);
    if crates_of(front, terms).contains_key(k) {
        the_highest_version_is_listed(front, terms, k);
        let was = crates_of(front, terms)[k];
        let w = choose|i: int|
            0 <= i < front.len() && offer(#[trigger] front[i], terms) == Some((k, was.0, was.1));
        assert(pubs[w] == front[w]);
        assert forall|i: int|
            0 <= i < pubs.len() && offer(#[trigger] pubs[i], terms) is Some && (offer(
                pubs[i],
                terms,
            )->0).0 == k implies semver_at_least(best.1, (offer(pubs[i], terms)->0).2) by {
            let v = (offer(pubs[i], terms)->0).2;
            if i < front.len() {
                assert(pubs[i] == front[i]);
                assert(semver_at_least(was.1, v));
            }
            assert(is_semver(v));
            assert(semver_at_least(v, v));
        }
    } else {
        assert forall|i: int|
            0 <= i < pubs.len() && offer(#[trigger] pubs[i], terms) is Some && (offer(
                pubs[i],
                terms,
            )->0).0 == k implies semver_at_least(best.1, (offer(pubs[i], terms)->0).2) by {
            let v = (offer(pubs[i], terms)->0).2;
            if i < front.len() {
                assert(pubs[i] == front[i]);
            }
            assert(is_semver(v));
            assert(semver_at_least(v, v));
        }
    }
}

/// A name fits best where it is what was asked for, and better from its start than from
/// its middle.
pub proof fn names_fit_as_they_are_asked_for(canonical: Seq<char>, terms: Seq<Seq<char>>)
    requires
        terms.len() > 0,
    ensures
        canonical == join(terms, "-"@) ==> score(canonical, terms) == 0,
        canonical != join(terms, "-"@) && starts(canonical, terms[0]) ==> score(canonical, terms)
            == 1,
        canonical != join(terms, "-"@) && !starts(canonical, terms[0]) ==> score(canonical, terms)
            == 2,
        score(canonical, Seq::empty()) == 1,
{
}

/// A search lists every crate that is offered once, one that fits better before one that
/// fits less, and crates that fit alike by name.
pub proof fn better_fits_come_first(
    pubs: Seq<ArtifactPublication>,
    terms: Seq<Seq<char>>,
    i: int,
    j: int,
)
    requires
        0 <= i < j < ranked_names(pubs, terms).len(),
    ensures
        ({
            let a = ranked_names(pubs, terms)[i];
            let b = ranked_names(pubs, terms)[j];
            &&& a != b
            &&& score(a, terms) <= score(b, terms)
            &&& score(a, terms) == score(b, terms) ==> text_lt(a, b)
        }),
{
    let zero = names_scored(pubs, terms, 0);
    let one = names_scored(pubs, terms, 1);
    let two = names_scored(pubs, terms, 2);
    lemma_sorted_set_holds(zero);
    lemma_sorted_set_holds(one);
    lemma_sorted_set_holds(two);
    lemma_scores(pubs, terms);
    let all = ranked_names(pubs, terms);
    lemma_group(pubs, terms, i);
    lemma_group(pubs, terms, j);
    crate::text::lemma_text_lt_irreflexive(all[i]);
}

/// Every name in a group of the result has the group's score.
proof fn lemma_group(pubs: Seq<ArtifactPublication>, terms: Seq<Seq<char>>, i: int)
    requires
        0 <= i < ranked_names(pubs, terms).len(),
    ensures
        ({
            let a = sorted_set(names_scored(pubs, terms, 0));
            let b = sorted_set(names_scored(pubs, terms, 1));
            let c = sorted_set(names_scored(pubs, terms, 2));
            let x = ranked_names(pubs, terms)[i];
            &&& ascending(a) && ascending(b) && ascending(c)
            &&& i < a.len() ==> x == a[i] && score(x, terms) == 0
            &&& a.len() <= i < a.len() + b.len() ==> x == b[i - a.len()] && score(x, terms) == 1
            &&& a.len() + b.len() <= i ==> x == c[i - a.len() - b.len()] && score(x, terms) == 2
        }),
{
    let a = sorted_set(names_scored(pubs, terms, 0));
    let b = sorted_set(names_scored(pubs, terms, 1));
    let c = sorted_set(names_scored(pubs, terms, 2));
    lemma_sorted_set_holds(names_scored(pubs, terms, 0));
    lemma_sorted_set_holds(names_scored(pubs, terms, 1));
    lemma_sorted_set_holds(names_scored(pubs, terms, 2));
    lemma_scores(pubs, terms);
    let x = ranked_names(pubs, terms)[i];
    if i < a.len() {
        assert(a.contains(a[i]));
    } else if i < a.len() + b.len() {
        assert(b.contains(b[i - a.len()]));
    } else {
        assert(c.contains(c[i - a.len() - b.len()]));
    }
}

proof fn lemma_scores(pubs: Seq<ArtifactPublication>, terms: Seq<Seq<char>>)
    ensures
        forall|n: int, k: Seq<char>| #[trigger]
            names_scored(pubs, terms, n).contains(k) ==> score(k, terms) == n,
    decreases pubs.len(),
{
    if pubs.len() > 0 {
        let front = pubs.drop_last();
        lemma_scores(front, terms);
        assert forall|n: int, k: Seq<char>| #[trigger]
            names_scored(pubs, terms, n).contains(k) implies score(k, terms) == n by {
            if let Some((c, _, _)) = offer(pubs.last(), terms) {
                if score(c, terms) == n {
                    crate::text::lemma_push_contains(names_scored(front, terms, n), c);
                }
            }
        }
    }
}

/// The last `q` of a query is the one that is searched for, word by word, and the last
/// `per_page` that is a number sets the size of the page.
pub proof fn the_last_parameter_counts(
    query: Seq<(Seq<char>, Seq<char>)>,
    name: Seq<char>,
    value: Seq<char>,
)
    ensures
        terms_in(query.push(("q"@, value))) == words(value).map_values(
            |t: Seq<char>| canonical_name(t),
        ),
        name != "q"@ ==> terms_in(query.push((name, value))) == terms_in(query),
        terms_in(Seq::empty()).len() == 0,
        usize_value(value) matches Some(n) ==> page_in(query.push(("per_page"@, value))) == (
        if n < 1 {
            1int
        } else if n > 100 {
            100
        } else {
            n
        }),
        name != "per_page"@ || usize_value(value) is None ==> page_in(query.push((name, value)))
            == page_in(query),
        page_in(Seq::empty()) == 10,
{
    assert(query.push((name, value)).drop_last() =~= query);
    assert(query.push(("q"@, value)).drop_last() =~= query);
    assert(query.push(("per_page"@, value)).drop_last() =~= query);
}

/// One result of a search, as cargo reads it.
pub proof fn results_show_name_and_version(
    name: Seq<char>,
    version: Seq<char>,
    description: Seq<char>,
)
    ensures
        summary_text(name, version, description) == "{\"name\":"@ + json_literal(name)
            + ",\"max_version\":"@ + json_literal(version) + ",\"description\":"@ + json_literal(
            description,
        ) + "}"@,
{
}

// ---------------------------------------------------------------------------
// Requests

/// A request is a call of the web API, a request for the configuration, or one for a file or
/// an index, in this order.
pub proof fn requests_are_told_apart(
    method: Method,
    kind: RepoType,
    upstream: &str,
    path: &str,
    r: CargoStep,
)
    requires
        call_ensures(handle_cargo, (method, kind, upstream, path), r),
    ensures
        r is Api <==> api_call_of(method, path@) is Some,
        r is Api ==> api_call_of(method, path@) == Some(r->Api_0@),
        r is Config <==> api_call_of(method, path@) is None && path@ == "config.json"@ && (method
            == Method::Get || method == Method::Head),
        r is Plan ==> r->Plan_0.pkg@ == cargo_package_of(path@) && r->Plan_0.version@
            == cargo_version_of(path@),
        r is Plan ==> r->Plan_0.fetch@.path == path@ && r->Plan_0.fetch@.kind == cargo_kind_of(path@)
            && r->Plan_0.fetch@.version == cargo_version_of(path@)
            && r->Plan_0.fetch@.content_type == cargo_type_of(path@),
{
}

/// Only a hosted registry is searched and published to, and only what it knows is called.
pub proof fn only_hosted_registries_are_called(op: &CargoApiOp, kind: RepoType, r: Option<ApiReply>)
    requires
        call_ensures(api_refusal, (op, kind), r),
    ensures
        r is None <==> kind == RepoType::Hosted && op@ != ApiCall::Unsupported,
        op@ == ApiCall::Unsupported ==> r->0.status == 404,
        op@ == ApiCall::Search && kind != RepoType::Hosted ==> r->0.status == 404,
        op@ == ApiCall::Publish && kind != RepoType::Hosted ==> r->0.status == 405,
        op@ is SetYanked && kind != RepoType::Hosted ==> r->0.status == 405,
{
}

/// What a call needs is what its kind needs.
pub proof fn calls_need_what_their_kind_needs(op: &CargoApiOp, r: Option<Need>)
    requires
        call_ensures(api_need, (op,), r),
    ensures
        op@ == ApiCall::Search ==> r == Some(Need::Read),
        op@ == ApiCall::Publish || op@ is SetYanked ==> r == Some(Need::Write),
        op@ == ApiCall::Unsupported ==> r is None,
{
}

/// A version is yanked by its name in small letters and without its build, where yanking is
/// to be had and the version is one.
pub proof fn yanks_name_a_version(
    name: &str,
    version: &str,
    available: bool,
    r: Result<(String, String), ApiReply>,
    n: String,
    v: String,
)
    requires
        call_ensures(yank_identity, (name, version, available), r),
    ensures
        r is Ok <==> available && is_semver(version@),
        r == Ok::<(String, String), ApiReply>((n, v)) ==> n@ == lowercase(name@) && v@
            == version_identity(version@),
        !available ==> r is Err && r->Err_0.status == 503,
        available && !is_semver(version@) ==> r is Err && r->Err_0.status == 400,
{
}

/// What is not there is not found, and what cannot be looked up is unavailable.
pub proof fn unknown_versions_are_refused(found: Found, r: Option<ApiReply>)
    requires
        call_ensures(yank_lookup_refusal, (found,), r),
    ensures
        r is None <==> found == Found::Yes,
        found == Found::No ==> r->0.status == 404,
        found == Found::Unknown ==> r->0.status == 503,
{
}

/// The configuration names the web API to those who may use it: in a hosted registry or
/// through a group, where uploads are to be had.
pub proof fn the_api_is_named_where_it_is_had(
    external: &str,
    name: &str,
    kind: RepoType,
    group: bool,
    uploads: bool,
    auth: bool,
    r: String,
)
    requires
        call_ensures(cargo_config, (external, name, kind, group, uploads, auth), r),
    ensures
        ({
            let base = external@ + "/cargo/"@ + name@;
            &&& uploads && (kind == RepoType::Hosted || group) ==> r@ == config_text(base, auth, true)
            &&& !uploads || (kind != RepoType::Hosted && !group) ==> r@ == config_text(
                base,
                auth,
                false,
            )
        }),
{
}

/// The base that is told is the one that the request and the configuration give.
pub proof fn bases_are_told(
    configured: &str,
    https: bool,
    proto: &str,
    host: &str,
    authority: &str,
    forwarded: &str,
    r: String,
)
    requires
        call_ensures(external_base, (configured, https, proto, host, authority, forwarded), r),
    ensures
        configured@.len() > 0 ==> r@ == configured@,
        configured@.len() == 0 && https && forwarded@.len() > 0 ==> r@ == "https"@ + "://"@
            + forwarded@,
        configured@.len() == 0 && !https && proto@ != "https"@ && forwarded@.len() == 0 && host@.len()
            > 0 ==> r@ == "http"@ + "://"@ + host@,
        r@ == external_base_of(configured@, https, proto@, host@, authority@, forwarded@),
{
}

/// A page holds ten results where none is asked for, and one to a hundred otherwise.
pub proof fn pages_are_of_their_size(query: Seq<(Seq<char>, Seq<char>)>, value: Seq<char>, n: int)
    requires
        usize_value(value) == Some(n),
    ensures
        page_in(Seq::empty()) == 10,
        1 <= n <= 100 ==> page_in(query.push(("per_page"@, value))) == n,
        n < 1 ==> page_in(query.push(("per_page"@, value))) == 1,
        n > 100 ==> page_in(query.push(("per_page"@, value))) == 100,
{
    assert(query.push(("per_page"@, value)).last() == ("per_page"@, value));
}

/// The terms and the page of a search are those of its query.
pub proof fn searches_follow_their_query(query: &str, r: (Vec<String>, usize))
    requires
        call_ensures(search_params, (query,), r),
    ensures
        texts(r.0@) == terms_in(form_pairs(query@)),
        r.1 == page_in(form_pairs(query@)),
        1 <= r.1 <= 100,
{
}

} // verus!
