//! What holds of the dist-tags, the held versions and the tarballs of a rewritten
//! packument.

use vstd::prelude::*;
use vstd::utf8::encode_utf8;

use crate::bridge::{firsts, json_literal, json_raw, json_string_map};
use crate::config::AgePolicyConfig;
use crate::json::{lemma_member_of, member_map, object_text, Members, RawObject};
use crate::objstore::metasync::decimal_reads_back;
use crate::repo::npm::{
    cooldown_of, decoded_path, highest, highest_is_the_maximum, highest_stable_version, is_held, kept_tags, kept_versions,
    latest_is_held, members_of, package_of, packument_versions, rewritten_manifest,
    rewritten_packument, stable_version, tag_map, tarball_literal, triple_lt, version_of, Cooldown,
    Target, Triple,
};
use crate::repo::npm_laws::kept_versions_are_those_not_held;
use crate::repo::npm_serve::{npm_way, NpmWay};
use crate::repo::path::base_name;
use crate::repo::path_laws::{
    last_element_is_the_file, lemma_ends_with_tail, lemma_one_piece, lemma_split_behind,
};
use crate::meta::RepoType;
use crate::repo::reply::Method;
use crate::text::{
    contains_seq, decimal, digits, is_digit, lemma_digits_round_trip, lemma_find_from, occurs_at,
    split, starts,
};
use crate::times::rfc3339_stamp;

verus! {

// ---------------------------------------------------------------------------
// Tags

proof fn lemma_kept_in(tags: Members, vers: Members, c: Cooldown)
    ensures
        forall|i: int|
            0 <= i < tags.len() && !is_held(vers, c, (#[trigger] tags[i]).1) ==> kept_tags(
                tags,
                vers,
                c,
            ).contains((tags[i].0, json_literal(tags[i].1))),
        forall|j: int|
            0 <= j < kept_tags(tags, vers, c).len() ==> exists|i: int|
                0 <= i < tags.len() && (#[trigger] tags[i]).0 == (#[trigger] kept_tags(
                    tags,
                    vers,
                    c,
                )[j]).0 && !is_held(vers, c, tags[i].1) && kept_tags(tags, vers, c)[j].1
                    == json_literal(tags[i].1),
    decreases tags.len(),
{
    if tags.len() > 0 {
        let init = tags.drop_last();
        lemma_kept_in(init, vers, c);
        let rest = kept_tags(init, vers, c);
        let all = kept_tags(tags, vers, c);
        assert forall|i: int|
            0 <= i < tags.len() && !is_held(vers, c, (#[trigger] tags[i]).1) implies all.contains(
            (tags[i].0, json_literal(tags[i].1)),
        ) by {
            let m = (tags[i].0, json_literal(tags[i].1));
            if i < init.len() {
                assert(init[i] == tags[i]);
                let j = choose|j: int| 0 <= j < rest.len() && rest[j] == m;
                assert(all[j] == m);
            } else {
                assert(all[all.len() - 1] == m);
            }
        }
        assert forall|j: int| 0 <= j < all.len() implies exists|i: int|
            0 <= i < tags.len() && (#[trigger] tags[i]).0 == (#[trigger] all[j]).0 && !is_held(
                vers,
                c,
                tags[i].1,
            ) && all[j].1 == json_literal(tags[i].1) by {
            if j < rest.len() {
                assert(all[j] == rest[j]);
                let i = choose|i: int|
                    0 <= i < init.len() && (#[trigger] init[i]).0 == rest[j].0 && !is_held(
                        vers,
                        c,
                        init[i].1,
                    ) && rest[j].1 == json_literal(init[i].1);
                assert(tags[i] == init[i]);
            } else {
                assert(tags[tags.len() - 1] == tags.last());
            }
        }
    }
}

proof fn lemma_kept_map(tags: Members, vers: Members, c: Cooldown, tag: Seq<char>)
    requires
        firsts(tags).no_duplicates(),
    ensures
        member_map(kept_tags(tags, vers, c)).contains_key(tag) <==> exists|i: int|
            0 <= i < tags.len() && (#[trigger] tags[i]).0 == tag && !is_held(vers, c, tags[i].1),
        forall|i: int|
            0 <= i < tags.len() && (#[trigger] tags[i]).0 == tag && !is_held(vers, c, tags[i].1)
                ==> member_map(kept_tags(tags, vers, c))[tag] == json_literal(tags[i].1),
{
    let kept = kept_tags(tags, vers, c);
    lemma_kept_in(tags, vers, c);
    let m = member_map(kept);
    if m.contains_key(tag) {
        let j = choose|j: int| 0 <= j < kept.len() && (#[trigger] kept[j]).0 == tag;
        assert(kept[j].0 == tag);
    }
    assert forall|i: int|
        0 <= i < tags.len() && (#[trigger] tags[i]).0 == tag && !is_held(
            vers,
            c,
            tags[i].1,
        ) implies m.contains_key(tag) && m[tag] == json_literal(tags[i].1) by {
        let x = (tags[i].0, json_literal(tags[i].1));
        assert(kept.contains(x));
        let k = choose|k: int| 0 <= k < kept.len() && kept[k] == x;
        assert(kept[k].0 == tag);
        lemma_member_of(kept, tag);
        let j = choose|j: int|
            0 <= j < kept.len() && (#[trigger] kept[j]).0 == tag && m[tag] == kept[j].1;
        let i2 = choose|i2: int|
            0 <= i2 < tags.len() && (#[trigger] tags[i2]).0 == kept[j].0 && !is_held(
                vers,
                c,
                tags[i2].1,
            ) && kept[j].1 == json_literal(tags[i2].1);
        assert(firsts(tags)[i] == firsts(tags)[i2]);
        assert(i == i2);
    }
}

/// A tag that points at a version which stays, stays and points at it still.
pub proof fn tags_of_kept_versions_stay(
    tags: Members,
    vers: Members,
    c: Cooldown,
    t: Target,
    i: int,
)
    requires
        firsts(tags).no_duplicates(),
        0 <= i < tags.len(),
        !is_held(vers, c, tags[i].1),
    ensures
        tag_map(tags, vers, c, t).contains_key(tags[i].0),
        tag_map(tags, vers, c, t)[tags[i].0] == json_literal(tags[i].1),
{
    lemma_kept_map(tags, vers, c, tags[i].0);
    assert(tags[i].0 == tags[i].0);
    if latest_is_held(tags, vers, c) {
        let j = choose|j: int|
            0 <= j < tags.len() && (#[trigger] tags[j]).0 == "latest"@ && is_held(
                vers,
                c,
                tags[j].1,
            );
        if tags[i].0 == "latest"@ {
            assert(firsts(tags)[i] == firsts(tags)[j]);
            assert(i == j);
        }
    }
}

/// A tag that points at a version which is held back is gone, unless it is `latest` and
/// was given another.
pub proof fn tags_of_held_versions_go(
    tags: Members,
    vers: Members,
    c: Cooldown,
    t: Target,
    i: int,
)
    requires
        firsts(tags).no_duplicates(),
        0 <= i < tags.len(),
        is_held(vers, c, tags[i].1),
        tags[i].0 != "latest"@ || highest(firsts(kept_versions(vers, c, t))) is None,
    ensures
        !tag_map(tags, vers, c, t).contains_key(tags[i].0),
{
    lemma_kept_map(tags, vers, c, tags[i].0);
    assert forall|j: int|
        0 <= j < tags.len() && (#[trigger] tags[j]).0 == tags[i].0 implies is_held(
        vers,
        c,
        tags[j].1,
    ) by {
        assert(firsts(tags)[j] == firsts(tags)[i]);
        assert(i == j);
    }
}

/// No tag appears that was not there.
pub proof fn no_tag_appears(
    tags: Members,
    vers: Members,
    c: Cooldown,
    t: Target,
    tag: Seq<char>,
)
    requires
        firsts(tags).no_duplicates(),
        tag_map(tags, vers, c, t).contains_key(tag),
    ensures
        firsts(tags).contains(tag),
{
    lemma_kept_map(tags, vers, c, tag);
    if latest_is_held(tags, vers, c) && tag == "latest"@ {
        let j = choose|j: int|
            0 <= j < tags.len() && (#[trigger] tags[j]).0 == "latest"@ && is_held(
                vers,
                c,
                tags[j].1,
            );
        assert(firsts(tags)[j] == tag);
    } else {
        let j = choose|j: int|
            0 <= j < tags.len() && (#[trigger] tags[j]).0 == tag && !is_held(vers, c, tags[j].1);
        assert(firsts(tags)[j] == tag);
    }
}

/// Where `latest` points at a version that is held back and a stable version stays,
/// `latest` is given the highest stable version of those that stay.
pub proof fn latest_moves_to_the_highest_stable(
    tags: Members,
    vers: Members,
    c: Cooldown,
    t: Target,
    l: int,
    s: int,
)
    requires
        firsts(tags).no_duplicates(),
        0 <= l < tags.len(),
        tags[l].0 == "latest"@,
        is_held(vers, c, tags[l].1),
        0 <= s < vers.len(),
        !c.holds(vers[s].0),
        stable_version(vers[s].0) is Some,
    ensures
        tag_map(tags, vers, c, t).contains_key("latest"@),
        exists|b: int|
            0 <= b < vers.len() && !c.holds((#[trigger] vers[b]).0) && stable_version(
                vers[b].0,
            ) is Some && tag_map(tags, vers, c, t)["latest"@] == json_literal(vers[b].0)
                && !triple_lt(stable_version(vers[b].0)->0, stable_version(vers[s].0)->0),
{
    let kept = kept_versions(vers, c, t);
    let keys = firsts(kept);
    kept_versions_are_those_not_held(vers, c, t);
    highest_is_the_maximum(keys);
    let m = (
        vers[s].0,
        crate::repo::npm::manifest_text(vers[s].1, t.base, t.repo, t.pkg),
    );
    assert(kept.contains(m));
    let j = choose|j: int| 0 <= j < kept.len() && kept[j] == m;
    assert(keys[j] == vers[s].0);
    assert(stable_version(keys[j]) is Some);
    let best = (highest(keys)->0).0;
    let k = choose|k: int| 0 <= k < keys.len() && keys[k] == best;
    assert(kept[k].0 == best);
    let b = choose|i: int|
        0 <= i < vers.len() && (#[trigger] vers[i]).0 == kept[k].0 && kept[k].1
            == crate::repo::npm::manifest_text(vers[i].1, t.base, t.repo, t.pkg);
    assert(latest_is_held(tags, vers, c)) by {
        assert(tags[l].0 == "latest"@);
    }
    assert(!c.holds(vers[b].0));
}

/// A stable version is three numbers, with or without a `v` before them; a pre-release or
/// a build is none.
pub proof fn stable_versions_are_three_numbers(a: i64, b: i64, c: i64, text: Seq<char>)
    requires
        a >= 0,
        b >= 0,
        c >= 0,
    ensures
        ({
            let plain = decimal(a as int) + "."@ + decimal(b as int) + "."@ + decimal(c as int);
            &&& stable_version(plain) == Some((a as int, b as int, c as int))
            &&& stable_version("v"@ + plain) == Some((a as int, b as int, c as int))
        }),
        text.contains('-') || text.contains('+') ==> stable_version(text) is None,
{
    reveal_strlit(".");
    reveal_strlit("v");
    assert("."@ =~= seq!['.']);
    assert("v"@ =~= seq!['v']);
    let x = decimal(a as int);
    let y = decimal(b as int);
    let z = decimal(c as int);
    let plain = x + "."@ + y + "."@ + z;
    lemma_number(a);
    lemma_number(b);
    lemma_number(c);
    lemma_one_piece(x, '.');
    lemma_split_behind(x, y, '.');
    lemma_split_behind(x + "."@ + y, z, '.');
    assert(split(plain, '.') =~= seq![x, y, z]);
    assert forall|i: int| 0 <= i < plain.len() implies is_digit(#[trigger] plain[i]) || plain[i]
        == '.' by {
        if i < x.len() {
        } else if i == x.len() {
        } else if i < x.len() + 1 + y.len() {
            assert(is_digit(y[i - x.len() - 1]));
        } else if i == x.len() + 1 + y.len() {
        } else {
            assert(is_digit(z[i - x.len() - y.len() - 2]));
        }
    }
    assert(!starts(plain, "v"@)) by {
        if starts(plain, "v"@) {
            assert(plain.take(1)[0] == plain[0]);
        }
    }
    let v = "v"@ + plain;
    assert(v.take(1) =~= "v"@);
    assert(v.skip(1) =~= plain);
    if text.contains('-') || text.contains('+') {
        let ch = if text.contains('-') {
            '-'
        } else {
            '+'
        };
        let i = choose|i: int| 0 <= i < text.len() && text[i] == ch;
        if starts(text, "v"@) {
            assert(text.take(1)[0] == text[0]);
            assert(i > 0);
            assert(text.skip(1)[i - 1] == ch);
        }
    }
}

proof fn lemma_number(n: i64)
    requires
        n >= 0,
    ensures
        decimal(n as int).len() > 0,
        forall|i: int| 0 <= i < decimal(n as int).len() ==> is_digit(#[trigger] decimal(n as int)[i]),
        !decimal(n as int).contains('.'),
        crate::text::i64_value(decimal(n as int)) == Some(n as int),
{
    lemma_digits_round_trip(n as nat);
    decimal_reads_back(n);
    assert forall|i: int| 0 <= i < decimal(n as int).len() implies is_digit(
        #[trigger] decimal(n as int)[i],
    ) by {
        assert(is_digit(digits(n as nat)[i]));
    }
}

/// Versions are compared by their first number, then by their second, then by their third.
pub proof fn versions_are_compared_number_by_number(a: Triple, b: Triple)
    ensures
        a.0 < b.0 ==> triple_lt(a, b),
        a.0 == b.0 && a.1 < b.1 ==> triple_lt(a, b),
        a.0 == b.0 && a.1 == b.1 ==> (triple_lt(a, b) <==> a.2 < b.2),
        triple_lt(a, b) ==> !triple_lt(b, a) && a != b,
        a != b ==> triple_lt(a, b) || triple_lt(b, a),
{
}

// ---------------------------------------------------------------------------
// What is held back, and what is written

/// A version is held back exactly where the policy is on and blocks, the packument states
/// when the version was released, and less than the cooldown has gone by since.
pub proof fn young_versions_are_held(
    top: Map<Seq<char>, Seq<char>>,
    age: AgePolicyConfig,
    now: int,
    ver: Seq<char>,
)
    ensures
        cooldown_of(top, age, now).holds(ver) <==> {
            &&& age.enabled
            &&& age.action@ == "block"@
            &&& top.contains_key("time"@)
            &&& json_string_map(encode_utf8(top["time"@])) is Some
            &&& member_map(json_string_map(encode_utf8(top["time"@]))->0).contains_key(ver)
            &&& rfc3339_stamp(
                member_map(json_string_map(encode_utf8(top["time"@]))->0)[ver],
            ) is Some
            &&& rfc3339_stamp(
                member_map(json_string_map(encode_utf8(top["time"@]))->0)[ver],
            )->0.age(now) < (if age.min_age > 0 {
                age.min_age as int
            } else {
                0
            })
        },
{
}

/// A tag's version is held back only where it is one of the packument's own.
pub proof fn only_listed_versions_are_held(vers: Members, c: Cooldown, ver: Seq<char>)
    ensures
        is_held(vers, c, ver) <==> c.holds(ver) && exists|i: int|
            0 <= i < vers.len() && (#[trigger] vers[i]).0 == ver,
{
    if firsts(vers).contains(ver) {
        let i = choose|i: int| 0 <= i < firsts(vers).len() && firsts(vers)[i] == ver;
        assert(vers[i].0 == ver);
    }
    if exists|i: int| 0 <= i < vers.len() && (#[trigger] vers[i]).0 == ver {
        let i = choose|i: int| 0 <= i < vers.len() && (#[trigger] vers[i]).0 == ver;
        assert(firsts(vers)[i] == ver);
    }
}

/// The rewritten packument lists the versions that stay and, where a version was removed,
/// the tags that stay; without a removal its tags are as they were.
pub proof fn the_packument_lists_what_stays(
    top: Map<Seq<char>, Seq<char>>,
    age: AgePolicyConfig,
    now: int,
    t: Target,
    tags: Members,
)
    requires
        rewritten_packument(top, age, now, t) is Some,
        top.contains_key("versions"@),
        top["versions"@].len() > 0,
        top.contains_key("dist-tags"@),
        json_string_map(encode_utf8(top["dist-tags"@])) == Some(tags),
    ensures
        ({
            let doc = rewritten_packument(top, age, now, t)->0;
            let c = cooldown_of(top, age, now);
            let vers = packument_versions(top)->0;
            let kept = json_raw(object_text(kept_versions(vers, c, t)));
            let stay = json_raw(object_text(members_of(tag_map(tags, vers, c, t))));
            &&& crate::bridge::json_object(encode_utf8(top["versions"@])) == Some(vers)
            &&& kept == Some(doc["versions"@])
            &&& (exists|i: int| 0 <= i < vers.len() && c.holds((#[trigger] vers[i]).0)) && stay is Some
                ==> doc["dist-tags"@] == stay->0
            &&& (forall|i: int| 0 <= i < vers.len() ==> !c.holds((#[trigger] vers[i]).0))
                ==> doc["dist-tags"@] == top["dist-tags"@]
        }),
{
    reveal_strlit("versions");
    reveal_strlit("dist-tags");
    assert("versions"@.len() != "dist-tags"@.len());
    let c = cooldown_of(top, age, now);
    let vers = packument_versions(top)->0;
    lemma_some_held(vers, c);
}

proof fn lemma_some_held(vers: Members, c: Cooldown)
    ensures
        crate::repo::npm::held_count(vers, c) > 0 <==> exists|i: int|
            0 <= i < vers.len() && c.holds((#[trigger] vers[i]).0),
    decreases vers.len(),
{
    if vers.len() > 0 {
        let init = vers.drop_last();
        lemma_some_held(init, c);
        assert(forall|i: int| 0 <= i < init.len() ==> init[i] == vers[i]);
        assert(vers[vers.len() - 1] == vers.last());
        if exists|i: int| 0 <= i < init.len() && c.holds((#[trigger] init[i]).0) {
            let i = choose|i: int| 0 <= i < init.len() && c.holds((#[trigger] init[i]).0);
            assert(c.holds(vers[i].0));
        }
        if exists|i: int| 0 <= i < vers.len() && c.holds((#[trigger] vers[i]).0) {
            let i = choose|i: int| 0 <= i < vers.len() && c.holds((#[trigger] vers[i]).0);
            if i < init.len() {
                assert(c.holds(init[i].0));
            }
        }
    }
}

/// The tarball of a rewritten manifest is the file of the same name on this server, under
/// the repository and the package; every other byte of the manifest stays.
pub proof fn tarballs_are_fetched_from_here(
    raw: Seq<u8>,
    base: Seq<char>,
    repo: Seq<char>,
    pkg: Seq<char>,
    dir: Seq<char>,
    file: Seq<char>,
    s: int,
    e: int,
)
    requires
        file.len() > 0,
        !file.contains('/'),
        tarball_literal(raw) == Some((s, e, dir + "/"@ + file)),
        0 <= s <= e <= raw.len(),
    ensures
        ({
            let url = base + "/npm/"@ + repo + "/"@ + pkg + "/-/"@ + file;
            let lit = encode_utf8(json_literal(url));
            &&& rewritten_manifest(raw, base, repo, pkg) is Some
            &&& rewritten_manifest(raw, base, repo, pkg)->0.len() == s + lit.len() + (raw.len() - e)
            &&& rewritten_manifest(raw, base, repo, pkg)->0.take(s) == raw.take(s)
            &&& rewritten_manifest(raw, base, repo, pkg)->0.subrange(s, s + lit.len()) == lit
            &&& rewritten_manifest(raw, base, repo, pkg)->0.skip(s + lit.len()) == raw.skip(e)
        }),
{
    last_element_is_the_file(dir, file);
    let url = base + "/npm/"@ + repo + "/"@ + pkg + "/-/"@ + file;
    let lit = encode_utf8(json_literal(url));
    let b = rewritten_manifest(raw, base, repo, pkg)->0;
    assert(b =~= raw.take(s) + lit + raw.skip(e));
    assert(b.take(s) =~= raw.take(s));
    assert(b.subrange(s, s + lit.len()) =~= lit);
    assert(b.skip(s + lit.len()) =~= raw.skip(e));
}

/// A manifest that names no tarball is left as it is.
pub proof fn manifests_without_tarball_stay(
    raw: Seq<u8>,
    base: Seq<char>,
    repo: Seq<char>,
    pkg: Seq<char>,
)
    requires
        tarball_literal(raw) is None,
    ensures
        rewritten_manifest(raw, base, repo, pkg) is None,
{
}

// ---------------------------------------------------------------------------
// Requests

/// A path without escapes is taken as it is, and so is one with an escape that is none.
pub proof fn unescaped_paths_stay(p: Seq<char>)
    requires
        !p.contains('%') || exists|i: int|
            0 <= i < p.len() && #[trigger] p[i] == '%' && (i + 2 >= p.len() || !(crate::percent::is_hex(
                p[i + 1],
            ) && crate::percent::is_hex(p[i + 2]))),
    ensures
        decoded_path(p) == p,
{
    if !p.contains('%') {
        crate::percent::lemma_plain_text(p);
        vstd::utf8::encode_utf8_valid_utf8(p);
        vstd::utf8::encode_utf8_decode_utf8(p);
    }
}

/// A read of a path with `/-/` asks for a tarball and of any other for a packument; only a
/// hosted repository is published to, and only a package, by PUT.
pub proof fn requests_ask_for_what_they_name(method: Method, kind: RepoType, path: Seq<char>)
    ensures
        (method == Method::Get || method == Method::Head) && contains_seq(path, "/-/"@) ==> npm_way(
            method,
            kind,
            path,
        ) == NpmWay::Tarball,
        (method == Method::Get || method == Method::Head) && !contains_seq(path, "/-/"@)
            ==> npm_way(method, kind, path) == NpmWay::Packument,
        npm_way(method, kind, path) == NpmWay::Publish <==> method == Method::Put && kind
            == RepoType::Hosted && !contains_seq(path, "/-/"@),
        method != Method::Get && method != Method::Head && npm_way(method, kind, path)
            != NpmWay::Publish ==> npm_way(method, kind, path) is Answer && (npm_way(
            method,
            kind,
            path,
        )->Answer_0).status == 405,
{
}

/// A tarball names the version between its package's own name and its ending.
pub proof fn tarballs_name_their_version(p: Seq<char>, version: Seq<char>)
    requires
        contains_seq(p, "/-/"@),
        crate::bridge::lowercase(base_name(p)) == base_name(package_of(p)) + "-"@ + version
            + ".tgz"@,
    ensures
        version_of(p) == version,
{
    let stem = base_name(package_of(p)) + "-"@ + version;
    let low = crate::bridge::lowercase(base_name(p));
    lemma_ends_with_tail(stem, ".tgz"@);
    assert(low.take(low.len() - ".tgz"@.len()) =~= stem);
    let head = base_name(package_of(p)) + "-"@;
    assert(stem.take(head.len() as int) =~= head);
    assert(stem.skip(head.len() as int) =~= version);
}

/// What is no tarball names no version.
pub proof fn packuments_name_no_version(p: Seq<char>)
    requires
        !contains_seq(p, "/-/"@),
    ensures
        version_of(p) == Seq::<char>::empty(),
{
}

/// A tarball belongs to the package before `/-/`, and a packument to the whole path.
pub proof fn tarballs_name_their_package(pkg: Seq<char>, file: Seq<char>)
    requires
        pkg.len() > 0,
        pkg[0] != '/',
        pkg.last() != '/',
        !pkg.contains('%'),
        forall|j: int| 0 <= j < pkg.len() - 1 && #[trigger] pkg[j] == '/' ==> pkg[j + 1] != '-',
    ensures
        package_of(pkg + "/-/"@ + file) == crate::bridge::lowercase(pkg),
        package_of(pkg) == crate::bridge::lowercase(pkg),
        contains_seq(pkg + "/-/"@ + file, "/-/"@),
        !contains_seq(pkg, "/-/"@),
{
    let p = pkg + "/-/"@ + file;
    let n = pkg.len() as int;
    reveal_strlit("/-/");
    lemma_find_from(p, "/-/"@, 0);
    lemma_find_from(pkg, "/-/"@, 0);
    assert(occurs_at(p, "/-/"@, n)) by {
        assert(p.subrange(n, n + 3) =~= "/-/"@);
    }
    assert forall|j: int| 0 <= j < n implies !occurs_at(p, "/-/"@, j) && !occurs_at(
        pkg,
        "/-/"@,
        j,
    ) by {
        if occurs_at(p, "/-/"@, j) {
            assert(p.subrange(j, j + 3)[0] == '/');
            assert(p.subrange(j, j + 3)[1] == '-');
            assert(p[j] == '/' && p[j + 1] == '-');
            if j + 1 < n {
                assert(pkg[j] == '/');
            } else {
                assert(p[j + 1] == "/-/"@[0]);
            }
        }
        if occurs_at(pkg, "/-/"@, j) {
            assert(pkg.subrange(j, j + 3)[0] == '/');
            assert(pkg.subrange(j, j + 3)[1] == '-');
            assert(pkg[j] == '/');
        }
    }
    assert(p.take(n) =~= pkg);
    unescaped_paths_stay(pkg);
}

/// Of the stable versions the first of the highest is taken: none is higher, and none
/// before it is as high.
pub proof fn the_first_of_the_highest_is_taken(versions: &RawObject, r: String, i: int)
    requires
        call_ensures(highest_stable_version, (versions,), r),
        0 <= i < firsts(versions@).len(),
        stable_version(firsts(versions@)[i]) is Some,
    ensures
        exists|b: int|
            0 <= b < firsts(versions@).len() && r@ == #[trigger] firsts(versions@)[b]
                && stable_version(firsts(versions@)[b]) is Some && !triple_lt(
                stable_version(firsts(versions@)[b])->0,
                stable_version(firsts(versions@)[i])->0,
            ) && (i < b ==> triple_lt(
                stable_version(firsts(versions@)[i])->0,
                stable_version(firsts(versions@)[b])->0,
            )),
{
    lemma_first_highest(firsts(versions@), i);
}

proof fn lemma_first_highest(keys: Seq<Seq<char>>, i: int)
    requires
        0 <= i < keys.len(),
        stable_version(keys[i]) is Some,
    ensures
        highest(keys) is Some,
        exists|b: int|
            0 <= b < keys.len() && (highest(keys)->0).0 == #[trigger] keys[b] && stable_version(
                keys[b],
            ) == Some((highest(keys)->0).1) && !triple_lt(
                stable_version(keys[b])->0,
                stable_version(keys[i])->0,
            ) && (i < b ==> triple_lt(stable_version(keys[i])->0, stable_version(keys[b])->0)),
    decreases keys.len(),
{
    let init = keys.drop_last();
    let n = keys.len() - 1;
    highest_is_the_maximum(init);
    if i < n {
        assert(init[i] == keys[i]);
        lemma_first_highest(init, i);
        let b = choose|b: int|
            0 <= b < init.len() && (highest(init)->0).0 == #[trigger] init[b] && stable_version(
                init[b],
            ) == Some((highest(init)->0).1) && !triple_lt(
                stable_version(init[b])->0,
                stable_version(init[i])->0,
            ) && (i < b ==> triple_lt(stable_version(init[i])->0, stable_version(init[b])->0));
        assert(keys[b] == init[b]);
        assert(keys[n] == keys.last());
    } else {
        assert(keys[n] == keys.last());
        if highest(init) is Some {
            let k = choose|k: int| 0 <= k < init.len() && init[k] == (highest(init)->0).0;
            assert(keys[k] == init[k]);
        }
    }
}

} // verus!
