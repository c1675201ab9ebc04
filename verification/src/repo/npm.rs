//! The npm registry protocol. Paths under `/npm/{repo}/`:
//!
//! ```text
//! <package>            packument (version index)  (metadata)
//! <package>/-/<file>   tarball                    (artifact)
//! ```
//!
//! For proxy repositories the packument's `dist.tarball` URLs are rewritten to
//! point back at this server so tarball fetches are cached and age-gated here,
//! and versions newer than the age-policy cooldown are filtered out of the
//! packument entirely.

use vstd::prelude::*;
use vstd::slice::{slice_subrange, slice_to_vec};
use vstd::utf8::{
    decode_utf8, encode_utf8, encode_utf8_decode_utf8, encode_utf8_valid_utf8, valid_utf8,
};

use crate::bridge::{
    firsts, json_literal, json_object, json_raw, json_string, json_string_map, lowercase,
    parse_object, parse_string, parse_string_map, percent_decode, quote, raw_value,
    string_from_utf8, to_lowercase,
};
use crate::config::{span, span_of, AgePolicyConfig, ACTION_BLOCK};
use crate::json::{
    lemma_member_map, lemma_members_unique, member_map, object_text, Members, RawObject,
};
use crate::percent::{
    is_hex, lemma_escaped_slash, lemma_percent_concat, percent_decoded, valid_escapes,
};
use crate::repo::path::{base_name, path_base};
use crate::repo::span::{field_span, json_field_span};
use crate::repo::splice::{lemma_field_starts, plain_scalars, replaced_literal_is_found};
use crate::text::{
    after_prefix, ascending, before_suffix, cat, chars_of, contains, contains_char, contains_seq,
    find, find_in, i64_value, lemma_find_from, parse_i64, same, slice_string, split, split_char,
    strip_prefix, strip_suffix, text_lt, texts, trim_both, trim_char,
};
use crate::times::{parse_rfc3339, rfc3339_stamp, valid_instant, Stamp};

verus! {

// ---------------------------------------------------------------------------
// Paths

/// The canonical form of a repository-relative request path: percent-decoded, or
/// as it stands where it is not valid percent-encoding or does not decode to text.
pub open spec fn decoded_path(p: Seq<char>) -> Seq<char> {
    if !valid_escapes(p) {
        p
    } else {
        match percent_decoded(p) {
            Some(d) => d,
            None => p,
        }
    }
}

fn hex_char(c: char) -> (r: bool)
    ensures
        r == is_hex(c),
{
    ('0' <= c && c <= '9') || ('a' <= c && c <= 'f') || ('A' <= c && c <= 'F')
}

/// Whether two hexadecimal digits follow every percent sign.
fn escapes_are_valid(p: &str) -> (r: bool)
    ensures
        r == valid_escapes(p@),
{
    let v = chars_of(p);
    let mut i: usize = 0;
    while i < v.len()
        invariant
            v@ == p@,
            i <= v@.len(),
            forall|j: int|
                0 <= j < i && #[trigger] v@[j] == '%' ==> j + 2 < v@.len() && is_hex(v@[j + 1])
                    && is_hex(v@[j + 2]),
        decreases v@.len() - i,
    {
        if v[i] == '%' && (v.len() - i <= 2 || !hex_char(v[i + 1]) || !hex_char(v[i + 2])) {
            assert(p@[i as int] == '%');
            return false;
        }
        i += 1;
    }
    true
}

/// Percent-decodes the repository-relative request path so a scoped package's
/// identity is canonical however the client encoded the scope separator. Falls
/// back to the raw path when it is not valid percent-encoding.
pub fn decode_npm_path(p: &str) -> (r: String)
    ensures
        r@ == decoded_path(p@),
{
    if !escapes_are_valid(p) {
        return p.to_owned();
    }
    match percent_decode(p) {
        Some(d) => d,
        None => p.to_owned(),
    }
}

/// A path names the same thing however the client writes its separator: `%2f`, `%2F`
/// or `/`. A path that is not valid percent-encoding, or that decodes to no text, is
/// taken as it stands, and is left out.
pub proof fn separator_may_be_encoded(a: Seq<char>, b: Seq<char>)
    requires
        valid_escapes(a),
        valid_escapes(b),
        percent_decoded(a + "/"@ + b) is Some,
    ensures
        decoded_path(a + "%2f"@ + b) == decoded_path(a + "/"@ + b),
        decoded_path(a + "%2F"@ + b) == decoded_path(a + "/"@ + b),
{
    reveal_strlit("%2f");
    reveal_strlit("%2F");
    reveal_strlit("/");
    lemma_escapes_join(a, "%2f"@, b);
    lemma_escapes_join(a, "%2F"@, b);
    lemma_escapes_join(a, "/"@, b);
    assert(a + "%2f"@ + b =~= a + ("%2f"@ + b));
    assert(a + "%2F"@ + b =~= a + ("%2F"@ + b));
    assert(a + "/"@ + b =~= a + ("/"@ + b));
    lemma_percent_concat(a, "%2f"@ + b);
    lemma_percent_concat(a, "%2F"@ + b);
    lemma_percent_concat(a, "/"@ + b);
    lemma_escaped_slash(b);
}

proof fn lemma_escapes_join(a: Seq<char>, x: Seq<char>, b: Seq<char>)
    requires
        valid_escapes(a),
        valid_escapes(b),
        valid_escapes(x),
    ensures
        valid_escapes(a + x + b),
{
    let p = a + x + b;
    assert forall|i: int| 0 <= i < p.len() && #[trigger] p[i] == '%' implies i + 2 < p.len()
        && is_hex(p[i + 1]) && is_hex(p[i + 2]) by {
        if i < a.len() {
            assert(a[i] == '%');
        } else if i < a.len() + x.len() {
            assert(x[i - a.len()] == '%');
        } else {
            assert(b[i - a.len() - x.len()] == '%');
        }
    }
}

/// The part of a path before the first `/-/`, or all of it.
pub open spec fn package_part(p: Seq<char>) -> Seq<char> {
    match find_in(p, "/-/"@) {
        Some(i) => p.take(i),
        None => p,
    }
}

/// The package that a path belongs to.
pub open spec fn package_of(p: Seq<char>) -> Seq<char> {
    lowercase(trim_both(decoded_path(package_part(p)), '/'))
}

/// The part of a path before the first `/-/`, or all of it.
pub fn package_path(p: &str) -> (r: String)
    ensures
        r@ == package_part(p@),
{
    match find(p, "/-/") {
        Some(i) => {
            proof {
                lemma_find_from(p@, "/-/"@, 0);
            }
            let v = chars_of(p);
            assert(p@.subrange(0, i as int) =~= p@.take(i as int));
            slice_string(&v, 0, i)
        },
        None => p.to_owned(),
    }
}

/// Extracts the package name from a protocol path: the whole path for packuments,
/// the part before `/-/` for tarballs.
pub fn npm_package(p: &str) -> (r: String)
    ensures
        r@ == package_of(p@),
{
    let decoded = decode_npm_path(package_path(p).as_str());
    to_lowercase(trim_char(decoded.as_str(), '/').as_str())
}

/// The version that a tarball path names: what stands between the unscoped
/// package name with a dash and the `.tgz` ending. Empty for packument paths and
/// for files named otherwise.
pub open spec fn version_of(p: Seq<char>) -> Seq<char> {
    if !contains_seq(p, "/-/"@) {
        Seq::empty()
    } else {
        match before_suffix(lowercase(base_name(p)), ".tgz"@) {
            Some(stem) => match after_prefix(stem, base_name(package_of(p)) + "-"@) {
                Some(v) => v,
                None => Seq::empty(),
            },
            None => Seq::empty(),
        }
    }
}

/// Extracts the version from a tarball path (`<pkg>/-/<basename>-<version>.tgz`).
/// Versions may themselves contain dashes, so the basename prefix is stripped by
/// name rather than split on dashes.
pub fn npm_version(p: &str) -> (r: String)
    ensures
        r@ == version_of(p@),
{
    if !contains(p, "/-/") {
        return String::new();
    }
    let file = to_lowercase(path_base(p).as_str());
    let base = path_base(npm_package(p).as_str());
    match strip_suffix(file.as_str(), ".tgz") {
        Some(stem) => match strip_prefix(stem.as_str(), cat(base.as_str(), "-").as_str()) {
            Some(v) => v,
            None => String::new(),
        },
        None => String::new(),
    }
}

// ---------------------------------------------------------------------------
// Stable versions

/// Major, minor and patch number.
pub type Triple = (int, int, int);

/// Order of version numbers.
pub open spec fn triple_lt(a: Triple, b: Triple) -> bool {
    a.0 < b.0 || (a.0 == b.0 && (a.1 < b.1 || (a.1 == b.1 && a.2 < b.2)))
}

/// The numbers of a stable `x.y.z` version, an initial `v` aside; nothing for
/// pre-release and build forms.
pub open spec fn stable_version(v: Seq<char>) -> Option<Triple> {
    let t = match after_prefix(v, "v"@) {
        Some(rest) => rest,
        None => v,
    };
    let parts = split(t, '.');
    if t.contains('-') || t.contains('+') || parts.len() != 3 {
        None
    } else {
        match (i64_value(parts[0]), i64_value(parts[1]), i64_value(parts[2])) {
            (Some(a), Some(b), Some(c)) => Some((a, b, c)),
            _ => None,
        }
    }
}

/// The first of the highest stable versions in `keys`, with its numbers.
pub open spec fn highest(keys: Seq<Seq<char>>) -> Option<(Seq<char>, Triple)>
    decreases keys.len(),
{
    if keys.len() == 0 {
        None
    } else {
        let rest = highest(keys.drop_last());
        match stable_version(keys.last()) {
            None => rest,
            Some(n) => match rest {
                Some((_, m)) => if triple_lt(m, n) {
                    Some((keys.last(), n))
                } else {
                    rest
                },
                None => Some((keys.last(), n)),
            },
        }
    }
}

/// The highest stable version is one of the keys, no stable key is higher, and
/// there is none only where no key is stable.
pub proof fn highest_is_the_maximum(keys: Seq<Seq<char>>)
    ensures
        match highest(keys) {
            Some((k, n)) => keys.contains(k) && stable_version(k) == Some(n) && forall|j: int|
                0 <= j < keys.len() ==> match stable_version(#[trigger] keys[j]) {
                    Some(m) => !triple_lt(n, m),
                    None => true,
                },
            None => forall|j: int|
                0 <= j < keys.len() ==> stable_version(#[trigger] keys[j]) is None,
        },
    decreases keys.len(),
{
    if keys.len() > 0 {
        let init = keys.drop_last();
        highest_is_the_maximum(init);
        assert(forall|j: int| 0 <= j < init.len() ==> keys[j] == init[j]);
        assert(keys[keys.len() - 1] == keys.last());
        if let Some((k, n)) = highest(keys) {
            if init.contains(k) {
                let j = choose|j: int| 0 <= j < init.len() && init[j] == k;
                assert(keys[j] == k);
            }
        }
        assert forall|j: int| 0 <= j < keys.len() implies match highest(keys) {
            Some((k, n)) => match stable_version(#[trigger] keys[j]) {
                Some(m) => !triple_lt(n, m),
                None => true,
            },
            None => stable_version(keys[j]) is None,
        } by {
            if j < init.len() {
                assert(keys[j] == init[j]);
            }
        }
    }
}

/// Parses a stable `x.y.z` version, rejecting pre-release and build forms.
fn parse_semver(v: &str) -> (r: Option<(i64, i64, i64)>)
    ensures
        match r {
            Some((a, b, c)) => stable_version(v@) == Some((a as int, b as int, c as int)),
            None => stable_version(v@) is None,
        },
{
    let t = match strip_prefix(v, "v") {
        Some(rest) => rest,
        None => v.to_owned(),
    };
    if contains_char(t.as_str(), '-') || contains_char(t.as_str(), '+') {
        return None;
    }
    let parts = split_char(t.as_str(), '.');
    if parts.len() != 3 {
        return None;
    }
    assert(texts(parts@)[0] == parts@[0]@);
    assert(texts(parts@)[1] == parts@[1]@);
    assert(texts(parts@)[2] == parts@[2]@);
    match (
        parse_i64(parts[0].as_str()),
        parse_i64(parts[1].as_str()),
        parse_i64(parts[2].as_str()),
    ) {
        (Some(a), Some(b), Some(c)) => Some((a, b, c)),
        _ => None,
    }
}

/// The highest plain `x.y.z` version key (pre-release and build-metadata versions
/// are skipped), or `""` when none parse.
pub fn highest_stable_version(versions: &RawObject) -> (r: String)
    ensures
        r@ == (match highest(firsts(versions@)) {
            Some((k, _)) => k,
            None => Seq::empty(),
        }),
        r@.len() == 0 <==> highest(firsts(versions@)) is None,
{
    let mut best = String::new();
    let mut best_n: (i64, i64, i64) = (0, 0, 0);
    let mut found = false;
    let mut i: usize = 0;
    let ghost keys = firsts(versions@);
    assert(keys.take(0) =~= Seq::empty());
    while i < versions.members.len()
        invariant
            i <= versions.members@.len(),
            keys == firsts(versions@),
            keys.len() == versions.members@.len(),
            found == (highest(keys.take(i as int)) is Some),
            found ==> highest(keys.take(i as int)) == Some(
                (best@, (best_n.0 as int, best_n.1 as int, best_n.2 as int)),
            ),
            !found ==> best@ == Seq::<char>::empty(),
        decreases versions.members.len() - i,
    {
        let name = &versions.members[i].0;
        proof {
            assert(keys[i as int] == name@);
            assert(keys.take(i + 1).drop_last() =~= keys.take(i as int));
            assert(keys.take(i + 1).last() == name@);
        }
        if let Some(n) = parse_semver(name.as_str()) {
            if !found || n.0 > best_n.0 || (n.0 == best_n.0 && (n.1 > best_n.1 || (n.1 == best_n.1
                && n.2 > best_n.2))) {
                best = name.clone();
                best_n = n;
                found = true;
            }
        }
        i += 1;
    }
    assert(keys.take(keys.len() as int) =~= keys);
    proof {
        highest_is_the_maximum(keys);
        if found && best@.len() == 0 {
            // an empty text has one piece, so it is no version
            lemma_empty_is_no_version(best@);
        }
    }
    best
}

proof fn lemma_empty_is_no_version(s: Seq<char>)
    requires
        s.len() == 0,
    ensures
        stable_version(s) is None,
{
    reveal_strlit("v");
    assert(split(s, '.').len() == 1);
}

// ---------------------------------------------------------------------------
// One version manifest

/// Where the tarball of `pkg` whose upstream URL is `tb` is served.
pub open spec fn tarball_url(
    base: Seq<char>,
    repo: Seq<char>,
    pkg: Seq<char>,
    tb: Seq<char>,
) -> Seq<char> {
    base + "/npm/"@ + repo + "/"@ + pkg + "/-/"@ + base_name(tb)
}

/// The byte range of the `dist.tarball` literal of a manifest, with the URL it
/// stands for.
pub open spec fn tarball_literal(raw: Seq<u8>) -> Option<(int, int, Seq<char>)> {
    match field_span(raw, "dist"@) {
        None => None,
        Some((ds, de)) => {
            let dist = raw.subrange(ds, de);
            match field_span(dist, "tarball"@) {
                None => None,
                Some((s, e)) => match json_string(dist.subrange(s, e)) {
                    None => None,
                    Some(tb) => Some((ds + s, ds + e, tb)),
                },
            }
        },
    }
}

/// The manifest with the `dist.tarball` literal replaced by the URL on this
/// server, and every other byte as it was; nothing where there is no such literal.
pub open spec fn rewritten_manifest(
    raw: Seq<u8>,
    base: Seq<char>,
    repo: Seq<char>,
    pkg: Seq<char>,
) -> Option<Seq<u8>> {
    match tarball_literal(raw) {
        None => None,
        Some((s, e, tb)) => Some(
            raw.take(s) + encode_utf8(json_literal(tarball_url(base, repo, pkg, tb))) + raw.skip(e),
        ),
    }
}

fn append_bytes(out: &mut Vec<u8>, b: &[u8], from: usize, to: usize)
    requires
        from <= to <= b@.len(),
    ensures
        final(out)@ == old(out)@ + b@.subrange(from as int, to as int),
{
    let mut i: usize = from;
    let ghost start = out@;
    while i < to
        invariant
            from <= i <= to <= b@.len(),
            out@ == start + b@.subrange(from as int, i as int),
        decreases to - i,
    {
        out.push(b[i]);
        assert(start + b@.subrange(from as int, i + 1) =~= (start + b@.subrange(
            from as int,
            i as int,
        )).push(b@[i as int]));
        i += 1;
    }
}

/// The numbers and words before the tarball in the `dist` object of a manifest hold no
/// quote and no opening bracket, as in every JSON document.
pub open spec fn plain_dist(raw: Seq<u8>) -> bool {
    match field_span(raw, "dist"@) {
        Some((ds, de)) => plain_scalars(raw.subrange(ds, de), "tarball"@, 1),
        None => true,
    }
}

/// The tarball of the manifest `new` stands where that of `raw` stood, and is the same
/// file on this server.
pub open spec fn tarball_moved(
    raw: Seq<u8>,
    new: Seq<u8>,
    base: Seq<char>,
    repo: Seq<char>,
    pkg: Seq<char>,
) -> bool {
    match (tarball_literal(raw), tarball_literal(new)) {
        (Some((s, _, tb)), Some((t, _, url))) => s == t && url == tarball_url(base, repo, pkg, tb),
        _ => false,
    }
}

/// Rewrites the `dist.tarball` URL of a single raw version manifest to point back
/// at this server. `None` means that nothing was rewritten. The rewrite is a
/// splice of the string literal: every other byte of the manifest stays exactly
/// as upstream published it, and the tarball of the result is the one on this
/// server.
pub fn rewrite_version_tarball(raw: &[u8], base: &str, repo_name: &str, pkg: &str) -> (r: Option<
    String,
>)
    ensures
        match r {
            Some(s) => rewritten_manifest(raw@, base@, repo_name@, pkg@) == Some(encode_utf8(s@))
                && (plain_dist(raw@) ==> tarball_moved(
                raw@,
                encode_utf8(s@),
                base@,
                repo_name@,
                pkg@,
            )),
            None => match rewritten_manifest(raw@, base@, repo_name@, pkg@) {
                Some(b) => !valid_utf8(b),
                None => true,
            },
        },
{
    let (ds, de) = match json_field_span(raw, "dist") {
        Some(p) => p,
        None => {
            return None;
        },
    };
    let dist = slice_subrange(raw, ds, de);
    let (s, e) = match json_field_span(dist, "tarball") {
        Some(p) => p,
        None => {
            return None;
        },
    };
    let tb = match parse_string(slice_subrange(dist, s, e)) {
        Some(t) => t,
        None => {
            return None;
        },
    };
    let mut url = base.to_owned();
    url.append("/npm/");
    url.append(repo_name);
    url.append("/");
    url.append(pkg);
    url.append("/-/");
    url.append(path_base(tb.as_str()).as_str());
    let literal = quote(url.as_str());
    let mut out: Vec<u8> = Vec::new();
    let total = raw.len();
    append_bytes(&mut out, raw, 0, ds + s);
    let lit_bytes = literal.as_str().as_bytes();
    append_bytes(&mut out, lit_bytes, 0, lit_bytes.len());
    append_bytes(&mut out, raw, ds + e, total);
    proof {
        assert(raw@.subrange(0, ds + s) =~= raw@.take(ds + s));
        assert(lit_bytes@.subrange(0, lit_bytes@.len() as int) =~= lit_bytes@);
        assert(raw@.subrange(ds + e, raw@.len() as int) =~= raw@.skip(ds + e));
        assert(out@ =~= raw@.take(ds + s) + encode_utf8(json_literal(url@)) + raw@.skip(ds + e));
        let d = raw@.subrange(ds as int, de as int);
        assert(d.subrange(s as int, e as int)[0] == d[s as int]);
        if plain_dist(raw@) {
            lemma_field_starts(d, "tarball"@);
            replaced_literal_is_found(raw@, "dist"@, "tarball"@, lit_bytes@);
        }
    }
    string_from_utf8(out)
}

/// The text that a packument holds for a version after the rewrite: the rewritten
/// manifest where there is one and it is JSON, else the original text.
pub open spec fn manifest_text(
    raw: Seq<char>,
    base: Seq<char>,
    repo: Seq<char>,
    pkg: Seq<char>,
) -> Seq<char> {
    match rewritten_manifest(encode_utf8(raw), base, repo, pkg) {
        Some(b) => if valid_utf8(b) {
            match json_raw(decode_utf8(b)) {
                Some(t) => t,
                None => raw,
            }
        } else {
            raw
        },
        None => raw,
    }
}

fn rewrite_manifest(raw: &str, base: &str, repo_name: &str, pkg: &str) -> (r: String)
    ensures
        r@ == manifest_text(raw@, base@, repo_name@, pkg@),
{
    match rewrite_version_tarball(raw.as_bytes(), base, repo_name, pkg) {
        Some(s) => {
            proof {
                encode_utf8_valid_utf8(s@);
                encode_utf8_decode_utf8(s@);
            }
            match raw_value(s) {
                Some(t) => t,
                None => raw.to_owned(),
            }
        },
        None => raw.to_owned(),
    }
}

// ---------------------------------------------------------------------------
// The packument

/// The age policy as it applies to the versions of one packument.
pub struct Cooldown {
    /// The publish time of each version, as text.
    pub times: Map<Seq<char>, Seq<char>>,
    /// The instant of the request.
    pub now: int,
    /// A version younger than this is held back.
    pub min_age: int,
}

impl Cooldown {
    /// When `ver` was published, where that is known.
    pub open spec fn published(self, ver: Seq<char>) -> Option<Stamp> {
        if self.times.contains_key(ver) {
            rfc3339_stamp(self.times[ver])
        } else {
            None
        }
    }

    /// `ver` is held back: it is known to be younger than the limit.
    pub open spec fn holds(self, ver: Seq<char>) -> bool {
        match self.published(ver) {
            Some(t) => t.age(self.now) < self.min_age,
            None => false,
        }
    }
}

/// Where and for whom the packument is rendered.
pub struct Target {
    pub base: Seq<char>,
    pub repo: Seq<char>,
    pub pkg: Seq<char>,
}

/// The versions that stay, rewritten, in order.
pub open spec fn kept_versions(vers: Members, c: Cooldown, t: Target) -> Members
    decreases vers.len(),
{
    if vers.len() == 0 {
        Seq::empty()
    } else {
        let rest = kept_versions(vers.drop_last(), c, t);
        if c.holds(vers.last().0) {
            rest
        } else {
            rest.push((vers.last().0, manifest_text(vers.last().1, t.base, t.repo, t.pkg)))
        }
    }
}

/// How many versions are held back.
pub open spec fn held_count(vers: Members, c: Cooldown) -> nat
    decreases vers.len(),
{
    if vers.len() == 0 {
        0
    } else {
        held_count(vers.drop_last(), c) + if c.holds(vers.last().0) {
            1nat
        } else {
            0nat
        }
    }
}

/// `ver` is one of the versions, and held back.
pub open spec fn is_held(vers: Members, c: Cooldown, ver: Seq<char>) -> bool {
    c.holds(ver) && firsts(vers).contains(ver)
}

/// The earliest time at which a held version is old enough.
pub open spec fn first_release(vers: Members, c: Cooldown) -> Option<Stamp>
    decreases vers.len(),
{
    if vers.len() == 0 {
        None
    } else {
        let rest = first_release(vers.drop_last(), c);
        if c.holds(vers.last().0) {
            let at = c.published(vers.last().0)->0.later(c.min_age);
            match rest {
                Some(u) => if at.before(u) {
                    Some(at)
                } else {
                    rest
                },
                None => Some(at),
            }
        } else {
            rest
        }
    }
}

/// The dist-tags that stay, in order, each version as a JSON literal.
pub open spec fn kept_tags(tags: Members, vers: Members, c: Cooldown) -> Members
    decreases tags.len(),
{
    if tags.len() == 0 {
        Seq::empty()
    } else {
        let rest = kept_tags(tags.drop_last(), vers, c);
        if is_held(vers, c, tags.last().1) {
            rest
        } else {
            rest.push((tags.last().0, json_literal(tags.last().1)))
        }
    }
}

/// The tag `latest` points at a held version.
pub open spec fn latest_is_held(tags: Members, vers: Members, c: Cooldown) -> bool {
    exists|i: int|
        0 <= i < tags.len() && (#[trigger] tags[i]).0 == "latest"@ && is_held(vers, c, tags[i].1)
}

/// The dist-tags after the rewrite: those that point at held versions are gone,
/// and `latest`, if it was one of them, points at the highest stable version that
/// stays, if there is one.
pub open spec fn tag_map(tags: Members, vers: Members, c: Cooldown, t: Target) -> Map<
    Seq<char>,
    Seq<char>,
> {
    let kept = member_map(kept_tags(tags, vers, c));
    if latest_is_held(tags, vers, c) {
        match highest(firsts(kept_versions(vers, c, t))) {
            Some((best, _)) => kept.insert("latest"@, json_literal(best)),
            None => kept,
        }
    } else {
        kept
    }
}

/// The members of an object given by its map, in ascending order of name.
pub open spec fn members_of(m: Map<Seq<char>, Seq<char>>) -> Members {
    choose|o: Members| ascending(firsts(o)) && member_map(o) == m
}

pub proof fn lemma_members_of(o: Members)
    requires
        ascending(firsts(o)),
    ensures
        members_of(member_map(o)) == o,
{
    let c = members_of(member_map(o));
    assert(ascending(firsts(c)) && member_map(c) == member_map(o));
    lemma_members_unique(c, o);
}

/// The versions of a packument; nothing where they are not an object.
pub open spec fn packument_versions(top: Map<Seq<char>, Seq<char>>) -> Option<Members> {
    if top.contains_key("versions"@) && top["versions"@].len() > 0 {
        json_object(encode_utf8(top["versions"@]))
    } else {
        Some(Seq::empty())
    }
}

/// The policy blocks releases.
pub open spec fn enforces(age: AgePolicyConfig) -> bool {
    age.enabled && age.action@ == ACTION_BLOCK@
}

/// The cooldown that applies to a packument. A missing or odd `time` map holds
/// nothing back.
pub open spec fn cooldown_of(
    top: Map<Seq<char>, Seq<char>>,
    age: AgePolicyConfig,
    now: int,
) -> Cooldown {
    let times = if enforces(age) && top.contains_key("time"@) {
        match json_string_map(encode_utf8(top["time"@])) {
            Some(m) => member_map(m),
            None => Map::empty(),
        }
    } else {
        Map::empty()
    };
    Cooldown { times, now, min_age: span_of(age.min_age) }
}

/// The packument with its dist-tags rewritten, where versions are held back.
pub open spec fn with_tags(
    top: Map<Seq<char>, Seq<char>>,
    vers: Members,
    c: Cooldown,
    t: Target,
) -> Map<Seq<char>, Seq<char>> {
    if held_count(vers, c) > 0 && top.contains_key("dist-tags"@) {
        match json_string_map(encode_utf8(top["dist-tags"@])) {
            Some(tags) => match json_raw(object_text(members_of(tag_map(tags, vers, c, t)))) {
                Some(raw) => top.insert("dist-tags"@, raw),
                None => top,
            },
            None => top,
        }
    } else {
        top
    }
}

/// The whole packument after the rewrite; nothing where its versions are not an
/// object.
pub open spec fn rewritten_packument(
    top: Map<Seq<char>, Seq<char>>,
    age: AgePolicyConfig,
    now: int,
    t: Target,
) -> Option<Map<Seq<char>, Seq<char>>> {
    match packument_versions(top) {
        None => None,
        Some(vers) => {
            let c = cooldown_of(top, age, now);
            let tagged = with_tags(top, vers, c, t);
            if top.contains_key("versions"@) {
                match json_raw(object_text(kept_versions(vers, c, t))) {
                    Some(raw) => Some(tagged.insert("versions"@, raw)),
                    None => None,
                }
            } else {
                Some(tagged)
            }
        },
    }
}

/// Looks up when `ver` was published.
fn published_at(times: &RawObject, ver: &str) -> (r: Option<Stamp>)
    requires
        times.wf(),
    ensures
        r == (if times.map().contains_key(ver@) {
            rfc3339_stamp(times.map()[ver@])
        } else {
            None
        }),
        r is Some ==> r->0.wf(),
{
    match times.get(ver) {
        Some(ts) => parse_rfc3339(ts.as_str()),
        None => None,
    }
}

/// Decides whether `ver` is held back, and until when.
fn held_until(times: &RawObject, ver: &str, now: i128, min_age: i128, Ghost(c): Ghost<Cooldown>)
    -> (r: Option<Stamp>)
    requires
        times.wf(),
        valid_instant(now as int),
        0 <= min_age <= i64::MAX,
        c == (Cooldown { times: times.map(), now: now as int, min_age: min_age as int }),
    ensures
        r is Some <==> c.holds(ver@),
        r matches Some(u) ==> u == c.published(ver@)->0.later(c.min_age),
{
    match published_at(times, ver) {
        Some(t) => if t.age_at(now) < min_age {
            Some(t.plus(min_age))
        } else {
            None
        },
        None => None,
    }
}

proof fn lemma_kept_before(vers: Members, c: Cooldown, t: Target, key: Seq<char>)
    requires
        forall|j: int| 0 <= j < vers.len() ==> text_lt((#[trigger] vers[j]).0, key),
    ensures
        forall|j: int|
            0 <= j < kept_versions(vers, c, t).len() ==> text_lt(
                (#[trigger] kept_versions(vers, c, t)[j]).0,
                key,
            ),
    decreases vers.len(),
{
    if vers.len() > 0 {
        let init = vers.drop_last();
        assert(forall|j: int| 0 <= j < init.len() ==> init[j] == vers[j]);
        lemma_kept_before(init, c, t, key);
        assert(vers[vers.len() - 1] == vers.last());
        let rest = kept_versions(init, c, t);
        let all = kept_versions(vers, c, t);
        assert forall|j: int| 0 <= j < all.len() implies text_lt((#[trigger] all[j]).0, key) by {
            if j < rest.len() {
                assert(all[j] == rest[j]);
            }
        }
    }
}

proof fn lemma_tags_before(tags: Members, vers: Members, c: Cooldown, key: Seq<char>)
    requires
        forall|j: int| 0 <= j < tags.len() ==> text_lt((#[trigger] tags[j]).0, key),
    ensures
        forall|j: int|
            0 <= j < kept_tags(tags, vers, c).len() ==> text_lt(
                (#[trigger] kept_tags(tags, vers, c)[j]).0,
                key,
            ),
    decreases tags.len(),
{
    if tags.len() > 0 {
        let init = tags.drop_last();
        assert(forall|j: int| 0 <= j < init.len() ==> init[j] == tags[j]);
        lemma_tags_before(init, vers, c, key);
        assert(tags[tags.len() - 1] == tags.last());
        let rest = kept_tags(init, vers, c);
        let all = kept_tags(tags, vers, c);
        assert forall|j: int| 0 <= j < all.len() implies text_lt((#[trigger] all[j]).0, key) by {
            if j < rest.len() {
                assert(all[j] == rest[j]);
            }
        }
    }
}

/// What the age policy leaves of the versions.
struct Sifted {
    kept: RawObject,
    removed: usize,
    until: Option<Stamp>,
}

fn sift_versions(
    versions: &RawObject,
    times: &RawObject,
    now: i128,
    min_age: i128,
    base: &str,
    repo_name: &str,
    pkg: &str,
    Ghost(c): Ghost<Cooldown>,
    Ghost(t): Ghost<Target>,
) -> (r: Sifted)
    requires
        versions.wf(),
        times.wf(),
        valid_instant(now as int),
        0 <= min_age <= i64::MAX,
        c == (Cooldown { times: times.map(), now: now as int, min_age: min_age as int }),
        t == (Target { base: base@, repo: repo_name@, pkg: pkg@ }),
    ensures
        r.kept.wf(),
        r.kept@ == kept_versions(versions@, c, t),
        r.removed == held_count(versions@, c),
        r.until == first_release(versions@, c),
{
    let mut kept = RawObject::new();
    let mut removed: usize = 0;
    let mut until: Option<Stamp> = None;
    let mut i: usize = 0;
    let ghost vers = versions@;
    assert(vers.take(0) =~= Seq::empty());
    while i < versions.members.len()
        invariant
            i <= versions.members@.len(),
            vers == versions@,
            vers.len() == versions.members@.len(),
            versions.wf(),
            times.wf(),
            valid_instant(now as int),
            0 <= min_age <= i64::MAX,
            c == (Cooldown { times: times.map(), now: now as int, min_age: min_age as int }),
            t == (Target { base: base@, repo: repo_name@, pkg: pkg@ }),
            kept.wf(),
            kept@ == kept_versions(vers.take(i as int), c, t),
            removed == held_count(vers.take(i as int), c),
            removed <= i,
            until == first_release(vers.take(i as int), c),
        decreases versions.members.len() - i,
    {
        let name = &versions.members[i].0;
        let ghost done = vers.take(i as int);
        proof {
            assert(vers[i as int] == (name@, versions.members@[i as int].1@));
            assert(vers.take(i + 1).drop_last() =~= done);
            assert(vers.take(i + 1).last() == vers[i as int]);
            assert forall|j: int| 0 <= j < done.len() implies text_lt(
                (#[trigger] done[j]).0,
                name@,
            ) by {
                assert(text_lt(firsts(vers)[j], firsts(vers)[i as int]));
            }
            lemma_kept_before(done, c, t, name@);
        }
        match held_until(times, name.as_str(), now, min_age, Ghost(c)) {
            Some(at) => {
                removed += 1;
                until = match until {
                    Some(u) => if at.is_before(u) {
                        Some(at)
                    } else {
                        Some(u)
                    },
                    None => Some(at),
                };
            },
            None => {
                let text = rewrite_manifest(
                    versions.members[i].1.as_str(),
                    base,
                    repo_name,
                    pkg,
                );
                kept.push(name.clone(), text);
            },
        }
        i += 1;
    }
    assert(vers.take(vers.len() as int) =~= vers);
    Sifted { kept, removed, until }
}

/// The dist-tags after the rewrite, as text.
fn sift_tags(
    tags: &RawObject,
    versions: &RawObject,
    kept: &RawObject,
    times: &RawObject,
    now: i128,
    min_age: i128,
    Ghost(c): Ghost<Cooldown>,
    Ghost(t): Ghost<Target>,
) -> (r: String)
    requires
        tags.wf(),
        versions.wf(),
        times.wf(),
        valid_instant(now as int),
        0 <= min_age <= i64::MAX,
        c == (Cooldown { times: times.map(), now: now as int, min_age: min_age as int }),
        kept@ == kept_versions(versions@, c, t),
    ensures
        r@ == object_text(members_of(tag_map(tags@, versions@, c, t))),
{
    let mut out = RawObject::new();
    let mut remap = false;
    let mut i: usize = 0;
    let ghost all = tags@;
    let ghost vers = versions@;
    assert(all.take(0) =~= Seq::empty());
    while i < tags.members.len()
        invariant
            i <= tags.members@.len(),
            all == tags@,
            vers == versions@,
            all.len() == tags.members@.len(),
            tags.wf(),
            versions.wf(),
            times.wf(),
            valid_instant(now as int),
            0 <= min_age <= i64::MAX,
            c == (Cooldown { times: times.map(), now: now as int, min_age: min_age as int }),
            out.wf(),
            out@ == kept_tags(all.take(i as int), vers, c),
            remap == latest_is_held(all.take(i as int), vers, c),
        decreases tags.members.len() - i,
    {
        let name = &tags.members[i].0;
        let ver = &tags.members[i].1;
        let ghost done = all.take(i as int);
        let ghost next = all.take(i + 1);
        proof {
            assert(all[i as int] == (name@, ver@));
            assert(next.drop_last() =~= done);
            assert(next.last() == all[i as int]);
            assert forall|j: int| 0 <= j < done.len() implies text_lt(
                (#[trigger] done[j]).0,
                name@,
            ) by {
                assert(text_lt(firsts(all)[j], firsts(all)[i as int]));
            }
            lemma_tags_before(done, vers, c, name@);
            lemma_member_map(vers);
            assert(versions.map().contains_key(ver@) <==> firsts(vers).contains(ver@)) by {
                if firsts(vers).contains(ver@) {
                    let j = choose|j: int| 0 <= j < firsts(vers).len() && firsts(vers)[j] == ver@;
                    assert(vers[j].0 == ver@);
                }
                if versions.map().contains_key(ver@) {
                    let j = choose|j: int| 0 <= j < vers.len() && (#[trigger] vers[j]).0 == ver@;
                    assert(firsts(vers)[j] == ver@);
                }
            }
        }
        let held = versions.contains_key(ver.as_str()) && held_until(
            times,
            ver.as_str(),
            now,
            min_age,
            Ghost(c),
        ).is_some();
        assert(held == is_held(vers, c, ver@));
        proof {
            assert(forall|j: int| 0 <= j < done.len() ==> done[j] == next[j]);
            assert(next[i as int] == all[i as int]);
            assert(latest_is_held(next, vers, c) == (latest_is_held(done, vers, c) || (name@
                == "latest"@ && held))) by {
                if latest_is_held(done, vers, c) {
                    let j = choose|j: int|
                        0 <= j < done.len() && (#[trigger] done[j]).0 == "latest"@ && is_held(
                            vers,
                            c,
                            done[j].1,
                        );
                    assert(next[j].0 == "latest"@);
                }
                if latest_is_held(next, vers, c) {
                    let j = choose|j: int|
                        0 <= j < next.len() && (#[trigger] next[j]).0 == "latest"@ && is_held(
                            vers,
                            c,
                            next[j].1,
                        );
                    if j < i {
                        assert(done[j].0 == "latest"@);
                    }
                }
            }
        }
        if held {
            if same(name.as_str(), "latest") {
                remap = true;
            }
        } else {
            out.push(name.clone(), quote(ver.as_str()));
        }
        i += 1;
    }
    assert(all.take(all.len() as int) =~= all);
    if remap {
        let best = highest_stable_version(kept);
        if !best.as_str().is_empty() {
            out.insert("latest".to_owned(), quote(best.as_str()));
        }
    }
    proof {
        assert(out.map() == tag_map(all, vers, c, t));
        lemma_members_of(out@);
    }
    out.text()
}

/// Rewrites `dist.tarball` URLs and removes versions whose upstream publish time
/// violates a blocking age policy. It returns the transformed JSON, the number of
/// versions removed, and the earliest time at which a removed version leaves
/// the cooldown (`None` when nothing was removed: the output then depends on
/// nothing but its inputs). `None` overall means that the original bytes are to be
/// served.
pub fn rewrite_packument_top(
    top: RawObject,
    base: &str,
    repo_name: &str,
    pkg: &str,
    age: &AgePolicyConfig,
    now: i128,
) -> (r: Option<(Vec<u8>, usize, Option<Stamp>)>)
    requires
        top.wf(),
        valid_instant(now as int),
    ensures
        ({
            let t = Target { base: base@, repo: repo_name@, pkg: pkg@ };
            let c = cooldown_of(top.map(), *age, now as int);
            match r {
                Some((body, removed, until)) => {
                    let vers = packument_versions(top.map())->0;
                    &&& rewritten_packument(top.map(), *age, now as int, t) matches Some(doc)
                        && body@ == encode_utf8(object_text(members_of(doc)))
                    &&& removed == held_count(vers, c)
                    &&& until == first_release(vers, c)
                },
                None => rewritten_packument(top.map(), *age, now as int, t) is None,
            }
        }),
{
    let ghost t = Target { base: base@, repo: repo_name@, pkg: pkg@ };
    let ghost c = cooldown_of(top.map(), *age, now as int);
    let ghost original = top.map();
    let mut top = top;
    let mut versions = RawObject::new();
    if let Some(raw) = top.get("versions") {
        if !raw.as_str().is_empty() {
            match parse_object(raw.as_str().as_bytes()) {
                Some(members) => {
                    versions = RawObject { members };
                },
                None => {
                    return None;
                },
            }
        }
    }
    let ghost vers = versions@;
    let mut times = RawObject::new();
    if age.enabled && same(age.action.as_str(), ACTION_BLOCK) {
        if let Some(raw) = top.get("time") {
            if let Some(members) = parse_string_map(raw.as_str().as_bytes()) {
                times = RawObject { members };
            }
        }
    }
    let min_age = span(age.min_age);
    assert(c == (Cooldown { times: times.map(), now: now as int, min_age: min_age as int }));
    let sifted = sift_versions(
        &versions,
        &times,
        now,
        min_age,
        base,
        repo_name,
        pkg,
        Ghost(c),
        Ghost(t),
    );
    let mut new_tags: Option<String> = None;
    if sifted.removed > 0 {
        if let Some(raw) = top.get("dist-tags") {
            if let Some(members) = parse_string_map(raw.as_str().as_bytes()) {
                let tags = RawObject { members };
                let text = sift_tags(
                    &tags,
                    &versions,
                    &sifted.kept,
                    &times,
                    now,
                    min_age,
                    Ghost(c),
                    Ghost(t),
                );
                new_tags = raw_value(text);
            }
        }
    }
    if let Some(raw) = new_tags {
        top.insert("dist-tags".to_owned(), raw);
    }
    assert(top.map() == with_tags(original, vers, c, t));
    proof {
        reveal_strlit("versions");
        reveal_strlit("dist-tags");
        assert("versions"@ != "dist-tags"@) by {
            assert("versions"@.len() == 8);
            assert("dist-tags"@.len() == 9);
        }
    }
    if top.contains_key("versions") {
        match raw_value(sifted.kept.text()) {
            Some(raw) => {
                top.insert("versions".to_owned(), raw);
            },
            None => {
                return None;
            },
        }
    }
    proof {
        lemma_members_of(top@);
    }
    let text = top.text();
    Some((text.as_str().as_bytes_vec(), sifted.removed, sifted.until))
}

/// Rewrites a raw packument. An unparseable body passes through unchanged.
pub fn rewrite_packument(
    body: &[u8],
    base: &str,
    repo_name: &str,
    pkg: &str,
    age: &AgePolicyConfig,
    now: i128,
) -> (r: (Vec<u8>, usize))
    requires
        valid_instant(now as int),
    ensures
        ({
            let t = Target { base: base@, repo: repo_name@, pkg: pkg@ };
            match json_object(body@) {
                Some(members) => match rewritten_packument(
                    member_map(members),
                    *age,
                    now as int,
                    t,
                ) {
                    Some(doc) => r.0@ == encode_utf8(object_text(members_of(doc))) && r.1
                        == held_count(
                        packument_versions(member_map(members))->0,
                        cooldown_of(member_map(members), *age, now as int),
                    ),
                    None => r.0@ == body@ && r.1 == 0,
                },
                None => r.0@ == body@ && r.1 == 0,
            }
        }),
{
    match parse_object(body) {
        Some(members) => match rewrite_packument_top(
            RawObject { members },
            base,
            repo_name,
            pkg,
            age,
            now,
        ) {
            Some((out, removed, _)) => (out, removed),
            None => (slice_to_vec(body), 0),
        },
        None => (slice_to_vec(body), 0),
    }
}

} // verus!
