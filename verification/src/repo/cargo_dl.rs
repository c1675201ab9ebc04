//! Resolves where a Cargo proxy fetches a `.crate` from.
//!
//! A sparse registry does not have to serve its crates from the index host: the
//! index's `config.json` names the download location in `dl`, which is expanded the
//! way cargo does it.

use vstd::prelude::*;
use vstd::string::StrSliceExecFns;
use vstd::utf8::encode_utf8;

use crate::bridge::{
    from_utf8_lossy, json_string, lossy_text, lowercase, parse_string, to_lowercase,
};
use crate::cut::{boundary, byte_len, chars_in_bytes, lemma_byte_len_grows, lines, lines_of};
use crate::record::{read_record_of_one, read_record_of_two, record};
use crate::repo::path::{join_upstream, joined};
use crate::table::Table;
use crate::text::{
    cat, chars_of, contains, contains_seq, opt_text, replace, replaced, same, slice_string, texts,
    trim_end, trim_end_char,
};

verus! {

/// How long an upstream `dl` template is reused before it is fetched again, in
/// nanoseconds.
pub const DL_TTL: i128 = 900_000_000_000;

/// How long a failed fetch of `config.json` is remembered, in nanoseconds.
pub const DL_MISS_TTL: i128 = 60_000_000_000;

/// The largest upstream `config.json` or index entry file read here, in bytes.
pub const MAX_DOC_BYTES: u64 = 1_048_576;

// ---------------------------------------------------------------------------
// Templates

/// A template names one of the markers that are substituted.
pub open spec fn has_marker(dl: Seq<char>) -> bool {
    contains_seq(dl, "{crate}"@) || contains_seq(dl, "{version}"@) || contains_seq(
        dl,
        "{prefix}"@,
    ) || contains_seq(dl, "{lowerprefix}"@) || contains_seq(dl, "{sha256-checksum}"@)
}

/// The first `n` bytes of a text, where they are whole characters.
pub open spec fn first_bytes(s: Seq<char>, n: int) -> Seq<char> {
    s.take(choose|k: int| boundary(s, n, k))
}

/// The bytes of a text after the first `n`, where they are whole characters.
pub open spec fn after_bytes(s: Seq<char>, n: int) -> Seq<char> {
    s.skip(choose|k: int| boundary(s, n, k))
}

/// The first `n` bytes of a text are whole characters.
pub open spec fn cuts_at(s: Seq<char>, n: int) -> bool {
    exists|k: int| boundary(s, n, k)
}

/// A crate name has a directory prefix: it is not empty, and the cuts fall between
/// characters. Names of ASCII letters always have one.
pub open spec fn has_prefix(name: Seq<char>) -> bool {
    let n = byte_len(name);
    n == 1 || n == 2 || (n == 3 && cuts_at(name, 1)) || (n > 3 && cuts_at(name, 2) && cuts_at(name, 4))
}

/// The directory prefix of a crate name: `1`, `2`, `3/{c}` or `{cr}/{at}`.
pub open spec fn prefix_of(name: Seq<char>) -> Seq<char> {
    let n = byte_len(name);
    if n == 1 {
        "1"@
    } else if n == 2 {
        "2"@
    } else if n == 3 {
        "3/"@ + first_bytes(name, 1)
    } else {
        first_bytes(name, 2) + "/"@ + after_bytes(first_bytes(name, 4), 2)
    }
}

/// At most one number of characters takes a given number of bytes.
proof fn lemma_one_boundary(s: Seq<char>, n: int, a: int, b: int)
    requires
        boundary(s, n, a),
        boundary(s, n, b),
    ensures
        a == b,
{
    if a < b {
        lemma_byte_len_grows(s, a, b);
    } else if b < a {
        lemma_byte_len_grows(s, b, a);
    }
}

/// The number of bytes of a text, as far as it is below five.
fn small_byte_len(v: &Vec<char>) -> (r: usize)
    ensures
        r <= 4,
        r < 4 ==> r == byte_len(v@),
        r == 4 ==> byte_len(v@) >= 4,
{
    let mut n: usize = 0;
    proof {
        lemma_byte_len_not_negative(v@);
    }
    while n < 4
        invariant
            n <= 4,
            byte_len(v@) >= n,
        decreases 4 - n,
    {
        let whole = match chars_in_bytes(v, n) {
            Some(k) => {
                proof {
                    if k < v@.len() {
                        lemma_byte_len_grows(v@, k as int, v@.len() as int);
                    }
                    assert(v@.take(v@.len() as int) =~= v@);
                }
                k == v.len()
            },
            None => {
                proof {
                    assert(v@.take(v@.len() as int) =~= v@);
                    if byte_len(v@) == n {
                        assert(boundary(v@, n as int, v@.len() as int));
                    }
                }
                false
            },
        };
        if whole {
            return n;
        }
        n += 1;
    }
    4
}

proof fn lemma_byte_len_not_negative(s: Seq<char>)
    ensures
        byte_len(s) >= 0,
{
    lemma_byte_len_grows(s, 0, s.len() as int);
    assert(s.take(0) =~= Seq::empty());
    assert(s.take(s.len() as int) =~= s);
}

/// Cargo's directory prefix for a crate name, keeping the name's case; nothing where
/// the name has none.
fn prefix_if_any(name: &str) -> (r: Option<String>)
    ensures
        match r {
            Some(p) => has_prefix(name@) && p@ == prefix_of(name@),
            None => !has_prefix(name@),
        },
{
    let v = chars_of(name);
    proof {
        lemma_byte_len_not_negative(name@);
    }
    let n = small_byte_len(&v);
    if n == 0 {
        return None;
    }
    if n == 1 {
        return Some("1".to_owned());
    }
    if n == 2 {
        return Some("2".to_owned());
    }
    if n == 3 {
        return match chars_in_bytes(&v, 1) {
            Some(k) => {
                proof {
                    let c = choose|c: int| boundary(name@, 1, c);
                    lemma_one_boundary(name@, 1, c, k as int);
                }
                let first = slice_string(&v, 0, k);
                assert(first@ =~= name@.take(k as int));
                Some(cat("3/", first.as_str()))
            },
            None => None,
        };
    }
    match (chars_in_bytes(&v, 2), chars_in_bytes(&v, 4)) {
        (Some(a), Some(b)) => {
            proof {
                let x = choose|x: int| boundary(name@, 2, x);
                lemma_one_boundary(name@, 2, x, a as int);
                let y = choose|y: int| boundary(name@, 4, y);
                lemma_one_boundary(name@, 4, y, b as int);
                if b < a {
                    lemma_byte_len_grows(name@, b as int, a as int);
                }
                let front = name@.take(b as int);
                assert(front.take(a as int) =~= name@.take(a as int));
                assert(boundary(front, 2, a as int));
                let z = choose|z: int| boundary(front, 2, z);
                lemma_one_boundary(front, 2, z, a as int);
            }
            let first = slice_string(&v, 0, a);
            let second = slice_string(&v, a, b);
            assert(first@ =~= name@.take(a as int));
            assert(second@ =~= name@.take(b as int).skip(a as int));
            let mut out = cat(first.as_str(), "/");
            out.append(second.as_str());
            Some(out)
        },
        _ => None,
    }
}

/// Cargo's directory prefix for a crate name, keeping the name's case.
pub fn prefix(name: &str) -> (r: String)
    requires
        has_prefix(name@),
    ensures
        r@ == prefix_of(name@),
{
    match prefix_if_any(name) {
        Some(p) => p,
        None => "".to_owned(),
    }
}

/// A text of ASCII characters takes one byte for each.
proof fn lemma_ascii_bytes(s: Seq<char>)
    requires
        forall|i: int| 0 <= i < s.len() ==> (#[trigger] s[i] as int) < 0x80,
    ensures
        byte_len(s) == s.len(),
    decreases s.len(),
{
    if s.len() > 0 {
        assert((s[s.len() - 1] as int) < 0x80);
        assert forall|i: int| 0 <= i < s.drop_last().len() implies (
        #[trigger] s.drop_last()[i] as int) < 0x80 by {
            assert((s[i] as int) < 0x80);
        }
        lemma_ascii_bytes(s.drop_last());
    }
}

/// Every name of ASCII characters that is not empty has a directory prefix, made of its
/// first characters by its length.
pub proof fn ascii_names_have_a_prefix(name: Seq<char>)
    requires
        name.len() > 0,
        forall|i: int| 0 <= i < name.len() ==> (#[trigger] name[i] as int) < 0x80,
    ensures
        has_prefix(name),
        name.len() == 1 ==> prefix_of(name) == "1"@,
        name.len() == 2 ==> prefix_of(name) == "2"@,
        name.len() == 3 ==> prefix_of(name) == "3/"@ + name.take(1),
        name.len() >= 4 ==> prefix_of(name) == name.take(2) + "/"@ + name.subrange(2, 4),
{
    lemma_ascii_bytes(name);
    assert forall|n: int| 0 <= n <= name.len() implies #[trigger] boundary(name, n, n) by {
        assert forall|i: int| 0 <= i < name.take(n).len() implies (
        #[trigger] name.take(n)[i] as int) < 0x80 by {
            assert((name[i] as int) < 0x80);
        }
        lemma_ascii_bytes(name.take(n));
    }
    if name.len() == 3 {
        assert(boundary(name, 1, 1));
        let w = choose|w: int| boundary(name, 1, w);
        lemma_one_boundary(name, 1, w, 1);
    }
    if name.len() > 3 {
        assert(boundary(name, 2, 2));
        assert(boundary(name, 4, 4));
        let x = choose|x: int| boundary(name, 2, x);
        lemma_one_boundary(name, 2, x, 2);
        let y = choose|y: int| boundary(name, 4, y);
        lemma_one_boundary(name, 4, y, 4);
        let front = name.take(4);
        assert(front.take(2) =~= name.take(2));
        assert(boundary(front, 2, 2));
        let z = choose|z: int| boundary(front, 2, z);
        lemma_one_boundary(front, 2, z, 2);
        assert(front.skip(2) =~= name.subrange(2, 4));
    }
}

/// A template with its markers but the checksum substituted.
pub open spec fn substituted(dl: Seq<char>, name: Seq<char>, version: Seq<char>) -> Seq<char> {
    replaced(
        replaced(
            replaced(replaced(dl, "{crate}"@, name), "{version}"@, version),
            "{prefix}"@,
            prefix_of(name),
        ),
        "{lowerprefix}"@,
        prefix_of(lowercase(name)),
    )
}

/// A `dl` template expanded as cargo does: markers are substituted, and a template
/// with none of them gets `/{crate}/{version}/download` appended. Nothing where the
/// template needs a checksum that is not known.
pub open spec fn expanded(
    dl: Seq<char>,
    name: Seq<char>,
    version: Seq<char>,
    checksum: Option<Seq<char>>,
) -> Option<Seq<char>> {
    if !has_marker(dl) {
        Some(trim_end(dl, '/') + "/"@ + name + "/"@ + version + "/download"@)
    } else {
        let url = substituted(dl, name, version);
        if !contains_seq(url, "{sha256-checksum}"@) {
            Some(url)
        } else {
            match checksum {
                Some(c) => Some(replaced(url, "{sha256-checksum}"@, c)),
                None => None,
            }
        }
    }
}

fn marked(dl: &str) -> (r: bool)
    ensures
        r == has_marker(dl@),
{
    contains(dl, "{crate}") || contains(dl, "{version}") || contains(dl, "{prefix}") || contains(
        dl,
        "{lowerprefix}",
    ) || contains(dl, "{sha256-checksum}")
}

/// The view of a checksum.
pub open spec fn opt_str(o: Option<&str>) -> Option<Seq<char>> {
    match o {
        Some(s) => Some(s@),
        None => None,
    }
}

/// Expands a `dl` template as cargo does.
pub fn expand_dl(dl: &str, name: &str, version: &str, checksum: Option<&str>) -> (r: Option<String>)
    requires
        has_marker(dl@) ==> has_prefix(name@) && has_prefix(lowercase(name@)),
    ensures
        opt_text(r) == expanded(dl@, name@, version@, opt_str(checksum)),
{
    if !marked(dl) {
        let mut out = trim_end_char(dl, '/');
        out.append("/");
        out.append(name);
        out.append("/");
        out.append(version);
        out.append("/download");
        return Some(out);
    }
    proof {
        reveal_strlit("{crate}");
        reveal_strlit("{version}");
        reveal_strlit("{prefix}");
        reveal_strlit("{lowerprefix}");
        reveal_strlit("{sha256-checksum}");
    }
    let lower = to_lowercase(name);
    let own = prefix(name);
    let low = prefix(lower.as_str());
    let a = replace(dl, "{crate}", name);
    let b = replace(a.as_str(), "{version}", version);
    let c = replace(b.as_str(), "{prefix}", own.as_str());
    let url = replace(c.as_str(), "{lowerprefix}", low.as_str());
    if !contains(url.as_str(), "{sha256-checksum}") {
        return Some(url);
    }
    match checksum {
        Some(sum) => Some(replace(url.as_str(), "{sha256-checksum}", sum)),
        None => None,
    }
}

/// The upstream URL of a `.crate`, given the template `dl` that the upstream
/// publishes, if any.
pub open spec fn download_url(
    base: Seq<char>,
    path: Seq<char>,
    dl: Option<Seq<char>>,
    name: Seq<char>,
    version: Seq<char>,
    checksum: Option<Seq<char>>,
) -> Seq<char> {
    match dl {
        None => joined(base, path),
        Some(t) => match expanded(t, name, version, checksum) {
            Some(url) => url,
            None => joined(base, path),
        },
    }
}

/// The template is expanded only for names that have a prefix.
pub open spec fn expandable(dl: Seq<char>, name: Seq<char>) -> bool {
    has_marker(dl) ==> has_prefix(name) && has_prefix(lowercase(name))
}

/// The upstream URL of `name@version`'s `.crate` for a proxy repository. Falls back
/// to the download path joined onto the index URL when the upstream publishes no
/// usable template, which is correct for registries on a single host. Nothing where
/// the template has markers and the name has no directory prefix.
pub fn cargo_upstream_download_url(
    base: &str,
    path: &str,
    dl: Option<&str>,
    name: &str,
    version: &str,
    checksum: Option<&str>,
) -> (r: Option<String>)
    ensures
        match r {
            Some(url) => (dl is Some ==> expandable(dl->0@, name@)) && url@ == download_url(
                base@,
                path@,
                opt_str(dl),
                name@,
                version@,
                opt_str(checksum),
            ),
            None => dl is Some && !expandable(dl->0@, name@),
        },
{
    let template = match dl {
        Some(t) => t,
        None => return Some(join_upstream(base, path)),
    };
    if marked(template) {
        let lower = to_lowercase(name);
        if prefix_if_any(name).is_none() || prefix_if_any(lower.as_str()).is_none() {
            return None;
        }
    }
    match expand_dl(template, name, version, checksum) {
        Some(url) => Some(url),
        None => Some(join_upstream(base, path)),
    }
}

/// Whether the checksum has to be looked up to expand a template.
pub fn needs_checksum(dl: &str) -> (r: bool)
    ensures
        r == contains_seq(dl@, "{sha256-checksum}"@),
{
    contains(dl, "{sha256-checksum}")
}

// ---------------------------------------------------------------------------
// Documents

/// The template that a registry configuration names; nothing where the document
/// cannot be read or names none.
pub open spec fn template_in(body: Seq<u8>) -> Option<Seq<char>> {
    match record(body, seq!["dl"@]) {
        Some(fields) => match text_field(fields[0]) {
            Some(dl) => if dl.len() == 0 {
                None
            } else {
                Some(dl)
            },
            None => None,
        },
        None => None,
    }
}

/// Reads the template out of an upstream `config.json`.
pub fn read_template(body: &[u8]) -> (r: Option<String>)
    ensures
        opt_text(r) == template_in(body@),
{
    match read_record_of_one(body, "dl") {
        Some(field) => match read_text_field(&field) {
            Some(dl) => {
                if dl.as_str().unicode_len() == 0 {
                    None
                } else {
                    Some(dl)
                }
            },
            None => None,
        },
        None => None,
    }
}

/// Whether an upstream document of this length is read; the length may be announced
/// before the body comes.
pub fn within_bound(announced: Option<u64>, read: u64) -> (r: bool)
    ensures
        r == ((announced is Some ==> announced->0 <= MAX_DOC_BYTES) && read <= MAX_DOC_BYTES),
{
    match announced {
        Some(n) => n <= MAX_DOC_BYTES && read <= MAX_DOC_BYTES,
        None => read <= MAX_DOC_BYTES,
    }
}

/// The text of a field that must be there; nothing where it is missing or no string.
pub open spec fn text_field(field: Option<Seq<char>>) -> Option<Seq<char>> {
    match field {
        Some(raw) => json_string(encode_utf8(raw)),
        None => None,
    }
}

fn read_text_field(field: &Option<String>) -> (r: Option<String>)
    ensures
        opt_text(r) == text_field(opt_text(*field)),
{
    match field {
        Some(raw) => parse_string(raw.as_str().as_bytes()),
        None => None,
    }
}

/// The version and the checksum that a line of a sparse index names.
pub open spec fn index_line(line: Seq<char>) -> Option<(Seq<char>, Seq<char>)> {
    match record(encode_utf8(line), seq!["vers"@, "cksum"@]) {
        Some(fields) => match (text_field(fields[0]), text_field(fields[1])) {
            (Some(v), Some(c)) => Some((v, c)),
            _ => None,
        },
        None => None,
    }
}

fn read_index_line(line: &str) -> (r: Option<(String, String)>)
    ensures
        crate::cut::opt_pair(r) == index_line(line@),
{
    match read_record_of_two(line.as_bytes(), "vers", "cksum") {
        Some((vers, cksum)) => match (read_text_field(&vers), read_text_field(&cksum)) {
            (Some(v), Some(c)) => Some((v, c)),
            _ => None,
        },
        None => None,
    }
}

/// The checksum on the first of the lines that names `version`.
pub open spec fn checksum_in(lines: Seq<Seq<char>>, version: Seq<char>) -> Option<Seq<char>>
    decreases lines.len(),
{
    if lines.len() == 0 {
        None
    } else {
        match index_line(lines[0]) {
            Some((v, c)) => if v == version {
                Some(c)
            } else {
                checksum_in(lines.skip(1), version)
            },
            None => checksum_in(lines.skip(1), version),
        }
    }
}

/// The `cksum` of `version` in a sparse-index entry file.
pub fn index_checksum(body: &[u8], version: &str) -> (r: Option<String>)
    ensures
        opt_text(r) == checksum_in(lines_of(lossy_text(body@)), version@),
{
    let text = from_utf8_lossy(body);
    let all = lines(text.as_str());
    let ghost t = texts(all@);
    let mut i: usize = 0;
    assert(t.skip(0) =~= t);
    while i < all.len()
        invariant
            i <= all@.len(),
            t == texts(all@),
            t == lines_of(lossy_text(body@)),
            checksum_in(t, version@) == checksum_in(t.skip(i as int), version@),
        decreases all@.len() - i,
    {
        proof {
            assert(t.skip(i as int)[0] == all@[i as int]@);
            assert(t.skip(i as int).skip(1) =~= t.skip(i + 1));
        }
        if let Some((v, c)) = read_index_line(all[i].as_str()) {
            if same(v.as_str(), version) {
                return Some(c);
            }
        }
        i += 1;
    }
    None
}

// ---------------------------------------------------------------------------
// The cache of templates

/// Upstream templates keyed by the upstream index URL. Nothing is also remembered: a
/// registry whose `config.json` could not be read or named no template.
pub struct CargoDlCache {
    pub entries: Table<(i128, Option<String>)>,
}

/// An entry is still good at `now`.
pub open spec fn entry_good(e: (i128, Option<String>), now: int) -> bool {
    now - e.0 < if e.1 is Some {
        DL_TTL as int
    } else {
        DL_MISS_TTL as int
    }
}

impl CargoDlCache {
    /// No URL occurs twice.
    pub open spec fn wf(&self) -> bool {
        &&& self.entries.wf()
        &&& forall|k: Seq<char>| #[trigger]
            self.entries@.contains_key(k) ==> crate::times::valid_instant(
                self.entries@[k].0 as int,
            )
    }

    /// An empty cache.
    pub fn new() -> (r: CargoDlCache)
        ensures
            r.wf(),
            r.entries@ == Map::<Seq<char>, (i128, Option<String>)>::empty(),
    {
        CargoDlCache { entries: Table::new() }
    }

    /// What is remembered of an upstream, where it is still good.
    pub fn get(&self, upstream: &str, now: i128) -> (r: Option<Option<String>>)
        requires
            self.wf(),
            crate::times::valid_instant(now as int),
        ensures
            match r {
                Some(dl) => self.entries@.contains_key(upstream@) && entry_good(
                    self.entries@[upstream@],
                    now as int,
                ) && opt_text(dl) == opt_text(self.entries@[upstream@].1),
                None => self.entries@.contains_key(upstream@) ==> !entry_good(
                    self.entries@[upstream@],
                    now as int,
                ),
            },
    {
        match self.entries.get(upstream) {
            Some((at, dl)) => {
                let ttl: i128 = match dl {
                    Some(_) => DL_TTL,
                    None => DL_MISS_TTL,
                };
                if now - *at < ttl {
                    match dl {
                        Some(t) => Some(Some(t.as_str().to_owned())),
                        None => Some(None),
                    }
                } else {
                    None
                }
            },
            None => None,
        }
    }

    /// Remembers what was read of an upstream at `now`.
    pub fn insert(&mut self, upstream: &str, dl: Option<String>, now: i128)
        requires
            old(self).wf(),
            crate::times::valid_instant(now as int),
        ensures
            final(self).wf(),
            final(self).entries@ == old(self).entries@.insert(upstream@, (now, dl)),
    {
        let ghost before = self.entries@;
        self.entries.insert(upstream, (now, dl));
        proof {
            assert forall|k: Seq<char>| #[trigger]
                self.entries@.contains_key(k) implies crate::times::valid_instant(
                self.entries@[k].0 as int,
            ) by {
                if k != upstream@ {
                    assert(before.contains_key(k));
                }
            }
        }
    }
}

} // verus!
