//! Module versions: `vMAJOR[.MINOR[.PATCH[-PRERELEASE][+BUILD]]]`.

use std::cmp::Ordering;

use vstd::prelude::*;

use crate::repo::path_laws::{lemma_one_piece, lemma_split_behind};
use crate::text::{
    all_digits, cat, chars_of, digits, digits_value, is_digit, lemma_digits_round_trip,
    lemma_text_lt_asymmetric,
    lemma_text_lt_irreflexive, lemma_text_lt_total, lemma_text_lt_transitive, less, slice_string,
    split, split_char, text_lt, texts,
};

verus! {

// ---------------------------------------------------------------------------
// Shape

/// The fields of a version. The prerelease keeps its leading `-`, the build its
/// leading `+`, and `short` is what the canonical form adds to a version that
/// leaves out its patch, or its minor and patch number.
pub struct Parts {
    pub major: Seq<char>,
    pub minor: Seq<char>,
    pub patch: Seq<char>,
    pub short: Seq<char>,
    pub prerelease: Seq<char>,
    pub build: Seq<char>,
}

/// The number of digits that `s` starts with.
pub open spec fn digit_run(s: Seq<char>) -> int
    decreases s.len(),
{
    if s.len() > 0 && is_digit(s[0]) {
        1 + digit_run(s.skip(1))
    } else {
        0
    }
}

/// A number without leading zero, and what follows it.
pub open spec fn leading_number(s: Seq<char>) -> Option<(Seq<char>, Seq<char>)> {
    let n = digit_run(s);
    if n == 0 || (s[0] == '0' && n != 1) {
        None
    } else {
        Some((s.take(n), s.skip(n)))
    }
}

/// What follows the character `c`, where `s` starts with it.
pub open spec fn behind(s: Seq<char>, c: char) -> Option<Seq<char>> {
    if s.len() > 0 && s[0] == c {
        Some(s.skip(1))
    } else {
        None
    }
}

/// A letter, a digit or a dash.
pub open spec fn is_ident_char(c: char) -> bool {
    is_digit(c) || 'a' <= c <= 'z' || 'A' <= c <= 'Z' || c == '-'
}

/// A number with a leading zero.
pub open spec fn is_bad_number(s: Seq<char>) -> bool {
    all_digits(s) && s.len() > 1 && s[0] == '0'
}

/// A non-empty identifier; as part of a prerelease no number with a leading zero.
pub open spec fn is_ident(s: Seq<char>, release: bool) -> bool {
    &&& s.len() > 0
    &&& forall|i: int| 0 <= i < s.len() ==> is_ident_char(#[trigger] s[i])
    &&& release ==> !is_bad_number(s)
}

/// Identifiers with dots between them.
pub open spec fn is_ident_list(s: Seq<char>, release: bool) -> bool {
    forall|i: int| 0 <= i < split(s, '.').len() ==> is_ident(#[trigger] split(s, '.')[i], release)
}

/// The position of the first `+`, or the length.
pub open spec fn plus_at(s: Seq<char>) -> int
    decreases s.len(),
{
    if s.len() > 0 && s[0] != '+' {
        1 + plus_at(s.skip(1))
    } else {
        0
    }
}

/// The prerelease that `s` starts with, dash included, and what follows it.
pub open spec fn leading_prerelease(s: Seq<char>) -> Option<(Seq<char>, Seq<char>)> {
    if s.len() > 0 && s[0] == '-' {
        let n = plus_at(s);
        if is_ident_list(s.subrange(1, n), true) {
            Some((s.take(n), s.skip(n)))
        } else {
            None
        }
    } else {
        Some((Seq::empty(), s))
    }
}

/// `s` is empty or a build, plus sign included.
pub open spec fn is_build(s: Seq<char>) -> bool {
    s.len() == 0 || (s[0] == '+' && is_ident_list(s.skip(1), false))
}

/// What follows the patch number: a prerelease and a build, each optional.
pub open spec fn tail_parts(s: Seq<char>) -> Option<(Seq<char>, Seq<char>)> {
    match leading_prerelease(s) {
        Some((pre, build)) => if is_build(build) {
            Some((pre, build))
        } else {
            None
        },
        None => None,
    }
}

/// The fields of `v`; nothing where `v` is no version.
pub open spec fn version_parts(v: Seq<char>) -> Option<Parts> {
    match behind(v, 'v') {
        None => None,
        Some(rest) => match leading_number(rest) {
            None => None,
            Some((major, rest)) => if rest.len() == 0 {
                Some(
                    Parts {
                        major,
                        minor: "0"@,
                        patch: "0"@,
                        short: ".0.0"@,
                        prerelease: Seq::empty(),
                        build: Seq::empty(),
                    },
                )
            } else {
                match behind(rest, '.') {
                    None => None,
                    Some(rest) => match leading_number(rest) {
                        None => None,
                        Some((minor, rest)) => if rest.len() == 0 {
                            Some(
                                Parts {
                                    major,
                                    minor,
                                    patch: "0"@,
                                    short: ".0"@,
                                    prerelease: Seq::empty(),
                                    build: Seq::empty(),
                                },
                            )
                        } else {
                            match behind(rest, '.') {
                                None => None,
                                Some(rest) => match leading_number(rest) {
                                    None => None,
                                    Some((patch, rest)) => match tail_parts(rest) {
                                        None => None,
                                        Some((prerelease, build)) => Some(
                                            Parts {
                                                major,
                                                minor,
                                                patch,
                                                short: Seq::empty(),
                                                prerelease,
                                                build,
                                            },
                                        ),
                                    },
                                },
                            }
                        },
                    },
                }
            },
        },
    }
}

/// `v` is a version.
pub open spec fn is_version(v: Seq<char>) -> bool {
    version_parts(v) is Some
}

/// The canonical form: all three numbers, no build. Empty for what is no version.
pub open spec fn canonical(v: Seq<char>) -> Seq<char> {
    match version_parts(v) {
        None => Seq::empty(),
        Some(p) => if p.build.len() > 0 {
            v.take(v.len() - p.build.len())
        } else {
            v + p.short
        },
    }
}

proof fn lemma_digit_run(s: Seq<char>)
    ensures
        0 <= digit_run(s) <= s.len(),
        forall|i: int| 0 <= i < digit_run(s) ==> is_digit(#[trigger] s[i]),
        digit_run(s) < s.len() ==> !is_digit(s[digit_run(s)]),
    decreases s.len(),
{
    if s.len() > 0 && is_digit(s[0]) {
        let t = s.skip(1);
        lemma_digit_run(t);
        assert forall|i: int| 0 <= i < digit_run(s) implies is_digit(#[trigger] s[i]) by {
            if i > 0 {
                assert(t[i - 1] == s[i]);
            }
        }
        if digit_run(s) < s.len() {
            assert(t[digit_run(t)] == s[digit_run(s)]);
        }
    }
}

proof fn lemma_digit_run_is(s: Seq<char>, n: int)
    requires
        0 <= n <= s.len(),
        forall|i: int| 0 <= i < n ==> is_digit(#[trigger] s[i]),
        n < s.len() ==> !is_digit(s[n]),
    ensures
        digit_run(s) == n,
    decreases s.len(),
{
    if n > 0 {
        let t = s.skip(1);
        assert(is_digit(s[0]));
        assert forall|i: int| 0 <= i < n - 1 implies is_digit(#[trigger] t[i]) by {
            assert(t[i] == s[i + 1]);
        }
        lemma_digit_run_is(t, n - 1);
    }
}

proof fn lemma_plus_at(s: Seq<char>)
    ensures
        0 <= plus_at(s) <= s.len(),
        forall|i: int| 0 <= i < plus_at(s) ==> #[trigger] s[i] != '+',
        plus_at(s) < s.len() ==> s[plus_at(s)] == '+',
    decreases s.len(),
{
    if s.len() > 0 && s[0] != '+' {
        let t = s.skip(1);
        lemma_plus_at(t);
        assert forall|i: int| 0 <= i < plus_at(s) implies #[trigger] s[i] != '+' by {
            if i > 0 {
                assert(t[i - 1] == s[i]);
            }
        }
        if plus_at(s) < s.len() {
            assert(t[plus_at(t)] == s[plus_at(s)]);
        }
    }
}

proof fn lemma_plus_at_is(s: Seq<char>, n: int)
    requires
        0 <= n <= s.len(),
        forall|i: int| 0 <= i < n ==> #[trigger] s[i] != '+',
        n < s.len() ==> s[n] == '+',
    ensures
        plus_at(s) == n,
    decreases s.len(),
{
    if n > 0 {
        let t = s.skip(1);
        assert(s[0] != '+');
        assert forall|i: int| 0 <= i < n - 1 implies #[trigger] t[i] != '+' by {
            assert(t[i] == s[i + 1]);
        }
        lemma_plus_at_is(t, n - 1);
    }
}

/// The fields of a version.
pub struct GoSemver {
    pub major: String,
    pub minor: String,
    pub patch: String,
    pub short: String,
    pub prerelease: String,
    pub build: String,
}

impl View for GoSemver {
    type V = Parts;

    open spec fn view(&self) -> Parts {
        Parts {
            major: self.major@,
            minor: self.minor@,
            patch: self.patch@,
            short: self.short@,
            prerelease: self.prerelease@,
            build: self.build@,
        }
    }
}

/// The end of the number that starts at `from`.
fn parse_int(v: &Vec<char>, from: usize) -> (r: Option<usize>)
    requires
        from <= v@.len(),
    ensures
        match r {
            Some(e) => from < e <= v@.len() && leading_number(v@.skip(from as int)) == Some(
                (v@.subrange(from as int, e as int), v@.skip(e as int)),
            ),
            None => leading_number(v@.skip(from as int)) is None,
        },
{
    let ghost s = v@.skip(from as int);
    let mut i: usize = from;
    while i < v.len() && '0' <= v[i] && v[i] <= '9'
        invariant
            from <= i <= v@.len(),
            s == v@.skip(from as int),
            forall|k: int| 0 <= k < i - from ==> is_digit(#[trigger] s[k]),
        decreases v.len() - i,
    {
        assert(s[i - from] == v@[i as int]);
        i += 1;
    }
    proof {
        if i < v@.len() {
            assert(s[i - from] == v@[i as int]);
        }
        lemma_digit_run_is(s, i - from);
    }
    if i == from {
        return None;
    }
    assert(s[0] == v@[from as int]);
    if v[from] == '0' && i - from != 1 {
        return None;
    }
    proof {
        assert(s.take(i - from) =~= v@.subrange(from as int, i as int));
        assert(s.skip(i - from) =~= v@.skip(i as int));
    }
    Some(i)
}

fn ident_char(c: char) -> (r: bool)
    ensures
        r == is_ident_char(c),
{
    ('0' <= c && c <= '9') || ('a' <= c && c <= 'z') || ('A' <= c && c <= 'Z') || c == '-'
}

/// Whether every character of `s` is a digit.
fn is_num(s: &str) -> (r: bool)
    ensures
        r == all_digits(s@),
{
    let v = chars_of(s);
    let mut i: usize = 0;
    while i < v.len()
        invariant
            i <= v@.len(),
            v@ == s@,
            forall|k: int| 0 <= k < i ==> is_digit(#[trigger] s@[k]),
        decreases v.len() - i,
    {
        if v[i] < '0' || v[i] > '9' {
            assert(!is_digit(s@[i as int]));
            return false;
        }
        i += 1;
    }
    true
}

/// Whether `s` is an identifier.
fn ident(s: &str, release: bool) -> (r: bool)
    ensures
        r == is_ident(s@, release),
{
    let v = chars_of(s);
    if v.len() == 0 {
        return false;
    }
    let mut i: usize = 0;
    while i < v.len()
        invariant
            i <= v@.len(),
            v@ == s@,
            forall|k: int| 0 <= k < i ==> is_ident_char(#[trigger] s@[k]),
        decreases v.len() - i,
    {
        if !ident_char(v[i]) {
            assert(!is_ident_char(s@[i as int]));
            return false;
        }
        i += 1;
    }
    if release && v.len() > 1 && v[0] == '0' && is_num(s) {
        return false;
    }
    true
}

/// Whether `s` is a list of identifiers with dots between them.
fn ident_list(s: &str, release: bool) -> (r: bool)
    ensures
        r == is_ident_list(s@, release),
{
    let parts = split_char(s, '.');
    let mut i: usize = 0;
    while i < parts.len()
        invariant
            i <= parts@.len(),
            texts(parts@) == split(s@, '.'),
            forall|k: int| 0 <= k < i ==> is_ident(#[trigger] split(s@, '.')[k], release),
        decreases parts.len() - i,
    {
        assert(split(s@, '.')[i as int] == parts@[i as int]@);
        if !ident(parts[i].as_str(), release) {
            assert(!is_ident(split(s@, '.')[i as int], release));
            return false;
        }
        i += 1;
    }
    true
}

/// The end of the prerelease that starts at `from`, or `from` where there is none.
fn parse_prerelease(v: &Vec<char>, from: usize) -> (r: Option<usize>)
    requires
        from <= v@.len(),
    ensures
        match r {
            Some(e) => from <= e <= v@.len() && leading_prerelease(v@.skip(from as int)) == Some(
                (v@.subrange(from as int, e as int), v@.skip(e as int)),
            ),
            None => leading_prerelease(v@.skip(from as int)) is None,
        },
{
    let ghost s = v@.skip(from as int);
    if from == v.len() || v[from] != '-' {
        assert(v@.subrange(from as int, from as int) =~= Seq::empty());
        return Some(from);
    }
    let mut i: usize = from;
    while i < v.len() && v[i] != '+'
        invariant
            from <= i <= v@.len(),
            s == v@.skip(from as int),
            forall|k: int| 0 <= k < i - from ==> #[trigger] s[k] != '+',
        decreases v.len() - i,
    {
        assert(s[i - from] == v@[i as int]);
        i += 1;
    }
    proof {
        if i < v@.len() {
            assert(s[i - from] == v@[i as int]);
        }
        lemma_plus_at_is(s, i - from);
        assert(s[0] == v@[from as int]);
        assert(s.take(i - from) =~= v@.subrange(from as int, i as int));
        assert(s.skip(i - from) =~= v@.skip(i as int));
        assert(s.subrange(1, i - from) =~= v@.subrange(from + 1, i as int));
    }
    if ident_list(slice_string(v, from + 1, i).as_str(), true) {
        Some(i)
    } else {
        None
    }
}

/// Whether what starts at `from` is empty or a build.
fn parse_build(v: &Vec<char>, from: usize) -> (r: bool)
    requires
        from <= v@.len(),
    ensures
        r == is_build(v@.skip(from as int)),
{
    if from == v.len() {
        return true;
    }
    assert(v@.skip(from as int)[0] == v@[from as int]);
    if v[from] != '+' {
        return false;
    }
    assert(v@.skip(from as int).skip(1) =~= v@.subrange(from + 1, v@.len() as int));
    ident_list(slice_string(v, from + 1, v.len()).as_str(), false)
}

/// Splits a version into its fields.
pub fn go_semver_parse(v: &str) -> (r: Option<GoSemver>)
    ensures
        match r {
            Some(p) => version_parts(v@) == Some(p@),
            None => version_parts(v@) is None,
        },
{
    let s = chars_of(v);
    if s.len() == 0 || s[0] != 'v' {
        return None;
    }
    let e1 = match parse_int(&s, 1) {
        Some(e) => e,
        None => {
            return None;
        },
    };
    let major = slice_string(&s, 1, e1);
    if e1 == s.len() {
        return Some(
            GoSemver {
                major,
                minor: "0".to_owned(),
                patch: "0".to_owned(),
                short: ".0.0".to_owned(),
                prerelease: String::new(),
                build: String::new(),
            },
        );
    }
    assert(s@.skip(e1 as int)[0] == s@[e1 as int]);
    if s[e1] != '.' {
        return None;
    }
    assert(s@.skip(e1 as int).skip(1) =~= s@.skip(e1 + 1));
    let e2 = match parse_int(&s, e1 + 1) {
        Some(e) => e,
        None => {
            return None;
        },
    };
    let minor = slice_string(&s, e1 + 1, e2);
    if e2 == s.len() {
        return Some(
            GoSemver {
                major,
                minor,
                patch: "0".to_owned(),
                short: ".0".to_owned(),
                prerelease: String::new(),
                build: String::new(),
            },
        );
    }
    assert(s@.skip(e2 as int)[0] == s@[e2 as int]);
    if s[e2] != '.' {
        return None;
    }
    assert(s@.skip(e2 as int).skip(1) =~= s@.skip(e2 + 1));
    let e3 = match parse_int(&s, e2 + 1) {
        Some(e) => e,
        None => {
            return None;
        },
    };
    let patch = slice_string(&s, e2 + 1, e3);
    let e4 = match parse_prerelease(&s, e3) {
        Some(e) => e,
        None => {
            return None;
        },
    };
    if !parse_build(&s, e4) {
        return None;
    }
    let prerelease = slice_string(&s, e3, e4);
    let build = slice_string(&s, e4, s.len());
    assert(build@ =~= s@.skip(e4 as int));
    Some(GoSemver { major, minor, patch, short: String::new(), prerelease, build })
}

/// Whether `v` is a version.
pub fn go_semver_valid(v: &str) -> (r: bool)
    ensures
        r == is_version(v@),
{
    go_semver_parse(v).is_some()
}

proof fn lemma_build_is_suffix(v: Seq<char>)
    requires
        is_version(v),
    ensures
        (version_parts(v)->0).build.len() <= v.len(),
{
    let rest = v.skip(1);
    lemma_digit_run(rest);
    let (major, rest1) = leading_number(rest)->0;
    if rest1.len() > 0 {
        let rest2 = rest1.skip(1);
        lemma_digit_run(rest2);
        let (minor, rest3) = leading_number(rest2)->0;
        if rest3.len() > 0 {
            let rest4 = rest3.skip(1);
            lemma_digit_run(rest4);
            let (patch, rest5) = leading_number(rest4)->0;
            lemma_plus_at(rest5);
        }
    }
}

/// The canonical form of a version. An invalid version canonicalises to `""`.
pub fn go_semver_canonical(v: &str) -> (r: String)
    ensures
        r@ == canonical(v@),
{
    match go_semver_parse(v) {
        None => String::new(),
        Some(p) => {
            proof {
                lemma_build_is_suffix(v@);
            }
            let build = chars_of(p.build.as_str());
            if build.len() > 0 {
                let s = chars_of(v);
                assert(v@.subrange(0, v@.len() - p.build@.len()) =~= v@.take(
                    v@.len() - p.build@.len(),
                ));
                slice_string(&s, 0, s.len() - build.len())
            } else {
                cat(v, p.short.as_str())
            }
        },
    }
}

/// The major version with its `v`; empty for what is no version.
pub open spec fn major_of(v: Seq<char>) -> Seq<char> {
    match version_parts(v) {
        Some(p) => seq!['v'] + p.major,
        None => Seq::empty(),
    }
}

/// The major version with its `v`.
pub fn go_semver_major(v: &str) -> (r: String)
    ensures
        r@ == major_of(v@),
{
    match go_semver_parse(v) {
        Some(p) => {
            let mut out = String::new();
            out.push('v');
            out.append(p.major.as_str());
            assert(out@ =~= seq!['v'] + p.major@);
            out
        },
        None => String::new(),
    }
}

/// The build, plus sign included; empty where there is none.
pub fn go_semver_build(v: &str) -> (r: String)
    ensures
        r@ == (match version_parts(v@) {
            Some(p) => p.build,
            None => Seq::empty(),
        }),
{
    match go_semver_parse(v) {
        Some(p) => p.build,
        None => String::new(),
    }
}

/// The prerelease, dash included; empty where there is none.
pub fn go_semver_prerelease(v: &str) -> (r: String)
    ensures
        r@ == (match version_parts(v@) {
            Some(p) => p.prerelease,
            None => Seq::empty(),
        }),
{
    match go_semver_parse(v) {
        Some(p) => p.prerelease,
        None => String::new(),
    }
}

// ---------------------------------------------------------------------------
// Order

/// -1, 0 or 1 as `a` comes before, equals or comes after `b`.
pub open spec fn text_order(a: Seq<char>, b: Seq<char>) -> int {
    if text_lt(a, b) {
        -1
    } else if text_lt(b, a) {
        1
    } else {
        0
    }
}

/// Numbers without leading zeros: the shorter is the smaller.
pub open spec fn number_order(a: Seq<char>, b: Seq<char>) -> int {
    if a.len() < b.len() {
        -1
    } else if a.len() > b.len() {
        1
    } else {
        text_order(a, b)
    }
}

/// Numbers come before words; numbers go by value and words by their text.
pub open spec fn ident_order(a: Seq<char>, b: Seq<char>) -> int {
    if all_digits(a) && all_digits(b) {
        number_order(a, b)
    } else if all_digits(a) {
        -1
    } else if all_digits(b) {
        1
    } else {
        text_order(a, b)
    }
}

/// Identifier by identifier; a list comes before those that it begins.
pub open spec fn idents_order(a: Seq<Seq<char>>, b: Seq<Seq<char>>) -> int
    decreases a.len(),
{
    if a.len() == 0 {
        if b.len() == 0 {
            0
        } else {
            -1
        }
    } else if b.len() == 0 {
        1
    } else if ident_order(a[0], b[0]) != 0 {
        ident_order(a[0], b[0])
    } else {
        idents_order(a.skip(1), b.skip(1))
    }
}

/// A prerelease comes before the release.
pub open spec fn prerelease_order(a: Seq<char>, b: Seq<char>) -> int {
    if a.len() == 0 && b.len() == 0 {
        0
    } else if a.len() == 0 {
        1
    } else if b.len() == 0 {
        -1
    } else {
        idents_order(split(a.skip(1), '.'), split(b.skip(1), '.'))
    }
}

/// By major, minor and patch number, then by prerelease. The build is left aside.
pub open spec fn parts_order(a: Parts, b: Parts) -> int {
    if number_order(a.major, b.major) != 0 {
        number_order(a.major, b.major)
    } else if number_order(a.minor, b.minor) != 0 {
        number_order(a.minor, b.minor)
    } else if number_order(a.patch, b.patch) != 0 {
        number_order(a.patch, b.patch)
    } else {
        prerelease_order(a.prerelease, b.prerelease)
    }
}

/// -1, 0 or 1 as version `a` comes before, with or after version `b`. What is no
/// version comes before all versions.
pub open spec fn version_order(a: Seq<char>, b: Seq<char>) -> int {
    match (version_parts(a), version_parts(b)) {
        (Some(p), Some(q)) => parts_order(p, q),
        (Some(_), None) => 1,
        (None, Some(_)) => -1,
        (None, None) => 0,
    }
}

fn text_sign(a: &str, b: &str) -> (r: i8)
    ensures
        r == text_order(a@, b@),
{
    if less(a, b) {
        -1
    } else if less(b, a) {
        1
    } else {
        0
    }
}

fn number_sign(a: &str, b: &str) -> (r: i8)
    ensures
        r == number_order(a@, b@),
{
    let x = a.unicode_len();
    let y = b.unicode_len();
    if x < y {
        -1
    } else if x > y {
        1
    } else {
        text_sign(a, b)
    }
}

fn ident_sign(a: &str, b: &str) -> (r: i8)
    ensures
        r == ident_order(a@, b@),
{
    let x = is_num(a);
    let y = is_num(b);
    if x && y {
        number_sign(a, b)
    } else if x {
        -1
    } else if y {
        1
    } else {
        text_sign(a, b)
    }
}

fn idents_sign(a: &Vec<String>, b: &Vec<String>) -> (r: i8)
    ensures
        r == idents_order(texts(a@), texts(b@)),
{
    let mut i: usize = 0;
    let ghost x = texts(a@);
    let ghost y = texts(b@);
    assert(x.skip(0) =~= x);
    assert(y.skip(0) =~= y);
    while i < a.len() && i < b.len()
        invariant
            i <= a@.len(),
            i <= b@.len(),
            x == texts(a@),
            y == texts(b@),
            idents_order(x, y) == idents_order(x.skip(i as int), y.skip(i as int)),
        decreases a.len() - i,
    {
        let o = ident_sign(a[i].as_str(), b[i].as_str());
        proof {
            assert(x.skip(i as int)[0] == a@[i as int]@);
            assert(y.skip(i as int)[0] == b@[i as int]@);
            assert(x.skip(i as int).skip(1) =~= x.skip(i + 1));
            assert(y.skip(i as int).skip(1) =~= y.skip(i + 1));
        }
        if o != 0 {
            return o;
        }
        i += 1;
    }
    if i < b.len() {
        -1
    } else if i < a.len() {
        1
    } else {
        0
    }
}

fn prerelease_sign(a: &str, b: &str) -> (r: i8)
    ensures
        r == prerelease_order(a@, b@),
{
    let x = chars_of(a);
    let y = chars_of(b);
    if x.len() == 0 && y.len() == 0 {
        0
    } else if x.len() == 0 {
        1
    } else if y.len() == 0 {
        -1
    } else {
        assert(a@.subrange(1, a@.len() as int) =~= a@.skip(1));
        assert(b@.subrange(1, b@.len() as int) =~= b@.skip(1));
        let xs = split_char(slice_string(&x, 1, x.len()).as_str(), '.');
        let ys = split_char(slice_string(&y, 1, y.len()).as_str(), '.');
        idents_sign(&xs, &ys)
    }
}

/// -1, 0 or 1 as version `a` comes before, with or after version `b`.
pub(crate) fn version_sign(a: &str, b: &str) -> (r: i8)
    ensures
        r == version_order(a@, b@),
{
    match (go_semver_parse(a), go_semver_parse(b)) {
        (Some(p), Some(q)) => {
            let major = number_sign(p.major.as_str(), q.major.as_str());
            if major != 0 {
                return major;
            }
            let minor = number_sign(p.minor.as_str(), q.minor.as_str());
            if minor != 0 {
                return minor;
            }
            let patch = number_sign(p.patch.as_str(), q.patch.as_str());
            if patch != 0 {
                return patch;
            }
            prerelease_sign(p.prerelease.as_str(), q.prerelease.as_str())
        },
        (Some(_), None) => 1,
        (None, Some(_)) => -1,
        (None, None) => 0,
    }
}

/// Compares two versions. Invalid versions sort before valid ones and compare
/// equal to each other.
pub fn go_semver_compare(a: &str, b: &str) -> (r: Ordering)
    ensures
        match r {
            Ordering::Less => version_order(a@, b@) == -1,
            Ordering::Equal => version_order(a@, b@) == 0,
            Ordering::Greater => version_order(a@, b@) == 1,
        },
{
    let o = version_sign(a, b);
    proof {
        version_order_is_antisymmetric(a@, b@);
    }
    if o < 0 {
        Ordering::Less
    } else if o == 0 {
        Ordering::Equal
    } else {
        Ordering::Greater
    }
}

// ---------------------------------------------------------------------------
// Laws

proof fn lemma_text_order(a: Seq<char>, b: Seq<char>)
    ensures
        text_order(a, b) == -text_order(b, a),
        -1 <= text_order(a, b) <= 1,
        text_order(a, b) == 0 <==> a == b,
{
    lemma_text_lt_asymmetric(a, b);
    lemma_text_lt_total(a, b);
    lemma_text_lt_irreflexive(a);
}

proof fn lemma_text_order_transitive(a: Seq<char>, b: Seq<char>, c: Seq<char>)
    requires
        text_order(a, b) <= 0,
        text_order(b, c) <= 0,
    ensures
        text_order(a, c) <= 0,
        text_order(a, c) == 0 ==> text_order(a, b) == 0 && text_order(b, c) == 0,
{
    lemma_text_order(a, b);
    lemma_text_order(b, c);
    lemma_text_order(a, c);
    if text_order(a, b) < 0 && text_order(b, c) < 0 {
        lemma_text_lt_transitive(a, b, c);
        lemma_text_lt_asymmetric(a, c);
    }
}

proof fn lemma_number_order(a: Seq<char>, b: Seq<char>)
    ensures
        number_order(a, b) == -number_order(b, a),
        -1 <= number_order(a, b) <= 1,
        number_order(a, b) == 0 <==> a == b,
{
    lemma_text_order(a, b);
}

proof fn lemma_number_order_transitive(a: Seq<char>, b: Seq<char>, c: Seq<char>)
    requires
        number_order(a, b) <= 0,
        number_order(b, c) <= 0,
    ensures
        number_order(a, c) <= 0,
        number_order(a, c) == 0 ==> number_order(a, b) == 0 && number_order(b, c) == 0,
{
    if a.len() == b.len() && b.len() == c.len() {
        lemma_text_order_transitive(a, b, c);
    }
}

proof fn lemma_ident_order(a: Seq<char>, b: Seq<char>)
    ensures
        ident_order(a, b) == -ident_order(b, a),
        -1 <= ident_order(a, b) <= 1,
        ident_order(a, b) == 0 <==> a == b,
{
    lemma_text_order(a, b);
    lemma_number_order(a, b);
}

proof fn lemma_ident_order_transitive(a: Seq<char>, b: Seq<char>, c: Seq<char>)
    requires
        ident_order(a, b) <= 0,
        ident_order(b, c) <= 0,
    ensures
        ident_order(a, c) <= 0,
        ident_order(a, c) == 0 ==> ident_order(a, b) == 0 && ident_order(b, c) == 0,
{
    if all_digits(a) && all_digits(b) && all_digits(c) {
        lemma_number_order_transitive(a, b, c);
    } else if !all_digits(a) && !all_digits(b) && !all_digits(c) {
        lemma_text_order_transitive(a, b, c);
    }
}

proof fn lemma_idents_order(a: Seq<Seq<char>>, b: Seq<Seq<char>>)
    ensures
        idents_order(a, b) == -idents_order(b, a),
        -1 <= idents_order(a, b) <= 1,
    decreases a.len(),
{
    if a.len() > 0 && b.len() > 0 {
        lemma_ident_order(a[0], b[0]);
        lemma_idents_order(a.skip(1), b.skip(1));
    }
}

proof fn lemma_idents_order_reflexive(a: Seq<Seq<char>>)
    ensures
        idents_order(a, a) == 0,
    decreases a.len(),
{
    if a.len() > 0 {
        lemma_ident_order(a[0], a[0]);
        lemma_idents_order_reflexive(a.skip(1));
    }
}

proof fn lemma_idents_order_transitive(a: Seq<Seq<char>>, b: Seq<Seq<char>>, c: Seq<Seq<char>>)
    requires
        idents_order(a, b) <= 0,
        idents_order(b, c) <= 0,
    ensures
        idents_order(a, c) <= 0,
        idents_order(a, c) == 0 ==> idents_order(a, b) == 0 && idents_order(b, c) == 0,
    decreases a.len(),
{
    if a.len() > 0 && b.len() > 0 && c.len() > 0 {
        lemma_ident_order(a[0], b[0]);
        lemma_ident_order(b[0], c[0]);
        lemma_ident_order(a[0], c[0]);
        lemma_ident_order_transitive(a[0], b[0], c[0]);
        if ident_order(a[0], b[0]) == 0 && ident_order(b[0], c[0]) == 0 {
            lemma_idents_order_transitive(a.skip(1), b.skip(1), c.skip(1));
        }
    }
}

proof fn lemma_prerelease_order(a: Seq<char>, b: Seq<char>)
    ensures
        prerelease_order(a, b) == -prerelease_order(b, a),
        -1 <= prerelease_order(a, b) <= 1,
        prerelease_order(a, a) == 0,
{
    lemma_idents_order(split(a.skip(1), '.'), split(b.skip(1), '.'));
    lemma_idents_order_reflexive(split(a.skip(1), '.'));
}

proof fn lemma_prerelease_order_transitive(a: Seq<char>, b: Seq<char>, c: Seq<char>)
    requires
        prerelease_order(a, b) <= 0,
        prerelease_order(b, c) <= 0,
    ensures
        prerelease_order(a, c) <= 0,
{
    if a.len() > 0 && b.len() > 0 && c.len() > 0 {
        lemma_idents_order_transitive(
            split(a.skip(1), '.'),
            split(b.skip(1), '.'),
            split(c.skip(1), '.'),
        );
    }
}

proof fn lemma_parts_order(p: Parts, q: Parts)
    ensures
        parts_order(p, q) == -parts_order(q, p),
        -1 <= parts_order(p, q) <= 1,
        parts_order(p, p) == 0,
{
    lemma_number_order(p.major, q.major);
    lemma_number_order(p.minor, q.minor);
    lemma_number_order(p.patch, q.patch);
    lemma_number_order(p.major, p.major);
    lemma_number_order(p.minor, p.minor);
    lemma_number_order(p.patch, p.patch);
    lemma_prerelease_order(p.prerelease, q.prerelease);
}

/// A version comes neither before nor after itself.
pub proof fn version_order_is_reflexive(a: Seq<char>)
    ensures
        version_order(a, a) == 0,
{
    if let Some(p) = version_parts(a) {
        lemma_parts_order(p, p);
    }
}

/// Swapping two versions turns their order round.
pub proof fn version_order_is_antisymmetric(a: Seq<char>, b: Seq<char>)
    ensures
        version_order(a, b) == -version_order(b, a),
        -1 <= version_order(a, b) <= 1,
{
    if let (Some(p), Some(q)) = (version_parts(a), version_parts(b)) {
        lemma_parts_order(p, q);
    }
}

/// The order of versions is transitive.
pub proof fn version_order_is_transitive(a: Seq<char>, b: Seq<char>, c: Seq<char>)
    requires
        version_order(a, b) <= 0,
        version_order(b, c) <= 0,
    ensures
        version_order(a, c) <= 0,
{
    if let (Some(p), Some(q), Some(r)) = (version_parts(a), version_parts(b), version_parts(c)) {
        lemma_number_order(p.major, q.major);
        lemma_number_order(q.major, r.major);
        lemma_number_order(p.major, r.major);
        lemma_number_order_transitive(p.major, q.major, r.major);
        if p.major == q.major && q.major == r.major {
            lemma_number_order(p.minor, q.minor);
            lemma_number_order(q.minor, r.minor);
            lemma_number_order(p.minor, r.minor);
            lemma_number_order_transitive(p.minor, q.minor, r.minor);
            if p.minor == q.minor && q.minor == r.minor {
                lemma_number_order(p.patch, q.patch);
                lemma_number_order(q.patch, r.patch);
                lemma_number_order(p.patch, r.patch);
                lemma_number_order_transitive(p.patch, q.patch, r.patch);
                if p.patch == q.patch && q.patch == r.patch {
                    lemma_prerelease_order_transitive(p.prerelease, q.prerelease, r.prerelease);
                }
            }
        }
    }
}

/// What is no version comes before every version.
pub proof fn invalid_sorts_first(a: Seq<char>, b: Seq<char>)
    requires
        !is_version(a),
        is_version(b),
    ensures
        version_order(a, b) < 0,
{
}

/// A release comes after each of its prereleases.
pub proof fn release_sorts_after_prerelease(p: Parts, q: Parts)
    requires
        p.major == q.major,
        p.minor == q.minor,
        p.patch == q.patch,
        p.prerelease.len() > 0,
        q.prerelease.len() == 0,
    ensures
        parts_order(p, q) < 0,
{
    lemma_number_order(p.major, q.major);
    lemma_number_order(p.minor, q.minor);
    lemma_number_order(p.patch, q.patch);
}

proof fn lemma_digits_value_bounds(s: Seq<char>)
    requires
        all_digits(s),
        s.len() > 0,
    ensures
        digits_value(s) < pow10(s.len()),
        s[0] != '0' ==> digits_value(s) >= pow10((s.len() - 1) as nat),
    decreases s.len(),
{
    let t = s.drop_last();
    assert(is_digit(s[s.len() - 1]));
    assert forall|i: int| 0 <= i < t.len() implies is_digit(#[trigger] t[i]) by {
        assert(t[i] == s[i]);
    }
    if t.len() == 0 {
        assert(digits_value(t) == 0);
        assert(pow10(1) == 10 * pow10(0));
        assert(pow10(0) == 1);
    } else {
        lemma_digits_value_bounds(t);
        assert(pow10(s.len()) == 10 * pow10(t.len()));
        assert(pow10(t.len()) == 10 * pow10((t.len() - 1) as nat));
    }
}

/// Ten to the power of `n`.
pub open spec fn pow10(n: nat) -> nat
    decreases n,
{
    if n == 0 {
        1
    } else {
        10 * pow10((n - 1) as nat)
    }
}

proof fn lemma_pow10_grows(m: nat, n: nat)
    requires
        m <= n,
    ensures
        pow10(m) <= pow10(n),
    decreases n,
{
    if m < n {
        lemma_pow10_grows(m, (n - 1) as nat);
    }
}

proof fn lemma_same_length_by_value(a: Seq<char>, b: Seq<char>)
    requires
        all_digits(a),
        all_digits(b),
        a.len() == b.len(),
        text_lt(a, b),
    ensures
        digits_value(a) < digits_value(b),
    decreases a.len(),
{
    let n = a.len() as int;
    let x = a.drop_last();
    let y = b.drop_last();
    assert forall|i: int| 0 <= i < x.len() implies is_digit(#[trigger] x[i]) by {
        assert(x[i] == a[i]);
    }
    assert forall|i: int| 0 <= i < y.len() implies is_digit(#[trigger] y[i]) by {
        assert(y[i] == b[i]);
    }
    assert(is_digit(a[n - 1]) && is_digit(b[n - 1]));
    lemma_lt_of_init(a, b);
    if text_lt(x, y) {
        lemma_same_length_by_value(x, y);
    }
}

/// Texts of one length are ordered by all but their last character first.
proof fn lemma_lt_of_init(a: Seq<char>, b: Seq<char>)
    requires
        a.len() == b.len(),
        text_lt(a, b),
    ensures
        a.len() > 0,
        text_lt(a.drop_last(), b.drop_last()) || (a.drop_last() == b.drop_last() && a.last()
            < b.last()),
    decreases a.len(),
{
    let x = a.drop_last();
    let y = b.drop_last();
    if a.len() == 1 {
        assert(x =~= y);
        assert(!text_lt(a.skip(1), b.skip(1)));
    } else if a[0] != b[0] {
        assert(x[0] == a[0] && y[0] == b[0]);
    } else {
        lemma_lt_of_init(a.skip(1), b.skip(1));
        assert(a.skip(1).drop_last() =~= x.skip(1));
        assert(b.skip(1).drop_last() =~= y.skip(1));
        assert(a.skip(1).last() == a.last());
        assert(b.skip(1).last() == b.last());
        if x.skip(1) == y.skip(1) {
            assert(x =~= seq![x[0]] + x.skip(1));
            assert(y =~= seq![y[0]] + y.skip(1));
        }
    }
}

/// `s` is a decimal number without leading zero.
pub open spec fn is_number(s: Seq<char>) -> bool {
    all_digits(s) && s.len() > 0 && (s[0] == '0' ==> s.len() == 1)
}

/// Numbers without leading zeros are ordered by their value, however long they
/// are.
pub proof fn number_order_is_by_value(a: Seq<char>, b: Seq<char>)
    requires
        is_number(a),
        is_number(b),
    ensures
        number_order(a, b) < 0 <==> digits_value(a) < digits_value(b),
        number_order(a, b) == 0 <==> digits_value(a) == digits_value(b),
        number_order(a, b) > 0 <==> digits_value(a) > digits_value(b),
{
    lemma_number_order(a, b);
    if a.len() == b.len() {
        lemma_text_order(a, b);
        if text_lt(a, b) {
            lemma_same_length_by_value(a, b);
        }
        if text_lt(b, a) {
            lemma_same_length_by_value(b, a);
        }
    } else {
        lemma_digits_value_bounds(a);
        lemma_digits_value_bounds(b);
        if a.len() < b.len() {
            lemma_pow10_grows(a.len(), (b.len() - 1) as nat);
        } else {
            lemma_pow10_grows(b.len(), (a.len() - 1) as nat);
        }
    }
}

proof fn lemma_leading_number(n: Seq<char>, t: Seq<char>)
    requires
        is_number(n),
        t.len() > 0 ==> !is_digit(t[0]),
    ensures
        leading_number(n + t) == Some((n, t)),
{
    let s = n + t;
    assert forall|i: int| 0 <= i < n.len() implies is_digit(#[trigger] s[i]) by {
        assert(s[i] == n[i]);
    }
    lemma_digit_run_is(s, n.len() as int);
    assert(s.take(n.len() as int) =~= n);
    assert(s.skip(n.len() as int) =~= t);
}

proof fn lemma_number_parts(s: Seq<char>)
    requires
        leading_number(s) is Some,
    ensures
        ({
            let (n, t) = leading_number(s)->0;
            is_number(n) && s == n + t && (t.len() > 0 ==> !is_digit(t[0]))
        }),
{
    lemma_digit_run(s);
    let (n, t) = leading_number(s)->0;
    assert(s =~= n + t);
    assert forall|i: int| 0 <= i < n.len() implies is_digit(#[trigger] n[i]) by {
        assert(n[i] == s[i]);
    }
}

/// `v` with all three numbers, and what follows them.
pub open spec fn full_version(
    major: Seq<char>,
    minor: Seq<char>,
    patch: Seq<char>,
    tail: Seq<char>,
) -> Seq<char> {
    seq!['v'] + (major + (seq!['.'] + (minor + (seq!['.'] + (patch + tail)))))
}

proof fn lemma_full_version(
    major: Seq<char>,
    minor: Seq<char>,
    patch: Seq<char>,
    tail: Seq<char>,
)
    requires
        is_number(major),
        is_number(minor),
        is_number(patch),
        tail.len() > 0 ==> !is_digit(tail[0]),
    ensures
        version_parts(full_version(major, minor, patch, tail)) == (match tail_parts(tail) {
            Some((prerelease, build)) => Some(
                Parts { major, minor, patch, short: Seq::empty(), prerelease, build },
            ),
            None => None,
        }),
{
    let r3 = patch + tail;
    let r2 = minor + (seq!['.'] + r3);
    let r1 = major + (seq!['.'] + r2);
    let v = seq!['v'] + r1;
    assert(v.skip(1) =~= r1);
    lemma_leading_number(major, seq!['.'] + r2);
    assert((seq!['.'] + r2).skip(1) =~= r2);
    lemma_leading_number(minor, seq!['.'] + r3);
    assert((seq!['.'] + r3).skip(1) =~= r3);
    lemma_leading_number(patch, tail);
}

proof fn lemma_zero()
    ensures
        "0"@ == seq!['0'],
        ".0"@ == seq!['.', '0'],
        ".0.0"@ == seq!['.', '0', '.', '0'],
        is_number("0"@),
{
    reveal_strlit("0");
    reveal_strlit(".0");
    reveal_strlit(".0.0");
    assert("0"@ =~= seq!['0']);
    assert(".0"@ =~= seq!['.', '0']);
    assert(".0.0"@ =~= seq!['.', '0', '.', '0']);
}

proof fn lemma_empty_tail()
    ensures
        tail_parts(Seq::<char>::empty()) == Some((Seq::<char>::empty(), Seq::<char>::empty())),
{
}

proof fn lemma_tail_without_build(s: Seq<char>)
    requires
        tail_parts(s) is Some,
    ensures
        ({
            let (pre, build) = tail_parts(s)->0;
            s == pre + build && tail_parts(pre) == Some((pre, Seq::<char>::empty()))
        }),
{
    let (pre, build) = tail_parts(s)->0;
    lemma_plus_at(s);
    assert(s =~= pre + build);
    if pre.len() > 0 {
        let n = plus_at(s);
        assert(pre =~= s.take(n));
        assert forall|i: int| 0 <= i < n implies #[trigger] pre[i] != '+' by {
            assert(pre[i] == s[i]);
        }
        lemma_plus_at_is(pre, n);
        assert(pre.subrange(1, n) =~= s.subrange(1, n));
        assert(pre.take(n) =~= pre);
        assert(pre.skip(n) =~= Seq::<char>::empty());
    }
}

/// The canonical form of a version is a version with the same order and no build,
/// and is its own canonical form.
pub proof fn canonical_is_canonical(v: Seq<char>)
    requires
        is_version(v),
    ensures
        is_version(canonical(v)),
        version_order(v, canonical(v)) == 0,
        canonical(canonical(v)) == canonical(v),
        (version_parts(canonical(v))->0).build.len() == 0,
        (version_parts(canonical(v))->0).short.len() == 0,
{
    let p = version_parts(v)->0;
    let c = canonical(v);
    let none = Seq::<char>::empty();
    lemma_zero();
    lemma_empty_tail();
    let r0 = v.skip(1);
    assert(v =~= seq!['v'] + r0);
    lemma_number_parts(r0);
    let (major, r1) = leading_number(r0)->0;
    if r1.len() == 0 {
        assert(c =~= full_version(major, "0"@, "0"@, none));
        lemma_full_version(major, "0"@, "0"@, none);
    } else {
        let r2 = r1.skip(1);
        assert(r1 =~= seq!['.'] + r2);
        lemma_number_parts(r2);
        let (minor, r3) = leading_number(r2)->0;
        if r3.len() == 0 {
            assert(c =~= full_version(major, minor, "0"@, none));
            lemma_full_version(major, minor, "0"@, none);
        } else {
            let r4 = r3.skip(1);
            assert(r3 =~= seq!['.'] + r4);
            lemma_number_parts(r4);
            let (patch, tail) = leading_number(r4)->0;
            let (pre, build) = tail_parts(tail)->0;
            lemma_tail_without_build(tail);
            assert(v =~= full_version(major, minor, patch, tail));
            if build.len() > 0 {
                assert(c =~= full_version(major, minor, patch, pre));
            } else {
                assert(pre =~= tail);
                assert(c =~= full_version(major, minor, patch, pre));
            }
            if pre.len() > 0 {
                assert(pre[0] == tail[0]);
            }
            lemma_full_version(major, minor, patch, pre);
        }
    }
    lemma_parts_order(p, version_parts(c)->0);
    lemma_number_order(p.major, p.major);
    lemma_number_order(p.minor, p.minor);
    lemma_number_order(p.patch, p.patch);
    lemma_prerelease_order(p.prerelease, p.prerelease);
    assert(c + none =~= c);
}

proof fn lemma_digits_are_a_number(n: nat)
    ensures
        is_number(digits(n)),
        digits_value(digits(n)) == n,
        n > 0 ==> digits(n)[0] != '0',
    decreases n,
{
    lemma_digits_round_trip(n);
    if n >= 10 {
        lemma_digits_are_a_number(n / 10);
        assert(digits(n)[0] == digits(n / 10)[0]);
    }
}

/// `v` with the numbers `a`, `b` and `c`, and what follows them.
pub open spec fn numbered(a: nat, b: nat, c: nat, tail: Seq<char>) -> Seq<char> {
    seq!['v'] + digits(a) + seq!['.'] + digits(b) + seq!['.'] + digits(c) + tail
}

proof fn lemma_numbered(a: nat, b: nat, c: nat, tail: Seq<char>)
    requires
        tail.len() > 0 ==> !is_digit(tail[0]),
    ensures
        numbered(a, b, c, tail) == full_version(digits(a), digits(b), digits(c), tail),
        version_parts(numbered(a, b, c, tail)) == (match tail_parts(tail) {
            Some((prerelease, build)) => Some(
                Parts {
                    major: digits(a),
                    minor: digits(b),
                    patch: digits(c),
                    short: Seq::empty(),
                    prerelease,
                    build,
                },
            ),
            None => None,
        }),
{
    lemma_digits_are_a_number(a);
    lemma_digits_are_a_number(b);
    lemma_digits_are_a_number(c);
    assert(numbered(a, b, c, tail) =~= full_version(digits(a), digits(b), digits(c), tail));
    lemma_full_version(digits(a), digits(b), digits(c), tail);
}

/// A `v` and one to three numbers are a version, whose missing numbers are nought; without
/// the `v`, or with a leading zero, there is none.
pub proof fn numbers_make_a_version(a: nat, b: nat, c: nat)
    ensures
        is_version(seq!['v'] + digits(a)),
        is_version(seq!['v'] + digits(a) + seq!['.'] + digits(b)),
        is_version(numbered(a, b, c, Seq::empty())),
        canonical(seq!['v'] + digits(a)) == numbered(a, 0, 0, Seq::empty()),
        canonical(seq!['v'] + digits(a) + seq!['.'] + digits(b)) == numbered(a, b, 0, Seq::empty()),
        canonical(numbered(a, b, c, Seq::empty())) == numbered(a, b, c, Seq::empty()),
        major_of(numbered(a, b, c, Seq::empty())) == seq!['v'] + digits(a),
        !is_version(digits(a)),
        !is_version(Seq::empty()),
        !is_version(seq!['v', '0'] + digits(a)),
{
    let none = Seq::<char>::empty();
    lemma_zero();
    lemma_empty_tail();
    lemma_digits_are_a_number(a);
    lemma_digits_are_a_number(b);
    lemma_numbered(a, b, c, none);
    let one = seq!['v'] + digits(a);
    assert(one.skip(1) =~= digits(a) + none);
    lemma_leading_number(digits(a), none);
    let rest = seq!['.'] + digits(b);
    let two = seq!['v'] + digits(a) + seq!['.'] + digits(b);
    assert(two.skip(1) =~= digits(a) + rest);
    lemma_leading_number(digits(a), rest);
    assert(rest.skip(1) =~= digits(b) + none);
    lemma_leading_number(digits(b), none);
    assert(digits(0) =~= seq!['0']);
    assert(one + ".0.0"@ =~= numbered(a, 0, 0, none));
    assert(two + ".0"@ =~= numbered(a, b, 0, none));
    let three = numbered(a, b, c, none);
    assert(three + none =~= three);
    assert(is_digit(digits(a)[0]));
    let bad = seq!['v', '0'] + digits(a);
    let zeros = seq!['0'] + digits(a);
    assert(bad.skip(1) =~= zeros);
    lemma_digit_run(zeros);
    assert(is_digit(zeros[0]));
    assert(zeros[1] == digits(a)[0]);
    if digit_run(zeros) == 0 {
        assert(false);
    }
    if digit_run(zeros) == 1 {
        assert(!is_digit(zeros[1]));
    }
}

/// Versions are ordered by their first number, then by their second, then by their third,
/// each by its value.
pub proof fn versions_are_ordered_by_number(a: nat, b: nat, c: nat, x: nat, y: nat, z: nat)
    ensures
        ({
            let v = numbered(a, b, c, Seq::empty());
            let w = numbered(x, y, z, Seq::empty());
            &&& version_order(v, w) < 0 <==> a < x || (a == x && (b < y || (b == y && c < z)))
            &&& version_order(v, w) == 0 <==> a == x && b == y && c == z
        }),
{
    let none = Seq::<char>::empty();
    lemma_empty_tail();
    lemma_numbered(a, b, c, none);
    lemma_numbered(x, y, z, none);
    lemma_digits_are_a_number(a);
    lemma_digits_are_a_number(b);
    lemma_digits_are_a_number(c);
    lemma_digits_are_a_number(x);
    lemma_digits_are_a_number(y);
    lemma_digits_are_a_number(z);
    number_order_is_by_value(digits(a), digits(x));
    number_order_is_by_value(digits(b), digits(y));
    number_order_is_by_value(digits(c), digits(z));
}

/// `s` is made of letters, digits and dashes, and starts with a letter.
pub open spec fn is_word(s: Seq<char>) -> bool {
    &&& s.len() > 0
    &&& 'a' <= s[0] <= 'z' || 'A' <= s[0] <= 'Z'
    &&& forall|i: int|
        0 <= i < s.len() ==> '0' <= #[trigger] s[i] <= '9' || 'a' <= s[i] <= 'z' || 'A' <= s[i]
            <= 'Z' || s[i] == '-'
}

proof fn lemma_word(p: Seq<char>)
    requires
        is_word(p),
    ensures
        is_ident(p, true),
        is_ident(p, false),
        !all_digits(p),
        split(p, '.') == seq![p],
        !p.contains('+'),
        is_ident_list(p, true),
        is_ident_list(p, false),
{
    assert(!is_digit(p[0]));
    assert forall|i: int| 0 <= i < p.len() implies is_ident_char(#[trigger] p[i]) by {}
    assert forall|i: int| 0 <= i < p.len() implies p[i] != '.' && p[i] != '+' by {
        assert(is_ident_char(p[i]));
    }
    assert(!p.contains('.'));
    assert(!p.contains('+'));
    lemma_one_piece(p, '.');
}

proof fn lemma_number_ident(n: nat)
    ensures
        is_ident_list(digits(n), true),
        split(digits(n), '.') == seq![digits(n)],
        all_digits(digits(n)),
        !digits(n).contains('+'),
{
    let d = digits(n);
    lemma_digits_are_a_number(n);
    assert forall|i: int| 0 <= i < d.len() implies d[i] != '.' && d[i] != '+' && is_ident_char(
        #[trigger] d[i],
    ) by {
        assert(is_digit(d[i]));
    }
    assert(!d.contains('.'));
    assert(!d.contains('+'));
    lemma_one_piece(d, '.');
    assert(is_ident(d, true));
}

proof fn lemma_pre_tail(p: Seq<char>)
    requires
        is_ident_list(p, true),
        !p.contains('+'),
    ensures
        tail_parts(seq!['-'] + p) == Some((seq!['-'] + p, Seq::<char>::empty())),
{
    let t = seq!['-'] + p;
    assert forall|i: int| 0 <= i < t.len() implies #[trigger] t[i] != '+' by {
        if i > 0 {
            assert(p.contains(p[i - 1]));
        }
    }
    lemma_plus_at_is(t, t.len() as int);
    assert(t.subrange(1, t.len() as int) =~= p);
    assert(t.take(t.len() as int) =~= t);
    assert(t.skip(t.len() as int) =~= Seq::<char>::empty());
}

/// A prerelease comes before its release and after the release before it. Of two, words go
/// by their text and numbers by their value, numbers come before words, and a longer list
/// comes after what it begins with.
pub proof fn prereleases_come_before_releases(
    a: nat,
    b: nat,
    c: nat,
    p: Seq<char>,
    q: Seq<char>,
    m: nat,
    n: nat,
)
    requires
        is_word(p),
        is_word(q),
    ensures
        ({
            let release = numbered(a, b, c, Seq::empty());
            let first = numbered(a, b, c, seq!['-'] + p);
            let second = numbered(a, b, c, seq!['-'] + q);
            let count = numbered(a, b, c, seq!['-'] + digits(m));
            let other = numbered(a, b, c, seq!['-'] + digits(n));
            let longer = numbered(a, b, c, seq!['-'] + p + seq!['.'] + q);
            &&& is_version(first) && is_version(count) && is_version(longer)
            &&& version_order(first, release) < 0
            &&& version_order(count, release) < 0
            &&& version_order(numbered(a, b, c, Seq::empty()), numbered(a, b, c + 1, seq!['-'] + p))
                < 0
            &&& version_order(first, second) < 0 <==> text_lt(p, q)
            &&& version_order(count, other) < 0 <==> m < n
            &&& version_order(count, first) < 0
            &&& version_order(first, longer) < 0
        }),
{
    let none = Seq::<char>::empty();
    lemma_empty_tail();
    lemma_word(p);
    lemma_word(q);
    lemma_number_ident(m);
    lemma_number_ident(n);
    lemma_pre_tail(p);
    lemma_pre_tail(q);
    lemma_pre_tail(digits(m));
    lemma_pre_tail(digits(n));
    let list = p + seq!['.'] + q;
    assert(!q.contains('.')) by {
        assert forall|i: int| 0 <= i < q.len() implies q[i] != '.' by {
            assert('0' <= q[i] <= '9' || 'a' <= q[i] <= 'z' || 'A' <= q[i] <= 'Z' || q[i] == '-');
        }
    }
    lemma_split_behind(p, q, '.');
    assert(seq![p].push(q) =~= seq![p, q]);
    assert(!list.contains('+')) by {
        assert forall|i: int| 0 <= i < list.len() implies list[i] != '+' by {
            if i < p.len() {
                assert(p.contains(list[i]));
            } else if i > p.len() {
                assert(q.contains(list[i]));
            }
        }
    }
    assert(is_ident_list(list, true)) by {
        assert forall|i: int| 0 <= i < split(list, '.').len() implies is_ident(
            #[trigger] split(list, '.')[i],
            true,
        ) by {
            assert(split(list, '.')[i] == p || split(list, '.')[i] == q);
        }
    }
    lemma_pre_tail(list);
    assert(seq!['-'] + list =~= seq!['-'] + p + seq!['.'] + q);
    lemma_numbered(a, b, c, none);
    lemma_numbered(a, b, c, seq!['-'] + p);
    lemma_numbered(a, b, c, seq!['-'] + q);
    lemma_numbered(a, b, c, seq!['-'] + digits(m));
    lemma_numbered(a, b, c, seq!['-'] + digits(n));
    lemma_numbered(a, b, c, seq!['-'] + list);
    lemma_numbered(a, b, c + 1, seq!['-'] + p);
    lemma_number_order(digits(a), digits(a));
    lemma_number_order(digits(b), digits(b));
    lemma_number_order(digits(c), digits(c));
    lemma_digits_are_a_number(c);
    lemma_digits_are_a_number(c + 1);
    number_order_is_by_value(digits(c), digits(c + 1));
    lemma_digits_are_a_number(m);
    lemma_digits_are_a_number(n);
    number_order_is_by_value(digits(m), digits(n));
    lemma_text_order(p, q);
    assert((seq!['-'] + p).skip(1) =~= p);
    assert((seq!['-'] + q).skip(1) =~= q);
    assert((seq!['-'] + digits(m)).skip(1) =~= digits(m));
    assert((seq!['-'] + digits(n)).skip(1) =~= digits(n));
    assert((seq!['-'] + list).skip(1) =~= list);
    lemma_single(p, q);
    lemma_single(digits(m), digits(n));
    lemma_single(digits(m), p);
    lemma_ident_order(p, p);
    assert(seq![p].skip(1) =~= Seq::empty());
    assert(seq![p, q].skip(1) =~= seq![q]);
    assert(idents_order(seq![p], seq![p, q]) < 0) by {
        reveal_with_fuel(idents_order, 3);
    }
}

proof fn lemma_single(p: Seq<char>, q: Seq<char>)
    ensures
        idents_order(seq![p], seq![q]) == ident_order(p, q),
{
    reveal_with_fuel(idents_order, 3);
    assert(seq![p].skip(1) =~= Seq::empty());
    assert(seq![q].skip(1) =~= Seq::empty());
}

/// A build does not count: a version with one comes with the version without it, which is
/// its canonical form.
pub proof fn builds_do_not_count(a: nat, b: nat, c: nat, w: Seq<char>)
    requires
        is_word(w),
    ensures
        is_version(numbered(a, b, c, seq!['+'] + w)),
        version_order(numbered(a, b, c, seq!['+'] + w), numbered(a, b, c, Seq::empty())) == 0,
        canonical(numbered(a, b, c, seq!['+'] + w)) == numbered(a, b, c, Seq::empty()),
{
    let none = Seq::<char>::empty();
    let t = seq!['+'] + w;
    lemma_word(w);
    assert(t.skip(1) =~= w);
    lemma_empty_tail();
    lemma_numbered(a, b, c, none);
    lemma_numbered(a, b, c, t);
    lemma_number_order(digits(a), digits(a));
    lemma_number_order(digits(b), digits(b));
    lemma_number_order(digits(c), digits(c));
    let v = numbered(a, b, c, t);
    assert(v.take(v.len() - t.len()) =~= numbered(a, b, c, none));
}

/// An empty prerelease or build, one with another character and a prerelease number with a
/// leading zero make no version; and what is no version comes before all that are.
pub proof fn bad_identifiers_make_no_version(
    a: nat,
    b: nat,
    c: nat,
    n: nat,
    x: char,
    s: Seq<char>,
    t: Seq<char>,
)
    requires
        !('0' <= x <= '9' || 'a' <= x <= 'z' || 'A' <= x <= 'Z' || x == '-' || x == '.' || x == '+'),
        !is_version(s),
        !is_version(t),
    ensures
        !is_version(numbered(a, b, c, seq!['-'])),
        !is_version(numbered(a, b, c, seq!['+'])),
        !is_version(numbered(a, b, c, seq!['-', x])),
        !is_version(numbered(a, b, c, seq!['+', x])),
        !is_version(numbered(a, b, c, seq!['-'] + (seq!['0'] + digits(n)))),
        version_order(s, numbered(a, b, c, Seq::empty())) < 0,
        version_order(numbered(a, b, c, Seq::empty()), s) > 0,
        version_order(s, t) == 0,
{
    let none = Seq::<char>::empty();
    lemma_empty_tail();
    lemma_numbered(a, b, c, none);
    lemma_bad_tail(none);
    let other = seq![x];
    assert(!is_ident_char(other[0]));
    lemma_bad_tail(other);
    assert(seq!['-'] + none =~= seq!['-']);
    assert(seq!['+'] + none =~= seq!['+']);
    assert(seq!['-'] + seq![x] =~= seq!['-', x]);
    assert(seq!['+'] + seq![x] =~= seq!['+', x]);
    lemma_numbered(a, b, c, seq!['-']);
    lemma_numbered(a, b, c, seq!['+']);
    lemma_numbered(a, b, c, seq!['-', x]);
    lemma_numbered(a, b, c, seq!['+', x]);
    let zero = seq!['0'] + digits(n);
    lemma_digits_are_a_number(n);
    assert forall|i: int| 0 <= i < zero.len() implies is_digit(#[trigger] zero[i]) by {
        if i > 0 {
            assert(zero[i] == digits(n)[i - 1]);
        }
    }
    assert(is_bad_number(zero));
    assert(!zero.contains('.') && !zero.contains('+'));
    lemma_bad_pre_tail(zero);
    lemma_numbered(a, b, c, seq!['-'] + zero);
}

proof fn lemma_bad_pre_tail(p: Seq<char>)
    requires
        !p.contains('.'),
        !p.contains('+'),
        !is_ident(p, true),
    ensures
        tail_parts(seq!['-'] + p) is None,
{
    let t = seq!['-'] + p;
    assert forall|i: int| 0 <= i < t.len() implies #[trigger] t[i] != '+' by {
        if i > 0 {
            assert(p.contains(p[i - 1]));
        }
    }
    lemma_plus_at_is(t, t.len() as int);
    assert(t.subrange(1, t.len() as int) =~= p);
    lemma_one_piece(p, '.');
    assert(split(p, '.')[0] == p);
}

proof fn lemma_bad_tail(p: Seq<char>)
    requires
        !p.contains('.'),
        !p.contains('+'),
        !is_ident(p, false),
    ensures
        tail_parts(seq!['-'] + p) is None,
        tail_parts(seq!['+'] + p) is None,
{
    lemma_bad_pre_tail(p);
    let t = seq!['+'] + p;
    assert(t.skip(1) =~= p);
    lemma_one_piece(p, '.');
    assert(split(p, '.')[0] == p);
}

} // verus!
