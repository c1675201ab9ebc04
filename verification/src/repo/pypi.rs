//! Names of Python packages.

use vstd::prelude::*;

use crate::bridge::{lowercase, to_lowercase};
use crate::cut::{cut_last, cut_once, rsplit_char, split_once};
use crate::text::{before_suffix, chars_of, ends, ends_with, strip_suffix};

verus! {

/// A separator inside a package name.
pub open spec fn is_separator(c: char) -> bool {
    c == '-' || c == '_' || c == '.'
}

/// `s` with one hyphen in place of each run of separators.
pub open spec fn folded(s: Seq<char>) -> Seq<char>
    decreases s.len(),
{
    if s.len() == 0 {
        Seq::empty()
    } else {
        let p = folded(s.drop_last());
        if !is_separator(s.last()) {
            p.push(s.last())
        } else if s.len() > 1 && is_separator(s[s.len() - 2]) {
            p
        } else {
            p.push('-')
        }
    }
}

/// The canonical form of a package name: small letters, and one hyphen in place of
/// each run of separators.
pub fn pypi_normalize(name: &str) -> (r: String)
    ensures
        r@ == folded(lowercase(name@)),
{
    let low = to_lowercase(name);
    let v = chars_of(low.as_str());
    let mut out = String::new();
    let mut i: usize = 0;
    assert(v@.take(0) =~= Seq::empty());
    while i < v.len()
        invariant
            i <= v@.len(),
            v@ == low@,
            out@ == folded(v@.take(i as int)),
        decreases v@.len() - i,
    {
        let c = v[i];
        proof {
            assert(v@.take(i + 1).drop_last() =~= v@.take(i as int));
            assert(v@.take(i + 1).last() == c);
            if i > 0 {
                assert(v@.take(i + 1)[i - 1] == v@[i - 1]);
            }
        }
        if !(c == '-' || c == '_' || c == '.') {
            out.push(c);
        } else if !(i > 0 && (v[i - 1] == '-' || v[i - 1] == '_' || v[i - 1] == '.')) {
            out.push('-');
        }
        i += 1;
    }
    assert(v@.take(v@.len() as int) =~= v@);
    out
}

/// The part of a distribution's file name that names the package, as it is spelled
/// there: before the first hyphen of a wheel, before the last hyphen of anything
/// else.
pub open spec fn distribution_name(file: Seq<char>) -> Option<Seq<char>> {
    let f = match before_suffix(file, ".metadata"@) {
        Some(f) => f,
        None => file,
    };
    let cut = if ends(f, ".whl"@) {
        cut_once(f, "-"@)
    } else {
        cut_last(f, '-')
    };
    match cut {
        Some((name, _)) => Some(name),
        None => None,
    }
}

/// The package that a distribution's file name names; empty where it names none.
pub fn pypi_package_from_filename(file: &str) -> (r: String)
    ensures
        r@ == match distribution_name(file@) {
            Some(name) => folded(lowercase(name)),
            None => ""@,
        },
{
    let f = match strip_suffix(file, ".metadata") {
        Some(f) => f,
        None => file.to_owned(),
    };
    let cut = if ends_with(f.as_str(), ".whl") {
        split_once(f.as_str(), "-")
    } else {
        rsplit_char(f.as_str(), '-')
    };
    match cut {
        Some((name, _rest)) => pypi_normalize(name.as_str()),
        None => "".to_owned(),
    }
}

} // verus!
